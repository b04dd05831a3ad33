use crate::id::{ClientId, TxId};
use vstd::prelude::*;

verus! {

/// A claim that an earlier deposit was erroneous; it holds the deposit's funds.
/// It refers to the deposit by its identifier and carries no amount.
#[derive(Debug, PartialEq, Eq, Structural, Clone, Copy)]
pub struct Dispute {
    id: TxId,
    client: ClientId,
}

impl View for Dispute {
    /// The referenced transaction identifier and the client.
    type V = (u32, u16);

    closed spec fn view(&self) -> (u32, u16) {
        (self.id.0, self.client.0)
    }
}

impl Dispute {
    pub fn new(id: TxId, client: ClientId) -> (r: Dispute)
        ensures
            r@ == (id.0, client.0),
    {
        Dispute { id, client }
    }

    /// The identifier of the deposit it refers to.
    pub fn id(&self) -> (r: TxId)
        ensures
            r.0 == self@.0,
    {
        self.id
    }

    /// The client whose deposit it refers to.
    pub fn client(&self) -> (r: ClientId)
        ensures
            r.0 == self@.1,
    {
        self.client
    }
}

} // verus!
