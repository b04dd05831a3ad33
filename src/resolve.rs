use crate::id::{ClientId, TxId};
use vstd::prelude::*;

verus! {

/// The end of a dispute in the client's favour; it releases the held funds.
/// It refers to the deposit by its identifier and carries no amount.
#[derive(Debug, PartialEq, Eq, Structural, Clone, Copy)]
pub struct Resolve {
    id: TxId,
    client: ClientId,
}

impl View for Resolve {
    /// The referenced transaction identifier and the client.
    type V = (u32, u16);

    closed spec fn view(&self) -> (u32, u16) {
        (self.id.0, self.client.0)
    }
}

impl Resolve {
    pub fn new(id: TxId, client: ClientId) -> (r: Resolve)
        ensures
            r@ == (id.0, client.0),
    {
        Resolve { id, client }
    }

    /// The identifier of the deposit it refers to.
    pub fn id(&self) -> (r: TxId)
        ensures
            r.0 == self@.0,
    {
        self.id
    }

    /// The client whose deposit it refers to.
    pub fn client(&self) -> (r: ClientId)
        ensures
            r.0 == self@.1,
    {
        self.client
    }
}

} // verus!
