use crate::id::{ClientId, TxId};
use vstd::prelude::*;

verus! {

/// The end of a dispute against the client; it removes the held funds and locks the account.
/// It refers to the deposit by its identifier and carries no amount.
#[derive(Debug, PartialEq, Eq, Structural, Clone, Copy)]
pub struct Chargeback {
    id: TxId,
    client: ClientId,
}

impl View for Chargeback {
    /// The referenced transaction identifier and the client.
    type V = (u32, u16);

    closed spec fn view(&self) -> (u32, u16) {
        (self.id.0, self.client.0)
    }
}

impl Chargeback {
    pub fn new(id: TxId, client: ClientId) -> (r: Chargeback)
        ensures
            r@ == (id.0, client.0),
    {
        Chargeback { id, client }
    }

    /// The identifier of the deposit it refers to.
    pub fn id(&self) -> (r: TxId)
        ensures
            r.0 == self@.0,
    {
        self.id
    }

    /// The client whose deposit it refers to.
    pub fn client(&self) -> (r: ClientId)
        ensures
            r.0 == self@.1,
    {
        self.client
    }
}

} // verus!
