use crate::amount::Amount;
use crate::err::TxErr;
use crate::id::{ClientId, TxId};
use vstd::prelude::*;

verus! {

/// What a withdrawal is.
pub struct WithdrawView {
    pub id: u32,
    pub client: u16,
    pub amount: int,
}

/// A debit from a client's account. Once accepted it never changes.
#[derive(Debug, Clone, Copy)]
pub struct Withdraw {
    id: TxId,
    client: ClientId,
    amount: Amount,
}

impl View for Withdraw {
    type V = WithdrawView;

    closed spec fn view(&self) -> WithdrawView {
        WithdrawView { id: self.id.0, client: self.client.0, amount: self.amount@ }
    }
}

impl Withdraw {
    /// A withdrawal; a negative amount is refused.
    pub fn new(id: TxId, client: ClientId, amount: Amount) -> (r: Result<Self, TxErr>)
        ensures
            amount@ < 0 ==> r == Err::<Self, TxErr>(TxErr::NegativeAmount),
            amount@ >= 0 ==> (r matches Ok(w) && w@ == (WithdrawView { id: id.0, client: client.0, amount: amount@ })),
    {
        if amount.is_negative() {
            Err(TxErr::NegativeAmount)
        } else {
            Ok(Withdraw { id, client, amount })
        }
    }

    /// The withdrawal's transaction identifier.
    pub fn id(&self) -> (r: TxId)
        ensures
            r.0 == self@.id,
    {
        self.id
    }

    /// The client whose account the withdrawal debits.
    pub fn client(&self) -> (r: ClientId)
        ensures
            r.0 == self@.client,
    {
        self.client
    }

    /// The withdrawn amount.
    pub fn amount(&self) -> (r: Amount)
        ensures
            r@ == self@.amount,
    {
        self.amount
    }
}

} // verus!
