use crate::amount::Amount;
use crate::err::TxErr;
use crate::id::{ClientId, TxId};
use vstd::prelude::*;

verus! {

/// Lifecycle tag: the deposit is under dispute and its funds are held.
#[derive(Debug, PartialEq, Eq, Structural, Clone, Copy)]
pub struct DepositHeld;

/// Lifecycle tag: the deposit is in normal standing and its funds are available.
#[derive(Debug, PartialEq, Eq, Structural, Clone, Copy)]
pub struct DepositReleased;

/// Lifecycle tag: the deposit was charged back; no operation remains.
#[derive(Debug, PartialEq, Eq, Structural, Clone, Copy)]
pub struct DepositReversed;

/// The lifecycle stages a deposit can be in.
pub trait DepositState {}

impl DepositState for DepositHeld {}

impl DepositState for DepositReleased {}

impl DepositState for DepositReversed {}

/// What a deposit is, whatever its lifecycle stage.
pub struct DepositView {
    pub id: u32,
    pub client: u16,
    pub amount: int,
}

/// A credit to a client's account. Its stage is part of its type, so an
/// operation that one stage does not allow cannot be called on it; the
/// identifier, client and amount never change from one stage to the next.
#[derive(Debug, Clone, Copy)]
pub struct Deposit<State: DepositState = DepositReleased> {
    id: TxId,
    client: ClientId,
    amount: Amount,
    state: State,
}

impl<State: DepositState> View for Deposit<State> {
    type V = DepositView;

    closed spec fn view(&self) -> DepositView {
        DepositView { id: self.id.0, client: self.client.0, amount: self.amount@ }
    }
}

impl<State: DepositState> Deposit<State> {
    /// The deposit's transaction identifier.
    pub fn id(&self) -> (r: TxId)
        ensures
            r.0 == self@.id,
    {
        self.id
    }

    /// The client whose account the deposit credits.
    pub fn client(&self) -> (r: ClientId)
        ensures
            r.0 == self@.client,
    {
        self.client
    }

    /// The deposited amount.
    pub fn amount(&self) -> (r: Amount)
        ensures
            r@ == self@.amount,
    {
        self.amount
    }
}

impl Deposit<DepositReleased> {
    /// A deposit in normal standing; a negative amount is refused.
    pub fn new(id: TxId, client: ClientId, amount: Amount) -> (r: Result<Self, TxErr>)
        ensures
            amount@ < 0 ==> r == Err::<Self, TxErr>(TxErr::NegativeAmount),
            amount@ >= 0 ==> (r matches Ok(d) && d@ == (DepositView { id: id.0, client: client.0, amount: amount@ })),
    {
        if amount.is_negative() {
            Err(TxErr::NegativeAmount)
        } else {
            Ok(Deposit { id, client, amount, state: DepositReleased })
        }
    }

    /// The same deposit, now under dispute.
    pub fn hold(self) -> (r: Deposit<DepositHeld>)
        ensures
            r@ == self@,
    {
        Deposit { id: self.id, client: self.client, amount: self.amount, state: DepositHeld }
    }
}

impl Deposit<DepositHeld> {
    /// The same deposit, back in normal standing after its dispute was resolved.
    pub fn release(self) -> (r: Deposit<DepositReleased>)
        ensures
            r@ == self@,
    {
        Deposit { id: self.id, client: self.client, amount: self.amount, state: DepositReleased }
    }

    /// The same deposit, reversed for good by a chargeback.
    pub fn reverse(self) -> (r: Deposit<DepositReversed>)
        ensures
            r@ == self@,
    {
        Deposit { id: self.id, client: self.client, amount: self.amount, state: DepositReversed }
    }
}

} // verus!
