use crate::amount::Amount;
use vstd::prelude::*;

verus! {

/// The kind of an incoming transaction record.
#[derive(Debug, PartialEq, Eq, Structural, Clone, Copy)]
pub enum TxType {
    Deposit,
    Withdrawal,
    Dispute,
    Resolve,
    Chargeback,
}

/// An incoming transaction record, as read: its amount is present for a
/// deposit or a withdrawal and absent for the other kinds, which the ledger
/// checks.
#[derive(Debug, Clone, Copy)]
pub struct Tx {
    pub typ: TxType,
    pub client: u16,
    pub tx: u32,
    pub amount: Option<Amount>,
}

impl Tx {
    /// A deposit record.
    pub fn new_deposit(tx: u32, client: u16, amount: Amount) -> (r: Self)
        ensures
            r == (Tx { typ: TxType::Deposit, client, tx, amount: Some(amount) }),
    {
        Tx { typ: TxType::Deposit, client, tx, amount: Some(amount) }
    }

    /// A withdrawal record.
    pub fn new_withdraw(tx: u32, client: u16, amount: Amount) -> (r: Self)
        ensures
            r == (Tx { typ: TxType::Withdrawal, client, tx, amount: Some(amount) }),
    {
        Tx { typ: TxType::Withdrawal, client, tx, amount: Some(amount) }
    }

    /// A dispute, resolve or chargeback record, which carries no amount.
    pub fn new_reference(typ: TxType, tx: u32, client: u16) -> (r: Self)
        ensures
            r == (Tx { typ, client, tx, amount: None }),
    {
        Tx { typ, client, tx, amount: None }
    }
}

} // verus!
