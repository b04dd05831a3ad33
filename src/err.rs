use vstd::prelude::*;

verus! {

/// Why a transaction was rejected. A rejected transaction changes nothing.
#[derive(Debug, PartialEq, Eq, Structural, Clone, Copy)]
pub enum TxErr {
    /// A deposit or withdrawal arrived without an amount.
    MissingAmount,
    /// A dispute, resolve or chargeback arrived with an amount.
    ExtraneousAmount,
    /// A deposit or withdrawal carries a negative amount.
    NegativeAmount,
    /// The available funds do not cover the amount.
    Insufficient,
    /// The account is locked after a chargeback.
    AccessLocked,
    /// No account exists for the client.
    AccessUnavailable,
    /// The amount would overflow the account's balances.
    Overflow,
    /// The transaction identifier was already used by a deposit or withdrawal.
    Duplicate,
    /// The client has no deposit under that identifier in the state the operation needs.
    MissingTxForClient,
}

pub type TxResult = Result<(), TxErr>;

impl TxErr {
    /// A human-readable description of the error.
    pub fn message(&self) -> &'static str {
        match self {
            TxErr::MissingAmount => "Transaction must provide an amount",
            TxErr::ExtraneousAmount => "Transaction must not provide an amount",
            TxErr::NegativeAmount => "Invalid negative amount",
            TxErr::Insufficient => "Insufficient funds",
            TxErr::AccessLocked => "Attempt to access a locked account",
            TxErr::AccessUnavailable => "Attempt to access a non-existing account",
            TxErr::Overflow => "Transaction would overflow account",
            TxErr::Duplicate => "Duplicate transaction ID",
            TxErr::MissingTxForClient => "Referenced deposit does not exist for this client",
        }
    }
}

} // verus!
