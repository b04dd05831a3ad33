//! An in-memory ledger that replays client deposits, withdrawals, disputes,
//! resolutions and chargebacks, and keeps a balance per client.
pub mod account;
pub mod amount;
pub mod chargeback;
pub mod db;
pub mod deposit;
pub mod dispute;
pub mod err;
pub mod id;
pub mod laws;
pub mod resolve;
pub mod seen;
pub mod sum;
pub mod tx;
pub mod withdraw;

pub use crate::account::{Account, AccountLocked, AccountUnlocked};
pub use crate::amount::Amount;
pub use crate::chargeback::Chargeback;
pub use crate::db::Db;
pub use crate::deposit::{Deposit, DepositHeld, DepositReleased, DepositReversed};
pub use crate::dispute::Dispute;
pub use crate::err::{TxErr, TxResult};
pub use crate::id::{ClientId, TxId};
pub use crate::resolve::Resolve;
pub use crate::tx::{Tx, TxType};
pub use crate::withdraw::Withdraw;
