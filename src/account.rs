use crate::amount::{in_range, Amount};
use crate::chargeback::Chargeback;
use crate::deposit::{Deposit, DepositHeld, DepositReleased, DepositReversed};
use crate::dispute::Dispute;
use crate::err::{TxErr, TxResult};
use crate::id::ClientId;
use crate::resolve::Resolve;
use crate::sum::{all_non_negative, lemma_sum_insert, lemma_sum_non_negative, lemma_sum_remove, map_sum};
use crate::withdraw::Withdraw;
use std::collections::HashMap;
use vstd::prelude::*;

verus! {

/// Account state tag: a chargeback locked the account; nothing changes it any more.
#[derive(Debug, PartialEq, Eq, Structural, Clone, Copy)]
pub struct AccountLocked;

/// Account state tag: the account accepts transactions.
#[derive(Debug, PartialEq, Eq, Structural, Clone, Copy)]
pub struct AccountUnlocked;

/// The states an account can be in.
pub trait AccountState {}

impl AccountState for AccountLocked {}

impl AccountState for AccountUnlocked {}

/// What an account holds: its balances (in ten-thousandths) and the amounts
/// of the transactions it accepted, by transaction identifier.
pub struct AccountView {
    pub id: u16,
    pub available: int,
    pub held: int,
    /// Deposits in normal standing.
    pub deposits: Map<u32, int>,
    /// Deposits under dispute.
    pub held_deposits: Map<u32, int>,
    /// Deposits charged back.
    pub reversed: Map<u32, int>,
    pub withdrawals: Map<u32, int>,
}

impl AccountView {
    /// A new account: nothing in it.
    pub open spec fn opened(id: u16) -> AccountView {
        AccountView {
            id,
            available: 0,
            held: 0,
            deposits: Map::empty(),
            held_deposits: Map::empty(),
            reversed: Map::empty(),
            withdrawals: Map::empty(),
        }
    }

    pub open spec fn total(self) -> int {
        self.available + self.held
    }

    /// Whether the account recorded a transaction under `id`.
    pub open spec fn has_tx(self, id: u32) -> bool {
        self.deposits.contains_key(id) || self.held_deposits.contains_key(id)
            || self.reversed.contains_key(id) || self.withdrawals.contains_key(id)
    }

    /// The account's invariant. The balances are non-negative and their sum
    /// is representable; the held balance is exactly the sum of the deposits
    /// under dispute; the total is what was deposited minus what was
    /// withdrawn and charged back; and each deposit is in one stage only.
    pub open spec fn valid(self) -> bool {
        &&& self.available >= 0
        &&& self.held >= 0
        &&& in_range(self.total())
        &&& self.deposits.dom().finite()
        &&& self.held_deposits.dom().finite()
        &&& self.reversed.dom().finite()
        &&& self.withdrawals.dom().finite()
        &&& all_non_negative(self.deposits)
        &&& all_non_negative(self.held_deposits)
        &&& all_non_negative(self.reversed)
        &&& all_non_negative(self.withdrawals)
        &&& self.held == map_sum(self.held_deposits)
        &&& self.total() == map_sum(self.deposits) + map_sum(self.held_deposits) - map_sum(
            self.withdrawals,
        )
        &&& forall|k: u32|
            !(#[trigger] self.deposits.contains_key(k) && self.held_deposits.contains_key(k))
        &&& forall|k: u32|
            !(#[trigger] self.deposits.contains_key(k) && self.reversed.contains_key(k))
        &&& forall|k: u32|
            !(#[trigger] self.held_deposits.contains_key(k) && self.reversed.contains_key(k))
    }

    /// A deposit of `amount` under `id`: refused where a balance would overflow.
    pub open spec fn deposit_outcome(self, id: u32, amount: int) -> (AccountView, TxResult) {
        if !in_range(self.total() + amount) || !in_range(self.available + amount) {
            (self, Err(TxErr::Overflow))
        } else {
            (
                AccountView {
                    available: self.available + amount,
                    deposits: self.deposits.insert(id, amount),
                    ..self
                },
                Ok(()),
            )
        }
    }

    /// A withdrawal of `amount` under `id`: refused where the available funds
    /// do not cover it.
    pub open spec fn withdraw_outcome(self, id: u32, amount: int) -> (AccountView, TxResult) {
        if amount > self.available {
            (self, Err(TxErr::Insufficient))
        } else {
            (
                AccountView {
                    available: self.available - amount,
                    withdrawals: self.withdrawals.insert(id, amount),
                    ..self
                },
                Ok(()),
            )
        }
    }

    /// A dispute of deposit `id`: it must be in normal standing, and its
    /// amount must still be available.
    pub open spec fn dispute_outcome(self, id: u32) -> (AccountView, TxResult) {
        if !self.deposits.contains_key(id) {
            (self, Err(TxErr::MissingTxForClient))
        } else if self.deposits[id] > self.available {
            (self, Err(TxErr::Insufficient))
        } else {
            let amount = self.deposits[id];
            (
                AccountView {
                    available: self.available - amount,
                    held: self.held + amount,
                    deposits: self.deposits.remove(id),
                    held_deposits: self.held_deposits.insert(id, amount),
                    ..self
                },
                Ok(()),
            )
        }
    }

    /// A resolution of deposit `id`: it must be under dispute.
    pub open spec fn resolve_outcome(self, id: u32) -> (AccountView, TxResult) {
        if !self.held_deposits.contains_key(id) {
            (self, Err(TxErr::MissingTxForClient))
        } else {
            let amount = self.held_deposits[id];
            (
                AccountView {
                    available: self.available + amount,
                    held: self.held - amount,
                    deposits: self.deposits.insert(id, amount),
                    held_deposits: self.held_deposits.remove(id),
                    ..self
                },
                Ok(()),
            )
        }
    }

    /// A chargeback of deposit `id`: it must be under dispute. Its amount
    /// leaves the held funds and is not credited back; the account is then
    /// locked, which the ledger records.
    pub open spec fn chargeback_outcome(self, id: u32) -> (AccountView, TxResult) {
        if !self.held_deposits.contains_key(id) {
            (self, Err(TxErr::MissingTxForClient))
        } else {
            let amount = self.held_deposits[id];
            (
                AccountView {
                    held: self.held - amount,
                    held_deposits: self.held_deposits.remove(id),
                    reversed: self.reversed.insert(id, amount),
                    ..self
                },
                Ok(()),
            )
        }
    }
}

/// A deposit under a new identifier keeps an account valid, and adds that
/// identifier only to those it recorded.
pub proof fn lemma_deposit_keeps_valid(a: AccountView, id: u32, amount: int)
    requires
        a.valid(),
        !a.has_tx(id),
        amount >= 0,
    ensures
        a.deposit_outcome(id, amount).0.valid(),
        forall|k: u32| #[trigger] a.deposit_outcome(id, amount).0.has_tx(k) ==> a.has_tx(k) || k == id,
{
    if a.deposit_outcome(id, amount).1 is Ok {
        lemma_sum_insert(a.deposits, id, amount);
    }
}

/// A withdrawal under a new identifier keeps an account valid, and adds
/// that identifier only to those it recorded.
pub proof fn lemma_withdraw_keeps_valid(a: AccountView, id: u32, amount: int)
    requires
        a.valid(),
        !a.has_tx(id),
        amount >= 0,
    ensures
        a.withdraw_outcome(id, amount).0.valid(),
        forall|k: u32| #[trigger] a.withdraw_outcome(id, amount).0.has_tx(k) ==> a.has_tx(k) || k == id,
{
    if a.withdraw_outcome(id, amount).1 is Ok {
        lemma_sum_insert(a.withdrawals, id, amount);
    }
}

/// A dispute keeps an account valid and the identifiers it recorded.
pub proof fn lemma_dispute_keeps_valid(a: AccountView, id: u32)
    requires
        a.valid(),
    ensures
        a.dispute_outcome(id).0.valid(),
        forall|k: u32| #[trigger] a.dispute_outcome(id).0.has_tx(k) ==> a.has_tx(k),
{
    if a.dispute_outcome(id).1 is Ok {
        lemma_sum_remove(a.deposits, id);
        lemma_sum_insert(a.held_deposits, id, a.deposits[id]);
    }
}

/// A resolution keeps an account valid and the identifiers it recorded.
pub proof fn lemma_resolve_keeps_valid(a: AccountView, id: u32)
    requires
        a.valid(),
    ensures
        a.resolve_outcome(id).0.valid(),
        forall|k: u32| #[trigger] a.resolve_outcome(id).0.has_tx(k) ==> a.has_tx(k),
{
    if a.resolve_outcome(id).1 is Ok {
        lemma_sum_remove(a.held_deposits, id);
        assert(all_non_negative(a.held_deposits.remove(id)));
        lemma_sum_non_negative(a.held_deposits.remove(id));
        lemma_sum_insert(a.deposits, id, a.held_deposits[id]);
    }
}

/// A chargeback keeps an account valid and the identifiers it recorded.
pub proof fn lemma_chargeback_keeps_valid(a: AccountView, id: u32)
    requires
        a.valid(),
    ensures
        a.chargeback_outcome(id).0.valid(),
        forall|k: u32| #[trigger] a.chargeback_outcome(id).0.has_tx(k) ==> a.has_tx(k),
{
    if a.chargeback_outcome(id).1 is Ok {
        lemma_sum_remove(a.held_deposits, id);
        assert(all_non_negative(a.held_deposits.remove(id)));
        lemma_sum_non_negative(a.held_deposits.remove(id));
    }
}

/// A client's account. Its state is part of its type: only an unlocked
/// account has operations that change it.
#[derive(Debug)]
pub struct Account<State: AccountState = AccountUnlocked> {
    id: ClientId,
    available: Amount,
    held: Amount,
    deposits: HashMap<u32, Deposit<DepositReleased>>,
    deposits_held: HashMap<u32, Deposit<DepositHeld>>,
    deposits_reversed: HashMap<u32, Deposit<DepositReversed>>,
    withdraws: HashMap<u32, Withdraw>,
    state: State,
}

impl<State: AccountState> View for Account<State> {
    type V = AccountView;

    closed spec fn view(&self) -> AccountView {
        AccountView {
            id: self.id.0,
            available: self.available@,
            held: self.held@,
            deposits: self.deposits@.map_values(|d: Deposit<DepositReleased>| d@.amount),
            held_deposits: self.deposits_held@.map_values(|d: Deposit<DepositHeld>| d@.amount),
            reversed: self.deposits_reversed@.map_values(|d: Deposit<DepositReversed>| d@.amount),
            withdrawals: self.withdraws@.map_values(|w: Withdraw| w@.amount),
        }
    }
}

impl<State: AccountState> Account<State> {
    /// The account's invariant.
    pub open spec fn wf(&self) -> bool {
        self@.valid()
    }

    pub fn id(&self) -> (r: ClientId)
        ensures
            r.0 == self@.id,
    {
        self.id
    }

    /// Funds the client may withdraw.
    pub fn available(&self) -> (r: Amount)
        ensures
            r@ == self@.available,
    {
        self.available
    }

    /// Funds frozen by disputes.
    pub fn held(&self) -> (r: Amount)
        ensures
            r@ == self@.held,
    {
        self.held
    }

    /// Available and held funds together.
    pub fn total(&self) -> (r: Amount)
        requires
            self.wf(),
        ensures
            r@ == self@.total(),
    {
        self.available.add(&self.held)
    }

    proof fn lemma_view_finite(&self)
        ensures
            self@.deposits.dom().finite(),
            self@.held_deposits.dom().finite(),
            self@.reversed.dom().finite(),
            self@.withdrawals.dom().finite(),
    {
        assert(self@.deposits.dom() =~= self.deposits@.dom());
        assert(self@.held_deposits.dom() =~= self.deposits_held@.dom());
        assert(self@.reversed.dom() =~= self.deposits_reversed@.dom());
        assert(self@.withdrawals.dom() =~= self.withdraws@.dom());
    }
}

impl Account<AccountUnlocked> {
    /// An empty, unlocked account.
    pub fn new(id: ClientId) -> (r: Self)
        ensures
            r@ == AccountView::opened(id.0),
            r.wf(),
    {
        let r = Account {
            id,
            available: Amount::zero(),
            held: Amount::zero(),
            deposits: HashMap::new(),
            deposits_held: HashMap::new(),
            deposits_reversed: HashMap::new(),
            withdraws: HashMap::new(),
            state: AccountUnlocked,
        };
        proof {
            assert(r@.deposits =~= Map::empty());
            assert(r@.held_deposits =~= Map::empty());
            assert(r@.reversed =~= Map::empty());
            assert(r@.withdrawals =~= Map::empty());
        }
        r
    }

    /// The same account, locked for good.
    pub fn lock(self) -> (r: Account<AccountLocked>)
        ensures
            r@ == self@,
    {
        Account {
            id: self.id,
            available: self.available,
            held: self.held,
            deposits: self.deposits,
            deposits_held: self.deposits_held,
            deposits_reversed: self.deposits_reversed,
            withdraws: self.withdraws,
            state: AccountLocked,
        }
    }

    /// Credits the account with a deposit, which the account then holds in
    /// normal standing. The ledger has already made sure that the identifier
    /// is new.
    pub fn deposit(&mut self, tx: Deposit) -> (r: TxResult)
        requires
            old(self).wf(),
            tx@.client == old(self)@.id,
            tx@.amount >= 0,
            !old(self)@.has_tx(tx@.id),
        ensures
            final(self).wf(),
            (final(self)@, r) == old(self)@.deposit_outcome(tx@.id, tx@.amount),
    {
        let amount = tx.amount();
        let total = self.total();
        if total.checked_add(&amount).is_none() {
            return Err(TxErr::Overflow);
        }
        match self.available.checked_add(&amount) {
            Some(sum) => {
                let id = tx.id().0;
                let ghost before = self@;
                proof {
                    self.lemma_view_finite();
                }
                self.available = sum;
                self.deposits.insert(id, tx);
                proof {
                    assert(self@.deposits =~= before.deposits.insert(id, tx@.amount));
                    self.lemma_view_finite();
                    lemma_sum_insert(before.deposits, id, tx@.amount);
                }
                Ok(())
            },
            None => Err(TxErr::Overflow),
        }
    }

    /// Debits the account with a withdrawal, which the account then records.
    /// The ledger has already made sure that the identifier is new.
    pub fn withdraw(&mut self, tx: Withdraw) -> (r: TxResult)
        requires
            old(self).wf(),
            tx@.client == old(self)@.id,
            tx@.amount >= 0,
            !old(self)@.has_tx(tx@.id),
        ensures
            final(self).wf(),
            (final(self)@, r) == old(self)@.withdraw_outcome(tx@.id, tx@.amount),
    {
        let amount = tx.amount();
        if !amount.le(&self.available) {
            return Err(TxErr::Insufficient);
        }
        let id = tx.id().0;
        let ghost before = self@;
        proof {
            self.lemma_view_finite();
        }
        self.withdraws.insert(id, tx);
        self.available = self.available.sub(&amount);
        proof {
            assert(self@.withdrawals =~= before.withdrawals.insert(id, tx@.amount));
            self.lemma_view_finite();
            lemma_sum_insert(before.withdrawals, id, tx@.amount);
        }
        Ok(())
    }

    /// Puts a deposit in normal standing under dispute: its amount moves from
    /// the available to the held funds.
    pub fn dispute(&mut self, tx: Dispute) -> (r: TxResult)
        requires
            old(self).wf(),
            tx@.1 == old(self)@.id,
        ensures
            final(self).wf(),
            (final(self)@, r) == old(self)@.dispute_outcome(tx@.0),
    {
        let id = tx.id().0;
        let ghost before = self@;
        let ghost stored = self.deposits@;
        proof {
            self.lemma_view_finite();
        }
        let deposit = match self.deposits.remove(&id) {
            Some(deposit) => deposit,
            None => {
                proof {
                    assert(self.deposits@ =~= stored);
                }
                return Err(TxErr::MissingTxForClient);
            },
        };
        let amount = deposit.amount();
        proof {
            assert(stored.contains_key(id) && stored[id] == deposit);
            assert(before.deposits.contains_key(id));
            assert(before.deposits[id] == amount@);
        }
        if !amount.le(&self.available) {
            self.deposits.insert(id, deposit);
            proof {
                assert(self.deposits@ =~= stored);
            }
            return Err(TxErr::Insufficient);
        }
        self.available = self.available.sub(&amount);
        self.held = self.held.add(&amount);
        self.deposits_held.insert(id, deposit.hold());
        proof {
            assert(self@.deposits =~= before.deposits.remove(id));
            assert(self@.held_deposits =~= before.held_deposits.insert(id, amount@));
            self.lemma_view_finite();
            lemma_sum_remove(before.deposits, id);
            lemma_sum_insert(before.held_deposits, id, amount@);
        }
        Ok(())
    }

    /// Ends the dispute of a deposit in the client's favour: its amount moves
    /// back from the held to the available funds.
    pub fn resolve(&mut self, tx: Resolve) -> (r: TxResult)
        requires
            old(self).wf(),
            tx@.1 == old(self)@.id,
        ensures
            final(self).wf(),
            (final(self)@, r) == old(self)@.resolve_outcome(tx@.0),
    {
        let id = tx.id().0;
        let ghost before = self@;
        let ghost stored = self.deposits_held@;
        proof {
            self.lemma_view_finite();
        }
        let deposit = match self.deposits_held.remove(&id) {
            Some(deposit) => deposit,
            None => {
                proof {
                    assert(self.deposits_held@ =~= stored);
                }
                return Err(TxErr::MissingTxForClient);
            },
        };
        let amount = deposit.amount();
        proof {
            lemma_sum_remove(before.held_deposits, id);
            assert(all_non_negative(before.held_deposits.remove(id)));
            lemma_sum_non_negative(before.held_deposits.remove(id));
        }
        self.held = self.held.sub(&amount);
        self.available = self.available.add(&amount);
        self.deposits.insert(id, deposit.release());
        proof {
            assert(self@.held_deposits =~= before.held_deposits.remove(id));
            assert(self@.deposits =~= before.deposits.insert(id, amount@));
            self.lemma_view_finite();
            lemma_sum_insert(before.deposits, id, amount@);
        }
        Ok(())
    }

    /// Ends the dispute of a deposit against the client: its amount leaves
    /// the held funds without being credited back, the deposit is reversed,
    /// and the account comes back locked. Where the deposit is not under
    /// dispute, the account comes back unchanged with the error.
    pub fn chargeback(self, tx: Chargeback) -> (r: Result<Account<AccountLocked>, (Self, TxErr)>)
        requires
            self.wf(),
            tx@.1 == self@.id,
        ensures
            match r {
                Ok(locked) => locked.wf() && (locked@, Ok::<(), TxErr>(()))
                    == self@.chargeback_outcome(tx@.0),
                Err((same, e)) => same.wf() && (same@, Err::<(), TxErr>(e))
                    == self@.chargeback_outcome(tx@.0),
            },
    {
        let mut account = self;
        let id = tx.id().0;
        let ghost before = account@;
        let ghost stored = account.deposits_held@;
        proof {
            account.lemma_view_finite();
        }
        let deposit = match account.deposits_held.remove(&id) {
            Some(deposit) => deposit,
            None => {
                proof {
                    assert(account.deposits_held@ =~= stored);
                }
                return Err((account, TxErr::MissingTxForClient));
            },
        };
        let amount = deposit.amount();
        proof {
            lemma_sum_remove(before.held_deposits, id);
            assert(all_non_negative(before.held_deposits.remove(id)));
            lemma_sum_non_negative(before.held_deposits.remove(id));
        }
        account.held = account.held.sub(&amount);
        account.deposits_reversed.insert(id, deposit.reverse());
        proof {
            assert(account@.held_deposits =~= before.held_deposits.remove(id));
            assert(account@.reversed =~= before.reversed.insert(id, amount@));
            account.lemma_view_finite();
        }
        Ok(account.lock())
    }
}

} // verus!
