use crate::account::{Account, AccountLocked, AccountState, AccountView};
use crate::amount::Amount;
use crate::chargeback::Chargeback;
use crate::deposit::Deposit;
use crate::dispute::Dispute;
use crate::err::{TxErr, TxResult};
use crate::id::{ClientId, TxId};
use crate::resolve::Resolve;
use crate::seen::{id_set_contains, id_set_insert, new_id_set, set_items};
use crate::tx::{Tx, TxType};
use crate::withdraw::Withdraw;
use indexmap::IndexSet;
use std::collections::HashMap;
use vstd::prelude::*;

verus! {

/// What the ledger holds: the unlocked and the locked accounts by client,
/// and the transaction identifiers that deposits and withdrawals used, in
/// the order they were accepted.
pub struct DbView {
    pub active: Map<u16, AccountView>,
    pub locked: Map<u16, AccountView>,
    pub seen: Seq<u32>,
}

impl DbView {
    /// A ledger with no account and no transaction.
    pub open spec fn empty() -> DbView {
        DbView { active: Map::empty(), locked: Map::empty(), seen: Seq::empty() }
    }

    /// The ledger's invariant: every account is valid and filed under its own
    /// client, in one partition only; every identifier that an account
    /// recorded is among the used ones, which are listed once each.
    pub open spec fn valid(self) -> bool {
        &&& forall|c: u16| #[trigger]
            self.active.contains_key(c) ==> self.active[c].valid() && self.active[c].id == c
        &&& forall|c: u16| #[trigger]
            self.locked.contains_key(c) ==> self.locked[c].valid() && self.locked[c].id == c
        &&& forall|c: u16| !(#[trigger] self.active.contains_key(c) && self.locked.contains_key(c))
        &&& self.seen.no_duplicates()
        &&& forall|c: u16, id: u32|
            self.active.contains_key(c) && #[trigger] self.active[c].has_tx(id)
                ==> self.seen.contains(id)
        &&& forall|c: u16, id: u32|
            self.locked.contains_key(c) && #[trigger] self.locked[c].has_tx(id)
                ==> self.seen.contains(id)
    }

    /// The ledger after applying the records in order.
    pub open spec fn replay(self, txs: Seq<Tx>) -> DbView
        decreases txs.len(),
    {
        if txs.len() == 0 {
            self
        } else {
            self.process_outcome(txs[0]).0.replay(txs.drop_first())
        }
    }

    /// Whether `r` lists every account of the ledger once, by increasing
    /// client, each with its balances as they stand.
    pub open spec fn is_snapshot(self, r: Seq<AccountSummary>) -> bool {
        &&& forall|i: int| 0 <= i < r.len() ==> self.reported_by(#[trigger] r[i])
        &&& forall|c: u16| #[trigger] self.has_account(c) ==> exists|i: int|
            0 <= i < r.len() && r[i].client == c
        &&& forall|i: int, j: int| 0 <= i < j < r.len() ==> r[i].client < r[j].client
    }

    /// Whether the ledger holds an account for `client`, locked or not.
    pub open spec fn has_account(self, client: u16) -> bool {
        self.active.contains_key(client) || self.locked.contains_key(client)
    }

    /// Whether `s` reports the ledger's account of its client as it stands.
    pub open spec fn reported_by(self, s: AccountSummary) -> bool {
        ||| self.active.contains_key(s.client) && s.reports(self.active[s.client], false)
        ||| self.locked.contains_key(s.client) && s.reports(self.locked[s.client], true)
    }

    /// The unlocked account of `client`, or a new one where there is none.
    pub open spec fn account_or_new(self, client: u16) -> AccountView {
        if self.active.contains_key(client) {
            self.active[client]
        } else {
            AccountView::opened(client)
        }
    }

    /// A deposit, in the order of the checks: a negative amount, a used
    /// identifier, a locked account; then the account's own outcome. The
    /// account is created on the first deposit that succeeds.
    pub open spec fn deposit_outcome(self, id: u32, client: u16, amount: int) -> (DbView, TxResult) {
        if amount < 0 {
            (self, Err(TxErr::NegativeAmount))
        } else if self.seen.contains(id) {
            (self, Err(TxErr::Duplicate))
        } else if self.locked.contains_key(client) {
            (self, Err(TxErr::AccessLocked))
        } else {
            let (a, r) = self.account_or_new(client).deposit_outcome(id, amount);
            if r is Ok {
                (DbView { active: self.active.insert(client, a), seen: self.seen.push(id), ..self }, r)
            } else {
                (self, r)
            }
        }
    }

    /// A withdrawal, in the order of the checks: a negative amount, a used
    /// identifier, a locked account, no account; then the account's own
    /// outcome. A withdrawal never creates an account.
    pub open spec fn withdraw_outcome(self, id: u32, client: u16, amount: int) -> (DbView, TxResult) {
        if amount < 0 {
            (self, Err(TxErr::NegativeAmount))
        } else if self.seen.contains(id) {
            (self, Err(TxErr::Duplicate))
        } else if self.locked.contains_key(client) {
            (self, Err(TxErr::AccessLocked))
        } else if !self.active.contains_key(client) {
            (self, Err(TxErr::AccessUnavailable))
        } else {
            let (a, r) = self.active[client].withdraw_outcome(id, amount);
            if r is Ok {
                (DbView { active: self.active.insert(client, a), seen: self.seen.push(id), ..self }, r)
            } else {
                (self, r)
            }
        }
    }

    /// The checks that a dispute, resolve or chargeback passes before the
    /// account sees it.
    pub open spec fn access(self, client: u16) -> TxResult {
        if self.locked.contains_key(client) {
            Err(TxErr::AccessLocked)
        } else if !self.active.contains_key(client) {
            Err(TxErr::AccessUnavailable)
        } else {
            Ok(())
        }
    }

    /// A dispute: the identifier it names is referred to, not used up.
    pub open spec fn dispute_outcome(self, id: u32, client: u16) -> (DbView, TxResult) {
        if self.access(client) is Err {
            (self, self.access(client))
        } else {
            let (a, r) = self.active[client].dispute_outcome(id);
            (DbView { active: self.active.insert(client, a), ..self }, r)
        }
    }

    pub open spec fn resolve_outcome(self, id: u32, client: u16) -> (DbView, TxResult) {
        if self.access(client) is Err {
            (self, self.access(client))
        } else {
            let (a, r) = self.active[client].resolve_outcome(id);
            (DbView { active: self.active.insert(client, a), ..self }, r)
        }
    }

    /// A chargeback: where it succeeds, the account moves to the locked ones.
    pub open spec fn chargeback_outcome(self, id: u32, client: u16) -> (DbView, TxResult) {
        if self.access(client) is Err {
            (self, self.access(client))
        } else {
            let (a, r) = self.active[client].chargeback_outcome(id);
            if r is Ok {
                (
                    DbView {
                        active: self.active.remove(client),
                        locked: self.locked.insert(client, a),
                        ..self
                    },
                    r,
                )
            } else {
                (self, r)
            }
        }
    }

    /// A record: its kind picks the operation; a deposit or withdrawal
    /// without an amount, or another kind with one, is refused first.
    pub open spec fn process_outcome(self, tx: Tx) -> (DbView, TxResult) {
        match tx.typ {
            TxType::Deposit => match tx.amount {
                Some(a) => self.deposit_outcome(tx.tx, tx.client, a@),
                None => (self, Err(TxErr::MissingAmount)),
            },
            TxType::Withdrawal => match tx.amount {
                Some(a) => self.withdraw_outcome(tx.tx, tx.client, a@),
                None => (self, Err(TxErr::MissingAmount)),
            },
            TxType::Dispute => if tx.amount is Some {
                (self, Err(TxErr::ExtraneousAmount))
            } else {
                self.dispute_outcome(tx.tx, tx.client)
            },
            TxType::Resolve => if tx.amount is Some {
                (self, Err(TxErr::ExtraneousAmount))
            } else {
                self.resolve_outcome(tx.tx, tx.client)
            },
            TxType::Chargeback => if tx.amount is Some {
                (self, Err(TxErr::ExtraneousAmount))
            } else {
                self.chargeback_outcome(tx.tx, tx.client)
            },
        }
    }
}

/// Appending an item keeps what was there and adds it, once.
pub proof fn lemma_push_keeps(s: Seq<u32>, x: u32)
    requires
        s.no_duplicates(),
        !s.contains(x),
    ensures
        s.push(x).no_duplicates(),
        s.push(x).contains(x),
        forall|y: u32| s.contains(y) ==> #[trigger] s.push(x).contains(y),
        forall|y: u32| #[trigger] s.push(x).contains(y) ==> s.contains(y) || y == x,
{
    assert(s.push(x)[s.len() as int] == x);
    assert forall|y: u32| s.contains(y) implies #[trigger] s.push(x).contains(y) by {
        let i = choose|i: int| 0 <= i < s.len() && s[i] == y;
        assert(s.push(x)[i] == y);
    }
    assert forall|y: u32| #[trigger] s.push(x).contains(y) implies s.contains(y) || y == x by {
        let i = choose|i: int| 0 <= i < s.len() + 1 && s.push(x)[i] == y;
        if i < s.len() {
            assert(s[i] == y);
        }
    }
}

/// Filing a valid account under its client keeps the ledger valid, where
/// every identifier it recorded is among the used ones.
pub proof fn lemma_file_account(before: DbView, c: u16, a: AccountView, seen: Seq<u32>)
    requires
        before.valid(),
        !before.locked.contains_key(c),
        a.valid(),
        a.id == c,
        seen.no_duplicates(),
        forall|k: u32| before.seen.contains(k) ==> #[trigger] seen.contains(k),
        forall|k: u32| #[trigger] a.has_tx(k) ==> seen.contains(k),
    ensures
        (DbView { active: before.active.insert(c, a), seen, ..before }).valid(),
{
    let v = DbView { active: before.active.insert(c, a), seen, ..before };
    assert forall|d: u16, k: u32|
        v.active.contains_key(d) && #[trigger] v.active[d].has_tx(k) implies v.seen.contains(k) by {
        if d != c {
            assert(before.active[d].has_tx(k));
        }
    }
    assert forall|d: u16, k: u32|
        v.locked.contains_key(d) && #[trigger] v.locked[d].has_tx(k) implies v.seen.contains(k) by {
        assert(before.locked[d].has_tx(k));
    }
}

/// The views of the unlocked accounts of a map.
pub open spec fn active_views(m: Map<u16, Account>) -> Map<u16, AccountView> {
    m.map_values(|a: Account| a@)
}

/// The views of the locked accounts of a map.
pub open spec fn locked_views(m: Map<u16, Account<AccountLocked>>) -> Map<u16, AccountView> {
    m.map_values(|a: Account<AccountLocked>| a@)
}

proof fn lemma_active_insert(m: Map<u16, Account>, c: u16, a: Account)
    ensures
        active_views(m.insert(c, a)) =~= active_views(m).insert(c, a@),
{
}

proof fn lemma_active_remove(m: Map<u16, Account>, c: u16)
    ensures
        active_views(m.remove(c)) =~= active_views(m).remove(c),
{
}

proof fn lemma_locked_insert(m: Map<u16, Account<AccountLocked>>, c: u16, a: Account<AccountLocked>)
    ensures
        locked_views(m.insert(c, a)) =~= locked_views(m).insert(c, a@),
{
}

/// The balances of one account, as the ledger reports them.
#[derive(Debug, PartialEq, Eq, Structural, Clone, Copy)]
pub struct AccountSummary {
    pub client: u16,
    pub available: Amount,
    pub held: Amount,
    pub total: Amount,
    pub locked: bool,
}

impl AccountSummary {
    /// Whether this summary reports the account `a`, locked or not.
    pub open spec fn reports(self, a: AccountView, locked: bool) -> bool {
        &&& self.client == a.id
        &&& self.available@ == a.available
        &&& self.held@ == a.held
        &&& self.total@ == a.total()
        &&& self.locked == locked
    }

    /// The summary of an account.
    pub fn of<S: AccountState>(a: &Account<S>, locked: bool) -> (r: AccountSummary)
        requires
            a.wf(),
        ensures
            r.reports(a@, locked),
    {
        AccountSummary {
            client: a.id().0,
            available: a.available(),
            held: a.held(),
            total: a.total(),
            locked,
        }
    }
}

/// Replaying one more record is one more step.
pub proof fn lemma_replay_step(s: DbView, txs: Seq<Tx>, i: int)
    requires
        0 <= i < txs.len(),
    ensures
        s.replay(txs.take(i + 1)) == s.replay(txs.take(i)).process_outcome(txs[i]).0,
    decreases i,
{
    if i > 0 {
        let s1 = s.process_outcome(txs[0]).0;
        let rest = txs.drop_first();
        assert(txs.take(i + 1).drop_first() =~= rest.take(i));
        assert(txs.take(i).drop_first() =~= rest.take(i - 1));
        assert(txs.take(i + 1)[0] == txs[0]);
        assert(txs.take(i)[0] == txs[0]);
        lemma_replay_step(s1, rest, i - 1);
        assert(rest[i - 1] == txs[i]);
    } else {
        let s1 = s.process_outcome(txs[0]).0;
        assert(txs.take(1).drop_first() =~= Seq::<Tx>::empty());
        assert(txs.take(0) =~= Seq::<Tx>::empty());
        assert(txs.take(1)[0] == txs[0]);
        assert(s.replay(Seq::<Tx>::empty()) == s);
        assert(s1.replay(Seq::<Tx>::empty()) == s1);
        assert(s.replay(txs.take(1)) == s1.replay(txs.take(1).drop_first()));
    }
}

/// The ledger: it owns every account and the record of used transaction
/// identifiers, and applies one transaction record at a time.
#[derive(Debug)]
pub struct Db {
    accounts: HashMap<u16, Account>,
    accounts_locked: HashMap<u16, Account<AccountLocked>>,
    tx_ids: IndexSet<u32>,
}

impl View for Db {
    type V = DbView;

    closed spec fn view(&self) -> DbView {
        DbView {
            active: active_views(self.accounts@),
            locked: locked_views(self.accounts_locked@),
            seen: set_items(self.tx_ids),
        }
    }
}

impl Db {
    /// The ledger's invariant.
    pub open spec fn wf(&self) -> bool {
        self@.valid()
    }

    /// An empty ledger.
    pub fn new() -> (r: Db)
        ensures
            r@ == DbView::empty(),
            r.wf(),
    {
        let r = Db { accounts: HashMap::new(), accounts_locked: HashMap::new(), tx_ids: new_id_set() };
        proof {
            assert(r@.active =~= Map::empty());
            assert(r@.locked =~= Map::empty());
        }
        r
    }

    /// Applies a deposit.
    pub fn deposit(&mut self, id: TxId, client: ClientId, amount: Amount) -> (r: TxResult)
        requires
            old(self).wf(),
        ensures
            final(self).wf(),
            (final(self)@, r) == old(self)@.deposit_outcome(id.0, client.0, amount@),
    {
        let tx = match Deposit::new(id, client, amount) {
            Ok(tx) => tx,
            Err(e) => return Err(e),
        };
        if id_set_contains(&self.tx_ids, id.0) {
            return Err(TxErr::Duplicate);
        }
        if self.accounts_locked.contains_key(&client.0) {
            return Err(TxErr::AccessLocked);
        }
        let ghost before = self@;
        let ghost stored = self.accounts@;
        let (mut account, existed) = match self.accounts.remove(&client.0) {
            Some(account) => (account, true),
            None => (Account::new(client), false),
        };
        proof {
            assert(account@ == before.account_or_new(client.0));
            assert(existed <==> before.active.contains_key(client.0));
            assert(!account@.has_tx(id.0));
        }
        match account.deposit(tx) {
            Ok(()) => {
                self.accounts.insert(client.0, account);
                id_set_insert(&mut self.tx_ids, id.0);
                proof {
                    assert(self@.active =~= before.active.insert(client.0, account@));
                    lemma_push_keeps(before.seen, id.0);
                    assert forall|k: u32| #[trigger] account@.has_tx(k) implies self@.seen.contains(k) by {
                        if k != id.0 && existed {
                            assert(before.active[client.0].has_tx(k));
                        }
                    }
                    lemma_file_account(before, client.0, account@, self@.seen);
                }
                Ok(())
            },
            Err(e) => {
                if existed {
                    self.accounts.insert(client.0, account);
                }
                proof {
                    assert(active_views(self.accounts@) =~= before.active);
                    assert(self@ == before);
                }
                Err(e)
            },
        }
    }

    /// Applies a withdrawal.
    pub fn withdraw(&mut self, id: TxId, client: ClientId, amount: Amount) -> (r: TxResult)
        requires
            old(self).wf(),
        ensures
            final(self).wf(),
            (final(self)@, r) == old(self)@.withdraw_outcome(id.0, client.0, amount@),
    {
        let tx = match Withdraw::new(id, client, amount) {
            Ok(tx) => tx,
            Err(e) => return Err(e),
        };
        if id_set_contains(&self.tx_ids, id.0) {
            return Err(TxErr::Duplicate);
        }
        if self.accounts_locked.contains_key(&client.0) {
            return Err(TxErr::AccessLocked);
        }
        let ghost before = self@;
        let ghost stored = self.accounts@;
        let mut account = match self.accounts.remove(&client.0) {
            Some(account) => account,
            None => {
                proof {
                    assert(self.accounts@ =~= stored);
                }
                return Err(TxErr::AccessUnavailable);
            },
        };
        proof {
            assert(account@ == before.active[client.0]);
            assert(!account@.has_tx(id.0));
        }
        let r = account.withdraw(tx);
        self.accounts.insert(client.0, account);
        proof {
            assert(self@.active =~= before.active.insert(client.0, account@));
        }
        if r.is_ok() {
            id_set_insert(&mut self.tx_ids, id.0);
            proof {
                lemma_push_keeps(before.seen, id.0);
                assert forall|k: u32| #[trigger] account@.has_tx(k) implies self@.seen.contains(k) by {
                    if k != id.0 {
                        assert(before.active[client.0].has_tx(k));
                    }
                }
                lemma_file_account(before, client.0, account@, self@.seen);
            }
        } else {
            proof {
                assert(self@.active =~= before.active);
            }
        }
        r
    }

    /// Takes the unlocked account of `client` out of the ledger for an
    /// operation that refers to an earlier deposit, or says why it cannot.
    fn take_account(&mut self, client: ClientId) -> (r: Result<Account, TxErr>)
        requires
            old(self).wf(),
        ensures
            match r {
                Ok(a) => {
                    &&& old(self)@.access(client.0) is Ok
                    &&& a@ == old(self)@.active[client.0]
                    &&& final(self)@ == (DbView {
                        active: old(self)@.active.remove(client.0),
                        ..old(self)@
                    })
                },
                Err(e) => {
                    &&& old(self)@.access(client.0) == Err::<(), TxErr>(e)
                    &&& final(self)@ == old(self)@
                },
            },
    {
        if self.accounts_locked.contains_key(&client.0) {
            return Err(TxErr::AccessLocked);
        }
        let ghost stored = self.accounts@;
        match self.accounts.remove(&client.0) {
            Some(account) => {
                proof {
                    lemma_active_remove(stored, client.0);
                }
                Ok(account)
            },
            None => {
                proof {
                    assert(self.accounts@ =~= stored);
                }
                Err(TxErr::AccessUnavailable)
            },
        }
    }

    /// Applies a dispute of deposit `id` of `client`.
    pub fn dispute(&mut self, id: TxId, client: ClientId) -> (r: TxResult)
        requires
            old(self).wf(),
        ensures
            final(self).wf(),
            (final(self)@, r) == old(self)@.dispute_outcome(id.0, client.0),
    {
        let ghost before = self@;
        let mut account = match self.take_account(client) {
            Ok(account) => account,
            Err(e) => return Err(e),
        };
        let ghost mid = self.accounts@;
        let r = account.dispute(Dispute::new(id, client));
        self.accounts.insert(client.0, account);
        proof {
            lemma_active_insert(mid, client.0, account);
            assert(self@.active =~= before.active.insert(client.0, account@));
            assert forall|k: u32| #[trigger] account@.has_tx(k) implies self@.seen.contains(k) by {
                assert(before.active[client.0].has_tx(k));
            }
            lemma_file_account(before, client.0, account@, self@.seen);
        }
        r
    }

    /// Applies a resolution of deposit `id` of `client`.
    pub fn resolve(&mut self, id: TxId, client: ClientId) -> (r: TxResult)
        requires
            old(self).wf(),
        ensures
            final(self).wf(),
            (final(self)@, r) == old(self)@.resolve_outcome(id.0, client.0),
    {
        let ghost before = self@;
        let mut account = match self.take_account(client) {
            Ok(account) => account,
            Err(e) => return Err(e),
        };
        let ghost mid = self.accounts@;
        let r = account.resolve(Resolve::new(id, client));
        self.accounts.insert(client.0, account);
        proof {
            lemma_active_insert(mid, client.0, account);
            assert(self@.active =~= before.active.insert(client.0, account@));
            assert forall|k: u32| #[trigger] account@.has_tx(k) implies self@.seen.contains(k) by {
                assert(before.active[client.0].has_tx(k));
            }
            lemma_file_account(before, client.0, account@, self@.seen);
        }
        r
    }

    /// Applies a chargeback of deposit `id` of `client`; where it succeeds,
    /// the account is locked from then on.
    pub fn chargeback(&mut self, id: TxId, client: ClientId) -> (r: TxResult)
        requires
            old(self).wf(),
        ensures
            final(self).wf(),
            (final(self)@, r) == old(self)@.chargeback_outcome(id.0, client.0),
    {
        let ghost before = self@;
        let account = match self.take_account(client) {
            Ok(account) => account,
            Err(e) => return Err(e),
        };
        let ghost mid = self.accounts@;
        let ghost mid_locked = self.accounts_locked@;
        match account.chargeback(Chargeback::new(id, client)) {
            Ok(locked) => {
                self.accounts_locked.insert(client.0, locked);
                proof {
                    lemma_locked_insert(mid_locked, client.0, locked);
                    assert(self@.locked =~= before.locked.insert(client.0, locked@));
                    let v = self@;
                    assert forall|d: u16, k: u32|
                        v.locked.contains_key(d) && #[trigger] v.locked[d].has_tx(k)
                            implies v.seen.contains(k) by {
                        if d != client.0 {
                            assert(before.locked[d].has_tx(k));
                        } else {
                            assert(before.active[client.0].has_tx(k));
                        }
                    }
                    assert forall|d: u16, k: u32|
                        v.active.contains_key(d) && #[trigger] v.active[d].has_tx(k)
                            implies v.seen.contains(k) by {
                        assert(before.active[d].has_tx(k));
                    }
                }
                Ok(())
            },
            Err((same, e)) => {
                self.accounts.insert(client.0, same);
                proof {
                    lemma_active_insert(mid, client.0, same);
                    assert(self@.active =~= before.active);
                }
                Err(e)
            },
        }
    }

    /// Applies one transaction record. A deposit or withdrawal needs an
    /// amount; a dispute, resolve or chargeback must not carry one.
    pub fn process(&mut self, tx: &Tx) -> (r: TxResult)
        requires
            old(self).wf(),
        ensures
            final(self).wf(),
            (final(self)@, r) == old(self)@.process_outcome(*tx),
    {
        let id = TxId::new(tx.tx);
        let client = ClientId::new(tx.client);
        match tx.typ {
            TxType::Deposit => match tx.amount {
                Some(amount) => self.deposit(id, client, amount),
                None => Err(TxErr::MissingAmount),
            },
            TxType::Withdrawal => match tx.amount {
                Some(amount) => self.withdraw(id, client, amount),
                None => Err(TxErr::MissingAmount),
            },
            TxType::Dispute => if tx.amount.is_some() {
                Err(TxErr::ExtraneousAmount)
            } else {
                self.dispute(id, client)
            },
            TxType::Resolve => if tx.amount.is_some() {
                Err(TxErr::ExtraneousAmount)
            } else {
                self.resolve(id, client)
            },
            TxType::Chargeback => if tx.amount.is_some() {
                Err(TxErr::ExtraneousAmount)
            } else {
                self.chargeback(id, client)
            },
        }
    }

    /// The unlocked account of a client, if there is one.
    pub fn get_account(&self, id: ClientId) -> (r: Option<&Account>)
        ensures
            match r {
                Some(a) => self@.active.contains_key(id.0) && a@ == self@.active[id.0],
                None => !self@.active.contains_key(id.0),
            },
    {
        self.accounts.get(&id.0)
    }

    /// The locked account of a client, if there is one.
    pub fn get_locked_account(&self, id: ClientId) -> (r: Option<&Account<AccountLocked>>)
        ensures
            match r {
                Some(a) => self@.locked.contains_key(id.0) && a@ == self@.locked[id.0],
                None => !self@.locked.contains_key(id.0),
            },
    {
        self.accounts_locked.get(&id.0)
    }

    /// The balances of a client's account, locked or not, if there is one.
    pub fn summary(&self, id: ClientId) -> (r: Option<AccountSummary>)
        requires
            self.wf(),
        ensures
            r is Some <==> self@.has_account(id.0),
            r matches Some(s) ==> s.client == id.0 && self@.reported_by(s),
    {
        match self.accounts.get(&id.0) {
            Some(a) => {
                proof {
                    assert(self@.active.contains_key(id.0));
                    assert(self@.active[id.0] == a@);
                }
                Some(AccountSummary::of(a, false))
            },
            None => match self.accounts_locked.get(&id.0) {
                Some(a) => {
                    proof {
                        assert(self@.locked.contains_key(id.0));
                        assert(self@.locked[id.0] == a@);
                    }
                    Some(AccountSummary::of(a, true))
                },
                None => None,
            },
        }
    }

    /// The balances of every account, locked or not, by increasing client.
    pub fn accounts(&self) -> (r: Vec<AccountSummary>)
        requires
            self.wf(),
        ensures
            self@.is_snapshot(r@),
    {
        let mut r: Vec<AccountSummary> = Vec::new();
        let mut c: u32 = 0;
        while c <= 0xffff
            invariant
                c <= 0x10000,
                self.wf(),
                forall|i: int| 0 <= i < r.len() ==> self@.reported_by(#[trigger] r[i]),
                forall|d: u16| (d as u32) < c && #[trigger] self@.has_account(d) ==> exists|i: int|
                    0 <= i < r.len() && r[i].client == d,
                forall|i: int, j: int| 0 <= i < j < r.len() ==> r[i].client < r[j].client,
                forall|i: int| 0 <= i < r.len() ==> (r[i].client as u32) < c,
            decreases 0x10000 - c,
        {
            let client = c as u16;
            let ghost prev = r@;
            match self.summary(ClientId::new(client)) {
                Some(s) => {
                    r.push(s);
                    proof {
                        assert(r[r.len() - 1] == s);
                        assert forall|d: u16| (d as u32) < c + 1 && #[trigger] self@.has_account(d)
                            implies exists|i: int| 0 <= i < r.len() && r[i].client == d by {
                            if d as u32 == c {
                                assert(r[r.len() - 1].client == d);
                            } else {
                                let i = choose|i: int| 0 <= i < prev.len() && prev[i].client == d;
                                assert(r[i] == prev[i]);
                            }
                        }
                    }
                },
                None => {},
            }
            c = c + 1;
        }
        r
    }

    /// Applies the records in order, one at a time, and gives the outcome of
    /// each. A rejected record changes nothing and does not stop the rest.
    pub fn process_all(&mut self, txs: &Vec<Tx>) -> (r: Vec<TxResult>)
        requires
            old(self).wf(),
        ensures
            final(self).wf(),
            final(self)@ == old(self)@.replay(txs@),
            r.len() == txs.len(),
            forall|i: int| 0 <= i < txs.len() ==> #[trigger] r[i] == old(self)@.replay(
                txs@.take(i),
            ).process_outcome(txs[i]).1,
    {
        let mut r: Vec<TxResult> = Vec::new();
        let mut i: usize = 0;
        proof {
            assert(txs@.skip(0) =~= txs@);
            assert(txs@.take(0) =~= Seq::<Tx>::empty());
            assert(self@.replay(Seq::<Tx>::empty()) == self@);
        }
        while i < txs.len()
            invariant
                i <= txs.len(),
                r.len() == i,
                self.wf(),
                old(self)@.replay(txs@) == self@.replay(txs@.skip(i as int)),
                self@ == old(self)@.replay(txs@.take(i as int)),
                forall|j: int| 0 <= j < i ==> #[trigger] r[j] == old(self)@.replay(
                    txs@.take(j),
                ).process_outcome(txs[j]).1,
            decreases txs.len() - i,
        {
            let ghost before = self@;
            let out = self.process(&txs[i]);
            r.push(out);
            proof {
                assert(txs@.skip(i as int).drop_first() =~= txs@.skip(i + 1));
                assert(txs@.skip(i as int)[0] == txs@[i as int]);
                lemma_replay_step(old(self)@, txs@, i as int);
            }
            i = i + 1;
        }
        proof {
            assert(txs@.skip(i as int) =~= Seq::<Tx>::empty());
            assert(txs@.take(i as int) =~= txs@);
        }
        r
    }
}

} // verus!
