//! What holds of the ledger over any sequence of records.
use crate::account::{
    lemma_chargeback_keeps_valid, lemma_deposit_keeps_valid, lemma_dispute_keeps_valid,
    lemma_resolve_keeps_valid, lemma_withdraw_keeps_valid, AccountView,
};
use crate::amount::lemma_view_injective;
use crate::db::{lemma_file_account, lemma_push_keeps, AccountSummary, DbView};
use crate::sum::lemma_sum_empty;
use crate::err::TxErr;
use crate::tx::{Tx, TxType};
use vstd::prelude::*;

verus! {

/// One record never takes an identifier out of the used ones, and leaves a
/// locked account locked and as it was.
proof fn lemma_step_keeps(s: DbView, tx: Tx)
    ensures
        forall|k: u32| s.seen.contains(k) ==> #[trigger] s.process_outcome(tx).0.seen.contains(k),
        forall|c: u16|
            s.locked.contains_key(c) ==> #[trigger] s.process_outcome(tx).0.locked.contains_key(c)
                && s.process_outcome(tx).0.locked[c] == s.locked[c],
{
    let t = s.process_outcome(tx).0;
    assert(t.seen == s.seen || t.seen == s.seen.push(tx.tx));
    assert forall|k: u32| s.seen.contains(k) implies #[trigger] t.seen.contains(k) by {
        if t.seen != s.seen {
            let i = choose|i: int| 0 <= i < s.seen.len() && s.seen[i] == k;
            assert(t.seen[i] == k);
        }
    }
    assert(t.locked == s.locked || (!s.locked.contains_key(tx.client) && t.locked == s.locked.insert(
        tx.client,
        s.active[tx.client].chargeback_outcome(tx.tx).0,
    )));
    assert forall|c: u16| s.locked.contains_key(c) implies #[trigger] t.locked.contains_key(c)
        && t.locked[c] == s.locked[c] by {
        if t.locked != s.locked {
            assert(c != tx.client);
        }
    }
    assert(forall|k: u32| s.seen.contains(k) ==> #[trigger] s.process_outcome(tx).0.seen.contains(k));
}

/// What a replay keeps: used identifiers stay used, and locked accounts stay
/// locked and unchanged.
proof fn lemma_replay_keeps(s: DbView, txs: Seq<Tx>)
    ensures
        forall|k: u32| s.seen.contains(k) ==> #[trigger] s.replay(txs).seen.contains(k),
        forall|c: u16|
            s.locked.contains_key(c) ==> #[trigger] s.replay(txs).locked.contains_key(c)
                && s.replay(txs).locked[c] == s.locked[c],
    decreases txs.len(),
{
    if txs.len() > 0 {
        let s1 = s.process_outcome(txs[0]).0;
        lemma_step_keeps(s, txs[0]);
        lemma_replay_keeps(s1, txs.drop_first());
        assert(s.replay(txs) == s1.replay(txs.drop_first()));
        assert forall|k: u32| s.seen.contains(k) implies #[trigger] s.replay(txs).seen.contains(k) by {
            assert(s1.seen.contains(k));
        }
        assert forall|c: u16| s.locked.contains_key(c) implies #[trigger] s.replay(
            txs,
        ).locked.contains_key(c) && s.replay(txs).locked[c] == s.locked[c] by {
            assert(s1.locked.contains_key(c));
        }
    } else {
        assert(s.replay(txs) == s);
    }
}

/// A new account is valid.
proof fn lemma_opened_valid(c: u16)
    ensures
        AccountView::opened(c).valid(),
        forall|k: u32| !(#[trigger] AccountView::opened(c).has_tx(k)),
{
    lemma_sum_empty(Map::<u32, int>::empty());
}

/// Every record keeps the ledger valid: in every account, at all times, the
/// available and held funds are non-negative, the total is their sum, the
/// held funds are exactly the deposits under dispute, and no deposit is in
/// two stages at once.
pub proof fn lemma_process_keeps_valid(s: DbView, tx: Tx)
    requires
        s.valid(),
    ensures
        s.process_outcome(tx).0.valid(),
{
    let c = tx.client;
    let id = tx.tx;
    match tx.typ {
        TxType::Deposit => {
            if let Some(amount) = tx.amount {
                if s.deposit_outcome(id, c, amount@).1 is Ok {
                    let a = s.account_or_new(c);
                    lemma_opened_valid(c);
                    if s.active.contains_key(c) {
                        assert(!a.has_tx(id));
                    }
                    lemma_deposit_keeps_valid(a, id, amount@);
                    lemma_push_keeps(s.seen, id);
                    let a2 = a.deposit_outcome(id, amount@).0;
                    assert forall|k: u32| #[trigger] a2.has_tx(k) implies s.seen.push(id).contains(k) by {
                        if k != id {
                            assert(a.has_tx(k));
                        }
                    }
                    lemma_file_account(s, c, a2, s.seen.push(id));
                }
            }
        },
        TxType::Withdrawal => {
            if let Some(amount) = tx.amount {
                if s.withdraw_outcome(id, c, amount@).1 is Ok {
                    let a = s.active[c];
                    assert(!a.has_tx(id));
                    lemma_withdraw_keeps_valid(a, id, amount@);
                    lemma_push_keeps(s.seen, id);
                    let a2 = a.withdraw_outcome(id, amount@).0;
                    assert forall|k: u32| #[trigger] a2.has_tx(k) implies s.seen.push(id).contains(k) by {
                        if k != id {
                            assert(a.has_tx(k));
                        }
                    }
                    lemma_file_account(s, c, a2, s.seen.push(id));
                }
            }
        },
        TxType::Dispute => {
            if tx.amount is None && s.access(c) is Ok {
                let a = s.active[c];
                lemma_dispute_keeps_valid(a, id);
                lemma_file_account(s, c, a.dispute_outcome(id).0, s.seen);
            }
        },
        TxType::Resolve => {
            if tx.amount is None && s.access(c) is Ok {
                let a = s.active[c];
                lemma_resolve_keeps_valid(a, id);
                lemma_file_account(s, c, a.resolve_outcome(id).0, s.seen);
            }
        },
        TxType::Chargeback => {
            if tx.amount is None && s.access(c) is Ok {
                let a = s.active[c];
                lemma_chargeback_keeps_valid(a, id);
                let v = s.chargeback_outcome(id, c).0;
                if s.chargeback_outcome(id, c).1 is Ok {
                    assert forall|d: u16, k: u32|
                        v.locked.contains_key(d) && #[trigger] v.locked[d].has_tx(k)
                            implies v.seen.contains(k) by {
                        if d != c {
                            assert(s.locked[d].has_tx(k));
                        } else {
                            assert(a.has_tx(k));
                        }
                    }
                    assert forall|d: u16, k: u32|
                        v.active.contains_key(d) && #[trigger] v.active[d].has_tx(k)
                            implies v.seen.contains(k) by {
                        assert(s.active[d].has_tx(k));
                    }
                }
            }
        },
    }
}

/// Replaying any records keeps a valid ledger valid.
pub proof fn lemma_replay_keeps_valid(s: DbView, txs: Seq<Tx>)
    requires
        s.valid(),
    ensures
        s.replay(txs).valid(),
    decreases txs.len(),
{
    if txs.len() > 0 {
        lemma_process_keeps_valid(s, txs[0]);
        lemma_replay_keeps_valid(s.process_outcome(txs[0]).0, txs.drop_first());
    }
}

/// An identifier that a deposit or withdrawal used can never be used again
/// by a later deposit or withdrawal, whatever came between: the later one
/// is refused, as a duplicate where its amount is valid, and changes nothing.
pub proof fn lemma_used_id_is_refused(s: DbView, first: Tx, between: Seq<Tx>, later: Tx)
    requires
        first.typ == TxType::Deposit || first.typ == TxType::Withdrawal,
        s.process_outcome(first).1 is Ok,
        later.typ == TxType::Deposit || later.typ == TxType::Withdrawal,
        later.tx == first.tx,
    ensures
        ({
            let t = s.process_outcome(first).0.replay(between);
            let (u, r) = t.process_outcome(later);
            &&& u == t
            &&& r is Err
            &&& (later.amount matches Some(a) && a@ >= 0) ==> r == Err::<(), TxErr>(TxErr::Duplicate)
        }),
{
    let s1 = s.process_outcome(first).0;
    assert(s1.seen.contains(first.tx)) by {
        assert(s1.seen == s.seen.push(first.tx));
        assert(s1.seen[s.seen.len() as int] == first.tx);
    }
    lemma_replay_keeps(s1, between);
}

/// Once an account is locked, no later record that names its client
/// succeeds or changes anything, whatever came between, and the account
/// stays locked as it was.
pub proof fn lemma_locked_is_terminal(s: DbView, between: Seq<Tx>, later: Tx)
    requires
        s.locked.contains_key(later.client),
    ensures
        ({
            let t = s.replay(between);
            let (u, r) = t.process_outcome(later);
            &&& t.locked.contains_key(later.client)
            &&& t.locked[later.client] == s.locked[later.client]
            &&& u == t
            &&& r is Err
        }),
{
    lemma_replay_keeps(s, between);
    assert(s.replay(between).locked.contains_key(later.client));
}

spec fn names(r: Seq<AccountSummary>, c: u16) -> bool {
    exists|i: int| 0 <= i < r.len() && r[i].client == c
}

spec fn increasing(r: Seq<AccountSummary>) -> bool {
    forall|i: int, j: int| 0 <= i < j < r.len() ==> r[i].client < r[j].client
}

/// Two strictly increasing lists that name the same clients name them in
/// the same places.
proof fn lemma_same_clients(r1: Seq<AccountSummary>, r2: Seq<AccountSummary>)
    requires
        increasing(r1),
        increasing(r2),
        forall|c: u16| names(r1, c) <==> names(r2, c),
    ensures
        r1.len() == r2.len(),
        forall|i: int| 0 <= i < r1.len() ==> r1[i].client == r2[i].client,
    decreases r1.len(),
{
    if r1.len() == 0 {
        if r2.len() > 0 {
            assert(names(r2, r2[0].client));
        }
    } else if r2.len() == 0 {
        assert(names(r1, r1[0].client));
    } else {
        assert(names(r1, r1[0].client));
        assert(names(r2, r2[0].client));
        let j = choose|j: int| 0 <= j < r2.len() && r2[j].client == r1[0].client;
        let i = choose|i: int| 0 <= i < r1.len() && r1[i].client == r2[0].client;
        assert(r1[0].client == r2[0].client);
        let t1 = r1.drop_first();
        let t2 = r2.drop_first();
        assert forall|c: u16| names(t1, c) <==> names(t2, c) by {
            if names(t1, c) {
                let a = choose|a: int| 0 <= a < t1.len() && t1[a].client == c;
                assert(r1[a + 1].client == c);
                assert(names(r1, c));
                let b = choose|b: int| 0 <= b < r2.len() && r2[b].client == c;
                assert(b != 0);
                assert(t2[b - 1].client == c);
            }
            if names(t2, c) {
                let b = choose|b: int| 0 <= b < t2.len() && t2[b].client == c;
                assert(r2[b + 1].client == c);
                assert(names(r2, c));
                let a = choose|a: int| 0 <= a < r1.len() && r1[a].client == c;
                assert(a != 0);
                assert(t1[a - 1].client == c);
            }
        }
        lemma_same_clients(t1, t2);
        assert forall|i: int| 0 <= i < r1.len() implies r1[i].client == r2[i].client by {
            if i > 0 {
                assert(r1[i] == t1[i - 1]);
                assert(r2[i] == t2[i - 1]);
            }
        }
    }
}

/// A valid ledger has one snapshot only: two lists of summaries that both
/// report every account once, by increasing client, are the same list.
pub proof fn lemma_snapshot_unique(v: DbView, r1: Seq<AccountSummary>, r2: Seq<AccountSummary>)
    requires
        v.valid(),
        v.is_snapshot(r1),
        v.is_snapshot(r2),
    ensures
        r1 == r2,
{
    assert forall|c: u16| names(r1, c) <==> names(r2, c) by {
        if names(r1, c) {
            let i = choose|i: int| 0 <= i < r1.len() && r1[i].client == c;
            assert(v.reported_by(r1[i]));
            assert(v.has_account(c));
        }
        if names(r2, c) {
            let i = choose|i: int| 0 <= i < r2.len() && r2[i].client == c;
            assert(v.reported_by(r2[i]));
            assert(v.has_account(c));
        }
    }
    lemma_same_clients(r1, r2);
    assert forall|i: int| 0 <= i < r1.len() implies r1[i] == r2[i] by {
        let a = r1[i];
        let b = r2[i];
        assert(v.reported_by(a));
        assert(v.reported_by(b));
        assert(!(v.active.contains_key(a.client) && v.locked.contains_key(a.client)));
        lemma_view_injective(a.available, b.available);
        lemma_view_injective(a.held, b.held);
        lemma_view_injective(a.total, b.total);
    }
    assert(r1 =~= r2);
}

/// Replaying the same records twice from an empty ledger gives the same
/// final snapshot.
pub proof fn lemma_replay_reproducible(txs: Seq<Tx>, r1: Seq<AccountSummary>, r2: Seq<AccountSummary>)
    requires
        DbView::empty().replay(txs).is_snapshot(r1),
        DbView::empty().replay(txs).is_snapshot(r2),
    ensures
        r1 == r2,
{
    lemma_replay_keeps_valid(DbView::empty(), txs);
    lemma_snapshot_unique(DbView::empty().replay(txs), r1, r2);
}

} // verus!
