use rust_decimal::Decimal;
use tx_engine::db::AccountSummary;
use tx_engine::{Amount, ClientId, Db, Tx, TxErr, TxId, TxType};

fn dec(n: i64) -> Amount {
    let d = Decimal::from(n);
    Amount::from_parts(d.mantissa(), d.scale()).unwrap()
}

fn dispute(tx: u32, client: u16) -> Tx {
    Tx::new_reference(TxType::Dispute, tx, client)
}

fn resolve(tx: u32, client: u16) -> Tx {
    Tx::new_reference(TxType::Resolve, tx, client)
}

fn chargeback(tx: u32, client: u16) -> Tx {
    Tx::new_reference(TxType::Chargeback, tx, client)
}

fn summary(db: &Db, client: u16) -> AccountSummary {
    db.summary(ClientId::new(client)).unwrap()
}

#[test]
fn valid_transactions() {
    let mut db = Db::new();
    assert_eq!(db.process(&Tx::new_deposit(5, 1, dec(5))), Ok(()));
    assert_eq!(db.process(&Tx::new_deposit(4, 1, dec(5))), Ok(()));
    assert_eq!(db.process(&Tx::new_deposit(3, 2, dec(5))), Ok(()));
    assert_eq!(db.process(&Tx::new_withdraw(2, 1, dec(10))), Ok(()));
    assert_eq!(db.process(&Tx::new_withdraw(1, 2, dec(5))), Ok(()));
}

#[test]
fn duplicate_tx_id() {
    let mut db = Db::new();
    assert_eq!(db.process(&Tx::new_deposit(4, 1, dec(5))), Ok(()));
    assert_eq!(db.process(&Tx::new_withdraw(4, 1, dec(5))), Err(TxErr::Duplicate));
}

#[test]
fn invalid_withdraw() {
    let mut db = Db::new();
    assert_eq!(db.process(&Tx::new_deposit(5, 1, dec(5))), Ok(()));
    assert_eq!(db.process(&Tx::new_deposit(4, 1, dec(5))), Ok(()));
    assert_eq!(db.process(&Tx::new_deposit(3, 2, dec(5))), Ok(()));
    assert_eq!(db.process(&Tx::new_withdraw(2, 1, dec(15))), Err(TxErr::Insufficient));
    assert_eq!(db.process(&Tx::new_withdraw(1, 2, dec(5))), Ok(()));
}

#[test]
fn scenario_deposits_then_withdrawal() {
    let mut db = Db::new();
    assert_eq!(db.process(&Tx::new_deposit(1, 1, dec(5))), Ok(()));
    assert_eq!(db.process(&Tx::new_deposit(2, 1, dec(5))), Ok(()));
    assert_eq!(db.process(&Tx::new_withdraw(3, 1, dec(6))), Ok(()));
    let s = summary(&db, 1);
    assert_eq!(s.available, dec(4));
    assert_eq!(s.held, dec(0));
    assert_eq!(s.total, dec(4));
    assert!(!s.locked);
}

#[test]
fn scenario_duplicate_deposit() {
    let mut db = Db::new();
    assert_eq!(db.process(&Tx::new_deposit(1, 1, dec(5))), Ok(()));
    assert_eq!(db.process(&Tx::new_deposit(1, 1, dec(5))), Err(TxErr::Duplicate));
    assert_eq!(summary(&db, 1).available, dec(5));
}

#[test]
fn scenario_withdrawal_insufficient() {
    let mut db = Db::new();
    assert_eq!(db.process(&Tx::new_deposit(1, 1, dec(5))), Ok(()));
    assert_eq!(db.process(&Tx::new_withdraw(2, 1, dec(10))), Err(TxErr::Insufficient));
    assert_eq!(summary(&db, 1).available, dec(5));
}

#[test]
fn scenario_dispute_then_resolve() {
    let mut db = Db::new();
    assert_eq!(db.process(&Tx::new_deposit(1, 1, dec(5))), Ok(()));
    assert_eq!(db.process(&dispute(1, 1)), Ok(()));
    let s = summary(&db, 1);
    assert_eq!((s.available, s.held), (dec(0), dec(5)));
    assert_eq!(db.process(&resolve(1, 1)), Ok(()));
    let s = summary(&db, 1);
    assert_eq!((s.available, s.held), (dec(5), dec(0)));
}

#[test]
fn scenario_chargeback_locks() {
    let mut db = Db::new();
    assert_eq!(db.process(&Tx::new_deposit(1, 1, dec(5))), Ok(()));
    assert_eq!(db.process(&dispute(1, 1)), Ok(()));
    assert_eq!(db.process(&chargeback(1, 1)), Ok(()));
    let s = summary(&db, 1);
    assert_eq!((s.available, s.held, s.total), (dec(0), dec(0), dec(0)));
    assert!(s.locked);
    assert_eq!(db.process(&Tx::new_deposit(2, 1, dec(1))), Err(TxErr::AccessLocked));
}

#[test]
fn scenario_dispute_without_deposit() {
    let mut db = Db::new();
    assert_eq!(db.process(&dispute(99, 1)), Err(TxErr::AccessUnavailable));
    assert!(db.summary(ClientId::new(1)).is_none());
    assert!(db.accounts().is_empty());
    // With an account but no such deposit.
    assert_eq!(db.process(&Tx::new_deposit(1, 1, dec(5))), Ok(()));
    assert_eq!(db.process(&dispute(99, 1)), Err(TxErr::MissingTxForClient));
}

#[test]
fn locked_account_refuses_everything() {
    let mut db = Db::new();
    assert_eq!(db.process(&Tx::new_deposit(1, 1, dec(5))), Ok(()));
    assert_eq!(db.process(&Tx::new_deposit(2, 1, dec(3))), Ok(()));
    assert_eq!(db.process(&dispute(1, 1)), Ok(()));
    assert_eq!(db.process(&chargeback(1, 1)), Ok(()));
    let before = db.accounts();
    assert_eq!(db.process(&Tx::new_deposit(3, 1, dec(1))), Err(TxErr::AccessLocked));
    assert_eq!(db.process(&Tx::new_withdraw(4, 1, dec(1))), Err(TxErr::AccessLocked));
    assert_eq!(db.process(&dispute(2, 1)), Err(TxErr::AccessLocked));
    assert_eq!(db.process(&resolve(1, 1)), Err(TxErr::AccessLocked));
    assert_eq!(db.process(&chargeback(1, 1)), Err(TxErr::AccessLocked));
    assert_eq!(db.accounts(), before);
    assert!(db.get_account(ClientId::new(1)).is_none());
    assert_eq!(db.get_locked_account(ClientId::new(1)).unwrap().available(), dec(3));
}

#[test]
fn used_id_refused_after_other_records() {
    let mut db = Db::new();
    assert_eq!(db.process(&Tx::new_deposit(1, 1, dec(5))), Ok(()));
    assert_eq!(db.process(&dispute(1, 1)), Ok(()));
    assert_eq!(db.process(&resolve(1, 1)), Ok(()));
    assert_eq!(db.process(&Tx::new_withdraw(2, 1, dec(1))), Ok(()));
    assert_eq!(db.process(&Tx::new_deposit(2, 2, dec(5))), Err(TxErr::Duplicate));
    assert_eq!(db.process(&Tx::new_withdraw(1, 1, dec(1))), Err(TxErr::Duplicate));
    // A refused withdrawal does not use its identifier up.
    assert_eq!(db.process(&Tx::new_withdraw(3, 1, dec(100))), Err(TxErr::Insufficient));
    assert_eq!(db.process(&Tx::new_withdraw(3, 1, dec(1))), Ok(()));
}

#[test]
fn balances_stay_consistent() {
    let mut db = Db::new();
    let records = vec![
        Tx::new_deposit(1, 1, dec(10)),
        Tx::new_deposit(2, 1, dec(7)),
        dispute(2, 1),
        Tx::new_withdraw(3, 1, dec(4)),
        dispute(1, 1),
        resolve(2, 1),
        chargeback(2, 1),
    ];
    let results = db.process_all(&records);
    assert_eq!(
        results,
        vec![Ok(()), Ok(()), Ok(()), Ok(()), Err(TxErr::Insufficient), Ok(()), Err(TxErr::MissingTxForClient)]
    );
    for s in db.accounts() {
        assert!(!s.available.is_negative());
        assert!(!s.held.is_negative());
        assert_eq!(s.total, s.available.checked_add(&s.held).unwrap());
    }
    let s = summary(&db, 1);
    assert_eq!((s.available, s.held, s.total), (dec(13), dec(0), dec(13)));
}

#[test]
fn replay_twice_gives_same_snapshot() {
    let records = vec![
        Tx::new_deposit(1, 3, dec(5)),
        Tx::new_deposit(2, 1, dec(9)),
        Tx::new_withdraw(3, 3, dec(2)),
        dispute(2, 1),
        Tx::new_deposit(4, 2, dec(1)),
        chargeback(2, 1),
        Tx::new_deposit(1, 2, dec(5)),
    ];
    let mut first = Db::new();
    let r1 = first.process_all(&records);
    let mut second = Db::new();
    let r2 = second.process_all(&records);
    assert_eq!(r1, r2);
    let a = first.accounts();
    assert_eq!(a, second.accounts());
    let clients: Vec<u16> = a.iter().map(|s| s.client).collect();
    assert_eq!(clients, vec![1, 2, 3]);
}

#[test]
fn amount_presence_is_checked() {
    let mut db = Db::new();
    let no_amount = Tx::new_reference(TxType::Deposit, 1, 1);
    assert_eq!(db.process(&no_amount), Err(TxErr::MissingAmount));
    let no_amount = Tx::new_reference(TxType::Withdrawal, 1, 1);
    assert_eq!(db.process(&no_amount), Err(TxErr::MissingAmount));
    assert_eq!(db.process(&Tx::new_deposit(1, 1, dec(5))), Ok(()));
    let mut with_amount = dispute(1, 1);
    with_amount.amount = Some(dec(5));
    assert_eq!(db.process(&with_amount), Err(TxErr::ExtraneousAmount));
    assert_eq!(summary(&db, 1).held, dec(0));
}

#[test]
fn negative_amounts_rejected_by_ledger() {
    let mut db = Db::new();
    assert_eq!(db.process(&Tx::new_deposit(1, 1, dec(-5))), Err(TxErr::NegativeAmount));
    assert!(db.accounts().is_empty());
    assert_eq!(db.process(&Tx::new_deposit(1, 1, dec(5))), Ok(()));
    assert_eq!(db.process(&Tx::new_withdraw(2, 1, dec(-1))), Err(TxErr::NegativeAmount));
}

#[test]
fn withdrawal_without_account() {
    let mut db = Db::new();
    assert_eq!(db.process(&Tx::new_withdraw(1, 8, dec(0))), Err(TxErr::AccessUnavailable));
    assert!(db.accounts().is_empty());
}

#[test]
fn ledger_overflow() {
    let mut db = Db::new();
    assert_eq!(db.deposit(TxId::new(1), ClientId::new(1), Amount::from_units(i128::MAX)), Ok(()));
    assert_eq!(db.deposit(TxId::new(2), ClientId::new(1), Amount::from_units(1)), Err(TxErr::Overflow));
    // The refused identifier stays free.
    assert_eq!(db.deposit(TxId::new(2), ClientId::new(2), Amount::from_units(1)), Ok(()));
}

#[test]
fn direct_operations() {
    let mut db = Db::new();
    let c = ClientId::new(5);
    assert_eq!(db.deposit(TxId::new(1), c, dec(4)), Ok(()));
    assert_eq!(db.dispute(TxId::new(1), c), Ok(()));
    assert_eq!(db.resolve(TxId::new(1), c), Ok(()));
    assert_eq!(db.withdraw(TxId::new(2), c, dec(1)), Ok(()));
    assert_eq!(db.dispute(TxId::new(1), c), Err(TxErr::Insufficient));
    assert_eq!(db.chargeback(TxId::new(1), c), Err(TxErr::MissingTxForClient));
    assert_eq!(db.get_account(c).unwrap().available(), dec(3));
}
