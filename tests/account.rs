use rust_decimal::Decimal;
use tx_engine::{Account, Amount, ClientId, Deposit, TxErr, TxId, Withdraw};

fn dec(n: i64) -> Amount {
    let d = Decimal::from(n);
    Amount::from_parts(d.mantissa(), d.scale()).unwrap()
}

#[test]
fn deposits_withdraws() {
    let client = ClientId::new(1);
    let mut account = Account::new(client);

    let tx = Deposit::new(TxId::new(1), client, dec(5)).unwrap();
    assert_eq!(account.deposit(tx), Ok(()));
    assert_eq!(account.total(), dec(5));
    assert_eq!(account.available(), dec(5));
    assert_eq!(account.held(), dec(0));

    let tx = Deposit::new(TxId::new(2), client, dec(5)).unwrap();
    assert_eq!(account.deposit(tx), Ok(()));
    assert_eq!(account.total(), dec(10));
    assert_eq!(account.available(), dec(10));
    assert_eq!(account.held(), dec(0));

    let tx = Withdraw::new(TxId::new(3), client, dec(6)).unwrap();
    assert_eq!(account.withdraw(tx), Ok(()));
    assert_eq!(account.total(), dec(4));
    assert_eq!(account.available(), dec(4));
    assert_eq!(account.held(), dec(0));
}

#[test]
fn account_withdraw_more_than_available() {
    let client = ClientId::new(7);
    let mut account = Account::new(client);
    let tx = Deposit::new(TxId::new(1), client, dec(5)).unwrap();
    assert_eq!(account.deposit(tx), Ok(()));
    let tx = Withdraw::new(TxId::new(2), client, dec(10)).unwrap();
    assert_eq!(account.withdraw(tx), Err(TxErr::Insufficient));
    assert_eq!(account.available(), dec(5));
}

#[test]
fn account_deposit_overflow() {
    let client = ClientId::new(3);
    let mut account = Account::new(client);
    let big = Amount::from_units(i128::MAX);
    let tx = Deposit::new(TxId::new(1), client, big).unwrap();
    assert_eq!(account.deposit(tx), Ok(()));
    let tx = Deposit::new(TxId::new(2), client, Amount::from_units(1)).unwrap();
    assert_eq!(account.deposit(tx), Err(TxErr::Overflow));
    assert_eq!(account.available(), big);
    assert_eq!(account.total(), big);
}

#[test]
fn account_dispute_resolve_chargeback() {
    let client = ClientId::new(1);
    let mut account = Account::new(client);
    let tx = Deposit::new(TxId::new(1), client, dec(5)).unwrap();
    assert_eq!(account.deposit(tx), Ok(()));
    let tx = Deposit::new(TxId::new(2), client, dec(3)).unwrap();
    assert_eq!(account.deposit(tx), Ok(()));

    assert_eq!(account.dispute(tx_engine::Dispute::new(TxId::new(1), client)), Ok(()));
    assert_eq!(account.available(), dec(3));
    assert_eq!(account.held(), dec(5));
    assert_eq!(account.total(), dec(8));

    // A deposit under dispute cannot be disputed again.
    assert_eq!(
        account.dispute(tx_engine::Dispute::new(TxId::new(1), client)),
        Err(TxErr::MissingTxForClient)
    );
    // A deposit in normal standing cannot be resolved.
    assert_eq!(
        account.resolve(tx_engine::Resolve::new(TxId::new(2), client)),
        Err(TxErr::MissingTxForClient)
    );

    assert_eq!(account.resolve(tx_engine::Resolve::new(TxId::new(1), client)), Ok(()));
    assert_eq!(account.available(), dec(8));
    assert_eq!(account.held(), dec(0));

    assert_eq!(account.dispute(tx_engine::Dispute::new(TxId::new(2), client)), Ok(()));
    let account = match account.chargeback(tx_engine::Chargeback::new(TxId::new(1), client)) {
        Ok(_) => panic!("deposit 1 is not under dispute"),
        Err((same, e)) => {
            assert_eq!(e, TxErr::MissingTxForClient);
            same
        }
    };
    let locked = match account.chargeback(tx_engine::Chargeback::new(TxId::new(2), client)) {
        Ok(locked) => locked,
        Err(_) => panic!("deposit 2 is under dispute"),
    };
    assert_eq!(locked.available(), dec(5));
    assert_eq!(locked.held(), dec(0));
    assert_eq!(locked.total(), dec(5));
    assert_eq!(locked.id(), client);
}

#[test]
fn account_dispute_after_withdrawal_is_insufficient() {
    let client = ClientId::new(1);
    let mut account = Account::new(client);
    let tx = Deposit::new(TxId::new(1), client, dec(5)).unwrap();
    assert_eq!(account.deposit(tx), Ok(()));
    let tx = Withdraw::new(TxId::new(2), client, dec(4)).unwrap();
    assert_eq!(account.withdraw(tx), Ok(()));
    assert_eq!(
        account.dispute(tx_engine::Dispute::new(TxId::new(1), client)),
        Err(TxErr::Insufficient)
    );
    assert_eq!(account.available(), dec(1));
    assert_eq!(account.held(), dec(0));
}
