use rust_decimal::Decimal;
use tx_engine::{Amount, Chargeback, ClientId, Deposit, Dispute, Resolve, TxErr, TxId, Withdraw};

fn dec(n: i64) -> Amount {
    let d = Decimal::from(n);
    Amount::from_parts(d.mantissa(), d.scale()).unwrap()
}

#[test]
fn deposit_positive_amount() {
    let tx_id = TxId::new(1);
    let client_id = ClientId::new(1);
    let amount = dec(5);

    let d = Deposit::new(tx_id, client_id, amount).unwrap();
    assert_eq!((d.id(), d.client(), d.amount()), (tx_id, client_id, amount));
}

#[test]
fn deposit_negative_amount() {
    assert!(matches!(
        Deposit::new(TxId::new(1), ClientId::new(1), dec(-5)),
        Err(TxErr::NegativeAmount)
    ));
}

#[test]
fn withdraw_positive_amount() {
    let tx_id = TxId::new(1);
    let client_id = ClientId::new(1);
    let amount = dec(5);

    let w = Withdraw::new(tx_id, client_id, amount).unwrap();
    assert_eq!((w.id(), w.client(), w.amount()), (tx_id, client_id, amount));
}

#[test]
fn withdraw_negative_amount() {
    assert!(matches!(
        Withdraw::new(TxId::new(1), ClientId::new(1), dec(-5)),
        Err(TxErr::NegativeAmount)
    ));
}

#[test]
fn zero_amount_is_accepted() {
    assert!(Deposit::new(TxId::new(1), ClientId::new(1), dec(0)).is_ok());
    assert!(Withdraw::new(TxId::new(1), ClientId::new(1), dec(0)).is_ok());
}

#[test]
fn deposit_stages_keep_identity() {
    let d = Deposit::new(TxId::new(9), ClientId::new(4), dec(12)).unwrap();
    let held = d.hold();
    assert_eq!((held.id(), held.client(), held.amount()), (TxId::new(9), ClientId::new(4), dec(12)));
    let back = held.release();
    assert_eq!((back.id(), back.client(), back.amount()), (TxId::new(9), ClientId::new(4), dec(12)));
    let reversed = back.hold().reverse();
    assert_eq!(
        (reversed.id(), reversed.client(), reversed.amount()),
        (TxId::new(9), ClientId::new(4), dec(12))
    );
}

#[test]
fn references_carry_ids() {
    let d = Dispute::new(TxId::new(3), ClientId::new(2));
    assert_eq!((d.id(), d.client()), (TxId::new(3), ClientId::new(2)));
    let r = Resolve::new(TxId::new(4), ClientId::new(5));
    assert_eq!((r.id(), r.client()), (TxId::new(4), ClientId::new(5)));
    let c = Chargeback::new(TxId::new(6), ClientId::new(7));
    assert_eq!((c.id(), c.client()), (TxId::new(6), ClientId::new(7)));
}

#[test]
fn amount_from_parts() {
    // 1.5 is 15000 ten-thousandths.
    assert_eq!(Amount::from_parts(15, 1).unwrap().units(), 15000);
    // 2.0001 at four places.
    assert_eq!(Amount::from_parts(20001, 4).unwrap().units(), 20001);
    // Trailing zeros past the fourth place are fine.
    assert_eq!(Amount::from_parts(-1234500, 6).unwrap().units(), -12345);
    // A fifth significant decimal place is not representable.
    assert_eq!(Amount::from_parts(123451, 5), None);
    // Zero at any scale.
    assert_eq!(Amount::from_parts(0, 100).unwrap().units(), 0);
    // Too large once scaled.
    assert_eq!(Amount::from_parts(i128::MAX, 0), None);
    assert_eq!(Amount::from_parts(i128::MIN, 44), None);
}

#[test]
fn amount_arithmetic() {
    let a = Amount::from_units(7);
    let b = Amount::from_units(5);
    assert_eq!(a.checked_add(&b).unwrap().units(), 12);
    assert_eq!(a.sub(&b).units(), 2);
    assert!(b.le(&a));
    assert!(!a.le(&b));
    assert!(Amount::from_units(-1).is_negative());
    assert_eq!(Amount::from_units(i128::MAX).checked_add(&Amount::from_units(1)), None);
}

#[test]
fn error_messages() {
    assert_eq!(TxErr::Duplicate.message(), "Duplicate transaction ID");
    assert_eq!(TxErr::Insufficient.message(), "Insufficient funds");
}
