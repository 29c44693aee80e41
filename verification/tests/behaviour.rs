use std::collections::HashMap;

use payment_engine::txn::process_transaction;
use payment_engine::types::{AccountBalances, Transaction, TransactionType as RecordType};
use payment_engine::{
    parse_amt, AccountError, Amt, ClientAccount, ClientAccountBalance, ProcessedTransaction,
    TransactionEngine, TransactionError, TransactionInput, TransactionStatus, TransactionType,
};

fn tx(tx_type: TransactionType, client_id: u16, tx_id: u32, amt: Option<i128>) -> TransactionInput {
    TransactionInput { tx_type, client_id, tx_id, amt: amt.map(Amt::from) }
}

#[test]
fn text_round_trip_of_many_values() {
    let values: [i128; 14] = [
        0,
        1,
        -1,
        9,
        10,
        9999,
        10000,
        10001,
        -123456789,
        12340,
        i128::MAX,
        -i128::MAX,
        i128::MAX / 10000 * 10000,
        -(i128::MAX / 10000),
    ];
    for v in values {
        let text = Amt::from(v).to_string();
        assert_eq!(parse_amt(&text), Ok(Amt::from(v)), "failed for {v}");
    }
}

#[test]
fn text_of_amounts() {
    assert_eq!(Amt::from(-5).to_string(), "-0.0005");
    assert_eq!(Amt::from(5).to_string(), "0.0005");
    assert_eq!(Amt::from(50).to_string(), "0.005");
    assert_eq!(Amt::from(120000).to_string(), "12.0");
    assert_eq!(Amt::from(1234567).to_string(), "123.4567");
    assert_eq!(Amt::max().to_string(), "17014118346046923173168730371588410.5727");
    assert_eq!(Amt::new().to_string(), "0.0");
}

#[test]
fn parse_error_messages() {
    assert_eq!(parse_amt(""), Err("empty string"));
    assert_eq!(parse_amt(" \t "), Err("empty string"));
    assert_eq!(parse_amt("1."), Err("empty fractional part"));
    assert_eq!(parse_amt(".5"), Err("invalid integer part"));
    assert_eq!(parse_amt("-"), Err("invalid integer part"));
    assert_eq!(parse_amt("1.2.3"), Err("invalid fractional part"));
    assert_eq!(parse_amt("1.23456"), Err("invalid fractional part"));
    assert_eq!(parse_amt("170141183460469231731687303715884105728"), Err("integer overflow"));
    assert_eq!(parse_amt("17014118346046923173168730371588410.5728"), Err("value overflow"));
    assert_eq!(
        parse_amt("17014118346046923173168730371588410.5727"),
        Ok(Amt::max())
    );
    assert_eq!(
        parse_amt("-17014118346046923173168730371588410.5727"),
        Ok(Amt::from(-i128::MAX))
    );
}

#[test]
fn parse_trims_unicode_white_space() {
    assert_eq!(parse_amt("\u{3000} 1.5\u{2028}\n"), Ok(Amt::from(15000)));
    assert_eq!(parse_amt("1 .5"), Err("invalid integer part"));
    assert_eq!(parse_amt("\u{200b}1"), Err("invalid integer part"));
}

#[test]
fn parse_white_space_agrees_with_char_is_whitespace() {
    for code in 0u32..0x11_0000 {
        if let Some(c) = char::from_u32(code) {
            let text = format!("{c}7");
            let expected = if c.is_whitespace() || c.is_ascii_digit() {
                true
            } else {
                c == '+' || c == '-'
            };
            assert_eq!(parse_amt(&text).is_ok(), expected, "failed for U+{code:04X}");
        }
    }
}

#[test]
fn checked_arithmetic() {
    assert_eq!(Amt::from(2).checked_add(Amt::from(3)), Some(Amt::from(5)));
    assert_eq!(Amt::max().checked_add(Amt::from(1)), None);
    assert_eq!(Amt::from(i128::MIN).checked_add(Amt::from(-1)), None);
    assert_eq!(Amt::from(2).checked_sub(Amt::from(3)), Some(Amt::from(-1)));
    assert_eq!(Amt::from(i128::MIN).checked_sub(Amt::from(1)), None);
    assert!(Amt::from(-1).is_negative());
    assert!(!Amt::from(0).is_negative());
    assert_eq!(Amt::SCALE, 10_000);
}

#[test]
fn reported_total_saturates() {
    let mut acc = ClientAccount::new(3);
    acc.available = Amt::from(7);
    acc.held = Amt::from(5);
    assert_eq!(acc.reported_total(), Amt::from(12));
    acc.available = Amt::max();
    assert_eq!(acc.reported_total(), Amt::max());
}

#[test]
fn constructors() {
    let b = ClientAccountBalance::new(4);
    assert_eq!((b.id, b.available, b.held, b.total, b.locked), (4, Amt::new(), Amt::new(), Amt::new(), false));
    let p = ProcessedTransaction::new(2, Amt::from(9));
    assert_eq!((p.client_id, p.amt, p.status), (2, Amt::from(9), TransactionStatus::Normal));
    let a = ClientAccount::new(8);
    assert_eq!((a.id, a.available, a.held, a.locked), (8, Amt::new(), Amt::new(), false));
}

#[test]
fn error_messages() {
    assert_eq!(AccountError::AvailableOverflow.message(), "overflows available funds");
    assert_eq!(AccountError::HeldOverflow.message(), "overflows held funds");
    assert_eq!(AccountError::NotEnoughHeld.message(), "not enough funds held");
    assert_eq!(AccountError::NotEnoughAvailable.message(), "not enough funds available");
    assert_eq!(AccountError::AccountLocked.message(), "account is locked");
    assert_eq!(
        TransactionError::AccountError(AccountError::AccountLocked).to_string(),
        "account error: account is locked"
    );
    assert_eq!(TransactionError::DuplicatedTransactionId.to_string(), "duplicated transaction id");
    assert_eq!(TransactionError::AmtMissing.to_string(), "amt missing");
    assert_eq!(TransactionError::AmtPresent.to_string(), "amt present");
    assert_eq!(
        TransactionError::NegativeAmtValue.to_string(),
        "amt value negative (only positive values allowed)"
    );
    assert_eq!(
        TransactionError::TransactionIdNotExistent.to_string(),
        "transaction id referred to not existent"
    );
    assert_eq!(TransactionError::TransactionNotDisputed.to_string(), "transaction is not disputed");
    assert_eq!(
        TransactionError::TransactionNotDisputable.to_string(),
        "transaction is not disputable"
    );
    assert_eq!(TransactionError::ClientIdMismatch.to_string(), "client id mismatch");
    let mut v: Vec<u8> = Vec::new();
    let e = v.try_reserve(usize::MAX).unwrap_err();
    let text = TransactionError::NotEnoughMemoryAvailable(e).to_string();
    assert!(text.starts_with("error trying to reserve space for internal states: "));
    assert!(text.len() > "error trying to reserve space for internal states: ".len());
}

#[test]
fn locked_account_is_frozen() {
    let mut engine = TransactionEngine::default();
    engine.process_transaction(tx(TransactionType::Deposit, 1, 1, Some(500))).unwrap();
    engine.process_transaction(tx(TransactionType::Deposit, 1, 2, Some(300))).unwrap();
    engine.process_transaction(tx(TransactionType::Dispute, 1, 1, None)).unwrap();
    engine.process_transaction(tx(TransactionType::Chargeback, 1, 1, None)).unwrap();
    let acc = engine.get_account_balances().get(&1).unwrap();
    assert_eq!((acc.available, acc.held, acc.locked), (Amt::from(300), Amt::from(0), true));
    let attempts = [
        (tx(TransactionType::Deposit, 1, 3, Some(1)), TransactionError::AccountError(AccountError::AccountLocked)),
        (tx(TransactionType::Withdrawal, 1, 4, Some(1)), TransactionError::AccountError(AccountError::AccountLocked)),
        (tx(TransactionType::Dispute, 1, 2, None), TransactionError::AccountError(AccountError::AccountLocked)),
        (tx(TransactionType::Resolve, 1, 2, None), TransactionError::TransactionNotDisputed),
        (tx(TransactionType::Chargeback, 1, 2, None), TransactionError::TransactionNotDisputed),
    ];
    for (attempt, expected) in attempts {
        assert_eq!(engine.process_transaction(attempt), Err(expected));
    }
    let acc = engine.get_account_balances().get(&1).unwrap();
    assert_eq!((acc.available, acc.held, acc.locked), (Amt::from(300), Amt::from(0), true));
    assert_eq!(engine.get_deposits().len(), 2);
    assert_eq!(engine.get_deposits().get(&2).unwrap().status, TransactionStatus::Normal);
}

#[test]
fn resolve_undoes_dispute() {
    let mut engine = TransactionEngine::default();
    engine.process_transaction(tx(TransactionType::Deposit, 7, 1, Some(12345))).unwrap();
    engine.process_transaction(tx(TransactionType::Deposit, 7, 3, Some(100))).unwrap();
    engine.process_transaction(tx(TransactionType::Withdrawal, 7, 2, Some(45))).unwrap();
    engine.process_transaction(tx(TransactionType::Dispute, 7, 1, None)).unwrap();
    let acc = engine.get_account_balances().get(&7).unwrap();
    assert_eq!((acc.available, acc.held), (Amt::from(55), Amt::from(12345)));
    engine.process_transaction(tx(TransactionType::Resolve, 7, 1, None)).unwrap();
    let acc = engine.get_account_balances().get(&7).unwrap();
    assert_eq!((acc.available, acc.held, acc.locked), (Amt::from(12400), Amt::from(0), false));
    assert_eq!(engine.get_deposits().get(&1).unwrap().status, TransactionStatus::Normal);
}

#[test]
fn dispute_fails_when_funds_were_withdrawn() {
    let mut engine = TransactionEngine::default();
    engine.process_transaction(tx(TransactionType::Deposit, 7, 1, Some(100))).unwrap();
    engine.process_transaction(tx(TransactionType::Withdrawal, 7, 2, Some(60))).unwrap();
    assert_eq!(
        engine.process_transaction(tx(TransactionType::Dispute, 7, 1, None)),
        Err(TransactionError::AccountError(AccountError::NotEnoughAvailable))
    );
    let acc = engine.get_account_balances().get(&7).unwrap();
    assert_eq!((acc.available, acc.held), (Amt::from(40), Amt::from(0)));
    assert_eq!(engine.get_deposits().get(&1).unwrap().status, TransactionStatus::Normal);
}

#[test]
fn refused_withdrawal_opens_empty_account_only() {
    let mut engine = TransactionEngine::default();
    assert_eq!(
        engine.process_transaction(tx(TransactionType::Withdrawal, 9, 1, Some(10))),
        Err(TransactionError::AccountError(AccountError::NotEnoughAvailable))
    );
    assert_eq!(engine.get_account_balances().len(), 1);
    let acc = engine.get_account_balances().get(&9).unwrap();
    assert_eq!((acc.id, acc.available, acc.held, acc.locked), (9, Amt::new(), Amt::new(), false));
    assert!(engine.get_deposits().is_empty());
    // the id of a refused withdrawal is not taken
    engine.process_transaction(tx(TransactionType::Deposit, 9, 1, Some(10))).unwrap();
    assert_eq!(engine.get_account_balances().get(&9).unwrap().available, Amt::from(10));
}

#[test]
fn charged_back_deposit_stays_charged_back() {
    let mut engine = TransactionEngine::default();
    engine.process_transaction(tx(TransactionType::Deposit, 1, 1, Some(10))).unwrap();
    engine.process_transaction(tx(TransactionType::Dispute, 1, 1, None)).unwrap();
    engine.process_transaction(tx(TransactionType::Chargeback, 1, 1, None)).unwrap();
    for t in [TransactionType::Dispute, TransactionType::Resolve, TransactionType::Chargeback] {
        assert!(engine.process_transaction(tx(t, 1, 1, None)).is_err());
    }
    let p = engine.get_deposits().get(&1).unwrap();
    assert_eq!((p.client_id, p.amt), (1, Amt::from(10)));
    assert_eq!(p.status, TransactionStatus::ChargedBack);
}

#[test]
fn many_transactions_keep_balances_exact() {
    let mut engine = TransactionEngine::default();
    for i in 0..300u32 {
        let client = (i % 7) as u16;
        engine.process_transaction(tx(TransactionType::Deposit, client, i, Some(i as i128 + 1))).unwrap();
    }
    assert_eq!(engine.get_deposits().len(), 300);
    assert_eq!(engine.get_account_balances().len(), 7);
    for client in 0..7u16 {
        let expected: i128 = (0..300i128).filter(|i| i % 7 == client as i128).map(|i| i + 1).sum();
        let acc = engine.get_account_balances().get(&client).unwrap();
        assert_eq!((acc.available, acc.held), (Amt::from(expected), Amt::new()));
        assert!(acc.available.0 >= 0);
    }
}

#[test]
fn apply_transaction_follows_dispatch() {
    let mut engine = TransactionEngine::default();
    engine.apply_transaction(tx(TransactionType::Deposit, 1, 1, Some(10))).unwrap();
    assert_eq!(engine.get_account_balances().get(&1).unwrap().available, Amt::from(10));
    assert_eq!(
        engine.apply_transaction(tx(TransactionType::Resolve, 1, 1, None)),
        Err(TransactionError::TransactionNotDisputed)
    );
}

#[test]
fn overflow_of_held_refused() {
    let mut engine = TransactionEngine::default();
    engine.process_transaction(tx(TransactionType::Deposit, 1, 1, Some(i128::MAX))).unwrap();
    assert_eq!(
        engine.process_transaction(tx(TransactionType::Deposit, 1, 2, Some(1))),
        Err(TransactionError::AccountError(AccountError::AvailableOverflow))
    );
    engine.process_transaction(tx(TransactionType::Dispute, 1, 1, None)).unwrap();
    let acc = engine.get_account_balances().get(&1).unwrap();
    assert_eq!((acc.available, acc.held, acc.reported_total()), (Amt::new(), Amt::max(), Amt::max()));
}

#[test]
fn record_processing_leaves_reported_balances() {
    let mut balances: AccountBalances = HashMap::new();
    balances.insert(1, ClientAccountBalance::new(1));
    let pending: HashMap<u32, Transaction> = HashMap::new();
    let t = Transaction { tx_type: RecordType::Deposit, client_id: 1, tx_id: 1, amt: Amt::from(5) };
    process_transaction(t, &mut balances, &pending);
    assert_eq!(balances.len(), 1);
    let b = balances.get(&1).unwrap();
    assert_eq!((b.available, b.held, b.total, b.locked), (Amt::new(), Amt::new(), Amt::new(), false));
}

#[test]
fn held_is_the_sum_of_disputed_deposits() {
    let mut engine = TransactionEngine::default();
    engine.process_transaction(tx(TransactionType::Deposit, 2, 1, Some(100))).unwrap();
    engine.process_transaction(tx(TransactionType::Deposit, 2, 2, Some(20))).unwrap();
    engine.process_transaction(tx(TransactionType::Deposit, 2, 3, Some(3))).unwrap();
    engine.process_transaction(tx(TransactionType::Deposit, 5, 4, Some(1000))).unwrap();
    engine.process_transaction(tx(TransactionType::Dispute, 2, 1, None)).unwrap();
    engine.process_transaction(tx(TransactionType::Dispute, 2, 3, None)).unwrap();
    engine.process_transaction(tx(TransactionType::Dispute, 5, 4, None)).unwrap();
    let held = |e: &TransactionEngine, c: u16| e.get_account_balances().get(&c).unwrap().held;
    assert_eq!(held(&engine, 2), Amt::from(103));
    assert_eq!(held(&engine, 5), Amt::from(1000));
    engine.process_transaction(tx(TransactionType::Resolve, 2, 3, None)).unwrap();
    assert_eq!(held(&engine, 2), Amt::from(100));
    engine.process_transaction(tx(TransactionType::Dispute, 2, 2, None)).unwrap();
    assert_eq!(held(&engine, 2), Amt::from(120));
    engine.process_transaction(tx(TransactionType::Chargeback, 2, 1, None)).unwrap();
    let acc = engine.get_account_balances().get(&2).unwrap();
    assert_eq!((acc.available, acc.held, acc.locked), (Amt::from(3), Amt::from(20), true));
    // the account is locked: the remaining dispute stays open
    assert_eq!(
        engine.process_transaction(tx(TransactionType::Resolve, 2, 2, None)),
        Err(TransactionError::AccountError(AccountError::AccountLocked))
    );
    assert_eq!(held(&engine, 2), Amt::from(20));
}

#[test]
fn withdrawal_ids_are_taken() {
    let mut engine = TransactionEngine::default();
    engine.process_transaction(tx(TransactionType::Deposit, 1, 1, Some(10000))).unwrap();
    engine.process_transaction(tx(TransactionType::Withdrawal, 1, 2, Some(10000))).unwrap();
    assert_eq!(
        engine.process_transaction(tx(TransactionType::Deposit, 1, 1, Some(10000))),
        Err(TransactionError::DuplicatedTransactionId)
    );
    assert_eq!(
        engine.process_transaction(tx(TransactionType::Withdrawal, 1, 1, Some(10000))),
        Err(TransactionError::DuplicatedTransactionId)
    );
    assert_eq!(
        engine.process_transaction(tx(TransactionType::Withdrawal, 1, 2, Some(10000))),
        Err(TransactionError::DuplicatedTransactionId)
    );
    assert_eq!(
        engine.process_transaction(tx(TransactionType::Deposit, 1, 2, Some(10000))),
        Err(TransactionError::DuplicatedTransactionId)
    );
    let acc = engine.get_account_balances().get(&1).unwrap();
    assert_eq!((acc.available, acc.held, acc.locked), (Amt::new(), Amt::new(), false));
    assert_eq!(engine.get_deposits().len(), 1);
    // a withdrawal is still not disputable
    assert_eq!(
        engine.process_transaction(tx(TransactionType::Dispute, 1, 2, None)),
        Err(TransactionError::TransactionIdNotExistent)
    );
}

#[test]
fn transaction_errors_clone() {
    let e = TransactionError::AccountError(AccountError::NotEnoughHeld);
    assert_eq!(e.clone(), e);
    let mut v: Vec<u8> = Vec::new();
    let r = TransactionError::NotEnoughMemoryAvailable(v.try_reserve(usize::MAX).unwrap_err());
    assert_eq!(r.clone(), r);
}

#[test]
fn account_errors_convert() {
    let e: TransactionError = AccountError::HeldOverflow.into();
    assert_eq!(e, TransactionError::AccountError(AccountError::HeldOverflow));
    assert_eq!(
        TransactionError::from(AccountError::NotEnoughHeld),
        TransactionError::AccountError(AccountError::NotEnoughHeld)
    );
}

#[test]
fn applied_resolve_undoes_applied_dispute() {
    let mut engine = TransactionEngine::default();
    engine.apply_transaction(tx(TransactionType::Deposit, 4, 1, Some(700))).unwrap();
    engine.apply_transaction(tx(TransactionType::Deposit, 4, 2, Some(50))).unwrap();
    engine.apply_transaction(tx(TransactionType::Dispute, 4, 1, None)).unwrap();
    let acc = engine.get_account_balances().get(&4).unwrap();
    assert_eq!((acc.available, acc.held), (Amt::from(50), Amt::from(700)));
    engine.apply_transaction(tx(TransactionType::Resolve, 4, 1, None)).unwrap();
    let acc = engine.get_account_balances().get(&4).unwrap();
    assert_eq!((acc.available, acc.held, acc.locked), (Amt::from(750), Amt::new(), false));
    let p = engine.get_deposits().get(&1).unwrap();
    assert_eq!((p.client_id, p.amt), (4, Amt::from(700)));
    assert_eq!(p.status, TransactionStatus::Normal);
}
