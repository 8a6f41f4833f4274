use payments::engine::{Client, Engine, Transaction};
use payments::parse::{parse_amount, parse_line, parse_u16, parse_u32, split_bytes, trim};

fn row(engine: &Engine, id: usize) -> String {
    String::from_utf8(engine.get_client_mut(id).unwrap().render()).unwrap()
}

#[test]
fn scenario_deposit_dispute_chargeback() {
    let mut engine = Engine::new();
    let csv = b"type, client, tx, amount\ndeposit,1,1,2.0\ndispute,1,1\nchargeback,1,1".to_vec();
    engine.from_str(&csv);
    assert_eq!(row(&engine, 1), "1, 0.0000, 0.0000, 0.0000, true");
}

#[test]
fn scenario_deposits_and_withdrawal() {
    let mut engine = Engine::new();
    let csv =
        b"type, client, tx, amount\ndeposit,1,1,2.0\nwithdrawal,1,2,1.0\ndeposit,1,3,2.0".to_vec();
    engine.from_str(&csv);
    assert_eq!(row(&engine, 1), "1, 3.0000, 0.0000, 3.0000, false");
}

#[test]
fn invariant_total_is_available_plus_held() {
    // Apply a mixed sequence and check `total == available + held` after
    // every single event, for every account.
    let mut engine = Engine::new();
    let events = [
        Transaction::Deposit(1, 1, 20000),
        Transaction::Deposit(2, 2, 55000),
        Transaction::Withdrawal(1, 3, 30000),
        Transaction::Dispute(1, 1),
        Transaction::Dispute(2, 2),
        Transaction::Resolve(1, 1),
        Transaction::Chargeback(2, 2),
        Transaction::Deposit(2, 4, 10000),
        Transaction::Dispute(1, 3),
        Transaction::Chargeback(1, 3),
    ];
    for event in events.iter() {
        engine.handle_record(*event);
        for client in engine.snapshot() {
            assert_eq!(client.total, client.available + client.held);
        }
    }
}

#[test]
fn deposit_withdrawal_round_trip() {
    let mut engine = Engine::new();
    engine.handle_record(Transaction::Deposit(1, 1, 12345));
    let before_available = engine.get_client_mut(1).unwrap().available;
    let before_total = engine.get_client_mut(1).unwrap().total;
    engine.handle_record(Transaction::Deposit(1, 2, 7777));
    engine.handle_record(Transaction::Withdrawal(1, 3, 7777));
    assert_eq!(engine.get_client_mut(1).unwrap().available, before_available);
    assert_eq!(engine.get_client_mut(1).unwrap().total, before_total);
}

#[test]
fn withdrawal_may_overdraw() {
    // The engine performs no insufficient-funds check: a withdrawal larger
    // than the balance leaves `available` negative.
    let mut engine = Engine::new();
    engine.handle_record(Transaction::Deposit(1, 1, 10000));
    engine.handle_record(Transaction::Withdrawal(1, 2, 30000));
    assert_eq!(engine.get_client_mut(1).unwrap().available, -20000);
    assert_eq!(row(&engine, 1), "1, -2.0000, 0.0000, -2.0000, false");
}

#[test]
fn withdrawal_stores_negated_amount() {
    let mut engine = Engine::new();
    engine.handle_record(Transaction::Withdrawal(1, 9, 10000));
    assert_eq!(engine.amount_of(9), Some(-10000));
}

#[test]
fn reused_tx_id_overwrites_amount() {
    // Reusing a transaction id overwrites the stored amount; the last
    // write wins.
    let mut engine = Engine::new();
    engine.handle_record(Transaction::Deposit(1, 1, 20000));
    engine.handle_record(Transaction::Deposit(1, 1, 30000));
    assert_eq!(engine.amount_of(1), Some(30000));
}

#[test]
fn locked_account_drops_deposits_and_withdrawals() {
    let mut engine = Engine::new();
    engine.handle_record(Transaction::Deposit(1, 1, 20000));
    engine.handle_record(Transaction::Dispute(1, 1));
    engine.handle_record(Transaction::Chargeback(1, 1));
    assert!(engine.get_client_mut(1).unwrap().locked);
    engine.handle_record(Transaction::Deposit(1, 2, 50000));
    engine.handle_record(Transaction::Withdrawal(1, 3, 10000));
    assert_eq!(engine.get_client_mut(1).unwrap().available, 0);
    assert_eq!(engine.get_client_mut(1).unwrap().total, 0);
    // The dropped events leave no trace in the ledger either.
    assert_eq!(engine.amount_of(2), None);
    assert_eq!(engine.amount_of(3), None);
}

#[test]
fn dispute_still_applies_on_locked_account() {
    // The dispute path is not gated on the lock; only deposits and
    // withdrawals are.
    let mut engine = Engine::new();
    engine.handle_record(Transaction::Deposit(1, 1, 20000));
    engine.handle_record(Transaction::Deposit(1, 2, 5000));
    engine.handle_record(Transaction::Dispute(1, 1));
    engine.handle_record(Transaction::Chargeback(1, 1));
    assert!(engine.get_client_mut(1).unwrap().locked);
    engine.handle_record(Transaction::Dispute(1, 2));
    assert!(engine.is_disputed(2));
    assert_eq!(engine.get_client_mut(1).unwrap().held, 5000);
}

#[test]
fn chargeback_without_dispute_is_ignored() {
    let mut engine = Engine::new();
    engine.handle_record(Transaction::Deposit(1, 1, 20000));
    engine.handle_record(Transaction::Chargeback(1, 1));
    assert!(!engine.get_client_mut(1).unwrap().locked);
    assert_eq!(engine.get_client_mut(1).unwrap().available, 20000);
    assert_eq!(engine.get_client_mut(1).unwrap().total, 20000);
}

#[test]
fn snapshot_is_sorted_by_id() {
    let mut engine = Engine::new();
    engine.handle_record(Transaction::Deposit(7, 1, 10000));
    engine.handle_record(Transaction::Deposit(2, 2, 20000));
    engine.handle_record(Transaction::Deposit(5, 3, 30000));
    let ids: Vec<u16> = engine.snapshot().iter().map(|c| c.id).collect();
    assert_eq!(ids, vec![2, 5, 7]);
}

#[test]
fn header_row_is_always_skipped() {
    // The first row is the header even when it looks like data.
    let mut engine = Engine::new();
    let csv = b"deposit,1,1,2.0\ndeposit,2,2,3.0".to_vec();
    engine.from_str(&csv);
    assert!(engine.get_client_mut(1).is_none());
    assert_eq!(engine.get_client_mut(2).unwrap().available, 30000);
}

#[test]
fn malformed_rows_are_skipped() {
    let mut engine = Engine::new();
    let csv = b"type, client, tx, amount\n\nnonsense,1,2,3\ndeposit,1,1\ndeposit,1,oops,1.0\ndeposit,1,1,1.0".to_vec();
    engine.from_str(&csv);
    assert_eq!(engine.get_client_mut(1).unwrap().available, 10000);
    assert_eq!(engine.get_client_mut(1).unwrap().total, 10000);
}

#[test]
fn fields_are_trimmed() {
    let mut engine = Engine::new();
    let csv = b"type, client, tx, amount\n deposit ,\t1 , 1 , 1.5 \r".to_vec();
    engine.from_str(&csv);
    assert_eq!(engine.get_client_mut(1).unwrap().available, 15000);
}

#[test]
fn parse_amount_values() {
    assert_eq!(parse_amount(&b"1.0".to_vec()), Some(10000));
    assert_eq!(parse_amount(&b"2".to_vec()), Some(20000));
    assert_eq!(parse_amount(&b"0.0001".to_vec()), Some(1));
    assert_eq!(parse_amount(&b"3.14".to_vec()), Some(31400));
    assert_eq!(parse_amount(&b".5".to_vec()), Some(5000));
    assert_eq!(parse_amount(&b"1.".to_vec()), Some(10000));
    assert_eq!(parse_amount(&b"0".to_vec()), Some(0));
}

#[test]
fn parse_amount_rejections() {
    // More than four fractional digits, signs, stray bytes, or nothing at
    // all: no amount.
    assert_eq!(parse_amount(&b"1.00001".to_vec()), None);
    assert_eq!(parse_amount(&b"-1.0".to_vec()), None);
    assert_eq!(parse_amount(&b"+1.0".to_vec()), None);
    assert_eq!(parse_amount(&b"1.0.0".to_vec()), None);
    assert_eq!(parse_amount(&b"one".to_vec()), None);
    assert_eq!(parse_amount(&b"".to_vec()), None);
    assert_eq!(parse_amount(&b".".to_vec()), None);
    // A value past what an i64 of ten-thousandths can carry.
    assert_eq!(parse_amount(&b"922337203685478".to_vec()), None);
}

#[test]
fn parse_ids() {
    assert_eq!(parse_u16(&b"65535".to_vec()), Some(65535));
    assert_eq!(parse_u16(&b"65536".to_vec()), None);
    assert_eq!(parse_u32(&b"4294967295".to_vec()), Some(4294967295));
    assert_eq!(parse_u32(&b"4294967296".to_vec()), None);
    assert_eq!(parse_u16(&b"".to_vec()), None);
    assert_eq!(parse_u16(&b"1x".to_vec()), None);
}

#[test]
fn parse_line_variants() {
    assert_eq!(
        parse_line(&b"deposit, 1, 2, 3.5".to_vec()),
        Some(Transaction::Deposit(1, 2, 35000))
    );
    assert_eq!(
        parse_line(&b"withdrawal, 1, 2, 3.5".to_vec()),
        Some(Transaction::Withdrawal(1, 2, 35000))
    );
    assert_eq!(
        parse_line(&b"dispute, 1, 2".to_vec()),
        Some(Transaction::Dispute(1, 2))
    );
    assert_eq!(
        parse_line(&b"resolve, 1, 2,".to_vec()),
        Some(Transaction::Resolve(1, 2))
    );
    assert_eq!(
        parse_line(&b"chargeback, 1, 2,".to_vec()),
        Some(Transaction::Chargeback(1, 2))
    );
    assert_eq!(parse_line(&b"transfer, 1, 2, 3.5".to_vec()), None);
    assert_eq!(parse_line(&b"deposit, 1, 2".to_vec()), None);
    assert_eq!(parse_line(&b"".to_vec()), None);
}

#[test]
fn trim_and_split() {
    assert_eq!(trim(&b"  a b \t".to_vec()), b"a b".to_vec());
    assert_eq!(trim(&b"".to_vec()), b"".to_vec());
    let fields = split_bytes(&b"a,b,,c".to_vec(), b',');
    assert_eq!(
        fields,
        vec![b"a".to_vec(), b"b".to_vec(), b"".to_vec(), b"c".to_vec()]
    );
}

#[test]
fn render_rows() {
    let fresh = Client::new(7);
    assert_eq!(
        String::from_utf8(fresh.render()).unwrap(),
        "7, 0.0000, 0.0000, 0.0000, false"
    );
    let mut engine = Engine::new();
    engine.handle_record(Transaction::Deposit(65535, 1, 123456789));
    assert_eq!(row(&engine, 65535), "65535, 12345.6789, 0.0000, 12345.6789, false");
}
