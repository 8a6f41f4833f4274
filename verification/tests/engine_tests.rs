use payments::engine::{Engine, Transaction};

#[test]
fn read_line() {
    let mut engine = Engine::new();

    let csv = "type, client, tx, amount
deposit, 1, 1, 1.0";

    engine.from_str(&csv.as_bytes().to_vec());
    let client = engine.get_client_mut(1).unwrap();
    assert!(client.available == 10000);
    assert!(client.total == 10000);
}

#[test]
fn parse_records() {
    let engine = Engine::new();

    let records = [
        vec![
            b"deposit".to_vec(),
            b"1".to_vec(),
            b"1".to_vec(),
            b"1.0".to_vec(),
        ],
        vec![
            b"withdrawal".to_vec(),
            b"1".to_vec(),
            b"1".to_vec(),
            b"1.0".to_vec(),
        ],
        vec![
            b"dispute".to_vec(),
            b"1".to_vec(),
            b"1".to_vec(),
            b"".to_vec(),
        ],
        vec![
            b"resolve".to_vec(),
            b"1".to_vec(),
            b"1".to_vec(),
            b"".to_vec(),
        ],
        vec![
            b"chargeback".to_vec(),
            b"1".to_vec(),
            b"1".to_vec(),
            b"".to_vec(),
        ],
    ];

    let expected = [
        Transaction::Deposit(1, 1, 10000),
        Transaction::Withdrawal(1, 1, 10000),
        Transaction::Dispute(1, 1),
        Transaction::Resolve(1, 1),
        Transaction::Chargeback(1, 1),
    ];

    for (i, record) in records.iter().enumerate() {
        assert!(engine.parse_record(record).unwrap() == expected[i]);
    }
}

#[test]
fn handle_record() {
    let mut engine = Engine::new();

    let records = [
        Transaction::Deposit(1, 1, 20000),
        Transaction::Withdrawal(1, 1, 10000),
        Transaction::Deposit(1, 1, 20000),
    ];

    engine.handle_record(records[0]);
    assert!(engine.get_client_mut(1 as usize).unwrap().available == 20000);
    assert!(engine.get_client_mut(1 as usize).unwrap().total == 20000);

    engine.handle_record(records[1]);
    assert!(engine.get_client_mut(1 as usize).unwrap().available == 10000);
    assert!(engine.get_client_mut(1 as usize).unwrap().total == 10000);

    engine.handle_record(records[2]);
    assert!(engine.get_client_mut(1 as usize).unwrap().available == 30000);
    assert!(engine.get_client_mut(1 as usize).unwrap().total == 30000);
}

#[test]
fn disbute() {
    let mut engine = Engine::new();

    let records = [
        Transaction::Deposit(1, 1, 20000),
        Transaction::Dispute(1, 1),
    ];

    engine.handle_record(records[0]);
    engine.handle_record(records[1]);

    assert!(engine.is_disputed(1) == true);
    assert!(engine.get_client_mut(1 as usize).unwrap().available == 0);
    assert!(engine.get_client_mut(1 as usize).unwrap().held == 20000);
    assert!(engine.get_client_mut(1 as usize).unwrap().total == 20000);
}

#[test]
fn resolve() {
    let mut engine = Engine::new();

    let records = [
        Transaction::Deposit(1, 1, 20000),
        Transaction::Dispute(1, 1),
        Transaction::Resolve(1, 1),
    ];

    engine.handle_record(records[0]);
    engine.handle_record(records[1]);
    engine.handle_record(records[2]);

    assert!(engine.is_disputed(1) == false);
    assert!(engine.get_client_mut(1 as usize).unwrap().available == 20000);
    assert!(engine.get_client_mut(1 as usize).unwrap().held == 0);
    assert!(engine.get_client_mut(1 as usize).unwrap().total == 20000);
}

#[test]
fn chargeback() {
    let mut engine = Engine::new();

    let records = [
        Transaction::Deposit(1, 1, 20000),
        Transaction::Dispute(1, 1),
        Transaction::Chargeback(1, 1),
    ];

    engine.handle_record(records[0]);
    engine.handle_record(records[1]);
    engine.handle_record(records[2]);

    assert!(engine.is_disputed(1) == false);
    assert!(engine.get_client_mut(1 as usize).unwrap().available == 0);
    assert!(engine.get_client_mut(1 as usize).unwrap().held == 0);
    assert!(engine.get_client_mut(1 as usize).unwrap().total == 0);
    assert!(engine.get_client_mut(1 as usize).unwrap().locked);
}

#[test]
fn dispute_no_client() {
    let mut engine = Engine::new();

    let records = [
        Transaction::Deposit(1, 1, 20000),
        Transaction::Dispute(2, 1),
    ];

    engine.handle_record(records[0]);
    engine.handle_record(records[1]);

    assert!(engine.is_disputed(2) == false);
    assert!(engine.get_client_mut(1 as usize).unwrap().available == 20000);
    assert!(engine.get_client_mut(1 as usize).unwrap().held == 0);
    assert!(engine.get_client_mut(1 as usize).unwrap().total == 20000);
    // No account may appear for an id that only a dispute ever named.
    assert!(engine.get_client_mut(2 as usize).is_none());
}

#[test]
fn dispute_no_tx() {
    let mut engine = Engine::new();

    let records = [
        Transaction::Deposit(1, 1, 20000),
        Transaction::Dispute(1, 2),
    ];

    engine.handle_record(records[0]);
    engine.handle_record(records[1]);

    assert!(engine.is_disputed(1) == false);
    assert!(engine.get_client_mut(1 as usize).unwrap().available == 20000);
    assert!(engine.get_client_mut(1 as usize).unwrap().held == 0);
    assert!(engine.get_client_mut(1 as usize).unwrap().total == 20000);
}

#[test]
fn resolve_no_dispute() {
    let mut engine = Engine::new();

    let records = [
        Transaction::Deposit(1, 1, 20000),
        Transaction::Dispute(1, 1),
        Transaction::Resolve(1, 2),
    ];

    engine.handle_record(records[0]);
    engine.handle_record(records[1]);
    engine.handle_record(records[2]);

    assert!(engine.is_disputed(1) == true);
    assert!(engine.get_client_mut(1 as usize).unwrap().available == 0);
    assert!(engine.get_client_mut(1 as usize).unwrap().held == 20000);
    assert!(engine.get_client_mut(1 as usize).unwrap().total == 20000);
}
