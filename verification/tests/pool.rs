use backend::error::MoriError;
use backend::ledger::{
    Block, Entry, Input, Literal, Output, Plaintext, Record, Transaction, Transition,
};
use backend::pool::{created_of, spent_of, FeePool, FeeRecord, PoolDelta};
use backend::FEE_NUM;

fn fee(serial: &str, value: u64) -> FeeRecord {
    FeeRecord { serial_number: serial.to_string(), value }
}

fn credits(serial: &str, value: u64) -> Output {
    Output::Owned(Record {
        serial_number: serial.to_string(),
        data: vec![(
            "microcredits".to_string(),
            Entry::Private(Plaintext::Literal(Literal::U64(value))),
        )],
    })
}

fn spend(serial: &str) -> Input {
    Input::Record(serial.to_string())
}

fn tx(accepted: bool, inputs: Vec<Input>, outputs: Vec<Output>) -> Transaction {
    Transaction {
        accepted,
        transitions: vec![Transition {
            id: "t".to_string(),
            program_id: "credits.aleo".to_string(),
            function_name: "transfer_private".to_string(),
            inputs,
            outputs,
        }],
    }
}

fn block(transactions: Vec<Transaction>) -> Block {
    Block { height: 1, transactions }
}

fn drain(pool: &mut FeePool) -> Vec<FeeRecord> {
    let mut out = Vec::new();
    while let Ok(r) = pool.pop_front() {
        out.push(r);
    }
    out
}

#[test]
fn the_fee_floor_is_forty_thousand_microcredits() {
    assert_eq!(FEE_NUM, 40000);
}

#[test]
fn empty_pool_signals_funding_exhausted() {
    let mut pool = FeePool::new();
    assert_eq!(pool.len(), 0);
    assert_eq!(pool.pop_front(), Err(MoriError::FundingExhausted));
    assert_eq!(pool.pop_front(), Err(MoriError::FundingExhausted));
    assert_eq!(pool.len(), 0);
}

#[test]
fn pop_front_returns_the_oldest_record_first() {
    let mut pool = FeePool::new();
    assert!(pool.insert(fee("c", 50000)));
    assert!(pool.insert(fee("a", 60000)));
    assert!(pool.insert(fee("b", 40000)));
    assert_eq!(pool.len(), 3);
    assert_eq!(pool.pop_front(), Ok(fee("c", 50000)));
    assert_eq!(pool.len(), 2);
    assert_eq!(pool.pop_front(), Ok(fee("a", 60000)));
    assert_eq!(pool.pop_front(), Ok(fee("b", 40000)));
    assert_eq!(pool.pop_front(), Err(MoriError::FundingExhausted));
}

#[test]
fn insert_refuses_a_record_below_the_floor() {
    let mut pool = FeePool::new();
    assert!(!pool.insert(fee("a", 39999)));
    assert!(!pool.insert(fee("b", 0)));
    assert_eq!(pool.len(), 0);
    assert!(!pool.contains(&"a".to_string()));
    assert!(pool.insert(fee("a", 40000)));
    assert!(pool.contains(&"a".to_string()));
}

#[test]
fn insert_under_a_known_serial_replaces_in_place() {
    let mut pool = FeePool::new();
    pool.insert(fee("a", 50000));
    pool.insert(fee("b", 50000));
    pool.insert(fee("a", 70000));
    assert_eq!(pool.len(), 2);
    assert_eq!(drain(&mut pool), vec![fee("a", 70000), fee("b", 50000)]);
}

#[test]
fn observe_removes_spent_and_adds_created() {
    let mut pool = FeePool::new();
    pool.insert(fee("a", 50000));
    pool.insert(fee("b", 50000));
    pool.insert(fee("c", 50000));
    let b = block(vec![tx(
        true,
        vec![spend("b"), spend("zz")],
        vec![credits("d", 45000), credits("e", 10), Output::Other, Output::Sealed],
    )]);
    pool.observe(&b);
    assert_eq!(drain(&mut pool), vec![fee("a", 50000), fee("c", 50000), fee("d", 45000)]);
}

#[test]
fn observe_with_nothing_to_report_changes_nothing() {
    let mut pool = FeePool::new();
    pool.insert(fee("a", 50000));
    pool.observe(&block(vec![]));
    pool.observe(&block(vec![tx(true, vec![Input::Private], vec![Output::Other])]));
    assert_eq!(drain(&mut pool), vec![fee("a", 50000)]);
}

#[test]
fn record_created_and_spent_in_one_block_never_comes_out() {
    let mut pool = FeePool::new();
    let b = block(vec![
        tx(true, vec![], vec![credits("s", 90000), credits("t", 90000)]),
        tx(true, vec![spend("s")], vec![]),
    ]);
    pool.observe(&b);
    assert!(!pool.contains(&"s".to_string()));
    assert_eq!(drain(&mut pool), vec![fee("t", 90000)]);
}

#[test]
fn record_spent_before_it_is_created_in_one_block_never_comes_out() {
    let mut pool = FeePool::new();
    let b = block(vec![
        tx(true, vec![spend("s")], vec![]),
        tx(true, vec![], vec![credits("s", 90000)]),
    ]);
    pool.observe(&b);
    assert_eq!(pool.pop_front(), Err(MoriError::FundingExhausted));
}

#[test]
fn record_created_earlier_in_a_pass_and_spent_later_never_comes_out() {
    let mut pool = FeePool::new();
    pool.observe(&block(vec![tx(true, vec![], vec![credits("s", 90000), credits("u", 90000)])]));
    assert!(pool.contains(&"s".to_string()));
    pool.observe(&block(vec![tx(true, vec![], vec![credits("v", 90000)])]));
    pool.observe(&block(vec![tx(true, vec![spend("s")], vec![])]));
    pool.observe(&block(vec![tx(true, vec![], vec![credits("w", 90000)])]));
    assert!(!pool.contains(&"s".to_string()));
    assert_eq!(drain(&mut pool), vec![fee("u", 90000), fee("v", 90000), fee("w", 90000)]);
}

#[test]
fn observe_tells_what_to_do_to_a_copy_of_the_pool() {
    let mut pool = FeePool::new();
    pool.insert(fee("a", 50000));
    let b = block(vec![
        tx(true, vec![spend("a"), spend("q")], vec![credits("s", 90000), credits("t", 90000)]),
        tx(true, vec![spend("s")], vec![credits("u", 100), credits("v", 40000)]),
    ]);
    let delta = pool.observe(&b);
    assert_eq!(
        delta,
        PoolDelta {
            spent: vec!["a".to_string(), "q".to_string(), "s".to_string()],
            entered: vec![fee("t", 90000), fee("v", 40000)],
        }
    );
    assert_eq!(drain(&mut pool), vec![fee("t", 90000), fee("v", 40000)]);
}

#[test]
fn rejected_transactions_spend_too() {
    let mut pool = FeePool::new();
    pool.insert(fee("a", 50000));
    pool.observe(&block(vec![tx(false, vec![spend("a")], vec![credits("b", 50000)])]));
    assert_eq!(drain(&mut pool), vec![fee("b", 50000)]);
}

#[test]
fn only_private_u64_microcredits_make_a_fee_record() {
    let public = Output::Owned(Record {
        serial_number: "p".to_string(),
        data: vec![(
            "microcredits".to_string(),
            Entry::Public(Plaintext::Literal(Literal::U64(90000))),
        )],
    });
    let wrong_type = Output::Owned(Record {
        serial_number: "q".to_string(),
        data: vec![(
            "microcredits".to_string(),
            Entry::Private(Plaintext::Literal(Literal::U128(90000))),
        )],
    });
    let other_name = Output::Owned(Record {
        serial_number: "r".to_string(),
        data: vec![("amount".to_string(), Entry::Private(Plaintext::Literal(Literal::U64(90000))))],
    });
    let b = block(vec![tx(true, vec![], vec![public, wrong_type, other_name, credits("s", 40000)])]);
    assert_eq!(created_of(&b), vec![fee("s", 40000)]);
}

#[test]
fn spent_and_created_are_listed_in_block_order() {
    let b = block(vec![
        tx(true, vec![spend("x"), Input::ExternalRecord, spend("y")], vec![credits("a", 40001)]),
        tx(false, vec![spend("z")], vec![credits("b", 40002), credits("c", 39999)]),
    ]);
    assert_eq!(spent_of(&b), vec!["x".to_string(), "y".to_string(), "z".to_string()]);
    assert_eq!(created_of(&b), vec![fee("a", 40001), fee("b", 40002)]);
}
