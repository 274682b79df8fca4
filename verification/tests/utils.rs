use backend::cores::NodeEdge;
use backend::error::{DecodeError, MoriError};
use backend::ledger::{find, Entry, Literal, Plaintext};
use backend::utils::{
    entry_to_plain, handle_addr_plaintext, handle_field_plaintext, handle_from_plaintext,
    handle_i8_plaintext, handle_u128_plaintext, handle_u8_plaintext,
};

fn lit(l: Literal) -> Plaintext {
    Plaintext::Literal(l)
}

#[test]
fn entry_to_plain_takes_private_entries_only() {
    let p = lit(Literal::U8(1));
    assert_eq!(entry_to_plain(&Entry::Private(lit(Literal::U8(1)))), Ok(&p));
    assert_eq!(entry_to_plain(&Entry::Public(lit(Literal::U8(1)))), Err(DecodeError::Entry));
    assert_eq!(entry_to_plain(&Entry::Constant(lit(Literal::U8(1)))), Err(DecodeError::Entry));
}

#[test]
fn literal_readers_take_their_own_type_only() {
    assert_eq!(handle_u8_plaintext(&lit(Literal::U8(200))), Ok(200));
    assert_eq!(handle_u8_plaintext(&lit(Literal::I8(1))), Err(DecodeError::U8));
    assert_eq!(handle_u8_plaintext(&Plaintext::Struct(vec![])), Err(DecodeError::U8));

    assert_eq!(handle_i8_plaintext(&lit(Literal::I8(-128))), Ok(-128));
    assert_eq!(handle_i8_plaintext(&lit(Literal::U8(1))), Err(DecodeError::I8));

    assert_eq!(handle_u128_plaintext(&lit(Literal::U128(u128::MAX))), Ok(u128::MAX));
    assert_eq!(handle_u128_plaintext(&lit(Literal::U64(1))), Err(DecodeError::U128));

    assert_eq!(
        handle_field_plaintext(&lit(Literal::Field("12field".to_string()))),
        Ok("12field".to_string())
    );
    assert_eq!(handle_field_plaintext(&lit(Literal::U8(1))), Err(DecodeError::Field));

    assert_eq!(
        handle_addr_plaintext(&lit(Literal::Address("aleo1q".to_string()))),
        Ok("aleo1q".to_string())
    );
    assert_eq!(
        handle_addr_plaintext(&lit(Literal::Field("1field".to_string()))),
        Err(DecodeError::Address)
    );
    assert_eq!(handle_addr_plaintext(&lit(Literal::Other)), Err(DecodeError::Address));
}

#[test]
fn edge_is_read_from_a_struct() {
    let p = Plaintext::Struct(vec![
        ("mov".to_string(), lit(Literal::U8(4))),
        ("node_id".to_string(), lit(Literal::U128(77))),
        ("extra".to_string(), lit(Literal::Other)),
    ]);
    assert_eq!(handle_from_plaintext(&p), Ok(NodeEdge { node_id: 77, mov: 4 }));
}

#[test]
fn edge_errors() {
    assert_eq!(handle_from_plaintext(&lit(Literal::U8(4))), Err(DecodeError::Edge));
    assert_eq!(handle_from_plaintext(&Plaintext::Array(vec![])), Err(DecodeError::Edge));
    let no_mov = Plaintext::Struct(vec![("node_id".to_string(), lit(Literal::U128(77)))]);
    assert_eq!(handle_from_plaintext(&no_mov), Err(DecodeError::Record));
    let bad_id = Plaintext::Struct(vec![
        ("node_id".to_string(), lit(Literal::U8(77))),
        ("mov".to_string(), lit(Literal::U128(4))),
    ]);
    assert_eq!(handle_from_plaintext(&bad_id), Err(DecodeError::U128));
    let bad_mov = Plaintext::Struct(vec![
        ("node_id".to_string(), lit(Literal::U128(77))),
        ("mov".to_string(), lit(Literal::U128(4))),
    ]);
    assert_eq!(handle_from_plaintext(&bad_mov), Err(DecodeError::U8));
}

#[test]
fn find_returns_the_first_pair_with_the_name() {
    let pairs = vec![
        ("a".to_string(), 1u8),
        ("b".to_string(), 2),
        ("a".to_string(), 3),
        ("".to_string(), 4),
    ];
    assert_eq!(find(&pairs, "a"), Some(&1));
    assert_eq!(find(&pairs, "b"), Some(&2));
    assert_eq!(find(&pairs, ""), Some(&4));
    assert_eq!(find(&pairs, "c"), None);
    let empty: Vec<(String, u8)> = vec![];
    assert_eq!(find(&empty, "a"), None);
}

#[test]
fn only_a_closed_channel_is_fatal() {
    assert!(MoriError::ChannelClosed.is_fatal());
    assert!(!MoriError::NotFound.is_fatal());
    assert!(!MoriError::FundingExhausted.is_fatal());
    assert!(!MoriError::CollaboratorUnavailable.is_fatal());
    assert!(!MoriError::Decode(DecodeError::Record).is_fatal());
}
