use backend::text::{format_i8, format_u128, format_u8, has_text, push_decimal, same_text};

#[test]
fn u128_literals() {
    assert_eq!(format_u128(0), "0u128");
    assert_eq!(format_u128(7), "7u128");
    assert_eq!(format_u128(10), "10u128");
    assert_eq!(format_u128(1234567890), "1234567890u128");
    assert_eq!(format_u128(u128::MAX), "340282366920938463463374607431768211455u128");
    assert_eq!(format_u128(7083711853891053158400), "7083711853891053158400u128");
}

#[test]
fn u8_literals() {
    assert_eq!(format_u8(0), "0u8");
    assert_eq!(format_u8(64), "64u8");
    assert_eq!(format_u8(255), "255u8");
}

#[test]
fn i8_literals() {
    assert_eq!(format_i8(0), "0i8");
    assert_eq!(format_i8(1), "1i8");
    assert_eq!(format_i8(-1), "-1i8");
    assert_eq!(format_i8(127), "127i8");
    assert_eq!(format_i8(-128), "-128i8");
}

#[test]
fn literals_agree_with_the_standard_formatter() {
    for v in 0u8..=255 {
        assert_eq!(format_u8(v), format!("{}u8", v));
        assert_eq!(format_i8(v as i8), format!("{}i8", v as i8));
        assert_eq!(format_u128(v as u128 * 1000003), format!("{}u128", v as u128 * 1000003));
    }
}

#[test]
fn push_decimal_appends() {
    let mut s = "n=".to_string();
    push_decimal(&mut s, 405);
    assert_eq!(s, "n=405");
    push_decimal(&mut s, 0);
    assert_eq!(s, "n=4050");
}

#[test]
fn text_comparisons() {
    assert!(same_text("vote", "vote"));
    assert!(!same_text("vote", "Vote"));
    assert!(!same_text("vote", "vote "));
    assert!(same_text("", ""));
    let names = vec!["a".to_string(), "bc".to_string()];
    assert!(has_text(&names, &"bc".to_string()));
    assert!(!has_text(&names, &"b".to_string()));
    assert!(!has_text(&vec![], &"a".to_string()));
}
