use socketioxide::text::{push_decimal, push_decimal_int, same_text};

#[test]
fn decimal_of_unsigned_numbers() {
    let mut out = String::from("n=");
    push_decimal(&mut out, 0);
    out.push(',');
    push_decimal(&mut out, 7);
    out.push(',');
    push_decimal(&mut out, 10);
    out.push(',');
    push_decimal(&mut out, 1234567890);
    out.push(',');
    push_decimal(&mut out, u64::MAX);
    assert_eq!(out, "n=0,7,10,1234567890,18446744073709551615");
}

#[test]
fn decimal_of_signed_numbers() {
    let mut out = String::new();
    push_decimal_int(&mut out, 0);
    out.push(',');
    push_decimal_int(&mut out, -1);
    out.push(',');
    push_decimal_int(&mut out, 42);
    out.push(',');
    push_decimal_int(&mut out, i64::MAX);
    out.push(',');
    push_decimal_int(&mut out, i64::MIN);
    assert_eq!(out, "0,-1,42,9223372036854775807,-9223372036854775808");
}

#[test]
fn texts_are_the_same_by_their_characters() {
    assert!(same_text("", ""));
    assert!(same_text("null", "null"));
    assert!(!same_text("null", "nul"));
    assert!(!same_text("nul", "null"));
    assert!(!same_text("null", "nulL"));
    assert!(same_text("é/ß", "é/ß"));
}
