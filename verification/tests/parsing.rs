use interval_notation::{Range, RangeError};

#[test]
fn parse_fields() {
    let range = Range::new(String::from("[2,6)")).unwrap();
    assert_eq!(range.start_inclusive, true);
    assert_eq!(range.start_value, 2);
    assert_eq!(range.end_value, 6);
    assert_eq!(range.end_inclusive, false);
}

#[test]
fn parse_deterministic() {
    let first = Range::new(String::from("(17,40]")).unwrap();
    let second = Range::new(String::from("(17,40]")).unwrap();
    assert_eq!(first, second);
    assert!(first.equals(second));
}

#[test]
fn parse_rejects_missing_brackets() {
    assert_eq!(Range::new(String::from("2,6")), Err(RangeError::InvalidFormat));
}

#[test]
fn parse_rejects_unclosed() {
    assert_eq!(Range::new(String::from("[2,6")), Err(RangeError::InvalidFormat));
}

#[test]
fn parse_rejects_trailing_text() {
    assert_eq!(Range::new(String::from("[2,6)x")), Err(RangeError::InvalidFormat));
}

#[test]
fn parse_rejects_leading_text() {
    assert_eq!(Range::new(String::from("x[2,6)")), Err(RangeError::InvalidFormat));
}

#[test]
fn parse_rejects_sign() {
    assert_eq!(Range::new(String::from("[-2,6)")), Err(RangeError::InvalidFormat));
}

#[test]
fn parse_rejects_whitespace() {
    assert_eq!(Range::new(String::from("[2, 6)")), Err(RangeError::InvalidFormat));
}

#[test]
fn parse_rejects_empty() {
    assert_eq!(Range::new(String::from("")), Err(RangeError::InvalidFormat));
}

#[test]
fn parse_rejects_reversed_bounds() {
    assert_eq!(Range::new(String::from("[6,2)")), Err(RangeError::InvalidRange));
}

#[test]
fn parse_rejects_equal_bounds() {
    assert_eq!(Range::new(String::from("[5,5)")), Err(RangeError::InvalidRange));
}

#[test]
fn parse_rejects_oversized_end() {
    assert_eq!(
        Range::new(String::from("[2,9999999999)")),
        Err(RangeError::InvalidNumber)
    );
}

#[test]
fn parse_rejects_oversized_start() {
    assert_eq!(
        Range::new(String::from("[2147483648,2)")),
        Err(RangeError::InvalidNumber)
    );
}

#[test]
fn parse_accepts_i32_max() {
    let range = Range::new(String::from("[0,2147483647]")).unwrap();
    assert_eq!(range.start_value, 0);
    assert_eq!(range.end_value, 2147483647);
    assert_eq!(range.end_inclusive, true);
}

#[test]
fn parse_accepts_leading_zeros() {
    let range = Range::new(String::from("(007,010]")).unwrap();
    assert_eq!(range.start_value, 7);
    assert_eq!(range.end_value, 10);
}
