use qq_bot::number::{parse_i64, push_decimal, IntErrorKind};
use qq_bot::text::chars_of;

fn parse(s: &str) -> Result<i64, IntErrorKind> {
    let v = chars_of(s);
    parse_i64(&v, 0, v.len())
}

fn show(n: i64) -> String {
    let mut v = Vec::new();
    push_decimal(&mut v, n);
    v.into_iter().collect()
}

#[test]
fn parses_like_std() {
    for s in ["0", "+5", "-5", "007", "9223372036854775807", "-9223372036854775808", "", "+", "-", "12a", "a12", " 1", "99999999999999999999a", "-99999999999999999999", "1_0", "+-1"] {
        let ours = parse(s);
        let std = s.parse::<i64>();
        match (ours, std) {
            (Ok(a), Ok(b)) => assert_eq!(a, b, "{}", s),
            (Err(k), Err(e)) => assert_eq!(format!("{:?}", k), format!("{:?}", e.kind()), "{}", s),
            (a, b) => panic!("{}: {:?} vs {:?}", s, a, b),
        }
    }
}

#[test]
fn parse_error_kinds() {
    assert_eq!(parse(""), Err(IntErrorKind::Empty));
    assert_eq!(parse("-"), Err(IntErrorKind::InvalidDigit));
    assert_eq!(parse("9223372036854775808"), Err(IntErrorKind::PosOverflow));
    assert_eq!(parse("-9223372036854775809"), Err(IntErrorKind::NegOverflow));
    assert_eq!(parse("99999999999999999999x"), Err(IntErrorKind::PosOverflow));
}

#[test]
fn decimal_like_display() {
    for n in [0, 7, -7, 10, 1234567890, i64::MAX, i64::MIN] {
        assert_eq!(show(n), n.to_string());
        assert_eq!(parse(&show(n)), Ok(n));
    }
}
