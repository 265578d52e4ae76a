use qq_bot::blacklist::{BlackList, BlackListError, PATH};
use qq_bot::number::IntErrorKind;

fn load(text: &str) -> BlackList {
    match BlackList::new(Some(text)) {
        Ok(b) => b,
        Err(e) => panic!("unexpected error {:?}", e),
    }
}

#[test]
fn missing_file_gives_empty_list() {
    let b = BlackList::new(None).unwrap();
    assert!(b.inner.is_empty());
    assert!(!b.contains(1, 2));
    assert_eq!(PATH, ".blacklist");
}

#[test]
fn reads_pairs_from_lines() {
    let b = load("100 1\n100 2\n200 3\n");
    assert!(b.contains(100, 1));
    assert!(b.contains(100, 2));
    assert!(b.contains(200, 3));
    assert!(!b.contains(200, 1));
    assert!(!b.contains(300, 3));
    assert_eq!(b.inner.len(), 2);
}

#[test]
fn reads_trimmed_lines_with_signs_and_crlf() {
    let b = load("  -7 +8 \r\n\t9 -10\r\n");
    assert!(b.contains(-7, 8));
    assert!(b.contains(9, -10));
}

#[test]
fn reads_extreme_numbers() {
    let b = load("-9223372036854775808 9223372036854775807");
    assert!(b.contains(i64::MIN, i64::MAX));
}

#[test]
fn empty_text_gives_empty_list() {
    let b = load("");
    assert!(b.inner.is_empty());
}

#[test]
fn invalid_group_is_an_error() {
    assert_eq!(
        BlackList::new(Some("x 2\n")).err(),
        Some(BlackListError::InvalidNumber(IntErrorKind::InvalidDigit))
    );
}

#[test]
fn invalid_member_is_an_error() {
    assert_eq!(
        BlackList::new(Some("1 2\n1 2 3\n")).err(),
        Some(BlackListError::InvalidNumber(IntErrorKind::InvalidDigit))
    );
    assert_eq!(
        BlackList::new(Some("1 \n")).err(),
        Some(BlackListError::InvalidNumber(IntErrorKind::Empty))
    );
}

#[test]
fn overflowing_numbers_are_errors() {
    assert_eq!(
        BlackList::new(Some("1 9223372036854775808")).err(),
        Some(BlackListError::InvalidNumber(IntErrorKind::PosOverflow))
    );
    assert_eq!(
        BlackList::new(Some("-9223372036854775809 1")).err(),
        Some(BlackListError::InvalidNumber(IntErrorKind::NegOverflow))
    );
}

#[test]
fn line_without_space_has_no_answer() {
    assert!(BlackList::load(Some("12\n")).is_none());
    assert!(BlackList::load(Some("1 2\n\n3 4\n")).is_none());
    assert!(BlackList::load(Some("1\t2\n")).is_none());
}

#[test]
fn earlier_error_decides_before_malformed_line() {
    assert_eq!(
        BlackList::load(Some("a 1\nbad\n")).map(|r| r.err()),
        Some(Some(BlackListError::InvalidNumber(IntErrorKind::InvalidDigit)))
    );
}

#[test]
fn add_then_contains() {
    let mut b = load("");
    assert!(b.add(5, 6).is_ok());
    assert!(b.contains(5, 6));
    assert!(!b.contains(5, 7));
    assert!(b.add(5, 7).is_ok());
    assert!(b.contains(5, 6));
    assert!(b.contains(5, 7));
}

#[test]
fn remove_then_not_contains() {
    let mut b = load("5 6\n5 7\n8 9\n");
    b.remove(5, 6);
    assert!(!b.contains(5, 6));
    assert!(b.contains(5, 7));
    assert!(b.contains(8, 9));
    b.remove(42, 1);
    assert!(b.contains(8, 9));
    b.remove(5, 7);
    assert!(!b.contains(5, 7));
    assert!(b.inner.contains_key(&5));
}

#[test]
fn rewrite_writes_one_line_per_pair() {
    let b = load("1 2\n");
    assert_eq!(b.rewrite(), "1 2\n");
    let b = load("-3 +4\n-3 4\n");
    assert_eq!(b.rewrite(), "-3 4\n");
    let empty = load("");
    assert_eq!(empty.rewrite(), "");
}

#[test]
fn rewrite_then_new_gives_same_pairs() {
    let mut b = load("");
    let pairs = [(1, 2), (1, 3), (-4, 5), (i64::MIN, i64::MAX), (0, 0)];
    for (g, u) in pairs {
        b.add(g, u).unwrap();
    }
    b.remove(1, 3);
    let text = b.rewrite();
    assert_eq!(text.lines().count(), 4);
    let again = load(&text);
    for (g, u) in pairs {
        assert_eq!(again.contains(g, u), b.contains(g, u));
    }
    assert!(!again.contains(1, 3));
}

#[test]
fn rewrite_keeps_each_group_together() {
    let b = load("1 1\n2 1\n1 2\n3 5\n2 2\n1 3\n");
    let text = b.rewrite();
    let groups: Vec<&str> = text.lines().map(|l| l.split(' ').next().unwrap()).collect();
    assert_eq!(groups.len(), 6);
    for i in 0..groups.len() {
        for k in i + 1..groups.len() {
            if groups[i] == groups[k] {
                for j in i..k {
                    assert_eq!(groups[j], groups[i], "{}", text);
                }
            }
        }
    }
}

#[test]
fn reload_keeps_only_groups_with_members() {
    let mut b = load("1 2\n3 4\n3 5\n");
    b.remove(1, 2);
    assert!(b.inner.contains_key(&1));
    let again = load(&b.rewrite());
    assert!(!again.inner.contains_key(&1));
    assert_eq!(again.inner.len(), 1);
    assert_eq!(again.inner[&3], b.inner[&3]);
}
