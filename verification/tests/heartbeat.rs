use qq_bot::heartbeat::{heartbeat, last_mention};

#[test]
fn no_mention_is_handled_silently() {
    let r = heartbeat(&vec![], 10, "还能说话吗");
    assert!(!r.answer);
    assert!(r.handled);
}

#[test]
fn asked_bot_answers() {
    let r = heartbeat(&vec![3, 10], 10, "bot 还能说话吗?");
    assert!(r.answer);
    assert!(r.handled);
}

#[test]
fn other_mentions_are_left_alone() {
    let r = heartbeat(&vec![10, 3], 10, "还能说话吗");
    assert!(!r.answer && !r.handled);
    let r = heartbeat(&vec![10], 10, "hello");
    assert!(!r.answer && !r.handled);
    assert_eq!(last_mention(&vec![1, 2, 3]), 3);
}
