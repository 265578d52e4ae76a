use qq_bot::blacklist::{BlackList, BlackListError};
use qq_bot::blacklist_command::{
    blacklist_start, blacklist_step, BlacklistAction, BlacklistEvent, BlacklistState, CommandKind,
};
use qq_bot::number::IntErrorKind;
use qq_bot::reply::Reply;

fn list(text: &str) -> Result<BlackList, BlackListError> {
    BlackList::new(Some(text))
}

#[test]
fn non_command_is_not_handled() {
    let (s, a) = blacklist_start(list(""), "hello", &vec![], 1, 2, 3);
    assert!(matches!(s, BlacklistState::Done));
    assert!(matches!(a, BlacklistAction::Finish(false)));
}

#[test]
fn unreadable_list_is_an_error() {
    let loaded = Err(BlackListError::InvalidNumber(IntErrorKind::InvalidDigit));
    let (_, a) = blacklist_start(loaded, "hello", &vec![], 1, 2, 3);
    assert!(matches!(a, BlacklistAction::Fail));
}

#[test]
fn admin_adds_mentioned_member() {
    let (s, a) = blacklist_start(list("1 5\n"), "!blacklist add @x", &vec![77], 1, 2, 3);
    assert!(matches!(a, BlacklistAction::CheckAdmin));
    match &s {
        BlacklistState::CheckingAdmin { target, kind, .. } => {
            assert_eq!(*target, 77);
            assert_eq!(*kind, CommandKind::Add);
        }
        _ => panic!(),
    }
    let (s, a) = blacklist_step(s, BlacklistEvent::IsAdmin(true));
    let text = match a {
        BlacklistAction::Save(t) => t,
        _ => panic!(),
    };
    let saved = BlackList::new(Some(&text)).unwrap();
    assert!(saved.contains(1, 77));
    assert!(saved.contains(1, 5));
    let (_, a) = blacklist_step(s, BlacklistEvent::Completed);
    assert!(matches!(a, BlacklistAction::Finish(true)));
}

#[test]
fn owner_removes_member_by_number() {
    let (s, a) = blacklist_start(list("1 5\n1 6\n"), "!blacklist remove 5", &vec![], 1, 3, 3);
    assert!(matches!(a, BlacklistAction::CheckAdmin));
    let (_, a) = blacklist_step(s, BlacklistEvent::IsAdmin(false));
    let text = match a {
        BlacklistAction::Save(t) => t,
        _ => panic!(),
    };
    assert_eq!(text, "1 6\n");
}

#[test]
fn others_are_refused() {
    let (s, _) = blacklist_start(list(""), "!blacklist add 5", &vec![], 1, 2, 3);
    let (s, a) = blacklist_step(s, BlacklistEvent::IsAdmin(false));
    assert!(matches!(a, BlacklistAction::Reply(Reply::AdminOrOwnerOnly)));
    let (_, a) = blacklist_step(s, BlacklistEvent::Completed);
    assert!(matches!(a, BlacklistAction::Finish(true)));
}

#[test]
fn bad_number_is_noticed_then_command_goes_on() {
    let (s, a) = blacklist_start(list(""), "!blacklist add bob", &vec![], 1, 2, 3);
    assert!(matches!(a, BlacklistAction::Reply(Reply::TargetNotFound)));
    let (s, a) = blacklist_step(s, BlacklistEvent::Completed);
    assert!(matches!(a, BlacklistAction::CheckAdmin));
    let (_, a) = blacklist_step(s, BlacklistEvent::IsAdmin(true));
    let text = match a {
        BlacklistAction::Save(t) => t,
        _ => panic!(),
    };
    assert_eq!(text, "1 0\n");
}

#[test]
fn unknown_argument() {
    let (s, _) = blacklist_start(list(""), "!blacklist", &vec![], 1, 2, 3);
    let (_, a) = blacklist_step(s, BlacklistEvent::IsAdmin(true));
    assert!(matches!(a, BlacklistAction::Reply(Reply::UnknownArgument)));
    let (s, _) = blacklist_start(list(""), "!blacklist delete 4", &vec![], 1, 2, 3);
    let (_, a) = blacklist_step(s, BlacklistEvent::IsAdmin(true));
    assert!(matches!(a, BlacklistAction::Reply(Reply::UnknownArgument)));
}
