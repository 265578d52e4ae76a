use qq_bot::ghci::CommandOutput;
use qq_bot::interface::{listen_start, listen_step, ListenAction, ListenEvent, ListenState};
use qq_bot::reply::Reply;

const GIF: [u8; 6] = [0x47, 0x49, 0x46, 0x38, 0x39, 0x61];

fn urls(v: &[&str]) -> Vec<String> {
    v.iter().map(|s| s.to_string()).collect()
}

#[test]
fn ordinary_message_is_not_handled() {
    let (s, a) = listen_start("hello", 1, &urls(&[]));
    assert!(matches!(s, ListenState::Done));
    assert!(matches!(a, ListenAction::Finish(false)));
}

#[test]
fn store_without_image_is_handled() {
    let (s, a) = listen_start("入典", 1, &urls(&[]));
    assert!(matches!(s, ListenState::Done));
    assert!(matches!(a, ListenAction::Finish(true)));
    let (_, a) = listen_start("入典", 1, &urls(&["", "http://b"]));
    assert!(matches!(a, ListenAction::Finish(true)));
}

#[test]
fn store_new_image() {
    let (s, a) = listen_start("请入典", 42, &urls(&["http://a", "http://b"]));
    match a {
        ListenAction::Download(u) => assert_eq!(u, "http://a"),
        _ => panic!(),
    }
    let (s, a) = listen_step(s, ListenEvent::Downloaded(Some(GIF.to_vec())));
    match &a {
        ListenAction::ProbeDirectory(d) => assert_eq!(d, "images/42"),
        _ => panic!(),
    }
    let (s, a) = listen_step(s, ListenEvent::Exists(false));
    match &a {
        ListenAction::CreateDirectory(d) => assert_eq!(d, "images/42"),
        _ => panic!(),
    }
    let (s, a) = listen_step(s, ListenEvent::Completed);
    let path = format!("images/42/{:x}.image", md5::compute(GIF));
    match &a {
        ListenAction::ProbeFile(p) => assert_eq!(p, &path),
        _ => panic!(),
    }
    let (s, a) = listen_step(s, ListenEvent::Exists(false));
    match &a {
        ListenAction::WriteFile(p, bytes) => {
            assert_eq!(p, &path);
            assert_eq!(bytes, &GIF.to_vec());
        }
        _ => panic!(),
    }
    let (s, a) = listen_step(s, ListenEvent::Completed);
    assert!(matches!(a, ListenAction::Reply(Reply::AddSuccess)));
    let (s, a) = listen_step(s, ListenEvent::Completed);
    assert!(matches!(s, ListenState::Done));
    assert!(matches!(a, ListenAction::Finish(true)));
}

#[test]
fn store_duplicate_image() {
    let (s, _) = listen_start("入典", 1, &urls(&["u"]));
    let (s, _) = listen_step(s, ListenEvent::Downloaded(Some(GIF.to_vec())));
    let (s, _) = listen_step(s, ListenEvent::Exists(true));
    let (s, a) = listen_step(s, ListenEvent::Exists(true));
    match a {
        ListenAction::ReplyWithImage(Reply::DuplicateImage, bytes) => assert_eq!(bytes, GIF.to_vec()),
        _ => panic!(),
    }
    let (_, a) = listen_step(s, ListenEvent::Completed);
    assert!(matches!(a, ListenAction::Finish(true)));
}

#[test]
fn store_failed_download_and_non_image() {
    let (s, _) = listen_start("入典", 1, &urls(&["u"]));
    let (_, a) = listen_step(s, ListenEvent::Downloaded(None));
    assert!(matches!(a, ListenAction::Reply(Reply::PullFailed)));
    let (s, _) = listen_start("入典", 1, &urls(&["u"]));
    let (_, a) = listen_step(s, ListenEvent::Downloaded(Some(b"hello world".to_vec())));
    assert!(matches!(a, ListenAction::Reply(Reply::UnsupportedFormat)));
}

#[test]
fn draw_an_image() {
    let (s, a) = listen_start("典", 9, &urls(&[]));
    match &a {
        ListenAction::CountEntries(d) => assert_eq!(d, "images/9"),
        _ => panic!(),
    }
    let (s, a) = listen_step(s, ListenEvent::EntryCount(Some(2)));
    assert!(matches!(a, ListenAction::ListFileNames(_)));
    let (s, a) = listen_step(s, ListenEvent::FileNames(vec!["abc.image".to_string(), "x".to_string()]));
    match &a {
        ListenAction::SendImageFile(p) => assert_eq!(p, "images/9/abc.image"),
        _ => panic!(),
    }
    let (_, a) = listen_step(s, ListenEvent::Completed);
    assert!(matches!(a, ListenAction::Finish(true)));
}

#[test]
fn draw_from_empty_gallery() {
    let (s, _) = listen_start("典", 9, &urls(&[]));
    let (_, a) = listen_step(s, ListenEvent::EntryCount(Some(0)));
    assert!(matches!(a, ListenAction::Reply(Reply::GalleryEmpty)));
    let (s, _) = listen_start("典", 9, &urls(&[]));
    let (_, a) = listen_step(s, ListenEvent::EntryCount(None));
    assert!(matches!(a, ListenAction::Reply(Reply::GalleryEmpty)));
}

#[test]
fn remove_needs_admin() {
    let (s, a) = listen_start("出典", 3, &urls(&["u"]));
    assert!(matches!(a, ListenAction::CheckAdmin));
    let (_, a) = listen_step(s, ListenEvent::IsAdmin(false));
    assert!(matches!(a, ListenAction::Reply(Reply::AdminOnlyRemove)));
}

#[test]
fn remove_an_image() {
    let (s, _) = listen_start("出典", 3, &urls(&["u"]));
    let (s, a) = listen_step(s, ListenEvent::IsAdmin(true));
    match &a {
        ListenAction::Download(u) => assert_eq!(u, "u"),
        _ => panic!(),
    }
    let (s, a) = listen_step(s, ListenEvent::Downloaded(Some(b"abc".to_vec())));
    match &a {
        ListenAction::RemoveFile(p) => assert_eq!(p, "images/3/900150983cd24fb0d6963f7d28e17f72.image"),
        _ => panic!(),
    }
    let (_, a) = listen_step(s, ListenEvent::Removed(false));
    assert!(matches!(a, ListenAction::Reply(Reply::RemoveFailed)));
}

#[test]
fn remove_download_failure_is_an_error() {
    let (s, _) = listen_start("出典", 3, &urls(&["u"]));
    let (s, _) = listen_step(s, ListenEvent::IsAdmin(true));
    let (s, a) = listen_step(s, ListenEvent::Downloaded(None));
    assert!(matches!(s, ListenState::Done));
    assert!(matches!(a, ListenAction::Fail));
}

#[test]
fn ghci_with_empty_expression_still_runs() {
    let (s, a) = listen_start("!ghci", 1, &urls(&[]));
    assert!(matches!(a, ListenAction::Reply(Reply::EmptyExpression)));
    let (_, a) = listen_step(s, ListenEvent::Completed);
    match a {
        ListenAction::RunGhci(e) => assert_eq!(e, ""),
        _ => panic!(),
    }
}

#[test]
fn ghci_shows_output_and_errors() {
    let (s, a) = listen_start("!ghci 1+1", 1, &urls(&[]));
    match &a {
        ListenAction::RunGhci(e) => assert_eq!(e, " 1+1"),
        _ => panic!(),
    }
    let out = CommandOutput {
        success: true,
        stdout: b"ghci> 2\nghci> Leaving GHCi.\n".to_vec(),
        stderr: b"err".to_vec(),
    };
    let (s, a) = listen_step(s, ListenEvent::GhciFinished(out));
    match &a {
        ListenAction::Reply(Reply::Text(t)) => assert_eq!(t, "2\n"),
        _ => panic!(),
    }
    let (s, a) = listen_step(s, ListenEvent::Completed);
    match &a {
        ListenAction::Reply(Reply::Text(t)) => assert_eq!(t, "err"),
        _ => panic!(),
    }
    let (_, a) = listen_step(s, ListenEvent::Completed);
    assert!(matches!(a, ListenAction::Finish(true)));
}

#[test]
fn ghci_timeout_and_long_output() {
    let (s, _) = listen_start("!ghci x", 1, &urls(&[]));
    let out = CommandOutput { success: false, stdout: vec![], stderr: vec![] };
    let (_, a) = listen_step(s, ListenEvent::GhciFinished(out));
    assert!(matches!(a, ListenAction::Reply(Reply::Timeout)));
    let (s, _) = listen_start("!ghci x", 1, &urls(&[]));
    let out = CommandOutput { success: true, stdout: vec![b'a'; 1000], stderr: vec![] };
    let (s, a) = listen_step(s, ListenEvent::GhciFinished(out));
    assert!(matches!(a, ListenAction::Reply(Reply::OutputTooLong)));
    let (_, a) = listen_step(s, ListenEvent::Completed);
    match &a {
        ListenAction::Reply(Reply::Text(t)) => assert_eq!(t.len(), 1001),
        _ => panic!(),
    }
}

#[test]
fn ghci_invalid_output_is_an_error() {
    let (s, _) = listen_start("!ghci x", 1, &urls(&[]));
    let out = CommandOutput { success: true, stdout: vec![0xff], stderr: vec![] };
    let (_, a) = listen_step(s, ListenEvent::GhciFinished(out));
    assert!(matches!(a, ListenAction::Fail));
}

#[test]
fn unexpected_event_is_an_error() {
    let (s, _) = listen_start("典", 9, &urls(&[]));
    let (_, a) = listen_step(s, ListenEvent::Completed);
    assert!(matches!(a, ListenAction::Fail));
}
