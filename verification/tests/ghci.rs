use qq_bot::ghci::{
    clean_ghci_output, process_output, process_stdout_string, CommandOutput,
    ExecutionResult, Utf8Failure, LIMIT_BYTE,
};

#[test]
fn test_process_stdout() {
    let output = "GHCi, version 8.10.7: https://www.haskell.org/ghc/  :? for help
Loaded GHCi configuration from /foo/bar
1
Const 1 :: Num c => Const c a
Leaving GHCi.
";
    let expected = "1
Const 1 :: Num c => Const c a";
    assert_eq!(process_stdout_string(output), expected);

    let output = "GHCi, version 9.2.4: https://www.haskell.org/ghc/  :? for help
Loaded GHCi configuration from /foo/bar
outputLeaving GHCi.
";
    let expected = "output";
    assert_eq!(process_stdout_string(output), expected);
}

#[test]
fn stdout_without_farewell_shows_nothing() {
    assert_eq!(process_stdout_string("GHCi\nLoaded\n1\n"), "");
    assert_eq!(process_stdout_string(""), "");
}

#[test]
fn stdout_with_only_header_lines_shows_nothing() {
    assert_eq!(process_stdout_string("GHCi\nLoaded\nLeaving GHCi."), "");
}

#[test]
fn stdout_keeps_carriage_return_handling_of_lines() {
    let output = "  h1\r\nh2\r\na\r\nb\r\nLeaving GHCi.  \n";
    assert_eq!(process_stdout_string(output), "a\nb");
}

#[test]
fn process_output_timeout() {
    let out = CommandOutput { success: false, stdout: b"x".to_vec(), stderr: vec![] };
    assert!(matches!(process_output(out), ExecutionResult::Timeout));
}

#[test]
fn process_output_invalid_stdout() {
    let out = CommandOutput { success: true, stdout: vec![0xff, 0x41], stderr: vec![0xff] };
    assert!(matches!(process_output(out), ExecutionResult::OtherError(Utf8Failure::Stdout)));
}

#[test]
fn process_output_invalid_stderr() {
    let out = CommandOutput { success: true, stdout: b"ok".to_vec(), stderr: vec![0xc3] };
    assert!(matches!(process_output(out), ExecutionResult::OtherError(Utf8Failure::Stderr)));
}

#[test]
fn process_output_too_long() {
    let out = CommandOutput { success: true, stdout: vec![b'a'; LIMIT_BYTE], stderr: vec![] };
    assert!(matches!(process_output(out), ExecutionResult::LengthExceeded));
    let out = CommandOutput { success: true, stdout: vec![b'a'; LIMIT_BYTE - 1], stderr: vec![] };
    assert!(matches!(process_output(out), ExecutionResult::Output { .. }));
}

#[test]
fn process_output_shows_body_and_errors() {
    let out = CommandOutput {
        success: true,
        stdout: "GHCi\nLoaded\n42\nLeaving GHCi.\n".as_bytes().to_vec(),
        stderr: "warning: é".as_bytes().to_vec(),
    };
    match process_output(out) {
        ExecutionResult::Output { stdout, stderr } => {
            assert_eq!(stdout, "42");
            assert_eq!(stderr, "warning: é");
        }
        _ => panic!("expected output"),
    }
}

#[test]
fn clean_output_drops_greeting_prompts_and_farewell() {
    let message = "GHCi, version 9.0.2: https://www.haskell.org/ghc/  :? for help\nghci> 1 + 1\n2\nghci> \nghci> Leaving GHCi.\n";
    assert_eq!(clean_ghci_output(message), "1 + 1\n2\n");
}

#[test]
fn clean_output_removes_every_prompt() {
    assert_eq!(clean_ghci_output("ghci> ghci> x ghci>y\n"), "x y\n");
    assert_eq!(clean_ghci_output("gghci>hci>\n"), "ghci>\n");
    assert_eq!(clean_ghci_output(""), "");
}
