use nash::command::{
    argument_lines, completed, embedded_failure, launch_failure, resolve_program, Clause, Command,
    ExecStart, ExecutionResult,
};

#[test]
fn test_execute_empty_command() {
    let cmd = Command::new();
    match cmd.begin() {
        ExecStart::Done(ExecutionResult::Success { out, code, err }) => {
            assert_eq!(out, Vec::<u8>::new());
            assert_eq!(err, Vec::<u8>::new());
            assert_eq!(code, 0);
        }
        _ => panic!("Expected success for empty command"),
    }
}

#[test]
fn test_begin_splits_program_position() {
    let cmd = Command {
        argv: vec![
            Clause::Literal("echo".to_string()),
            Clause::Bare("x".to_string()),
            Clause::Literal("y".to_string()),
        ],
    };
    match cmd.begin() {
        ExecStart::Resolve { first, rest } => {
            assert_eq!(first, Clause::Literal("echo".to_string()));
            assert_eq!(
                rest,
                vec![Clause::Bare("x".to_string()), Clause::Literal("y".to_string())]
            );
        }
        _ => panic!("Expected the program-name clause to be split off"),
    }
}

#[test]
fn test_resolve_program_splices_words() {
    // Embedded output in the program-name position is split on whitespace:
    // the first word names the program, the rest become leading literal
    // arguments before the remaining argv.
    let out = b"echo hi".to_vec();
    let rest = vec![Clause::Bare("tail".to_string())];
    match resolve_program(&out, rest) {
        Ok((program, argv)) => {
            assert_eq!(program, "echo");
            assert_eq!(
                argv,
                vec![
                    Clause::Literal("hi".to_string()),
                    Clause::Bare("tail".to_string())
                ]
            );
        }
        Err(e) => panic!("expected resolution to succeed, got {:?}", e),
    }
}

#[test]
fn test_resolve_program_many_words() {
    let out = b" a  b\tc\n".to_vec();
    match resolve_program(&out, vec![]) {
        Ok((program, argv)) => {
            assert_eq!(program, "a");
            assert_eq!(
                argv,
                vec![
                    Clause::Literal("b".to_string()),
                    Clause::Literal("c".to_string())
                ]
            );
        }
        Err(e) => panic!("expected resolution to succeed, got {:?}", e),
    }
}

#[test]
fn test_resolve_program_empty_output() {
    let out = b"  \n\t".to_vec();
    match resolve_program(&out, vec![]) {
        Err(ExecutionResult::Error(msg)) => {
            assert_eq!(msg, "No command specified");
        }
        other => panic!("expected an error, got {:?}", other),
    }
}

#[test]
fn test_argument_lines_split() {
    // Embedded output in argument position is split into lines, not words.
    let out = b"line1\nline2\n".to_vec();
    assert_eq!(argument_lines(&out), vec!["line1".to_string(), "line2".to_string()]);
}

#[test]
fn test_argument_lines_trimmed() {
    let out = b"  a \r\n\tb\t\n".to_vec();
    assert_eq!(argument_lines(&out), vec!["a".to_string(), "b".to_string()]);
}

#[test]
fn test_argument_lines_keeps_inner_empty_line() {
    let out = b"a\n\nb".to_vec();
    assert_eq!(
        argument_lines(&out),
        vec!["a".to_string(), "".to_string(), "b".to_string()]
    );
}

#[test]
fn test_argument_lines_lossy_decoding() {
    // Invalid UTF-8 bytes decode to the replacement character.
    let out = vec![0x61, 0xFF, 0x62];
    assert_eq!(argument_lines(&out), vec!["a\u{FFFD}b".to_string()]);
}

#[test]
fn test_embedded_failure_is_error() {
    let result = embedded_failure("spawn denied".to_string());
    match result {
        ExecutionResult::Error(msg) => {
            assert_eq!(msg, "Embedded command failed: spawn denied");
            assert!(msg.contains("Embedded command failed"));
        }
        ExecutionResult::Success { .. } => {
            panic!("a failed embedded command must not yield success")
        }
    }
}

#[test]
fn test_launch_failure_message() {
    let result = launch_failure("no such file".to_string());
    match result {
        ExecutionResult::Error(msg) => {
            assert_eq!(msg, "Failed to execute command: no such file");
            assert!(msg.contains("Failed to execute"));
        }
        _ => panic!("expected an error"),
    }
}

#[test]
fn test_completed_with_exit_code() {
    let result = completed(b"out".to_vec(), b"err".to_vec(), Some(3));
    assert_eq!(
        result,
        ExecutionResult::Success { out: b"out".to_vec(), err: b"err".to_vec(), code: 3 }
    );
}

#[test]
fn test_completed_without_exit_code() {
    let result = completed(vec![], vec![], None);
    assert_eq!(
        result,
        ExecutionResult::Success { out: vec![], err: vec![], code: -1 }
    );
}

#[test]
fn test_new_command_is_empty() {
    assert_eq!(Command::new().argv, vec![]);
}
