use nash::command::Clause;
use nash::interpret::{interpret, interpret_command, interpret_list, Executable, InterpretError};
use nash::parser::{Atom, Expression};

#[test]
fn test_simple_command() {
    let expressions = vec![Expression::List(vec![
        Expression::Atom(Atom::Symbol("ls".to_string())),
        Expression::Atom(Atom::Symbol("-la".to_string())),
    ])];

    let result = interpret(expressions).unwrap();
    assert_eq!(result.len(), 1);

    match &result[0] {
        Executable::Command { command } => {
            assert_eq!(command.argv.len(), 2);
            match &command.argv[0] {
                Clause::Bare(s) => assert_eq!(s, "ls"),
                _ => panic!("Expected Bare clause"),
            }
            match &command.argv[1] {
                Clause::Bare(s) => assert_eq!(s, "-la"),
                _ => panic!("Expected Bare clause"),
            }
        }
    }
}

#[test]
fn test_command_with_literal() {
    let expressions = vec![Expression::List(vec![
        Expression::Atom(Atom::Symbol("echo".to_string())),
        Expression::Atom(Atom::Literal("hello world".to_string())),
    ])];

    let result = interpret(expressions).unwrap();
    assert_eq!(result.len(), 1);

    match &result[0] {
        Executable::Command { command } => {
            assert_eq!(command.argv.len(), 2);
            match &command.argv[1] {
                Clause::Literal(s) => assert_eq!(s, "hello world"),
                _ => panic!("Expected Literal clause"),
            }
        }
    }
}

#[test]
fn test_nested_command() {
    let expressions = vec![Expression::List(vec![
        Expression::Atom(Atom::Symbol("ls".to_string())),
        Expression::Atom(Atom::Symbol("-la".to_string())),
        Expression::List(vec![
            Expression::Atom(Atom::Symbol("cat".to_string())),
            Expression::Atom(Atom::Symbol("file.txt".to_string())),
        ]),
    ])];

    let result = interpret(expressions).unwrap();
    assert_eq!(result.len(), 1);

    match &result[0] {
        Executable::Command { command } => {
            assert_eq!(command.argv.len(), 3);
            match &command.argv[2] {
                Clause::Embedded(exec) => match exec {
                    Executable::Command {
                        command: inner_command,
                    } => {
                        assert_eq!(inner_command.argv.len(), 2);
                        match &inner_command.argv[0] {
                            Clause::Bare(s) => assert_eq!(s, "cat"),
                            _ => panic!("Expected Bare clause"),
                        }
                    }
                },
                _ => panic!("Expected Embedded clause"),
            }
        }
    }
}

#[test]
fn test_multiple_top_level_commands() {
    let expressions = vec![
        Expression::List(vec![Expression::Atom(Atom::Symbol("pwd".to_string()))]),
        Expression::List(vec![Expression::Atom(Atom::Symbol("ls".to_string()))]),
    ];

    let result = interpret(expressions).unwrap();
    assert_eq!(result.len(), 2);
}

#[test]
fn test_top_level_atom_error() {
    let expressions = vec![Expression::Atom(Atom::Symbol("not-a-list".to_string()))];

    let result = interpret(expressions);
    assert!(result.is_err());
    match result {
        Err(InterpretError::TopLevelAtom) => {}
        _ => panic!("Expected TopLevelAtom error"),
    }
}

#[test]
fn test_deeply_nested_commands() {
    let expressions = vec![Expression::List(vec![
        Expression::Atom(Atom::Symbol("echo".to_string())),
        Expression::List(vec![
            Expression::Atom(Atom::Symbol("cat".to_string())),
            Expression::List(vec![
                Expression::Atom(Atom::Symbol("ls".to_string())),
                Expression::Atom(Atom::Symbol("/tmp".to_string())),
            ]),
        ]),
    ])];

    let result = interpret(expressions).unwrap();
    assert_eq!(result.len(), 1);

    match &result[0] {
        Executable::Command { command } => {
            assert_eq!(command.argv.len(), 2);
            // Verify nested structure exists
            match &command.argv[1] {
                Clause::Embedded(_) => {}
                _ => panic!("Expected Embedded clause at depth 1"),
            }
        }
    }
}

#[test]
fn test_interpret_list_direct() {
    let children = vec![
        Expression::Atom(Atom::Symbol("echo".to_string())),
        Expression::Atom(Atom::Literal("hi".to_string())),
    ];
    let result = interpret_list(children).unwrap();
    match result {
        Executable::Command { command } => {
            assert_eq!(
                command.argv,
                vec![
                    Clause::Bare("echo".to_string()),
                    Clause::Literal("hi".to_string())
                ]
            );
        }
    }
}

#[test]
fn test_interpret_command_direct() {
    let children = vec![Expression::List(vec![Expression::Atom(Atom::Symbol(
        "date".to_string(),
    ))])];
    let result = interpret_command(children).unwrap();
    match result {
        Executable::Command { command } => {
            assert_eq!(command.argv.len(), 1);
            match &command.argv[0] {
                Clause::Embedded(Executable::Command { command: inner }) => {
                    assert_eq!(inner.argv, vec![Clause::Bare("date".to_string())]);
                }
                _ => panic!("Expected Embedded clause"),
            }
        }
    }
}

#[test]
fn test_interpret_empty_list() {
    let expressions = vec![Expression::List(vec![])];
    let result = interpret(expressions).unwrap();
    assert_eq!(result.len(), 1);
    match &result[0] {
        Executable::Command { command } => assert_eq!(command.argv.len(), 0),
    }
}
