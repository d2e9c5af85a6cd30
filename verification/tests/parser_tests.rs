use nash::lexer::{lex, Token};
use nash::parser::{parse, Atom, Expression, ParseError};

#[test]
fn test_parse_round_trip() {
    let tokens = lex("(a b c)").unwrap();
    assert_eq!(
        tokens,
        vec![
            Token::Open,
            Token::Symbol("a".to_string()),
            Token::Symbol("b".to_string()),
            Token::Symbol("c".to_string()),
            Token::Closed
        ]
    );
    let expressions = parse(tokens).unwrap();
    assert_eq!(
        expressions,
        vec![Expression::List(vec![
            Expression::Atom(Atom::Symbol("a".to_string())),
            Expression::Atom(Atom::Symbol("b".to_string())),
            Expression::Atom(Atom::Symbol("c".to_string())),
        ])]
    );
}

#[test]
fn test_parse_idempotent() {
    let tokens = lex("(echo (cat f) 'x')\n").unwrap();
    let first = parse(tokens.clone()).unwrap();
    let second = parse(tokens).unwrap();
    assert_eq!(first, second);
}

#[test]
fn test_parse_empty_input() {
    let result = parse(vec![]).unwrap();
    assert_eq!(result, vec![]);
}

#[test]
fn test_parse_empty_list() {
    let result = parse(vec![Token::Open, Token::Closed]).unwrap();
    assert_eq!(result, vec![Expression::List(vec![])]);
}

#[test]
fn test_parse_unexpected_closed() {
    match parse(vec![Token::Closed]) {
        Err(ParseError::UnexpectedClosed) => {}
        other => panic!("expected UnexpectedClosed, got {:?}", other),
    }
}

#[test]
fn test_parse_unterminated_list() {
    match parse(vec![Token::Open, Token::Symbol("ls".to_string())]) {
        Err(ParseError::ExpectedClosed) => {}
        other => panic!("expected ExpectedClosed, got {:?}", other),
    }
}

#[test]
fn test_parse_nested_lists() {
    let tokens = lex("(pipe (cat file) (grep err))\n").unwrap();
    let expressions = parse(tokens).unwrap();
    assert_eq!(
        expressions,
        vec![Expression::List(vec![
            Expression::Atom(Atom::Symbol("pipe".to_string())),
            Expression::List(vec![
                Expression::Atom(Atom::Symbol("cat".to_string())),
                Expression::Atom(Atom::Symbol("file".to_string())),
            ]),
            Expression::List(vec![
                Expression::Atom(Atom::Symbol("grep".to_string())),
                Expression::Atom(Atom::Symbol("err".to_string())),
            ]),
        ])]
    );
}

#[test]
fn test_parse_top_level_atoms() {
    let result = parse(vec![
        Token::Symbol("a".to_string()),
        Token::Literal("b".to_string()),
    ])
    .unwrap();
    assert_eq!(
        result,
        vec![
            Expression::Atom(Atom::Symbol("a".to_string())),
            Expression::Atom(Atom::Literal("b".to_string())),
        ]
    );
}
