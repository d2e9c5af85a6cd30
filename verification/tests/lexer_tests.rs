use nash::lexer::{lex, LexError, Token};

fn lex_ok(input: &str) -> Vec<Token> {
    match lex(input) {
        Ok(tokens) => tokens,
        Err(_) => panic!("expected lex() to return Ok(...)"),
    }
}

#[test]
fn test_simple_symbol() {
    assert_eq!(lex_ok("abc\n"), vec![Token::Symbol("abc".to_string())]);
}

#[test]
fn test_list() {
    assert_eq!(
        lex_ok("(ls)\n"),
        vec![Token::Open, Token::Symbol("ls".to_string()), Token::Closed]
    );
}

#[test]
fn test_nested_list() {
    assert_eq!(
        lex_ok("(pipe (cat file) (grep err))\n"),
        vec![
            Token::Open,
            Token::Symbol("pipe".to_string()),
            Token::Open,
            Token::Symbol("cat".to_string()),
            Token::Symbol("file".to_string()),
            Token::Closed,
            Token::Open,
            Token::Symbol("grep".to_string()),
            Token::Symbol("err".to_string()),
            Token::Closed,
            Token::Closed
        ]
    );
}

#[test]
fn test_escaped_paren() {
    assert_eq!(lex_ok("\\(\n"), vec![Token::Symbol("(".to_string())]);
}

#[test]
fn test_escaped_backslash() {
    assert_eq!(lex_ok("\\a\n"), vec![Token::Symbol("\\a".to_string())]);
}

#[test]
fn test_double_literal() {
    assert_eq!(
        lex_ok("\"hello world\"\n"),
        vec![Token::Literal("hello world".to_string())]
    );
}

#[test]
fn test_single_literal() {
    assert_eq!(lex_ok("'hello' "), vec![Token::Literal("hello".to_string())]);
}

#[test]
fn test_escaped_quote_in_literal() {
    assert_eq!(
        lex_ok("\"he\\\"llo\" "),
        vec![Token::Literal("he\"llo".to_string())]
    );
}

#[test]
fn test_comment() {
    assert_eq!(
        lex_ok("; this is a comment\n(ls)\n"),
        vec![Token::Open, Token::Symbol("ls".to_string()), Token::Closed]
    );
}

#[test]
fn test_symbol_with_space_escaped() {
    assert_eq!(lex_ok("file\\ name\n"), vec![Token::Symbol("file name".to_string())]);
}

#[test]
fn test_mixed() {
    assert_eq!(
        lex_ok("(def x 'value')\n"),
        vec![
            Token::Open,
            Token::Symbol("def".to_string()),
            Token::Symbol("x".to_string()),
            Token::Literal("value".to_string()),
            Token::Closed
        ]
    );
}

#[test]
fn test_quoted_run_is_literal() {
    assert_eq!(
        lex_ok(r#"(echo "hi there")"#),
        vec![
            Token::Open,
            Token::Symbol("echo".to_string()),
            Token::Literal("hi there".to_string()),
            Token::Closed
        ]
    );
}

#[test]
fn test_comment_strips_to_same_tokens() {
    assert_eq!(lex_ok("; comment\n(ls)\n"), lex_ok("(ls)\n"));
}

#[test]
fn test_unterminated_double_literal() {
    assert_eq!(lex("\"abc"), Err(LexError::UnterminatedLiteral));
}

#[test]
fn test_unterminated_single_literal() {
    assert_eq!(lex("'abc"), Err(LexError::UnterminatedLiteral));
}

#[test]
fn test_unterminated_escape() {
    assert_eq!(lex("abc\\"), Err(LexError::UnterminatedEscape));
}

#[test]
fn test_chained_backslashes() {
    // Two backslashes chain in the escaped state: each appends one literal
    // backslash, and the following ordinary character appends a backslash
    // and itself.
    assert_eq!(lex_ok("\\\\a\n"), vec![Token::Symbol("\\\\a".to_string())]);
}

#[test]
fn test_empty_double_literal_emits_nothing() {
    assert_eq!(lex_ok("\"\" \n"), Vec::<Token>::new());
}

#[test]
fn test_escaped_quote_keeps_literal_open() {
    assert_eq!(
        lex_ok("'it\\'s' "),
        vec![Token::Literal("it's".to_string())]
    );
}

#[test]
fn test_escape_backslash_in_double_literal() {
    // A backslash before an ordinary character inside a quoted literal
    // keeps the backslash.
    assert_eq!(
        lex_ok("\"a\\b\" "),
        vec![Token::Literal("a\\b".to_string())]
    );
}
