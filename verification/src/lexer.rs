//! Lexical analysis: one pass over the input characters driven by an
//! explicit state machine, producing parenthesis, symbol and literal tokens
//! while resolving quoting, escaping and comments.
use vstd::prelude::*;

use crate::text::{chars_to_string, is_space, is_whitespace_char, str_chars};

verus! {

/// One lexical unit of the shell language.
#[derive(Debug, PartialEq)]
pub enum Token {
    Open,
    Symbol(String),
    Literal(String),
    Closed,
}

impl Clone for Token {
    /// An exact copy: the clone is equal to the original.
    fn clone(&self) -> (r: Self)
        ensures
            r == *self,
    {
        match self {
            Token::Open => Token::Open,
            Token::Symbol(s) => Token::Symbol(s.clone()),
            Token::Literal(s) => Token::Literal(s.clone()),
            Token::Closed => Token::Closed,
        }
    }
}

/// The mathematical value of a [`Token`]: its text as a character sequence.
pub enum TokenModel {
    Open,
    Symbol(Seq<char>),
    Literal(Seq<char>),
    Closed,
}

impl View for Token {
    type V = TokenModel;

    open spec fn view(&self) -> TokenModel {
        match self {
            Token::Open => TokenModel::Open,
            Token::Symbol(s) => TokenModel::Symbol(s@),
            Token::Literal(s) => TokenModel::Literal(s@),
            Token::Closed => TokenModel::Closed,
        }
    }
}

/// The values of a token sequence, element by element.
pub open spec fn token_views(ts: Seq<Token>) -> Seq<TokenModel> {
    ts.map(|i: int, t: Token| t@)
}

/// How the lexer can fail: a quote opened but never closed, or a trailing
/// backslash with nothing after it to escape.
#[derive(Debug, Clone, Copy, PartialEq, Eq, Structural)]
pub enum LexError {
    UnterminatedLiteral,
    UnterminatedEscape,
}

/// The lexer's control state while scanning.
#[derive(Debug, Clone, Copy)]
pub enum LexerState {
    Normal,
    Escaped,
    SingleLiteral,
    DoubleLiteral,
    SingleLiteralEscaped,
    DoubleLiteralEscaped,
    Comment,
}

/// The full lexer configuration: control state, the buffer of the token
/// being accumulated, and the tokens emitted so far.
pub struct LexModel {
    pub st: LexerState,
    pub buf: Seq<char>,
    pub toks: Seq<TokenModel>,
}

/// The configuration the lexer starts in.
pub open spec fn lex_init() -> LexModel {
    LexModel { st: LexerState::Normal, buf: Seq::empty(), toks: Seq::empty() }
}

/// Emit the buffer as a `Symbol` token; an empty buffer emits nothing.
pub open spec fn flush_symbol_model(m: LexModel) -> LexModel {
    if m.buf.len() == 0 {
        m
    } else {
        LexModel { buf: Seq::empty(), toks: m.toks.push(TokenModel::Symbol(m.buf)), ..m }
    }
}

/// Emit the buffer as a `Literal` token; an empty buffer emits nothing.
pub open spec fn flush_literal_model(m: LexModel) -> LexModel {
    if m.buf.len() == 0 {
        m
    } else {
        LexModel { buf: Seq::empty(), toks: m.toks.push(TokenModel::Literal(m.buf)), ..m }
    }
}

/// The lexer's transition function: one configuration and one character in,
/// the next configuration out.
pub open spec fn lex_step(m: LexModel, c: char) -> LexModel {
    match m.st {
        LexerState::Normal => {
            if is_whitespace_char(c) {
                flush_symbol_model(m)
            } else if c == '"' {
                LexModel { st: LexerState::DoubleLiteral, ..flush_symbol_model(m) }
            } else if c == '\'' {
                LexModel { st: LexerState::SingleLiteral, ..flush_symbol_model(m) }
            } else if c == '(' {
                let f = flush_symbol_model(m);
                LexModel { toks: f.toks.push(TokenModel::Open), ..f }
            } else if c == ')' {
                let f = flush_symbol_model(m);
                LexModel { toks: f.toks.push(TokenModel::Closed), ..f }
            } else if c == '\\' {
                LexModel { st: LexerState::Escaped, ..m }
            } else if c == ';' {
                LexModel { st: LexerState::Comment, ..m }
            } else {
                LexModel { buf: m.buf.push(c), ..m }
            }
        },
        LexerState::Escaped => {
            // A backslash chains: the state stays `Escaped` until some
            // non-backslash character arrives.
            if c == '\\' {
                LexModel { buf: m.buf.push('\\'), ..m }
            } else if c == '(' || c == ')' || c == '"' || c == '\'' || is_whitespace_char(c) {
                LexModel { st: LexerState::Normal, buf: m.buf.push(c), ..m }
            } else {
                LexModel { st: LexerState::Normal, buf: m.buf.push('\\').push(c), ..m }
            }
        },
        LexerState::DoubleLiteral => {
            if c == '"' {
                LexModel { st: LexerState::Normal, ..flush_literal_model(m) }
            } else if c == '\\' {
                LexModel { st: LexerState::DoubleLiteralEscaped, ..m }
            } else {
                LexModel { buf: m.buf.push(c), ..m }
            }
        },
        LexerState::SingleLiteral => {
            if c == '\'' {
                LexModel { st: LexerState::Normal, ..flush_literal_model(m) }
            } else if c == '\\' {
                LexModel { st: LexerState::SingleLiteralEscaped, ..m }
            } else {
                LexModel { buf: m.buf.push(c), ..m }
            }
        },
        LexerState::DoubleLiteralEscaped => {
            if c == '"' || c == '\'' {
                LexModel { st: LexerState::DoubleLiteral, buf: m.buf.push(c), ..m }
            } else if c == '\\' {
                LexModel { buf: m.buf.push('\\'), ..m }
            } else {
                LexModel { st: LexerState::DoubleLiteral, buf: m.buf.push('\\').push(c), ..m }
            }
        },
        LexerState::SingleLiteralEscaped => {
            if c == '"' || c == '\'' {
                LexModel { st: LexerState::SingleLiteral, buf: m.buf.push(c), ..m }
            } else if c == '\\' {
                LexModel { buf: m.buf.push('\\'), ..m }
            } else {
                LexModel { st: LexerState::SingleLiteral, buf: m.buf.push('\\').push(c), ..m }
            }
        },
        LexerState::Comment => {
            if c == '\n' {
                LexModel { st: LexerState::Normal, ..m }
            } else {
                m
            }
        },
    }
}

/// The configuration reached after scanning all of `s`.
pub open spec fn lex_fold(s: Seq<char>) -> LexModel
    decreases s.len(),
{
    if s.len() == 0 {
        lex_init()
    } else {
        lex_step(lex_fold(s.drop_last()), s.last())
    }
}

/// What lexing an input yields: the token sequence, or the error forced by
/// the configuration the input ends in.
pub open spec fn spec_lex(s: Seq<char>) -> Result<Seq<TokenModel>, LexError> {
    let m = lex_fold(s);
    match m.st {
        LexerState::Normal | LexerState::Comment => Ok(flush_symbol_model(m).toks),
        LexerState::SingleLiteral | LexerState::DoubleLiteral => Err(
            LexError::UnterminatedLiteral,
        ),
        LexerState::Escaped | LexerState::SingleLiteralEscaped
            | LexerState::DoubleLiteralEscaped => Err(LexError::UnterminatedEscape),
    }
}

proof fn lemma_token_views_push(ts: Seq<Token>, t: Token)
    ensures
        token_views(ts.push(t)) == token_views(ts).push(t@),
{
    assert(token_views(ts.push(t)) =~= token_views(ts).push(t@));
}

proof fn lemma_lex_fold_snoc(s: Seq<char>, i: int)
    requires
        0 <= i < s.len(),
    ensures
        lex_fold(s.take(i + 1)) == lex_step(lex_fold(s.take(i)), s[i]),
{
    assert(s.take(i + 1).drop_last() =~= s.take(i));
    assert(s.take(i + 1).last() == s[i]);
}

/// Emit the buffered characters as one token made by `as_literal` being
/// false (`Symbol`) or true (`Literal`); an empty buffer emits nothing.
fn flush_buffer(buf: &mut Vec<char>, toks: &mut Vec<Token>, as_literal: bool)
    ensures
        final(buf)@ == Seq::<char>::empty(),
        old(buf)@.len() == 0 ==> final(toks)@ == old(toks)@,
        old(buf)@.len() > 0 && !as_literal ==> token_views(final(toks)@) == token_views(
            old(toks)@,
        ).push(TokenModel::Symbol(old(buf)@)),
        old(buf)@.len() > 0 && as_literal ==> token_views(final(toks)@) == token_views(
            old(toks)@,
        ).push(TokenModel::Literal(old(buf)@)),
{
    if buf.len() > 0 {
        let text = chars_to_string(buf);
        let t = if as_literal {
            Token::Literal(text)
        } else {
            Token::Symbol(text)
        };
        proof {
            lemma_token_views_push(toks@, t);
        }
        toks.push(t);
        buf.clear();
    }
}

/// Turn input text into tokens, or report an unterminated quote or a
/// trailing escape.
pub fn lex(input: &str) -> (r: Result<Vec<Token>, LexError>)
    ensures
        match r {
            Ok(toks) => spec_lex(input@) == Ok::<Seq<TokenModel>, LexError>(token_views(toks@)),
            Err(e) => spec_lex(input@) == Err::<Seq<TokenModel>, LexError>(e),
        },
{
    let cs = str_chars(input);
    let n = cs.len();
    let mut st = LexerState::Normal;
    let mut buf: Vec<char> = Vec::new();
    let mut toks: Vec<Token> = Vec::new();
    let mut i: usize = 0;
    while i < n
        invariant
            i <= n,
            n == cs@.len(),
            cs@ == input@,
            lex_fold(input@.take(i as int)).st == st,
            lex_fold(input@.take(i as int)).buf == buf@,
            lex_fold(input@.take(i as int)).toks == token_views(toks@),
        decreases n - i,
    {
        let c = cs[i];
        proof {
            lemma_lex_fold_snoc(input@, i as int);
        }
        let ghost pre = LexModel { st, buf: buf@, toks: token_views(toks@) };
        match st {
            LexerState::Normal => {
                if is_space(c) {
                    flush_buffer(&mut buf, &mut toks, false);
                } else if c == '"' {
                    flush_buffer(&mut buf, &mut toks, false);
                    st = LexerState::DoubleLiteral;
                } else if c == '\'' {
                    flush_buffer(&mut buf, &mut toks, false);
                    st = LexerState::SingleLiteral;
                } else if c == '(' {
                    flush_buffer(&mut buf, &mut toks, false);
                    proof {
                        lemma_token_views_push(toks@, Token::Open);
                    }
                    toks.push(Token::Open);
                } else if c == ')' {
                    flush_buffer(&mut buf, &mut toks, false);
                    proof {
                        lemma_token_views_push(toks@, Token::Closed);
                    }
                    toks.push(Token::Closed);
                } else if c == '\\' {
                    st = LexerState::Escaped;
                } else if c == ';' {
                    st = LexerState::Comment;
                } else {
                    buf.push(c);
                }
            },
            LexerState::Escaped => {
                if c == '\\' {
                    buf.push('\\');
                } else if c == '(' || c == ')' || c == '"' || c == '\'' || is_space(c) {
                    buf.push(c);
                    st = LexerState::Normal;
                } else {
                    buf.push('\\');
                    buf.push(c);
                    st = LexerState::Normal;
                }
            },
            LexerState::DoubleLiteral => {
                if c == '"' {
                    flush_buffer(&mut buf, &mut toks, true);
                    st = LexerState::Normal;
                } else if c == '\\' {
                    st = LexerState::DoubleLiteralEscaped;
                } else {
                    buf.push(c);
                }
            },
            LexerState::SingleLiteral => {
                if c == '\'' {
                    flush_buffer(&mut buf, &mut toks, true);
                    st = LexerState::Normal;
                } else if c == '\\' {
                    st = LexerState::SingleLiteralEscaped;
                } else {
                    buf.push(c);
                }
            },
            LexerState::DoubleLiteralEscaped => {
                if c == '"' || c == '\'' {
                    buf.push(c);
                    st = LexerState::DoubleLiteral;
                } else if c == '\\' {
                    buf.push('\\');
                } else {
                    buf.push('\\');
                    buf.push(c);
                    st = LexerState::DoubleLiteral;
                }
            },
            LexerState::SingleLiteralEscaped => {
                if c == '"' || c == '\'' {
                    buf.push(c);
                    st = LexerState::SingleLiteral;
                } else if c == '\\' {
                    buf.push('\\');
                } else {
                    buf.push('\\');
                    buf.push(c);
                    st = LexerState::SingleLiteral;
                }
            },
            LexerState::Comment => {
                if c == '\n' {
                    st = LexerState::Normal;
                }
            },
        }
        proof {
            let post = lex_step(pre, input@[i as int]);
            assert(post.st == st);
            assert(post.buf == buf@);
            assert(post.toks == token_views(toks@));
        }
        i = i + 1;
    }
    proof {
        assert(input@.take(n as int) =~= input@);
    }
    match st {
        LexerState::Normal | LexerState::Comment => {
            flush_buffer(&mut buf, &mut toks, false);
            Ok(toks)
        },
        LexerState::SingleLiteral | LexerState::DoubleLiteral => Err(
            LexError::UnterminatedLiteral,
        ),
        LexerState::Escaped | LexerState::SingleLiteralEscaped
            | LexerState::DoubleLiteralEscaped => Err(LexError::UnterminatedEscape),
    }
}

} // verus!
