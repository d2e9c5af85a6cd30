//! Parsing: the token sequence is consumed front to back through a cursor
//! and built into a tree of expressions by parenthesis nesting, following
//! the grammar `Expression ::= Atom | '(' Expression* ')'`.
use vstd::prelude::*;

use crate::lexer::{token_views, Token, TokenModel};

verus! {

broadcast use vstd::seq::axiom_seq_index_decreases, vstd::seq::axiom_seq_subrange_decreases, vstd::std_specs::vec::axiom_vec_index_decreases, vstd::std_specs::vec::axiom_vec_decreases_to_view;

/// A parsed tree node: a leaf atom or a parenthesized list of children.
#[derive(Debug, PartialEq)]
pub enum Expression {
    List(Vec<Expression>),
    Atom(Atom),
}

/// A leaf expression: quoted literal text or an unquoted symbol.
#[derive(Debug, PartialEq)]
pub enum Atom {
    Literal(String),
    Symbol(String),
}

/// How parsing can fail; structural only, and fatal to the whole parse.
#[derive(Debug, PartialEq)]
pub enum ParseError {
    ExpectedAtom { got: Token },
    ExpectedExpression,
    ExpectedClosed,
    UnexpectedClosed,
}

/// The mathematical value of an [`Expression`].
pub enum ExprModel {
    List(Seq<ExprModel>),
    Atom(AtomModel),
}

/// The mathematical value of an [`Atom`].
pub enum AtomModel {
    Literal(Seq<char>),
    Symbol(Seq<char>),
}

/// The mathematical value of a [`ParseError`].
pub enum ParseErrorModel {
    ExpectedAtom { got: TokenModel },
    ExpectedExpression,
    ExpectedClosed,
    UnexpectedClosed,
}

/// The value of an atom.
pub open spec fn atom_view(a: Atom) -> AtomModel {
    match a {
        Atom::Literal(s) => AtomModel::Literal(s@),
        Atom::Symbol(s) => AtomModel::Symbol(s@),
    }
}

/// The value of an expression tree.
pub open spec fn expr_view(e: Expression) -> ExprModel
    decreases e,
{
    match e {
        Expression::Atom(a) => ExprModel::Atom(atom_view(a)),
        Expression::List(v) => ExprModel::List(exprs_view(v@)),
    }
}

/// The values of a sequence of expressions, element by element.
pub open spec fn exprs_view(s: Seq<Expression>) -> Seq<ExprModel>
    decreases s,
{
    if s.len() == 0 {
        Seq::empty()
    } else {
        seq![expr_view(s[0])] + exprs_view(s.subrange(1, s.len() as int))
    }
}

impl View for Expression {
    type V = ExprModel;

    open spec fn view(&self) -> ExprModel {
        expr_view(*self)
    }
}

impl View for Atom {
    type V = AtomModel;

    open spec fn view(&self) -> AtomModel {
        atom_view(*self)
    }
}

impl View for ParseError {
    type V = ParseErrorModel;

    open spec fn view(&self) -> ParseErrorModel {
        match self {
            ParseError::ExpectedAtom { got } => ParseErrorModel::ExpectedAtom { got: got@ },
            ParseError::ExpectedExpression => ParseErrorModel::ExpectedExpression,
            ParseError::ExpectedClosed => ParseErrorModel::ExpectedClosed,
            ParseError::UnexpectedClosed => ParseErrorModel::UnexpectedClosed,
        }
    }
}

pub proof fn lemma_exprs_view_len(s: Seq<Expression>)
    ensures
        exprs_view(s).len() == s.len(),
    decreases s,
{
    if s.len() > 0 {
        lemma_exprs_view_len(s.subrange(1, s.len() as int));
    }
}

pub proof fn lemma_exprs_view_index(s: Seq<Expression>, i: int)
    requires
        0 <= i < s.len(),
    ensures
        exprs_view(s).len() == s.len(),
        exprs_view(s)[i] == expr_view(s[i]),
    decreases s,
{
    lemma_exprs_view_len(s);
    if i > 0 {
        lemma_exprs_view_index(s.subrange(1, s.len() as int), i - 1);
    }
}

pub proof fn lemma_exprs_view_push(s: Seq<Expression>, e: Expression)
    ensures
        exprs_view(s.push(e)) == exprs_view(s).push(expr_view(e)),
    decreases s,
{
    reveal_with_fuel(exprs_view, 3);
    if s.len() == 0 {
        assert(s.push(e)[0] == e);
        assert(s.push(e).subrange(1, 1) =~= Seq::<Expression>::empty());
        assert(exprs_view(s.push(e)) =~= exprs_view(s).push(expr_view(e)));
    } else {
        assert(s.push(e)[0] == s[0]);
        assert(s.push(e).subrange(1, s.len() + 1 as int) =~= s.subrange(1, s.len() as int).push(e));
        lemma_exprs_view_push(s.subrange(1, s.len() as int), e);
        assert(exprs_view(s.push(e)) =~= exprs_view(s).push(expr_view(e)));
    }
}

/// What one expression starting at cursor `i` parses to: the tree and the
/// cursor after it, or the first error.
pub open spec fn spec_parse_expr(toks: Seq<TokenModel>, i: int) -> Result<
    (ExprModel, int),
    ParseErrorModel,
>
    decreases toks.len() - i, 0int,
{
    if i < 0 || i >= toks.len() {
        Err(ParseErrorModel::ExpectedExpression)
    } else {
        match toks[i] {
            TokenModel::Open => match spec_parse_list(toks, i + 1) {
                Ok((es, j)) => Ok((ExprModel::List(es), j)),
                Err(e) => Err(e),
            },
            TokenModel::Symbol(s) => Ok((ExprModel::Atom(AtomModel::Symbol(s)), i + 1)),
            TokenModel::Literal(s) => Ok((ExprModel::Atom(AtomModel::Literal(s)), i + 1)),
            TokenModel::Closed => Err(ParseErrorModel::UnexpectedClosed),
        }
    }
}

/// What the children of a list starting at cursor `i` (just past the `(`)
/// parse to, up to and including the matching `)`.
pub open spec fn spec_parse_list(toks: Seq<TokenModel>, i: int) -> Result<
    (Seq<ExprModel>, int),
    ParseErrorModel,
>
    decreases toks.len() - i, 1int,
{
    if i < 0 || i >= toks.len() {
        Err(ParseErrorModel::ExpectedClosed)
    } else if toks[i] is Closed {
        Ok((Seq::empty(), i + 1))
    } else {
        match spec_parse_expr(toks, i) {
            Ok((e, j)) => if i < j <= toks.len() {
                match spec_parse_list(toks, j) {
                    Ok((es, k)) => Ok((seq![e] + es, k)),
                    Err(x) => Err(x),
                }
            } else {
                // A successful expression always advances the cursor, so
                // this branch is never reached.
                Err(ParseErrorModel::ExpectedClosed)
            },
            Err(e) => Err(e),
        }
    }
}

/// What the whole token sequence from cursor `i` parses to: the top-level
/// expressions in order, or the first error.
pub open spec fn spec_parse_at(toks: Seq<TokenModel>, i: int) -> Result<
    Seq<ExprModel>,
    ParseErrorModel,
>
    decreases toks.len() - i, 2int,
{
    if i < 0 || i >= toks.len() {
        Ok(Seq::empty())
    } else {
        match spec_parse_expr(toks, i) {
            Ok((e, j)) => if i < j <= toks.len() {
                match spec_parse_at(toks, j) {
                    Ok(es) => Ok(seq![e] + es),
                    Err(x) => Err(x),
                }
            } else {
                Err(ParseErrorModel::ExpectedExpression)
            },
            Err(e) => Err(e),
        }
    }
}

/// What parsing a whole token sequence yields.
pub open spec fn spec_parse(toks: Seq<TokenModel>) -> Result<Seq<ExprModel>, ParseErrorModel> {
    spec_parse_at(toks, 0)
}

/// The tokens that an expression tree prints back to: an atom is its own
/// token, a list is its children between `(` and `)`.
pub open spec fn expr_tokens(e: ExprModel) -> Seq<TokenModel>
    decreases e,
{
    match e {
        ExprModel::Atom(AtomModel::Symbol(s)) => seq![TokenModel::Symbol(s)],
        ExprModel::Atom(AtomModel::Literal(s)) => seq![TokenModel::Literal(s)],
        ExprModel::List(es) => seq![TokenModel::Open] + exprs_tokens(es) + seq![
            TokenModel::Closed,
        ],
    }
}

/// The tokens of a sequence of expression trees, in order.
pub open spec fn exprs_tokens(es: Seq<ExprModel>) -> Seq<TokenModel>
    decreases es,
{
    if es.len() == 0 {
        Seq::empty()
    } else {
        expr_tokens(es[0]) + exprs_tokens(es.subrange(1, es.len() as int))
    }
}

proof fn lemma_expr_tokens_head(e: ExprModel)
    ensures
        expr_tokens(e).len() >= 1,
        !(expr_tokens(e)[0] is Closed),
{
    match e {
        ExprModel::Atom(AtomModel::Symbol(s)) => {},
        ExprModel::Atom(AtomModel::Literal(s)) => {},
        ExprModel::List(es) => {},
    }
}

proof fn lemma_expr_complete(toks: Seq<TokenModel>, i: int, e: ExprModel)
    requires
        0 <= i,
        i + expr_tokens(e).len() <= toks.len(),
        toks.subrange(i, i + expr_tokens(e).len()) == expr_tokens(e),
    ensures
        spec_parse_expr(toks, i) == Ok::<(ExprModel, int), ParseErrorModel>((
            e,
            i + expr_tokens(e).len(),
        )),
    decreases e,
{
    match e {
        ExprModel::Atom(AtomModel::Symbol(s)) => {
            assert(toks[i] == expr_tokens(e)[0]);
        },
        ExprModel::Atom(AtomModel::Literal(s)) => {
            assert(toks[i] == expr_tokens(e)[0]);
        },
        ExprModel::List(es) => {
            let inner = exprs_tokens(es);
            let ln = inner.len() as int;
            assert(toks[i] == expr_tokens(e)[0]);
            assert(toks[i] is Open);
            assert(toks.subrange(i + 1, i + 1 + ln) =~= inner) by {
                assert forall|k: int| 0 <= k < ln implies toks.subrange(i + 1, i + 1 + ln)[k]
                    == inner[k] by {
                    assert(toks.subrange(i, i + expr_tokens(e).len())[k + 1] == toks[i + 1 + k]);
                    assert(expr_tokens(e)[k + 1] == inner[k]);
                }
            }
            assert(toks[i + 1 + ln] == expr_tokens(e)[1 + ln]);
            assert(toks[i + 1 + ln] is Closed);
            lemma_list_complete(toks, i + 1, es);
        },
    }
}

proof fn lemma_list_complete(toks: Seq<TokenModel>, i: int, es: Seq<ExprModel>)
    requires
        0 <= i,
        i + exprs_tokens(es).len() < toks.len(),
        toks.subrange(i, i + exprs_tokens(es).len()) == exprs_tokens(es),
        toks[i + exprs_tokens(es).len()] is Closed,
    ensures
        spec_parse_list(toks, i) == Ok::<(Seq<ExprModel>, int), ParseErrorModel>((
            es,
            i + exprs_tokens(es).len() + 1,
        )),
    decreases es,
{
    if es.len() == 0 {
        assert(es =~= Seq::<ExprModel>::empty());
    } else {
        let e0 = es[0];
        let tail = es.subrange(1, es.len() as int);
        let l0 = expr_tokens(e0).len() as int;
        let lt = exprs_tokens(tail).len() as int;
        assert(exprs_tokens(es) == expr_tokens(e0) + exprs_tokens(tail));
        lemma_expr_tokens_head(e0);
        assert(toks[i] == exprs_tokens(es)[0]);
        assert(!(toks[i] is Closed));
        assert(toks.subrange(i, i + l0) =~= expr_tokens(e0)) by {
            assert forall|k: int| 0 <= k < l0 implies toks.subrange(i, i + l0)[k] == expr_tokens(
                e0,
            )[k] by {
                assert(toks.subrange(i, i + l0 + lt)[k] == toks[i + k]);
            }
        }
        lemma_expr_complete(toks, i, e0);
        assert(toks.subrange(i + l0, i + l0 + lt) =~= exprs_tokens(tail)) by {
            assert forall|k: int| 0 <= k < lt implies toks.subrange(i + l0, i + l0 + lt)[k]
                == exprs_tokens(tail)[k] by {
                assert(toks.subrange(i, i + l0 + lt)[l0 + k] == toks[i + l0 + k]);
                assert(exprs_tokens(es)[l0 + k] == exprs_tokens(tail)[k]);
            }
        }
        lemma_list_complete(toks, i + l0, tail);
        assert(seq![e0] + tail =~= es);
    }
}

proof fn lemma_parse_at_complete(toks: Seq<TokenModel>, i: int, es: Seq<ExprModel>)
    requires
        0 <= i,
        i + exprs_tokens(es).len() == toks.len(),
        toks.subrange(i, i + exprs_tokens(es).len()) == exprs_tokens(es),
    ensures
        spec_parse_at(toks, i) == Ok::<Seq<ExprModel>, ParseErrorModel>(es),
    decreases es,
{
    if es.len() == 0 {
        assert(es =~= Seq::<ExprModel>::empty());
    } else {
        let e0 = es[0];
        let tail = es.subrange(1, es.len() as int);
        let l0 = expr_tokens(e0).len() as int;
        let lt = exprs_tokens(tail).len() as int;
        assert(exprs_tokens(es) == expr_tokens(e0) + exprs_tokens(tail));
        lemma_expr_tokens_head(e0);
        assert(toks.subrange(i, i + l0) =~= expr_tokens(e0)) by {
            assert forall|k: int| 0 <= k < l0 implies toks.subrange(i, i + l0)[k] == expr_tokens(
                e0,
            )[k] by {
                assert(toks.subrange(i, i + l0 + lt)[k] == toks[i + k]);
            }
        }
        lemma_expr_complete(toks, i, e0);
        assert(toks.subrange(i + l0, i + l0 + lt) =~= exprs_tokens(tail)) by {
            assert forall|k: int| 0 <= k < lt implies toks.subrange(i + l0, i + l0 + lt)[k]
                == exprs_tokens(tail)[k] by {
                assert(toks.subrange(i, i + l0 + lt)[l0 + k] == toks[i + l0 + k]);
                assert(exprs_tokens(es)[l0 + k] == exprs_tokens(tail)[k]);
            }
        }
        lemma_parse_at_complete(toks, i + l0, tail);
        assert(seq![e0] + tail =~= es);
    }
}

/// Parser completeness on well-nested input: any token sequence that some
/// expression forest prints back to — exactly the sequences with matched
/// parenthesis nesting — parses without error, and parses to that forest.
pub proof fn lemma_parse_round_trip(es: Seq<ExprModel>)
    ensures
        spec_parse(exprs_tokens(es)) == Ok::<Seq<ExprModel>, ParseErrorModel>(es),
{
    let toks = exprs_tokens(es);
    assert(toks.subrange(0, toks.len() as int) =~= toks);
    lemma_parse_at_complete(toks, 0, es);
}

proof fn lemma_expr_sound(toks: Seq<TokenModel>, i: int)
    requires
        spec_parse_expr(toks, i) is Ok,
    ensures
        ({
            let (e, j) = spec_parse_expr(toks, i)->Ok_0;
            0 <= i < j <= toks.len() && toks.subrange(i, j) == expr_tokens(e)
        }),
    decreases toks.len() - i, 0int,
{
    let (e, j) = spec_parse_expr(toks, i)->Ok_0;
    match toks[i] {
        TokenModel::Open => {
            let (es, k) = spec_parse_list(toks, i + 1)->Ok_0;
            lemma_list_sound(toks, i + 1);
            assert(toks.subrange(i, k) =~= expr_tokens(ExprModel::List(es))) by {
                assert(toks.subrange(i + 1, k - 1) == exprs_tokens(es));
                assert forall|m: int| 0 <= m < k - i implies toks.subrange(i, k)[m] == expr_tokens(
                    ExprModel::List(es),
                )[m] by {
                    if 1 <= m < k - 1 - i {
                        assert(toks.subrange(i + 1, k - 1)[m - 1] == toks[i + m]);
                    }
                }
            }
        },
        TokenModel::Symbol(s) => {
            assert(toks.subrange(i, i + 1) =~= seq![TokenModel::Symbol(s)]);
        },
        TokenModel::Literal(s) => {
            assert(toks.subrange(i, i + 1) =~= seq![TokenModel::Literal(s)]);
        },
        TokenModel::Closed => {},
    }
}

proof fn lemma_list_sound(toks: Seq<TokenModel>, i: int)
    requires
        spec_parse_list(toks, i) is Ok,
    ensures
        ({
            let (es, k) = spec_parse_list(toks, i)->Ok_0;
            0 <= i < k <= toks.len() && toks.subrange(i, k - 1) == exprs_tokens(es) && toks[k - 1]
                is Closed
        }),
    decreases toks.len() - i, 1int,
{
    let (es, k) = spec_parse_list(toks, i)->Ok_0;
    if toks[i] is Closed {
        assert(toks.subrange(i, i) =~= Seq::<TokenModel>::empty());
    } else {
        let (e, j) = spec_parse_expr(toks, i)->Ok_0;
        lemma_expr_sound(toks, i);
        let (es2, k2) = spec_parse_list(toks, j)->Ok_0;
        lemma_list_sound(toks, j);
        assert(exprs_tokens(seq![e] + es2) == expr_tokens(e) + exprs_tokens(es2)) by {
            assert((seq![e] + es2)[0] == e);
            assert((seq![e] + es2).subrange(1, (seq![e] + es2).len() as int) =~= es2);
        }
        assert(toks.subrange(i, k - 1) =~= expr_tokens(e) + exprs_tokens(es2)) by {
            assert forall|m: int| 0 <= m < k - 1 - i implies toks.subrange(i, k - 1)[m] == (
            expr_tokens(e) + exprs_tokens(es2))[m] by {
                if m < j - i {
                    assert(toks.subrange(i, j)[m] == toks[i + m]);
                } else {
                    assert(toks.subrange(j, k2 - 1)[m - (j - i)] == toks[i + m]);
                }
            }
        }
    }
}

proof fn lemma_parse_at_sound(toks: Seq<TokenModel>, i: int)
    requires
        0 <= i <= toks.len(),
        spec_parse_at(toks, i) is Ok,
    ensures
        toks.subrange(i, toks.len() as int) == exprs_tokens(spec_parse_at(toks, i)->Ok_0),
    decreases toks.len() - i, 2int,
{
    let es = spec_parse_at(toks, i)->Ok_0;
    if i >= toks.len() {
        assert(toks.subrange(i, toks.len() as int) =~= Seq::<TokenModel>::empty());
    } else {
        let (e, j) = spec_parse_expr(toks, i)->Ok_0;
        lemma_expr_sound(toks, i);
        let es2 = spec_parse_at(toks, j)->Ok_0;
        lemma_parse_at_sound(toks, j);
        assert(exprs_tokens(seq![e] + es2) == expr_tokens(e) + exprs_tokens(es2)) by {
            assert((seq![e] + es2)[0] == e);
            assert((seq![e] + es2).subrange(1, (seq![e] + es2).len() as int) =~= es2);
        }
        assert(toks.subrange(i, toks.len() as int) =~= expr_tokens(e) + exprs_tokens(es2)) by {
            assert forall|m: int| 0 <= m < toks.len() - i implies toks.subrange(
                i,
                toks.len() as int,
            )[m] == (expr_tokens(e) + exprs_tokens(es2))[m] by {
                if m < j - i {
                    assert(toks.subrange(i, j)[m] == toks[i + m]);
                } else {
                    assert(toks.subrange(j, toks.len() as int)[m - (j - i)] == toks[i + m]);
                }
            }
        }
    }
}

/// Parser soundness: whatever forest a token sequence parses to prints
/// back to exactly that sequence. Together with completeness this pins the
/// parses down: parsing succeeds precisely on the well-nested sequences,
/// and on those it returns their unique expression forest.
pub proof fn lemma_parse_sound(toks: Seq<TokenModel>, es: Seq<ExprModel>)
    requires
        spec_parse(toks) == Ok::<Seq<ExprModel>, ParseErrorModel>(es),
    ensures
        exprs_tokens(es) == toks,
{
    lemma_parse_at_sound(toks, 0);
    assert(toks.subrange(0, toks.len() as int) =~= toks);
}

/// What one token contributes to the parenthesis depth.
pub open spec fn paren_delta(t: TokenModel) -> int {
    match t {
        TokenModel::Open => 1,
        TokenModel::Closed => -1,
        TokenModel::Symbol(_) => 0,
        TokenModel::Literal(_) => 0,
    }
}

/// The parenthesis depth after scanning all of `toks`.
pub open spec fn paren_depth(toks: Seq<TokenModel>) -> int
    decreases toks.len(),
{
    if toks.len() == 0 {
        0
    } else {
        paren_depth(toks.drop_last()) + paren_delta(toks.last())
    }
}

/// Matched nesting: no prefix closes a parenthesis that was not opened,
/// and every opened parenthesis is closed by the end.
pub open spec fn balanced(toks: Seq<TokenModel>) -> bool {
    paren_depth(toks) == 0 && forall|k: int|
        0 <= k <= toks.len() ==> paren_depth(toks.take(k)) >= 0
}

/// The parenthesis depth of the segment `[i, j)` of `toks`.
pub open spec fn seg_depth(toks: Seq<TokenModel>, i: int, j: int) -> int {
    paren_depth(toks.subrange(i, j))
}

proof fn lemma_depth_concat(a: Seq<TokenModel>, b: Seq<TokenModel>)
    ensures
        paren_depth(a + b) == paren_depth(a) + paren_depth(b),
    decreases b.len(),
{
    if b.len() == 0 {
        assert(a + b =~= a);
    } else {
        assert((a + b).drop_last() =~= a + b.drop_last());
        lemma_depth_concat(a, b.drop_last());
    }
}

proof fn lemma_seg_depth_split(toks: Seq<TokenModel>, i: int, m: int, j: int)
    requires
        0 <= i <= m <= j <= toks.len(),
    ensures
        seg_depth(toks, i, j) == seg_depth(toks, i, m) + seg_depth(toks, m, j),
{
    assert(toks.subrange(i, j) =~= toks.subrange(i, m) + toks.subrange(m, j));
    lemma_depth_concat(toks.subrange(i, m), toks.subrange(m, j));
}

proof fn lemma_seg_depth_step(toks: Seq<TokenModel>, i: int, m: int)
    requires
        0 <= i <= m < toks.len(),
    ensures
        seg_depth(toks, i, m + 1) == seg_depth(toks, i, m) + paren_delta(toks[m]),
{
    lemma_seg_depth_split(toks, i, m, m + 1);
    assert(paren_depth(Seq::<TokenModel>::empty()) == 0);
    assert(toks.subrange(m, m + 1).drop_last() =~= Seq::<TokenModel>::empty());
    assert(toks.subrange(m, m + 1).last() == toks[m]);
    assert(paren_depth(toks.subrange(m, m + 1)) == paren_delta(toks[m]));
}

proof fn lemma_first_dip(toks: Seq<TokenModel>, m: int, q: int) -> (k1: int)
    requires
        0 <= m <= q <= toks.len(),
        seg_depth(toks, m, q) < 0,
    ensures
        m <= k1 < q,
        seg_depth(toks, m, k1 + 1) == -1,
        forall|p: int| m <= p <= k1 ==> seg_depth(toks, m, p) >= 0,
    decreases q - m,
{
    assert(toks.subrange(m, m) =~= Seq::<TokenModel>::empty());
    assert(q > m);
    if seg_depth(toks, m, q - 1) < 0 {
        lemma_first_dip(toks, m, q - 1)
    } else {
        lemma_seg_depth_step(toks, m, q - 1);
        if exists|p: int| m <= p < q - 1 && seg_depth(toks, m, p) < 0 {
            let p = choose|p: int| m <= p < q - 1 && seg_depth(toks, m, p) < 0;
            lemma_first_dip(toks, m, p)
        } else {
            q - 1
        }
    }
}

proof fn lemma_list_ok(toks: Seq<TokenModel>, m: int, k: int)
    requires
        0 <= m <= k < toks.len(),
        seg_depth(toks, m, k + 1) == -1,
        forall|p: int| m <= p <= k ==> seg_depth(toks, m, p) >= 0,
    ensures
        spec_parse_list(toks, m) is Ok,
        spec_parse_list(toks, m)->Ok_0.1 == k + 1,
    decreases k - m,
{
    assert(toks.subrange(m, m) =~= Seq::<TokenModel>::empty());
    lemma_seg_depth_step(toks, m, m);
    if toks[m] is Closed {
        if k != m {
            assert(seg_depth(toks, m, m + 1) >= 0);
            assert(false);
        }
    } else {
        lemma_seg_depth_step(toks, m, k);
        assert(toks[k] is Closed) by {
            if !(toks[k] is Closed) {
                assert(seg_depth(toks, m, k + 1) >= seg_depth(toks, m, k) - 0);
                assert(false);
            }
        }
        assert(k > m);
        match toks[m] {
            TokenModel::Symbol(_) | TokenModel::Literal(_) => {
                let m1 = m + 1;
                assert forall|p: int| m1 <= p <= k implies #[trigger] seg_depth(toks, m1, p)
                    >= 0 by {
                    lemma_seg_depth_split(toks, m, m1, p);
                }
                lemma_seg_depth_split(toks, m, m1, k + 1);
                lemma_list_ok(toks, m1, k);
            },
            TokenModel::Open => {
                lemma_seg_depth_split(toks, m, m + 1, k + 1);
                assert(seg_depth(toks, m + 1, k + 1) == -2);
                let k1 = lemma_first_dip(toks, m + 1, k + 1);
                lemma_list_ok(toks, m + 1, k1);
                assert(spec_parse_expr(toks, m) is Ok);
                assert(spec_parse_expr(toks, m)->Ok_0.1 == k1 + 1);
                lemma_seg_depth_split(toks, m, m + 1, k1 + 1);
                assert(seg_depth(toks, m, k1 + 1) == 0);
                assert(k1 + 1 <= k);
                let r1 = k1 + 1;
                assert forall|p: int| r1 <= p <= k implies #[trigger] seg_depth(toks, r1, p)
                    >= 0 by {
                    lemma_seg_depth_split(toks, m, r1, p);
                }
                lemma_seg_depth_split(toks, m, r1, k + 1);
                lemma_list_ok(toks, r1, k);
            },
            TokenModel::Closed => {},
        }
    }
}

proof fn lemma_parse_at_ok(toks: Seq<TokenModel>, i: int)
    requires
        0 <= i <= toks.len(),
        seg_depth(toks, i, toks.len() as int) == 0,
        forall|p: int| i <= p <= toks.len() ==> seg_depth(toks, i, p) >= 0,
    ensures
        spec_parse_at(toks, i) is Ok,
    decreases toks.len() - i,
{
    assert(toks.subrange(i, i) =~= Seq::<TokenModel>::empty());
    if i < toks.len() {
        lemma_seg_depth_step(toks, i, i);
        match toks[i] {
            TokenModel::Symbol(_) | TokenModel::Literal(_) => {
                let i1 = i + 1;
                assert forall|p: int| i1 <= p <= toks.len() implies #[trigger] seg_depth(
                    toks,
                    i1,
                    p,
                ) >= 0 by {
                    lemma_seg_depth_split(toks, i, i1, p);
                }
                lemma_seg_depth_split(toks, i, i1, toks.len() as int);
                lemma_parse_at_ok(toks, i1);
            },
            TokenModel::Open => {
                lemma_seg_depth_split(toks, i, i + 1, toks.len() as int);
                assert(seg_depth(toks, i + 1, toks.len() as int) == -1);
                let k1 = lemma_first_dip(toks, i + 1, toks.len() as int);
                lemma_list_ok(toks, i + 1, k1);
                assert(spec_parse_expr(toks, i) is Ok);
                assert(spec_parse_expr(toks, i)->Ok_0.1 == k1 + 1);
                lemma_seg_depth_split(toks, i, i + 1, k1 + 1);
                assert(seg_depth(toks, i, k1 + 1) == 0);
                let r1 = k1 + 1;
                assert forall|p: int| r1 <= p <= toks.len() implies #[trigger] seg_depth(
                    toks,
                    r1,
                    p,
                ) >= 0 by {
                    lemma_seg_depth_split(toks, i, r1, p);
                }
                lemma_seg_depth_split(toks, i, r1, toks.len() as int);
                lemma_parse_at_ok(toks, r1);
            },
            TokenModel::Closed => {
                assert(seg_depth(toks, i, i + 1) == -1);
                assert(false);
            },
        }
    }
}

/// Parser totality on matched input: a token sequence whose parenthesis
/// nesting is matched — no prefix over-closes, and the depth returns to
/// zero at the end — always parses without error, whatever the atoms
/// between the parentheses are.
pub proof fn lemma_parse_balanced(toks: Seq<TokenModel>)
    requires
        balanced(toks),
    ensures
        spec_parse(toks) is Ok,
{
    assert forall|p: int| 0 <= p <= toks.len() implies seg_depth(toks, 0, p) >= 0 by {
        assert(toks.subrange(0, p) =~= toks.take(p));
    }
    assert(toks.subrange(0, toks.len() as int) =~= toks.take(toks.len() as int));
    assert(toks.take(toks.len() as int) =~= toks);
    lemma_parse_at_ok(toks, 0);
}

/// Lexing then parsing never fails structurally on well-formed text: if
/// the input lexes (no unterminated quote or trailing escape) and the
/// tokens' parenthesis nesting is matched, parsing succeeds.
pub proof fn lemma_lex_then_parse_total(input: Seq<char>, toks: Seq<TokenModel>)
    requires
        crate::lexer::spec_lex(input) == Ok::<Seq<TokenModel>, crate::lexer::LexError>(toks),
        balanced(toks),
    ensures
        spec_parse(toks) is Ok,
{
    lemma_parse_balanced(toks);
}

/// Parsing is deterministic: one token sequence has one parse outcome, so
/// parsing the same tokens twice yields structurally identical trees.
pub proof fn lemma_parse_deterministic(
    toks: Seq<TokenModel>,
    r1: Result<Seq<ExprModel>, ParseErrorModel>,
    r2: Result<Seq<ExprModel>, ParseErrorModel>,
)
    requires
        r1 == spec_parse(toks),
        r2 == spec_parse(toks),
    ensures
        r1 == r2,
{
}

/// Parsed children collected so far, put in front of what the rest of a
/// list parses to.
pub open spec fn prepend_list(
    acc: Seq<ExprModel>,
    r: Result<(Seq<ExprModel>, int), ParseErrorModel>,
) -> Result<(Seq<ExprModel>, int), ParseErrorModel> {
    match r {
        Ok((rest, k)) => Ok((acc + rest, k)),
        Err(e) => Err(e),
    }
}

/// Parsed expressions collected so far, put in front of what the rest of
/// the input parses to.
pub open spec fn prepend_parsed(
    acc: Seq<ExprModel>,
    r: Result<Seq<ExprModel>, ParseErrorModel>,
) -> Result<Seq<ExprModel>, ParseErrorModel> {
    match r {
        Ok(rest) => Ok(acc + rest),
        Err(e) => Err(e),
    }
}

fn peek<'a>(input: &'a Vec<Token>, i: usize) -> (r: Option<&'a Token>)
    ensures
        match r {
            Some(t) => i < input@.len() && *t == input@[i as int],
            None => i >= input@.len(),
        },
{
    if i < input.len() {
        Some(&input[i])
    } else {
        None
    }
}

fn next(input: &Vec<Token>, i: &mut usize) -> (r: Option<Token>)
    ensures
        match r {
            Some(t) => *old(i) < input@.len() && t == input@[*old(i) as int] && *final(i) == *old(
                i,
            ) + 1,
            None => *old(i) >= input@.len() && *final(i) == *old(i),
        },
{
    if *i < input.len() {
        let t = input[*i].clone();
        *i = *i + 1;
        Some(t)
    } else {
        None
    }
}

fn parse_atom(token: Token) -> (r: Result<Atom, ParseError>)
    ensures
        match r {
            Ok(a) => match token@ {
                TokenModel::Literal(s) => atom_view(a) == AtomModel::Literal(s),
                TokenModel::Symbol(s) => atom_view(a) == AtomModel::Symbol(s),
                _ => false,
            },
            Err(e) => (token@ is Open || token@ is Closed) && e@ == (ParseErrorModel::ExpectedAtom {
                got: token@,
            }),
        },
{
    match token {
        Token::Literal(s) => Ok(Atom::Literal(s)),
        Token::Symbol(s) => Ok(Atom::Symbol(s)),
        got => Err(ParseError::ExpectedAtom { got }),
    }
}

fn parse_expr(input: &Vec<Token>, i: &mut usize) -> (r: Result<Expression, ParseError>)
    requires
        *old(i) <= input@.len(),
    ensures
        match r {
            Ok(e) => spec_parse_expr(token_views(input@), *old(i) as int) == Ok::<
                (ExprModel, int),
                ParseErrorModel,
            >((expr_view(e), *final(i) as int)) && *old(i) < *final(i) <= input@.len(),
            Err(pe) => spec_parse_expr(token_views(input@), *old(i) as int) == Err::<
                (ExprModel, int),
                ParseErrorModel,
            >(pe@),
        },
    decreases input@.len() - *i, 0int,
{
    let token = match next(input, i) {
        Some(t) => t,
        None => {
            return Err(ParseError::ExpectedExpression);
        },
    };
    match token {
        Token::Open => match parse_list(input, i) {
            Ok(es) => Ok(Expression::List(es)),
            Err(e) => Err(e),
        },
        Token::Symbol(_) | Token::Literal(_) => match parse_atom(token) {
            Ok(a) => Ok(Expression::Atom(a)),
            Err(e) => Err(e),
        },
        Token::Closed => Err(ParseError::UnexpectedClosed),
    }
}

#[verifier::loop_isolation(false)]
fn parse_list(input: &Vec<Token>, i: &mut usize) -> (r: Result<Vec<Expression>, ParseError>)
    requires
        *old(i) <= input@.len(),
    ensures
        match r {
            Ok(es) => spec_parse_list(token_views(input@), *old(i) as int) == Ok::<
                (Seq<ExprModel>, int),
                ParseErrorModel,
            >((exprs_view(es@), *final(i) as int)) && *old(i) < *final(i) <= input@.len(),
            Err(pe) => spec_parse_list(token_views(input@), *old(i) as int) == Err::<
                (Seq<ExprModel>, int),
                ParseErrorModel,
            >(pe@),
        },
    decreases input@.len() - *i, 2int,
{
    let mut expressions: Vec<Expression> = Vec::new();
    let ghost i0 = *i;
    let ghost tv = token_views(input@);
    proof {
        match spec_parse_list(tv, i0 as int) {
            Ok((rest, k)) => {
                assert(Seq::<ExprModel>::empty() + rest =~= rest);
            },
            Err(_) => {},
        }
    }
    loop
        invariant
            i0 <= *i <= input@.len(),
            tv == token_views(input@),
            spec_parse_list(tv, i0 as int) == prepend_list(
                exprs_view(expressions@),
                spec_parse_list(tv, *i as int),
            ),
        decreases input@.len() - *i, 1int,
    {
        match peek(input, *i) {
            None => {
                assert(spec_parse_list(tv, *i as int) == Err::<
                    (Seq<ExprModel>, int),
                    ParseErrorModel,
                >(ParseErrorModel::ExpectedClosed));
                return Err(ParseError::ExpectedClosed);
            },
            Some(t) => {
                if let Token::Closed = t {
                    let ghost icur = *i as int;
                    let _ = next(input, i);
                    proof {
                        assert(tv[icur] is Closed);
                        assert(spec_parse_list(tv, icur) == Ok::<
                            (Seq<ExprModel>, int),
                            ParseErrorModel,
                        >((Seq::empty(), icur + 1)));
                        assert(exprs_view(expressions@) + Seq::<ExprModel>::empty()
                            =~= exprs_view(expressions@));
                    }
                    return Ok(expressions);
                } else {
                    let ghost icur = *i as int;
                    let ghost acc0 = exprs_view(expressions@);
                    match parse_expr(input, i) {
                        Err(e) => {
                            proof {
                                assert(!(tv[icur] is Closed));
                                assert(spec_parse_list(tv, icur) == Err::<
                                    (Seq<ExprModel>, int),
                                    ParseErrorModel,
                                >(e@));
                            }
                            return Err(e);
                        },
                        Ok(e) => {
                            let ghost j = *i as int;
                            proof {
                                assert(!(tv[icur] is Closed));
                                lemma_exprs_view_push(expressions@, e);
                                if spec_parse_list(tv, j) is Ok {
                                    let (rest, k) = spec_parse_list(tv, j)->Ok_0;
                                    assert(acc0 + (seq![expr_view(e)] + rest) =~= acc0.push(
                                        expr_view(e),
                                    ) + rest);
                                }
                            }
                            expressions.push(e);
                        },
                    }
                }
            },
        }
    }
}

/// Parse a whole token sequence into the top-level expressions, in order.
#[verifier::loop_isolation(false)]
pub fn parse(input: Vec<Token>) -> (r: Result<Vec<Expression>, ParseError>)
    ensures
        match r {
            Ok(es) => spec_parse(token_views(input@)) == Ok::<
                Seq<ExprModel>,
                ParseErrorModel,
            >(exprs_view(es@)),
            Err(pe) => spec_parse(token_views(input@)) == Err::<Seq<ExprModel>, ParseErrorModel>(
                pe@,
            ),
        },
{
    let mut expressions: Vec<Expression> = Vec::new();
    let mut i: usize = 0;
    let ghost tv = token_views(input@);
    proof {
        match spec_parse_at(tv, 0) {
            Ok(rest) => {
                assert(Seq::<ExprModel>::empty() + rest =~= rest);
            },
            Err(_) => {},
        }
    }
    loop
        invariant
            i <= input@.len(),
            tv == token_views(input@),
            spec_parse(tv) == prepend_parsed(
                exprs_view(expressions@),
                spec_parse_at(tv, i as int),
            ),
        decreases input@.len() - i,
    {
        if i >= input.len() {
            proof {
                assert(spec_parse_at(tv, i as int) == Ok::<
                    Seq<ExprModel>,
                    ParseErrorModel,
                >(Seq::empty()));
                assert(exprs_view(expressions@) + Seq::<ExprModel>::empty() =~= exprs_view(
                    expressions@,
                ));
            }
            return Ok(expressions);
        }
        let ghost icur = i as int;
        let ghost acc0 = exprs_view(expressions@);
        match parse_expr(&input, &mut i) {
            Err(e) => {
                return Err(e);
            },
            Ok(e) => {
                let ghost j = i as int;
                proof {
                    lemma_exprs_view_push(expressions@, e);
                    if spec_parse_at(tv, j) is Ok {
                        let rest = spec_parse_at(tv, j)->Ok_0;
                        assert(acc0 + (seq![expr_view(e)] + rest) =~= acc0.push(expr_view(e))
                            + rest);
                    }
                }
                expressions.push(e);
            },
        }
    }
}

} // verus!
