//! Interpretation: the expression tree is lowered into the executable
//! command model, resolving nested lists into embedded sub-commands.
use vstd::prelude::*;

use crate::command::{
    clause_view, clauses_view, command_view, lemma_clauses_view_index, lemma_clauses_view_len,
    Clause, ClauseModel, Command, CommandModel,
};
use crate::parser::{
    expr_view, exprs_view, lemma_exprs_view_index, lemma_exprs_view_len, Atom, AtomModel,
    ExprModel, Expression,
};

verus! {

broadcast use vstd::seq::axiom_seq_index_decreases, vstd::seq::axiom_seq_subrange_decreases, vstd::std_specs::vec::axiom_vec_index_decreases, vstd::std_specs::vec::axiom_vec_decreases_to_view;

/// A lowered, runnable unit. Today a command is the only form; the variant
/// set is the extension point reserved for future shell forms such as
/// pipelines, bindings and logical operators.
#[derive(Debug, PartialEq)]
pub enum Executable {
    Command { command: Command },
}

/// How interpretation can fail.
#[derive(Debug, Clone, Copy, PartialEq, Eq, Structural)]
pub enum InterpretError {
    TopLevelAtom,
}

/// The mathematical value of an [`Executable`].
pub enum ExecModel {
    Command(CommandModel),
}

/// The value of an executable.
pub open spec fn exec_view(e: Executable) -> ExecModel
    decreases e,
{
    match e {
        Executable::Command { command } => ExecModel::Command(command_view(command)),
    }
}

impl View for Executable {
    type V = ExecModel;

    open spec fn view(&self) -> ExecModel {
        exec_view(*self)
    }
}

/// The values of a sequence of executables, element by element.
pub open spec fn execs_view(s: Seq<Executable>) -> Seq<ExecModel> {
    s.map(|i: int, e: Executable| exec_view(e))
}

/// What one expression lowers to as an element of a command's argument
/// vector: a quoted atom stays literal, an unquoted atom stays bare, and a
/// nested list becomes an embedded sub-command.
pub open spec fn spec_lower_clause(e: ExprModel) -> ClauseModel
    decreases e, 1int,
{
    match e {
        ExprModel::Atom(AtomModel::Literal(s)) => ClauseModel::Literal(s),
        ExprModel::Atom(AtomModel::Symbol(s)) => ClauseModel::Bare(s),
        ExprModel::List(v) => ClauseModel::Embedded(spec_lower_list(v)),
    }
}

/// What each of a list's children lowers to, in order.
pub open spec fn spec_lower_clauses(es: Seq<ExprModel>) -> Seq<ClauseModel>
    decreases es, 0int,
{
    if es.len() == 0 {
        Seq::empty()
    } else {
        seq![spec_lower_clause(es[0])] + spec_lower_clauses(es.subrange(1, es.len() as int))
    }
}

/// What one parenthesized list lowers to: a command whose argument vector
/// holds the lowered children.
pub open spec fn spec_lower_list(es: Seq<ExprModel>) -> ExecModel
    decreases es, 1int,
{
    ExecModel::Command(CommandModel { argv: spec_lower_clauses(es) })
}

pub proof fn lemma_lower_clauses_len(es: Seq<ExprModel>)
    ensures
        spec_lower_clauses(es).len() == es.len(),
    decreases es,
{
    if es.len() > 0 {
        lemma_lower_clauses_len(es.subrange(1, es.len() as int));
    }
}

pub proof fn lemma_lower_clauses_index(es: Seq<ExprModel>, i: int)
    requires
        0 <= i < es.len(),
    ensures
        spec_lower_clauses(es).len() == es.len(),
        spec_lower_clauses(es)[i] == spec_lower_clause(es[i]),
    decreases es,
{
    lemma_lower_clauses_len(es);
    if i > 0 {
        lemma_lower_clauses_index(es.subrange(1, es.len() as int), i - 1);
    }
}

/// Whether every top-level expression is a parenthesized list, the shape a
/// valid program must have.
pub open spec fn all_lists(es: Seq<ExprModel>) -> bool {
    forall|k: int| 0 <= k < es.len() ==> es[k] is List
}

/// What interpreting the top-level expressions yields: one executable per
/// list, or `TopLevelAtom` exactly when some expression is a bare atom.
pub open spec fn spec_interpret(es: Seq<ExprModel>) -> Result<Seq<ExecModel>, InterpretError> {
    if all_lists(es) {
        Ok(Seq::new(es.len(), |k: int| spec_lower_list(es[k]->List_0)))
    } else {
        Err(InterpretError::TopLevelAtom)
    }
}

fn lower_clause(e: &Expression) -> (c: Clause)
    ensures
        clause_view(c) == spec_lower_clause(expr_view(*e)),
    decreases e, 0int, 0int,
{
    match e {
        Expression::Atom(Atom::Literal(s)) => Clause::Literal(s.clone()),
        Expression::Atom(Atom::Symbol(s)) => Clause::Bare(s.clone()),
        Expression::List(v) => Clause::Embedded(lower_list(v)),
    }
}

#[verifier::loop_isolation(false)]
fn lower_command(exprs: &Vec<Expression>) -> (ex: Executable)
    ensures
        exec_view(ex) == spec_lower_list(exprs_view(exprs@)),
    decreases exprs, 1int, 0int,
{
    let ghost ev = exprs_view(exprs@);
    proof {
        lemma_exprs_view_len(exprs@);
    }
    let mut argv: Vec<Clause> = Vec::new();
    let mut i: usize = 0;
    while i < exprs.len()
        invariant
            i <= exprs@.len(),
            argv@.len() == i,
            forall|k: int|
                0 <= k < i ==> clause_view(argv@[k]) == spec_lower_clause(ev[k]),
        decreases exprs, 0int, exprs@.len() - i,
    {
        let c = lower_clause(&exprs[i]);
        proof {
            lemma_exprs_view_index(exprs@, i as int);
        }
        argv.push(c);
        i = i + 1;
    }
    proof {
        assert(clauses_view(argv@) =~= spec_lower_clauses(ev)) by {
            lemma_lower_clauses_len(ev);
            assert forall|k: int| 0 <= k < ev.len() implies clauses_view(argv@)[k]
                == spec_lower_clauses(ev)[k] by {
                lemma_clauses_view_index(argv@, k);
                lemma_lower_clauses_index(ev, k);
            }
            lemma_clauses_view_len(argv@);
        }
    }
    Executable::Command { command: Command { argv } }
}

fn lower_list(exprs: &Vec<Expression>) -> (ex: Executable)
    ensures
        exec_view(ex) == spec_lower_list(exprs_view(exprs@)),
    decreases exprs, 2int, 0int,
{
    // The first child is inspected here without being acted on: this is the
    // dispatch point reserved for future operator forms. Every list
    // currently falls through and lowers as a plain command.
    let operator = exprs.first();
    match operator {
        _ => lower_command(exprs),
    }
}

/// Lower each top-level expression; every one must be a parenthesized
/// list, and a bare atom at top level fails with `TopLevelAtom`.
#[verifier::loop_isolation(false)]
pub fn interpret(expressions: Vec<Expression>) -> (r: Result<Vec<Executable>, InterpretError>)
    ensures
        match r {
            Ok(xs) => spec_interpret(exprs_view(expressions@)) == Ok::<
                Seq<ExecModel>,
                InterpretError,
            >(execs_view(xs@)),
            Err(e) => spec_interpret(exprs_view(expressions@)) == Err::<
                Seq<ExecModel>,
                InterpretError,
            >(e),
        },
{
    let ghost ev = exprs_view(expressions@);
    proof {
        lemma_exprs_view_len(expressions@);
    }
    let mut executables: Vec<Executable> = Vec::new();
    let mut i: usize = 0;
    while i < expressions.len()
        invariant
            i <= expressions@.len(),
            executables@.len() == i,
            forall|k: int| 0 <= k < i ==> ev[k] is List,
            forall|k: int|
                0 <= k < i ==> exec_view(executables@[k]) == spec_lower_list(ev[k]->List_0),
        decreases expressions@.len() - i,
    {
        proof {
            lemma_exprs_view_index(expressions@, i as int);
        }
        match &expressions[i] {
            Expression::List(v) => {
                let ex = lower_list(v);
                executables.push(ex);
            },
            Expression::Atom(_) => {
                proof {
                    assert(ev[i as int] is Atom);
                    assert(!all_lists(ev));
                }
                return Err(InterpretError::TopLevelAtom);
            },
        }
        i = i + 1;
    }
    proof {
        assert(all_lists(ev));
        assert(execs_view(executables@) =~= Seq::new(
            ev.len(),
            |k: int| spec_lower_list(ev[k]->List_0),
        ));
    }
    Ok(executables)
}

/// Lower one top-level list (already known to be a list) into an
/// executable. Never fails: the returned value is always the lowered
/// command.
pub fn interpret_list(expressions: Vec<Expression>) -> (r: Result<Executable, InterpretError>)
    ensures
        r matches Ok(ex) && exec_view(ex) == spec_lower_list(exprs_view(expressions@)),
{
    Ok(lower_list(&expressions))
}

/// Lower a list's children into the argument vector of a command. Never
/// fails: the returned value is always the lowered command.
pub fn interpret_command(expressions: Vec<Expression>) -> (r: Result<Executable, InterpretError>)
    ensures
        r matches Ok(ex) && exec_view(ex) == spec_lower_list(exprs_view(expressions@)),
{
    Ok(lower_command(&expressions))
}

} // verus!
