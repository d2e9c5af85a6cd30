//! The executable command model and the computational core of execution:
//! resolving an embedded command's captured output into a program name and
//! argument text, with the two distinct splitting rules, and assembling
//! execution results. Spawning the resolved process is left to the caller.
use vstd::prelude::*;
use vstd::string::*;

use crate::interpret::{exec_view, ExecModel, Executable};
use crate::text::{lossy_of, spec_lines_trimmed, spec_words, split_lines_trimmed, split_words, strings_view, utf8_lossy};

verus! {

broadcast use vstd::seq::axiom_seq_index_decreases, vstd::seq::axiom_seq_subrange_decreases, vstd::std_specs::vec::axiom_vec_index_decreases, vstd::std_specs::vec::axiom_vec_decreases_to_view;

/// One OS process invocation: an ordered argument vector whose first clause
/// names the program.
#[derive(Debug, Default, PartialEq)]
pub struct Command {
    pub argv: Vec<Clause>,
}

/// One element of a command's argument vector.
#[derive(Debug, PartialEq)]
pub enum Clause {
    Literal(String),
    Bare(String),
    Embedded(Executable),
}

/// The outcome of executing a command: captured output and exit code, or a
/// message describing what failed.
#[derive(Debug, PartialEq)]
pub enum ExecutionResult {
    Success { out: Vec<u8>, err: Vec<u8>, code: i32 },
    Error(String),
}

/// The mathematical value of a [`Command`].
pub struct CommandModel {
    pub argv: Seq<ClauseModel>,
}

/// The mathematical value of a [`Clause`].
pub enum ClauseModel {
    Literal(Seq<char>),
    Bare(Seq<char>),
    Embedded(ExecModel),
}

/// The mathematical value of an [`ExecutionResult`].
pub enum ExecutionResultModel {
    Success { out: Seq<u8>, err: Seq<u8>, code: i32 },
    Error(Seq<char>),
}

/// The value of one clause.
pub open spec fn clause_view(c: Clause) -> ClauseModel
    decreases c,
{
    match c {
        Clause::Literal(s) => ClauseModel::Literal(s@),
        Clause::Bare(s) => ClauseModel::Bare(s@),
        Clause::Embedded(e) => ClauseModel::Embedded(exec_view(e)),
    }
}

/// The values of a clause sequence, element by element.
pub open spec fn clauses_view(s: Seq<Clause>) -> Seq<ClauseModel>
    decreases s,
{
    if s.len() == 0 {
        Seq::empty()
    } else {
        seq![clause_view(s[0])] + clauses_view(s.subrange(1, s.len() as int))
    }
}

/// The value of a command.
pub open spec fn command_view(c: Command) -> CommandModel
    decreases c,
{
    CommandModel { argv: clauses_view(c.argv@) }
}

impl View for Command {
    type V = CommandModel;

    open spec fn view(&self) -> CommandModel {
        command_view(*self)
    }
}

impl View for Clause {
    type V = ClauseModel;

    open spec fn view(&self) -> ClauseModel {
        clause_view(*self)
    }
}

impl View for ExecutionResult {
    type V = ExecutionResultModel;

    open spec fn view(&self) -> ExecutionResultModel {
        match self {
            ExecutionResult::Success { out, err, code } => ExecutionResultModel::Success {
                out: out@,
                err: err@,
                code: *code,
            },
            ExecutionResult::Error(m) => ExecutionResultModel::Error(m@),
        }
    }
}

pub proof fn lemma_clauses_view_len(s: Seq<Clause>)
    ensures
        clauses_view(s).len() == s.len(),
    decreases s,
{
    if s.len() > 0 {
        lemma_clauses_view_len(s.subrange(1, s.len() as int));
    }
}

pub proof fn lemma_clauses_view_index(s: Seq<Clause>, i: int)
    requires
        0 <= i < s.len(),
    ensures
        clauses_view(s).len() == s.len(),
        clauses_view(s)[i] == clause_view(s[i]),
    decreases s,
{
    lemma_clauses_view_len(s);
    if i > 0 {
        lemma_clauses_view_index(s.subrange(1, s.len() as int), i - 1);
    }
}

impl Command {
    /// A command with no clauses at all; executing it is a no-op.
    pub fn new() -> (c: Self)
        ensures
            c@.argv == Seq::<ClauseModel>::empty(),
    {
        Command { argv: vec![] }
    }

    /// The first step of executing a command, which consumes it. A command
    /// with no clauses at all succeeds immediately with empty output and
    /// exit code zero; otherwise the first clause is split off as the
    /// program-name position, with the remaining clauses in order.
    pub fn begin(self) -> (r: ExecStart)
        ensures
            self@.argv.len() == 0 ==> (r matches ExecStart::Done(res) && res@
                == (ExecutionResultModel::Success {
                out: Seq::<u8>::empty(),
                err: Seq::<u8>::empty(),
                code: 0,
            })),
            self@.argv.len() > 0 ==> (r matches ExecStart::Resolve { first, rest }
                && clause_view(first) == self@.argv[0] && clauses_view(rest@)
                == self@.argv.subrange(1, self@.argv.len() as int)),
    {
        proof {
            lemma_clauses_view_len(self.argv@);
        }
        if self.argv.is_empty() {
            return ExecStart::Done(
                ExecutionResult::Success { out: vec![], err: vec![], code: 0 },
            );
        }
        let ghost a0 = self.argv@;
        let mut argv = self.argv;
        let first = argv.remove(0);
        proof {
            lemma_clauses_view_index(a0, 0);
            assert(clauses_view(argv@) =~= clauses_view(a0).subrange(
                1,
                clauses_view(a0).len() as int,
            )) by {
                lemma_clauses_view_len(argv@);
                assert forall|k: int| 0 <= k < argv@.len() implies clauses_view(argv@)[k]
                    == clauses_view(a0)[k + 1] by {
                    lemma_clauses_view_index(argv@, k);
                    lemma_clauses_view_index(a0, k + 1);
                    assert(argv@[k] == a0[k + 1]);
                }
            }
        }
        ExecStart::Resolve { first, rest: argv }
    }
}

/// What beginning to execute a command yields: either the finished result
/// of a no-op command, or the program-name clause split from the rest.
#[derive(Debug, PartialEq)]
pub enum ExecStart {
    Done(ExecutionResult),
    Resolve { first: Clause, rest: Vec<Clause> },
}

/// The message reported when an embedded command's output names no program.
pub open spec fn no_command_message() -> Seq<char> {
    "No command specified"@
}

/// The message wrapping a failed embedded command's own message.
pub open spec fn embedded_failure_message(inner: Seq<char>) -> Seq<char> {
    "Embedded command failed: "@ + inner
}

/// The message wrapping the system's message for a failed launch.
pub open spec fn launch_failure_message(inner: Seq<char>) -> Seq<char> {
    "Failed to execute command: "@ + inner
}

/// Each word as a `Literal` clause, in order.
pub open spec fn literal_clauses(ws: Seq<Seq<char>>) -> Seq<ClauseModel> {
    ws.map(|i: int, w: Seq<char>| ClauseModel::Literal(w))
}

/// Resolve the program-name position from an embedded command's captured
/// stdout. The output is decoded, split into whitespace words; no words at
/// all is a failure, otherwise the first word names the program and the
/// remaining words are spliced as new `Literal` clauses in front of the
/// remaining argument clauses, preserving their order.
#[verifier::loop_isolation(false)]
pub fn resolve_program(out: &Vec<u8>, rest: Vec<Clause>) -> (r: Result<
    (String, Vec<Clause>),
    ExecutionResult,
>)
    ensures
        ({
            let ws = spec_words(lossy_of(out@));
            match r {
                Ok((program, argv)) => ws.len() > 0 && program@ == ws[0] && clauses_view(argv@)
                    == literal_clauses(ws.subrange(1, ws.len() as int)) + clauses_view(rest@),
                Err(res) => ws.len() == 0 && res@ == ExecutionResultModel::Error(
                    no_command_message(),
                ),
            }
        }),
{
    let text = utf8_lossy(out);
    let mut words = split_words(text.as_str());
    let ghost ws = spec_words(lossy_of(out@));
    proof {
        assert(ws.len() == words@.len());
    }
    if words.is_empty() {
        return Err(ExecutionResult::Error(String::from_str("No command specified")));
    }
    let program = words.remove(0);
    let mut argv: Vec<Clause> = Vec::new();
    let mut k: usize = 0;
    while k < words.len()
        invariant
            k <= words@.len(),
            words@.len() + 1 == ws.len(),
            program@ == ws[0],
            forall|j: int| 0 <= j < words@.len() ==> words@[j]@ == ws[j + 1],
            argv@.len() == k,
            forall|j: int|
                0 <= j < k ==> #[trigger] clause_view(argv@[j]) == ClauseModel::Literal(
                    ws[j + 1],
                ),
        decreases words@.len() - k,
    {
        argv.push(Clause::Literal(words[k].clone()));
        k = k + 1;
    }
    let mut rest_mut = rest;
    let ghost lits = argv@;
    argv.append(&mut rest_mut);
    proof {
        assert(clauses_view(argv@) =~= literal_clauses(ws.subrange(1, ws.len() as int))
            + clauses_view(rest@)) by {
            lemma_clauses_view_len(argv@);
            lemma_clauses_view_len(rest@);
            assert forall|j: int| 0 <= j < argv@.len() implies clauses_view(argv@)[j]
                == (literal_clauses(ws.subrange(1, ws.len() as int)) + clauses_view(rest@))[j] by {
                lemma_clauses_view_index(argv@, j);
                if j < lits.len() {
                    assert(argv@[j] == lits[j]);
                } else {
                    assert(argv@[j] == rest@[j - lits.len()]);
                    lemma_clauses_view_index(rest@, j - lits.len());
                }
            }
        }
    }
    Ok((program, argv))
}

/// Resolve an embedded command's captured stdout in argument position: the
/// output is decoded and split into lines — not words — and each trimmed
/// line becomes one argument, in order.
pub fn argument_lines(out: &Vec<u8>) -> (r: Vec<String>)
    ensures
        strings_view(r@) == spec_lines_trimmed(lossy_of(out@)),
{
    let text = utf8_lossy(out);
    split_lines_trimmed(text.as_str())
}

/// The result reporting that a nested embedded command failed: always an
/// error carrying the embedded-failure marker followed by the inner
/// message, never a success.
pub fn embedded_failure(message: String) -> (r: ExecutionResult)
    ensures
        r@ == ExecutionResultModel::Error(embedded_failure_message(message@)),
{
    let mut m = String::from_str("Embedded command failed: ");
    m.append(message.as_str());
    ExecutionResult::Error(m)
}

/// The result reporting that the resolved program could not be launched,
/// wrapping the system's own message.
pub fn launch_failure(message: String) -> (r: ExecutionResult)
    ensures
        r@ == ExecutionResultModel::Error(launch_failure_message(message@)),
{
    let mut m = String::from_str("Failed to execute command: ");
    m.append(message.as_str());
    ExecutionResult::Error(m)
}

/// The result of a process that ran to completion: its captured output
/// streams and its exit code, with -1 standing in when the process ended
/// without a normal exit code.
pub fn completed(out: Vec<u8>, err: Vec<u8>, code: Option<i32>) -> (r: ExecutionResult)
    ensures
        r@ == (ExecutionResultModel::Success {
            out: out@,
            err: err@,
            code: match code {
                Some(c) => c,
                None => -1i32,
            },
        }),
{
    let c = match code {
        Some(c) => c,
        None => -1,
    };
    ExecutionResult::Success { out, err, code: c }
}

} // verus!
