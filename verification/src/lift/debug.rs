//! Replayable traces of a single method.
//!
//! A session is the list of the branch choices made so far. Every call starts
//! again at the beginning and replays the choices up to the next decision or
//! the end; undoing is dropping the last choice.

use vstd::prelude::*;

use crate::lift::syntax::{child_in_role, node_end, rows_fit, span_of, NodeView, SyntaxTree};
use crate::lines::{lines, lines_of};
use crate::text::{chars_of, normalize, normalized};

verus! {

/// The most statements that are executed in one call.
pub const MAX_TRACE_STEPS: usize = 2000;

#[derive(Debug, Clone)]
pub struct TraceStep {
    pub line: u32,
    pub text: String,
}

#[derive(Debug)]
pub enum TraceStatus {
    /// Paused at a branch; one of them is to be chosen to go on.
    AwaitingChoice { branches: Vec<String> },
    /// The path ended.
    Terminated { outcome: String },
    /// Ran off the end of the method without an explicit return.
    FallThrough,
    /// Hit the limit of steps before reaching a decision or the end.
    StepCap,
}

#[derive(Debug)]
pub struct TraceResult {
    /// The statements executed since the start, in order.
    pub executed: Vec<TraceStep>,
    /// The current symbolic values of variables.
    pub variables: Vec<(String, String)>,
    /// The conditions that hold on this path.
    pub context_rules: Vec<String>,
    /// The labels of the call stack, outermost first.
    pub call_stack: Vec<String>,
    pub status: TraceStatus,
    /// The path stepped over a construct that can itself leave the method and
    /// is not modeled, so the outcome may not be the real one.
    pub incomplete: bool,
}

/// The first line of a statement, with its white space collapsed.
pub open spec fn step_text(raw: Seq<char>) -> Seq<char> {
    if lines(raw).len() == 0 {
        Seq::empty()
    } else {
        normalized(lines(raw)[0])
    }
}

/// Shortens a statement to its first line.
pub fn first_line(raw: &str) -> (r: String)
    ensures
        r@ == step_text(raw@),
{
    let chars = chars_of(raw);
    let list = lines_of(chars.as_slice());
    if list.len() == 0 {
        let r = String::new();
        assert(r@ =~= Seq::empty());
        return r;
    }
    assert(lines(raw@)[0] == list@[0]@);
    normalize(list[0].as_slice())
}

/// A method or constructor that starts at a line, which counts from one.
pub open spec fn declares_at(n: NodeView, start_line: u32) -> bool {
    (n.kind == "method_declaration"@ || n.kind == "constructor_declaration"@) && n.start_row + 1 == start_line
}

/// The body of the first method of `lo..hi` that starts at a line and has one.
/// Nothing is looked for in a declaration that starts there without a body.
pub open spec fn body_at(t: Seq<NodeView>, lo: int, hi: int, start_line: u32) -> Option<(int, int)>
    decreases hi - lo,
{
    if lo < 0 || lo >= hi || hi > t.len() {
        None
    } else if declares_at(t[lo], start_line) {
        let end = node_end(t, lo, hi);
        match child_in_role(t, lo, end, "body"@) {
            Some(body) => Some(body),
            None => if lo < end <= hi {
                body_at(t, end, hi, start_line)
            } else {
                None
            },
        }
    } else {
        body_at(t, lo + 1, hi, start_line)
    }
}

/// Finds the body of the method that starts at a line.
pub fn find_method_body(tree: &SyntaxTree, start_line: u32) -> (r: Option<(usize, usize)>)
    requires
        rows_fit(tree@),
    ensures
        span_of(r) == body_at(tree@, 0, tree@.len() as int, start_line),
{
    let n: usize = tree.nodes.len();
    assert(tree@.len() == n);
    let mut i: usize = 0;
    while i < n
        invariant
            i <= n == tree@.len(),
            n == tree.nodes@.len(),
            rows_fit(tree@),
            body_at(tree@, 0, n as int, start_line) == body_at(tree@, i as int, n as int, start_line),
        decreases n - i,
    {
        assert(tree@[i as int] == tree.nodes@[i as int]@);
        if (tree.is_kind(i, "method_declaration") || tree.is_kind(i, "constructor_declaration"))
            && tree.nodes[i].start_row + 1 == start_line {
            let end: usize = tree.end_of(i, n);
            match tree.child(i, end, "body") {
                Some(body) => {
                    return Some(body);
                },
                None => {},
            }
            i = end;
        } else {
            i = i + 1;
        }
    }
    None
}

/// What a step of the execution came to.
#[derive(Debug)]
pub enum Stop {
    Stepped,
    Branch,
    Terminated { outcome: String },
    FallThrough,
}

/// What is to be done next.
#[derive(Debug, Clone, Copy, PartialEq, Eq, Structural)]
pub enum ReplayAction {
    /// Take a branch.
    Choose(usize),
    /// Stop and report the branches.
    Await,
    /// Execute a statement.
    Step,
    /// Stop at the limit of steps.
    Cap,
}

/// A replay of choices.
#[derive(Debug)]
pub struct Replay {
    pub choices: Vec<usize>,
    pub taken: usize,
    pub executed: Vec<TraceStep>,
    pub steps: usize,
}

impl Replay {
    pub open spec fn inv(&self) -> bool {
        self.taken <= self.choices@.len() && self.executed@.len() <= self.steps <= MAX_TRACE_STEPS
    }

    pub fn start(choices: Vec<usize>) -> (r: Self)
        ensures
            r.inv(),
            r.choices == choices,
            r.taken == 0,
            r.executed@ == Seq::<TraceStep>::empty(),
            r.steps == 0,
    {
        Replay { choices, taken: 0, executed: Vec::new(), steps: 0 }
    }

    /// What is to be done next: at a branch the next choice is taken, if there
    /// is one; elsewhere a statement is executed, up to the limit.
    pub fn decide(&mut self, at_branch: bool) -> (r: ReplayAction)
        requires
            old(self).inv(),
        ensures
            final(self).inv(),
            final(self).choices == old(self).choices,
            final(self).executed == old(self).executed,
            final(self).steps == old(self).steps,
            at_branch && old(self).taken < old(self).choices@.len() ==> r == ReplayAction::Choose(
                old(self).choices@[old(self).taken as int],
            ) && final(self).taken == old(self).taken + 1,
            at_branch && old(self).taken == old(self).choices@.len() ==> r == ReplayAction::Await && final(self).taken
                == old(self).taken,
            !at_branch && old(self).steps < MAX_TRACE_STEPS ==> r == ReplayAction::Step && final(self).taken
                == old(self).taken,
            !at_branch && old(self).steps == MAX_TRACE_STEPS ==> r == ReplayAction::Cap && final(self).taken
                == old(self).taken,
    {
        if at_branch {
            if self.taken < self.choices.len() {
                let choice: usize = self.choices[self.taken];
                self.taken = self.taken + 1;
                return ReplayAction::Choose(choice);
            }
            return ReplayAction::Await;
        }
        if self.steps >= MAX_TRACE_STEPS {
            ReplayAction::Cap
        } else {
            ReplayAction::Step
        }
    }

    /// Records an executed statement, and ends the trace where the path ends.
    pub fn record(&mut self, at: Option<TraceStep>, stop: Stop) -> (r: Option<TraceStatus>)
        requires
            old(self).inv(),
            old(self).steps < MAX_TRACE_STEPS,
        ensures
            final(self).inv(),
            final(self).choices == old(self).choices,
            final(self).taken == old(self).taken,
            final(self).steps == old(self).steps + 1,
            final(self).executed@ == match at {
                Some(step) => old(self).executed@.push(step),
                None => old(self).executed@,
            },
            match stop {
                Stop::Stepped => r is None,
                Stop::Branch => r is None,
                Stop::Terminated { outcome } => r == Some(TraceStatus::Terminated { outcome }),
                Stop::FallThrough => r == Some(TraceStatus::FallThrough),
            },
    {
        self.steps = self.steps + 1;
        match at {
            Some(step) => {
                self.executed.push(step);
            },
            None => {},
        }
        match stop {
            Stop::Stepped => None,
            Stop::Branch => None,
            Stop::Terminated { outcome } => Some(TraceStatus::Terminated { outcome }),
            Stop::FallThrough => Some(TraceStatus::FallThrough),
        }
    }
}

} // verus!
