//! When a layout is done: Typst lays a document out again while its
//! introspection has not settled, and gives up after a fixed number of
//! rounds.

use vstd::prelude::*;

verus! {

/// The most layout rounds a document gets.
pub const MAX_LAYOUT_ITERATIONS: usize = 5;

/// What follows a layout round in a notebook session.
#[derive(Debug, Clone, Copy, PartialEq, Eq, Structural)]
pub enum LayoutStep {
    /// The introspection settled: the document is done.
    Done,
    /// The last round passed without settling: the document is done, with
    /// a warning that layout did not converge.
    DoneUnconverged,
    /// Lay out again with this round's introspection.
    Again,
}

pub open spec fn layout_step_spec(iteration: nat, converged: bool) -> LayoutStep {
    if converged {
        LayoutStep::Done
    } else if iteration + 1 == MAX_LAYOUT_ITERATIONS {
        LayoutStep::DoneUnconverged
    } else {
        LayoutStep::Again
    }
}

/// The step after round `iteration` (from zero) of a notebook session's layout.
pub fn layout_step(iteration: usize, converged: bool) -> (s: LayoutStep)
    requires
        iteration < MAX_LAYOUT_ITERATIONS,
    ensures
        s == layout_step_spec(iteration as nat, converged),
{
    if converged {
        LayoutStep::Done
    } else if iteration + 1 == MAX_LAYOUT_ITERATIONS {
        LayoutStep::DoneUnconverged
    } else {
        LayoutStep::Again
    }
}

/// The warning given when layout did not settle, and its hint.
pub fn unconverged_warning() -> (w: (&'static str, &'static str))
    ensures
        w.0@ == "layout did not converge within 5 attempts"@,
        w.1@ == "check if any states or queries are updating themselves"@,
{
    ("layout did not converge within 5 attempts", "check if any states or queries are updating themselves")
}

/// What follows a layout round in the REPL's and mode-directive notebook's sessions.
#[derive(Debug, Clone, Copy, PartialEq, Eq, Structural)]
pub enum RoundStep {
    /// The round left delayed errors: layout fails with them.
    Fail,
    /// The document is done.
    Finish,
    /// Lay out again.
    Retry,
}

pub open spec fn round_step_spec(iteration: nat, delayed_empty: bool, converged: bool) -> RoundStep {
    if !delayed_empty {
        RoundStep::Fail
    } else if converged || iteration + 1 == MAX_LAYOUT_ITERATIONS {
        RoundStep::Finish
    } else {
        RoundStep::Retry
    }
}

/// The step after round `iteration`: delayed errors fail the layout; a
/// settled introspection, or the last round, finishes it.
pub fn round_step(iteration: usize, delayed_empty: bool, converged: bool) -> (s: RoundStep)
    requires
        iteration < MAX_LAYOUT_ITERATIONS,
    ensures
        s == round_step_spec(iteration as nat, delayed_empty, converged),
{
    if !delayed_empty {
        RoundStep::Fail
    } else if converged || iteration + 1 == MAX_LAYOUT_ITERATIONS {
        RoundStep::Finish
    } else {
        RoundStep::Retry
    }
}

/// A layout asks for another round only before its last one: with at most
/// `MAX_LAYOUT_ITERATIONS` rounds, every layout comes to an end.
pub proof fn lemma_last_round_ends(converged: bool, delayed_empty: bool)
    ensures
        layout_step_spec((MAX_LAYOUT_ITERATIONS - 1) as nat, converged) != LayoutStep::Again,
        round_step_spec((MAX_LAYOUT_ITERATIONS - 1) as nat, delayed_empty, converged)
            != RoundStep::Retry,
{
}

} // verus!
