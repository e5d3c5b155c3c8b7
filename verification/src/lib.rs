//! A time-driven job scheduler: recurrence rules attached to named jobs, the
//! occurrences they compute, and the decisions of the loops that run them.
//!
//! - [`time`]: instants and spans, in whole nanoseconds.
//! - [`zone`]: time zones, by name; their rules are those of `chrono-tz`.
//! - [`text`]: the text of canonical forms and its order.
//! - [`trigger`]: the three kinds of trigger and the set of a job's
//!   triggers.
//! - [`job`]: jobs, their next occurrence, and the steps of a job's loop.
//! - [`scheduler`]: the jobs to run and the watch over their loops.
//!
//! Nothing here waits, calls a callback or writes a log: a loop is moved on
//! step by step by its caller, who is told what to do between the steps.

use vstd::prelude::*;

pub mod job;
pub mod scheduler;
pub mod text;
pub mod time;
pub mod trigger;
pub mod zone;

verus! {

/// The successor of `x`.
pub fn increment(x: u32) -> (next: u32)
    requires
        x < u32::MAX,
    ensures
        next == x + 1,
{
    x + 1
}

} // verus!
