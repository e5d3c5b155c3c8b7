//! The scheduler: the jobs to run, and the watch over their loops.
//!
//! Every job runs in a loop of its own, side by side with the others. The
//! scheduler starts them all and waits until the last one has ended. How a
//! loop ended is reported, one loop at a time, and is never a failure of the
//! scheduler: [`Supervision`] decides what is reported and when the watch is
//! over.

use crate::job::{Job, JobLoop, LoopState};
use vstd::prelude::*;

verus! {

/// How the loop of one job ended.
#[derive(Clone, Copy, Debug, PartialEq, Eq, Structural)]
pub enum TaskEnd {
    /// The loop returned without an error.
    Finished,
    /// The job's triggers had no more occurrences.
    NoMoreRuns,
    /// The callback failed, and took the loop with it.
    Failed,
}

/// How much a report matters.
#[derive(Clone, Copy, Debug, PartialEq, Eq, Structural)]
pub enum Level {
    /// Part of the ordinary course.
    Info,
    /// A fault.
    Error,
}

/// What the scheduler says when it hears of a loop.
#[derive(Clone, Copy, Debug, PartialEq, Eq, Structural)]
pub enum Report {
    /// A loop returned without an error.
    TaskFinished,
    /// A loop ended because its triggers had no more occurrences.
    TaskOutOfRuns,
    /// A loop ended because its callback failed.
    TaskFailed,
    /// No loop is left.
    NoMoreTasks,
}

impl Report {
    /// How much the report matters: a failed callback is a fault, everything
    /// else the ordinary course.
    pub open spec fn spec_level(self) -> Level {
        match self {
            Report::TaskFailed => Level::Error,
            _ => Level::Info,
        }
    }

    /// How much the report matters.
    #[verifier::when_used_as_spec(spec_level)]
    pub fn level(self) -> (level: Level)
        ensures
            level == self.spec_level(),
    {
        match self {
            Report::TaskFailed => Level::Error,
            _ => Level::Info,
        }
    }

    /// The words of the report.
    pub fn message(self) -> (text: &'static str)
        ensures
            text@ == match self {
                Report::TaskFinished => "task finished"@,
                Report::TaskOutOfRuns => "task returned with error"@,
                Report::TaskFailed => "task panicked"@,
                Report::NoMoreTasks => "no more tasks to run, shutting down"@,
            },
    {
        match self {
            Report::TaskFinished => "task finished",
            Report::TaskOutOfRuns => "task returned with error",
            Report::TaskFailed => "task panicked",
            Report::NoMoreTasks => "no more tasks to run, shutting down",
        }
    }
}

/// What is reported of a loop that ended in this way.
pub open spec fn report_of(end: TaskEnd) -> Report {
    match end {
        TaskEnd::Finished => Report::TaskFinished,
        TaskEnd::NoMoreRuns => Report::TaskOutOfRuns,
        TaskEnd::Failed => Report::TaskFailed,
    }
}

/// The watch over the loops that a scheduler started.
#[derive(Debug)]
pub struct Supervision {
    running: usize,
}

impl Supervision {
    /// The number of loops that have not ended yet.
    pub closed spec fn running(&self) -> nat {
        self.running as nat
    }

    /// Whether the watch is over: no loop is left.
    pub fn is_done(&self) -> (done: bool)
        ensures
            done == (self.running() == 0),
    {
        self.running == 0
    }

    /// Takes note of what the watch heard: that a loop ended, and how, or
    /// with `None` that no loop is left. One loop fewer is running after an
    /// end, and none after it was told that none is left. However a loop
    /// ended, the watch goes on over the others.
    pub fn observe(&mut self, heard: Option<TaskEnd>) -> (report: Report)
        ensures
            report == match heard {
                Some(end) => report_of(end),
                None => Report::NoMoreTasks,
            },
            final(self).running() == match heard {
                Some(_) => if old(self).running() > 0 {
                    (old(self).running() - 1) as nat
                } else {
                    0
                },
                None => 0,
            },
    {
        match heard {
            Some(end) => {
                if self.running > 0 {
                    self.running = self.running - 1;
                }
                match end {
                    TaskEnd::Finished => Report::TaskFinished,
                    TaskEnd::NoMoreRuns => Report::TaskOutOfRuns,
                    TaskEnd::Failed => Report::TaskFailed,
                }
            },
            None => {
                self.running = 0;
                Report::NoMoreTasks
            },
        }
    }
}

/// The jobs to run, in the order in which they were added.
#[derive(Debug)]
pub struct Scheduler<C, F> {
    jobs: Vec<Job<C, F>>,
}

impl<C, F> View for Scheduler<C, F> {
    type V = Seq<Job<C, F>>;

    /// The jobs, in the order in which they were added.
    closed spec fn view(&self) -> Seq<Job<C, F>> {
        self.jobs@
    }
}

impl<C, F> Scheduler<C, F> {
    /// A scheduler without jobs.
    pub fn new() -> (made: Self)
        ensures
            made@.len() == 0,
    {
        Scheduler { jobs: Vec::new() }
    }

    /// Adds `job` behind the jobs that the scheduler has.
    pub fn add_job(&mut self, job: Job<C, F>)
        ensures
            final(self)@ == old(self)@.push(job),
    {
        self.jobs.push(job);
    }

    /// Begins the loop of every job, and the watch over the loops. The loops
    /// come in the order of the jobs; each is to be run on its own, side by
    /// side with the others. With no job the watch is over at once.
    pub fn run(self) -> (begun: (Vec<JobLoop<C, F>>, Supervision))
        ensures
            begun.0@.len() == self@.len(),
            forall|i: int|
                0 <= i < self@.len() ==> (#[trigger] begun.0@[i]).spec_job() == self@[i]
                    && begun.0@[i].spec_state() == LoopState::Computing,
            begun.1.running() == self@.len(),
    {
        let running = self.jobs.len();
        let mut loops: Vec<JobLoop<C, F>> = Vec::new();
        let ghost jobs = self.jobs@;
        for job in it: self.jobs
            invariant
                it.seq() == jobs,
                loops@.len() == it.index(),
                forall|i: int|
                    0 <= i < loops@.len() ==> (#[trigger] loops@[i]).spec_job() == jobs[i]
                        && loops@[i].spec_state() == LoopState::Computing,
        {
            loops.push(Job::run(job));
        }
        (loops, Supervision { running })
    }
}

impl<C, F> Default for Scheduler<C, F> {
    fn default() -> (made: Self)
        ensures
            made@.len() == 0,
    {
        Scheduler::new()
    }
}

} // verus!
