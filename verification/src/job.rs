//! Jobs: a name, a callback with its context, and the triggers that say when
//! the callback is due; and the decisions of the loop that runs one job.
//!
//! The loop itself waits and calls, which is the caller's part. What it does
//! next is decided here: [`Job::run`] begins the loop, and [`JobLoop::step`]
//! takes the current instant, moves the loop on and says what the caller is
//! to do before it asks again.

use crate::time::{wait_from, Instant, Span, MAX_NANOS, MIN_NANOS};
use crate::trigger::{NowUtc, Trigger, TriggerSet};
use itertools::Itertools;
use vstd::prelude::*;

verus! {

/// The earlier of two occurrences, where `None` stands for a trigger that
/// has no more.
pub open spec fn earlier(a: Option<int>, b: Option<int>) -> Option<int> {
    match (a, b) {
        (Some(x), Some(y)) => Some(
            if y < x {
                y
            } else {
                x
            },
        ),
        (Some(x), None) => Some(x),
        (None, y) => y,
    }
}

/// The earliest of the next occurrences that `triggers` report at `now`, or
/// `None` where none of them has any more.
pub open spec fn earliest(triggers: Seq<Trigger>, now: int) -> Option<int>
    decreases triggers.len(),
{
    if triggers.len() == 0 {
        None
    } else {
        earlier(earliest(triggers.drop_last(), now), triggers.last().next(now))
    }
}

/// The next occurrence of a job is one of the next occurrences of its
/// triggers, and none of them is earlier; a job has no next occurrence
/// exactly where none of its triggers has one.
pub proof fn lemma_earliest_is_least(triggers: Seq<Trigger>, now: int)
    ensures
        earliest(triggers, now) is None <==> forall|i: int|
            0 <= i < triggers.len() ==> (#[trigger] triggers[i]).next(now) is None,
        earliest(triggers, now) matches Some(least) ==> {
            &&& exists|i: int|
                0 <= i < triggers.len() && (#[trigger] triggers[i]).next(now) == Some(least)
            &&& forall|i: int|
                0 <= i < triggers.len() ==> ((#[trigger] triggers[i]).next(now) matches Some(at)
                    ==> least <= at)
        },
    decreases triggers.len(),
{
    if triggers.len() > 0 {
        let front = triggers.drop_last();
        lemma_earliest_is_least(front, now);
        assert forall|i: int| 0 <= i < front.len() implies front[i] == triggers[i] by {}
        let last = triggers.len() - 1;
        match earliest(triggers, now) {
            Some(least) => {
                if triggers[last].next(now) == Some(least) {
                } else {
                    let i = choose|i: int|
                        0 <= i < front.len() && (#[trigger] front[i]).next(now) == Some(least);
                    assert(triggers[i].next(now) == Some(least));
                }
                assert forall|i: int| 0 <= i < triggers.len() implies ((
                #[trigger] triggers[i]).next(now) matches Some(at) ==> least <= at) by {
                    if i < last {
                        assert(front[i] == triggers[i]);
                    }
                }
            },
            None => {
                assert forall|i: int| 0 <= i < triggers.len() implies (
                #[trigger] triggers[i]).next(now) is None by {
                    if i < last {
                        assert(front[i] == triggers[i]);
                    }
                }
            },
        }
        if forall|i: int| 0 <= i < triggers.len() ==> (#[trigger] triggers[i]).next(now) is None {
            assert forall|i: int| 0 <= i < front.len() implies (#[trigger] front[i]).next(
                now,
            ) is None by {
                assert(front[i] == triggers[i]);
            }
            assert(triggers[last].next(now) is None);
        }
    }
}

/// A loop over triggers that have no more occurrences ends the first time it
/// computes, with the error that says so: it neither waits nor fires.
pub proof fn lemma_exhausted_loop_ends(
    triggers: Seq<Trigger>,
    now: int,
    next: LoopState,
    action: LoopAction,
)
    requires
        forall|i: int| 0 <= i < triggers.len() ==> (#[trigger] triggers[i]).next(now) is None,
        loop_step(triggers, LoopState::Computing, now, next, action),
    ensures
        next == LoopState::Terminated,
        action == LoopAction::Stop(NoMoreRunsError),
{
    lemma_earliest_is_least(triggers, now);
}

/// Calls `Itertools::sorted` of `itertools` on the numbers of `list`, which
/// sorts them with `slice::sort` into ascending order, and collects what it
/// hands out.
#[verifier::external_body]
fn sorted(list: Vec<i128>) -> (ordered: Vec<i128>)
    ensures
        ordered@.to_multiset() == list@.to_multiset(),
        forall|i: int, j: int| 0 <= i <= j < ordered@.len() ==> ordered@[i] <= ordered@[j],
{
    list.into_iter().sorted().collect()
}

/// The JSON string that `serde_json` writes for `text`: the text between
/// double quotes, with the characters that JSON does not take as they are
/// written as escapes.
pub uninterp spec fn json_string(text: Seq<char>) -> Seq<char>;

/// Calls `serde_json::to_string` on a string, which writes it as a JSON
/// string and does not fail on one.
#[verifier::external_body]
fn quote(text: &str) -> (quoted: String)
    ensures
        quoted@ == json_string(text@),
{
    serde_json::to_string(text).unwrap()
}

/// A job written out: a JSON object of its name, of the context as the
/// caller wrote it, and of its triggers in the order of their set.
pub open spec fn job_text(name: Seq<char>, context: Seq<char>, triggers: Seq<char>) -> Seq<char> {
    "{\"name\":"@ + json_string(name) + ",\"callback_context\":"@ + context + ",\"triggers\":"@
        + triggers + "}"@
}

/// A job's triggers have no more occurrences: its loop has ended.
#[derive(Clone, Copy, Debug, PartialEq, Eq, Structural)]
pub struct NoMoreRunsError;

impl NoMoreRunsError {
    /// What the error says.
    pub fn message(&self) -> (text: String)
        ensures
            text@ == "no more runs"@,
    {
        String::from_str("no more runs")
    }
}

/// Where the loop of a job stands.
#[derive(Clone, Copy, Debug, PartialEq, Eq, Structural)]
pub enum LoopState {
    /// About to work out the next occurrence.
    Computing,
    /// Waiting for the occurrence at this instant.
    Waiting(Instant),
    /// The wait is over: the callback runs.
    Firing,
    /// The triggers have no more occurrences: the loop has ended.
    Terminated,
}

/// What the caller of [`JobLoop::step`] is to do before it asks again.
#[derive(Clone, Copy, Debug, PartialEq, Eq, Structural)]
pub enum LoopAction {
    /// Wait for this long.
    Sleep(Span),
    /// Call the callback with the context, and wait for it to return.
    Invoke,
    /// Nothing: go on.
    Proceed,
    /// End the loop with this error.
    Stop(NoMoreRunsError),
}

/// What a loop in the state `state` does at the instant `now`: the state it
/// moves to and what its caller is to do.
///
/// A loop that computes moves on to wait for the earliest occurrence of
/// `triggers`, for as long as that lies ahead, or ends where there is none.
/// A loop that waits goes on to fire, one that has fired goes back to
/// computing, and a loop that has ended stays so.
pub open spec fn loop_step(
    triggers: Seq<Trigger>,
    state: LoopState,
    now: int,
    next: LoopState,
    action: LoopAction,
) -> bool {
    match state {
        LoopState::Computing => match earliest(triggers, now) {
            Some(at) => {
                &&& next matches LoopState::Waiting(until)
                &&& until@ == at
                &&& action matches LoopAction::Sleep(wait)
                &&& wait@ == wait_from(now, at)
            },
            None => next == LoopState::Terminated && action == LoopAction::Stop(NoMoreRunsError),
        },
        LoopState::Waiting(_) => next == LoopState::Firing && action == LoopAction::Invoke,
        LoopState::Firing => next == LoopState::Computing && action == LoopAction::Proceed,
        LoopState::Terminated => next == LoopState::Terminated && action == LoopAction::Stop(
            NoMoreRunsError,
        ),
    }
}

/// A named callback with its context and the triggers that say when it is
/// due. `C` is the context, which the job only keeps; `F` is the callback,
/// which the job keeps and never calls.
#[derive(Debug, PartialEq, Eq)]
pub struct Job<C, F> {
    /// The name of the job.
    pub name: String,
    callback: Option<F>,
    context: C,
    triggers: TriggerSet,
}

impl<C, F> Job<C, F> {
    /// The name of the job.
    pub closed spec fn spec_name(&self) -> String {
        self.name
    }

    /// The callback, if the job has one.
    pub closed spec fn spec_callback(&self) -> Option<F> {
        self.callback
    }

    /// The context that the callback is called with.
    pub closed spec fn spec_context(&self) -> C {
        self.context
    }

    /// The triggers of the job.
    pub closed spec fn spec_triggers(&self) -> TriggerSet {
        self.triggers
    }

    /// A job of this name that calls `callback` with `context` whenever one
    /// of `triggers` is due. A job without a callback can be looked at and
    /// written out; it is not meant to be run.
    pub fn new(name: String, callback: Option<F>, context: C, triggers: TriggerSet) -> (made: Self)
        ensures
            made.spec_name() == name,
            made.spec_callback() == callback,
            made.spec_context() == context,
            made.spec_triggers() == triggers,
    {
        Job { name, callback, context, triggers }
    }

    /// The triggers of the job.
    pub fn triggers(&self) -> (triggers: &TriggerSet)
        ensures
            *triggers == self.spec_triggers(),
    {
        &self.triggers
    }

    /// The callback, if the job has one.
    pub fn callback(&self) -> (callback: &Option<F>)
        ensures
            *callback == self.spec_callback(),
    {
        &self.callback
    }

    /// The context that the callback is called with.
    pub fn context(&self) -> (context: &C)
        ensures
            *context == self.spec_context(),
    {
        &self.context
    }

    /// Whether this job and `other` are the same job to look at: whether
    /// they have the same name and hold triggers of the same canonical
    /// forms. The contexts and the callbacks, which the library only keeps,
    /// are not held against each other.
    pub fn same_as(&self, other: &Job<C, F>) -> (same: bool)
        ensures
            same == (self.spec_name()@ == other.spec_name()@ && self.spec_triggers().forms()
                == other.spec_triggers().forms()),
    {
        self.name == other.name && self.triggers.same_as(&other.triggers)
    }

    /// The job written out, with `context` for the context: the text that the
    /// caller's codec wrote for it. The callback is not written out.
    pub fn to_json(&self, context: &str) -> (text: String)
        ensures
            text@ == job_text(self.spec_name()@, context@, self.spec_triggers().json()),
    {
        let mut text = String::from_str("{\"name\":");
        let name = quote(self.name.as_str());
        text.append(name.as_str());
        text.append(",\"callback_context\":");
        text.append(context);
        text.append(",\"triggers\":");
        self.triggers.append_json(&mut text);
        text.append("}");
        assert(text@ =~= job_text(self.spec_name()@, context@, self.spec_triggers().json()));
        text
    }

    /// The earliest of the next occurrences of `triggers` from `now` on, or
    /// `None` where none of them has any more.
    pub fn next_run(triggers: &TriggerSet, now: Instant) -> (next: Option<Instant>)
        ensures
            (match next {
                Some(at) => Some(at@),
                None => None,
            }) == earliest(triggers@, now@),
            next matches Some(at) ==> now@ <= at@,
    {
        let mut found: Vec<i128> = Vec::new();
        let mut i: usize = 0;
        assert(triggers@.take(0) =~= Seq::<Trigger>::empty());
        while i < triggers.len()
            invariant
                0 <= i <= triggers@.len(),
                forall|k: int|
                    0 <= k < found.len() ==> now@ <= #[trigger] found[k] && MIN_NANOS <= found[k]
                        <= MAX_NANOS,
                earliest(triggers@.take(i as int), now@) is None <==> found.len() == 0,
                earliest(triggers@.take(i as int), now@) matches Some(least) ==> {
                    &&& exists|k: int| 0 <= k < found.len() && #[trigger] found[k] == least
                    &&& forall|k: int| 0 <= k < found.len() ==> least <= #[trigger] found[k]
                },
            decreases triggers@.len() - i,
        {
            let ghost seen = triggers@.take(i + 1);
            let ghost before = found@;
            assert(seen.drop_last() =~= triggers@.take(i as int));
            assert(seen.last() == triggers@[i as int]);
            let next = match triggers.get(i) {
                Some(trigger) => trigger.next_run(now),
                None => None,
            };
            match next {
                Some(at) => {
                    found.push(at.to_nanos());
                    proof {
                        let last = before.len() as int;
                        assert(found[last] == at@);
                        let least = earliest(seen, now@).unwrap();
                        if least == at@ {
                            assert(found[last] == least);
                        } else {
                            let k = choose|k: int|
                                0 <= k < before.len() && #[trigger] before[k] == least;
                            assert(found[k] == least);
                        }
                    }
                },
                None => {},
            }
            i += 1;
        }
        assert(triggers@.take(i as int) =~= triggers@);
        let ordered = sorted(found);
        proof {
            found@.to_multiset_ensures();
            ordered@.to_multiset_ensures();
        }
        if ordered.len() > 0 {
            let first: i128 = ordered[0];
            proof {
                assert(ordered@[0] == first);
                assert(ordered@.contains(first));
                assert(ordered@.to_multiset().count(first) > 0);
                assert(found@.contains(first));
                let k = choose|k: int| 0 <= k < found.len() && found@[k] == first;
                assert(now@ <= found[k] && MIN_NANOS <= found[k] <= MAX_NANOS);
                let least = earliest(triggers@, now@).unwrap();
                let j = choose|j: int| 0 <= j < found.len() && #[trigger] found[j] == least;
                assert(found@.contains(found[j]));
                assert(found@.to_multiset().count(found[j]) > 0);
                assert(ordered@.contains(found[j]));
                let m = choose|m: int| 0 <= m < ordered.len() && ordered@[m] == found[j];
                assert(ordered@[0] <= ordered@[m]);
                assert(least <= found[k]);
                assert(first == least);
            }
            Instant::from_nanos(first)
        } else {
            proof {
                assert(ordered@.to_multiset().len() == ordered@.len());
                assert(found@.to_multiset().len() == found@.len());
            }
            None
        }
    }

    /// Begins the loop of the job: the job is handed over to the loop, which
    /// is about to work out the first occurrence.
    pub fn run(job: Self) -> (begun: JobLoop<C, F>)
        ensures
            begun.spec_job() == job,
            begun.spec_state() == LoopState::Computing,
    {
        JobLoop { job, state: LoopState::Computing }
    }

    /// What a loop over `triggers` does next, from the state `state` at the
    /// instant `now`: the state it moves to, and what the caller is to do
    /// before it asks again.
    pub fn step(triggers: &TriggerSet, state: LoopState, now: Instant) -> (moved: (
        LoopState,
        LoopAction,
    ))
        ensures
            loop_step(triggers@, state, now@, moved.0, moved.1),
    {
        match state {
            LoopState::Computing => match Self::next_run(triggers, now) {
                Some(at) => (LoopState::Waiting(at), LoopAction::Sleep(at.saturating_since(&now))),
                None => (LoopState::Terminated, LoopAction::Stop(NoMoreRunsError)),
            },
            LoopState::Waiting(_) => (LoopState::Firing, LoopAction::Invoke),
            LoopState::Firing => (LoopState::Computing, LoopAction::Proceed),
            LoopState::Terminated => (LoopState::Terminated, LoopAction::Stop(NoMoreRunsError)),
        }
    }
}

/// The loop of one job: the job, and where its loop stands.
#[derive(Debug)]
pub struct JobLoop<C, F> {
    job: Job<C, F>,
    state: LoopState,
}

impl<C, F> JobLoop<C, F> {
    /// The job that the loop runs.
    pub closed spec fn spec_job(&self) -> Job<C, F> {
        self.job
    }

    /// Where the loop stands.
    pub closed spec fn spec_state(&self) -> LoopState {
        self.state
    }

    /// The job that the loop runs.
    pub fn job(&self) -> (job: &Job<C, F>)
        ensures
            *job == self.spec_job(),
    {
        &self.job
    }

    /// Where the loop stands.
    pub fn state(&self) -> (state: LoopState)
        ensures
            state == self.spec_state(),
    {
        self.state
    }

    /// Moves the loop on at the instant `now`, and says what the caller is
    /// to do before it asks again: sleep, call the callback, go on, or end
    /// the loop. The job stays as it is.
    pub fn step(&mut self, now: Instant) -> (action: LoopAction)
        ensures
            final(self).spec_job() == old(self).spec_job(),
            loop_step(
                old(self).spec_job().spec_triggers()@,
                old(self).spec_state(),
                now@,
                final(self).spec_state(),
                action,
            ),
    {
        let (next, action) = Job::<C, F>::step(&self.job.triggers, self.state, now);
        self.state = next;
        action
    }

    /// Reads `clock` and moves the loop on at the instant it shows. Whatever
    /// the clock shows, the loop does what [`JobLoop::step`] does at that
    /// instant: an instant that the clock can show.
    pub fn step_by<K: NowUtc>(&mut self, clock: &K) -> (action: LoopAction)
        ensures
            final(self).spec_job() == old(self).spec_job(),
            exists|now: Instant|
                call_ensures(K::now_utc, (clock,), now) && loop_step(
                    old(self).spec_job().spec_triggers()@,
                    old(self).spec_state(),
                    now@,
                    final(self).spec_state(),
                    action,
                ),
    {
        let now = clock.now_utc();
        let action = self.step(now);
        assert(call_ensures(K::now_utc, (clock,), now) && loop_step(
            old(self).spec_job().spec_triggers()@,
            old(self).spec_state(),
            now@,
            self.spec_state(),
            action,
        ));
        action
    }
}

} // verus!
