//! The one-shot trigger: a single occurrence at a fixed instant.

use crate::time::{
    instant_text, instants, instants_of, spans_of, waits_from, waits_until, Instant, Span,
};
use vstd::prelude::*;

verus! {

/// What a one-shot trigger for the instant `at` reports at `now` when asked
/// for `n` occurrences: `at` itself until it has passed, then nothing more.
/// The instant `at` itself still counts.
pub open spec fn oneshot_runs(at: int, now: int, n: nat) -> Option<Seq<int>> {
    if at < now {
        None
    } else if n == 0 {
        Some(Seq::empty())
    } else {
        Some(seq![at])
    }
}

/// Asked for at least one occurrence, a one-shot trigger reports its instant
/// before that instant and at it, and nothing more after it.
pub proof fn lemma_oneshot_inclusive(at: int, now: int, n: nat)
    requires
        n > 0,
    ensures
        now < at ==> oneshot_runs(at, now, n) == Some(seq![at]),
        now == at ==> oneshot_runs(at, now, n) == Some(seq![at]),
        now > at ==> oneshot_runs(at, now, n) is None,
{
}

/// The fields of a one-shot trigger's canonical form: the instant, in RFC
/// 3339 form.
pub open spec fn oneshot_fields(at: int) -> Seq<char> {
    "\"datetime\":\""@ + instant_text(at) + "\""@
}

/// Fires once, at a fixed instant.
#[derive(Clone, Copy, Debug)]
pub struct Oneshot {
    datetime: Instant,
}

impl Oneshot {
    /// The instant of the single occurrence, in nanoseconds since the epoch.
    pub closed spec fn at(&self) -> int {
        self.datetime@
    }

    /// What the trigger reports at `now` when asked for `n` occurrences.
    pub open spec fn runs(&self, now: int, n: nat) -> Option<Seq<int>> {
        oneshot_runs(self.at(), now, n)
    }

    /// The fields of the canonical form.
    pub open spec fn fields(&self) -> Seq<char> {
        oneshot_fields(self.at())
    }

    /// The canonical form: a JSON object of the fields.
    pub open spec fn canonical(&self) -> Seq<char> {
        "{"@ + self.fields() + "}"@
    }

    /// A trigger that fires once, at `datetime`.
    pub fn new(datetime: Instant) -> (made: Self)
        ensures
            made.at() == datetime@,
    {
        Oneshot { datetime }
    }

    /// The instant of the single occurrence.
    pub fn datetime(&self) -> (at: Instant)
        ensures
            at@ == self.at(),
    {
        self.datetime
    }

    /// The occurrence, while `now` has not passed it and `n` is positive;
    /// `None` once it lies before `now`.
    pub fn next_runs(&self, now: Instant, n: usize) -> (runs: Option<Vec<Instant>>)
        ensures
            instants_of(runs) == self.runs(now@, n as nat),
            runs matches Some(list) ==> {
                &&& list.len() <= n
                &&& forall|i: int| 0 <= i < list.len() ==> now@ <= (#[trigger] list[i])@
                &&& forall|i: int, j: int| 0 <= i < j < list.len() ==> list[i]@ <= list[j]@
            },
    {
        if self.datetime.is_before(&now) {
            None
        } else {
            let mut list: Vec<Instant> = Vec::new();
            if n > 0 {
                list.push(self.datetime);
            }
            assert(instants(list@) =~= if n == 0 {
                Seq::<int>::empty()
            } else {
                seq![self.at()]
            });
            Some(list)
        }
    }

    /// The time from `now` to the occurrence that `next_runs` reports for the
    /// same `now` and `n`.
    pub fn time_to_next_runs(&self, now: Instant, n: usize) -> (waits: Option<Vec<Span>>)
        ensures
            spans_of(waits) == waits_from(now@, self.runs(now@, n as nat)),
    {
        waits_until(&now, self.next_runs(now, n))
    }

    /// Writes the fields of the canonical form at the end of `out`.
    pub fn append_fields(&self, out: &mut String)
        ensures
            final(out)@ == old(out)@ + self.fields(),
    {
        out.append("\"datetime\":\"");
        let at = self.datetime.to_rfc3339();
        out.append(at.as_str());
        out.append("\"");
        assert(out@ =~= old(out)@ + self.fields());
    }

    /// The canonical form, by which triggers are told apart and ordered.
    pub fn hash(&self) -> (text: String)
        ensures
            text@ == self.canonical(),
    {
        let mut text = String::from_str("{");
        self.append_fields(&mut text);
        text.append("}");
        text
    }
}

} // verus!
