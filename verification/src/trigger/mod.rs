//! Triggers: the rules by which a job's occurrences are computed.
//!
//! A trigger is asked at an instant `now` for its next occurrences; it
//! reports instants that are not before `now`, or that it has no more. Its
//! canonical form is a text that says what the trigger is; triggers are told
//! apart and ordered by that text alone.

pub mod interval;
pub mod oneshot;
pub mod trigger_set;
pub mod weekly;

pub use self::interval::Interval;
pub use self::oneshot::Oneshot;
pub use self::trigger_set::TriggerSet;
pub use self::weekly::Weekly;

use self::interval::{lemma_interval_runs_bounds, lemma_interval_runs_ordered};
use self::weekly::{
    calendar_end_day, lemma_weekly_scan_ascends, lemma_weekly_scan_bounds, local_day, weekly_scan,
};
use crate::text::{lemma_text_order, precedes, text_lt};
use crate::time::{instants_of, spans_of, waits_from, waits_until, Instant, Span};
use core::cmp::Ordering;
use vstd::prelude::*;

verus! {

/// A source of the current instant: the clock of the machine, or one that a
/// test sets. The library reads the time through it and holds no clock of
/// its own.
pub trait NowUtc {
    /// The current instant. Nothing is promised of it: a clock may stand
    /// still or run backwards.
    fn now_utc(&self) -> Instant;
}

/// Texts between the same two texts are the same text where the wholes are.
proof fn lemma_framed_equal(open: Seq<char>, a: Seq<char>, b: Seq<char>, close: Seq<char>)
    requires
        open + a + close == open + b + close,
    ensures
        a == b,
{
    let whole_a = open + a + close;
    let whole_b = open + b + close;
    assert(whole_a.len() == open.len() + a.len() + close.len());
    assert(whole_b.len() == open.len() + b.len() + close.len());
    assert(a =~= whole_a.subrange(open.len() as int, (open.len() + a.len()) as int));
    assert(b =~= whole_b.subrange(open.len() as int, (open.len() + b.len()) as int));
}

/// The fields of a trigger begin with the name of its first field, and the
/// three kinds of trigger differ in the first letter of that name.
proof fn lemma_kind_shows(trigger: Trigger)
    ensures
        trigger.fields().len() >= 2,
        trigger.fields()[1] == match trigger {
            Trigger::Oneshot(_) => 'd',
            Trigger::Interval(_) => 'i',
            Trigger::Weekly(_) => 'w',
        },
{
    reveal_strlit("\"datetime\":\"");
    reveal_strlit("\"interval\":");
    reveal_strlit("\"weekdays\":[");
}

/// Triggers with the same canonical form are written out the same: what a
/// trigger is written out as says no more than its canonical form, and no
/// less.
pub proof fn lemma_tagged_by_canonical(a: Trigger, b: Trigger)
    ensures
        a.canonical() == b.canonical() <==> a.tagged() == b.tagged(),
{
    reveal_strlit("{");
    reveal_strlit("{\"type\":\"Oneshot\",");
    reveal_strlit("{\"type\":\"Interval\",");
    reveal_strlit("{\"type\":\"Weekly\",");
    lemma_kind_shows(a);
    lemma_kind_shows(b);
    let open = "{"@;
    let close = "}"@;
    assert(a.canonical() == open + a.fields() + close);
    assert(b.canonical() == open + b.fields() + close);
    if a.canonical() == b.canonical() {
        assert(a.canonical()[2] == a.fields()[1]);
        assert(b.canonical()[2] == b.fields()[1]);
        lemma_framed_equal(open, a.fields(), b.fields(), close);
    }
    if a.tagged() == b.tagged() {
        assert(a.tagged()[9] == match a {
            Trigger::Oneshot(_) => 'O',
            Trigger::Interval(_) => 'I',
            Trigger::Weekly(_) => 'W',
        });
        assert(b.tagged()[9] == match b {
            Trigger::Oneshot(_) => 'O',
            Trigger::Interval(_) => 'I',
            Trigger::Weekly(_) => 'W',
        });
        lemma_framed_equal(a.tag(), a.fields(), b.fields(), close);
    }
}

/// Whatever its kind, a trigger asked at `now` for `n` occurrences reports
/// at most `n`, none before `now`, and none earlier than one before it.
pub proof fn lemma_never_before_now(trigger: Trigger, now: int, n: nat)
    ensures
        trigger.runs(now, n) matches Some(list) ==> {
            &&& list.len() <= n
            &&& forall|i: int| 0 <= i < list.len() ==> now <= #[trigger] list[i]
            &&& forall|i: int, j: int| 0 <= i < j < list.len() ==> list[i] <= list[j]
        },
{
    match trigger {
        Trigger::Oneshot(rule) => {},
        Trigger::Interval(rule) => {
            lemma_interval_runs_bounds(rule.period(), rule.last_run(), now, n);
            lemma_interval_runs_ordered(rule.period(), rule.last_run(), now, n);
        },
        Trigger::Weekly(rule) => {
            let day = local_day(rule.zone(), now);
            let end = calendar_end_day(rule.time());
            lemma_weekly_scan_bounds(rule.weekdays(), rule.time(), rule.zone(), now, day, end, n);
            lemma_weekly_scan_ascends(rule.weekdays(), rule.time(), rule.zone(), now, day, end, n);
            let found = weekly_scan(rule.weekdays(), rule.time(), rule.zone(), now, day, end, n);
            assert forall|i: int, j: int| 0 <= i < j < found.len() implies found[i]
                <= found[j] by {
                assert(found[i] < found[j]);
            }
        },
    }
}

/// A rule that computes the occurrences of a job.
#[derive(Debug)]
pub enum Trigger {
    /// Fires once, at a fixed instant.
    Oneshot(Oneshot),
    /// Fires every period.
    Interval(Interval),
    /// Fires on chosen weekdays at a time of day in a time zone.
    Weekly(Weekly),
}

impl Trigger {
    /// What the trigger reports at `now` when asked for `n` occurrences.
    pub open spec fn runs(&self, now: int, n: nat) -> Option<Seq<int>> {
        match self {
            Trigger::Oneshot(rule) => rule.runs(now, n),
            Trigger::Interval(rule) => rule.runs(now, n),
            Trigger::Weekly(rule) => rule.runs(now, n),
        }
    }

    /// The first occurrence that the trigger reports at `now`, if it has one.
    pub open spec fn next(&self, now: int) -> Option<int> {
        match self.runs(now, 1) {
            Some(list) => if list.len() > 0 {
                Some(list[0])
            } else {
                None
            },
            None => None,
        }
    }

    /// The fields of the canonical form.
    pub open spec fn fields(&self) -> Seq<char> {
        match self {
            Trigger::Oneshot(rule) => rule.fields(),
            Trigger::Interval(rule) => rule.fields(),
            Trigger::Weekly(rule) => rule.fields(),
        }
    }

    /// The canonical form: a JSON object of the trigger's fields.
    pub open spec fn canonical(&self) -> Seq<char> {
        "{"@ + self.fields() + "}"@
    }

    /// How a trigger that is written out begins: with the kind of the
    /// trigger as the first field.
    pub open spec fn tag(&self) -> Seq<char> {
        match self {
            Trigger::Oneshot(_) => "{\"type\":\"Oneshot\","@,
            Trigger::Interval(_) => "{\"type\":\"Interval\","@,
            Trigger::Weekly(_) => "{\"type\":\"Weekly\","@,
        }
    }

    /// The form in which a trigger is written out: the canonical form with
    /// the kind of the trigger as its first field.
    pub open spec fn tagged(&self) -> Seq<char> {
        self.tag() + self.fields() + "}"@
    }

    /// Up to `n` occurrences from `now` on, or `None` where the trigger has
    /// no more. No occurrence lies before `now`.
    pub fn next_runs(&self, now: Instant, n: usize) -> (runs: Option<Vec<Instant>>)
        ensures
            instants_of(runs) == self.runs(now@, n as nat),
            runs matches Some(list) ==> {
                &&& list.len() <= n
                &&& forall|i: int| 0 <= i < list.len() ==> now@ <= (#[trigger] list[i])@
                &&& forall|i: int, j: int| 0 <= i < j < list.len() ==> list[i]@ <= list[j]@
            },
    {
        match self {
            Trigger::Oneshot(rule) => rule.next_runs(now, n),
            Trigger::Interval(rule) => rule.next_runs(now, n),
            Trigger::Weekly(rule) => rule.next_runs(now, n),
        }
    }

    /// The time from `now` to each of the occurrences that `next_runs`
    /// reports for the same `now` and `n`.
    pub fn time_to_next_runs(&self, now: Instant, n: usize) -> (waits: Option<Vec<Span>>)
        ensures
            spans_of(waits) == waits_from(now@, self.runs(now@, n as nat)),
    {
        waits_until(&now, self.next_runs(now, n))
    }

    /// The first occurrence from `now` on, if the trigger has one.
    pub fn next_run(&self, now: Instant) -> (next: Option<Instant>)
        ensures
            (match next {
                Some(at) => Some(at@),
                None => None,
            }) == self.next(now@),
            next matches Some(at) ==> now@ <= at@,
    {
        match self.next_runs(now, 1) {
            Some(list) => {
                if list.len() > 0 {
                    Some(list[0])
                } else {
                    None
                }
            },
            None => None,
        }
    }

    /// The canonical form, by which triggers are told apart and ordered.
    pub fn hash(&self) -> (text: String)
        ensures
            text@ == self.canonical(),
    {
        match self {
            Trigger::Oneshot(rule) => rule.hash(),
            Trigger::Interval(rule) => rule.hash(),
            Trigger::Weekly(rule) => rule.hash(),
        }
    }

    /// The trigger written out: its canonical form, with the kind of the
    /// trigger as the first field.
    pub fn to_json(&self) -> (text: String)
        ensures
            text@ == self.tagged(),
    {
        let mut text = String::new();
        self.append_json(&mut text);
        text
    }

    /// Writes the trigger out at the end of `out`.
    pub fn append_json(&self, out: &mut String)
        ensures
            final(out)@ == old(out)@ + self.tagged(),
    {
        match self {
            Trigger::Oneshot(rule) => {
                out.append("{\"type\":\"Oneshot\",");
                rule.append_fields(out);
            },
            Trigger::Interval(rule) => {
                out.append("{\"type\":\"Interval\",");
                rule.append_fields(out);
            },
            Trigger::Weekly(rule) => {
                out.append("{\"type\":\"Weekly\",");
                rule.append_fields(out);
            },
        }
        out.append("}");
        assert(out@ =~= old(out)@ + self.tagged());
    }

    /// Whether this trigger and `other` are the same trigger: whether their
    /// canonical forms are the same text.
    pub fn same_as(&self, other: &Trigger) -> (same: bool)
        ensures
            same == (self.canonical() == other.canonical()),
    {
        let mine = self.hash();
        let theirs = other.hash();
        mine == theirs
    }

    /// Whether this trigger comes before `other` in the order of triggers:
    /// whether its canonical form comes first in the order of strings.
    pub fn comes_before(&self, other: &Trigger) -> (before: bool)
        ensures
            before == text_lt(self.canonical(), other.canonical()),
    {
        let mine = self.hash();
        let theirs = other.hash();
        precedes(mine.as_str(), theirs.as_str())
    }
}

impl Clone for Trigger {
    fn clone(&self) -> (copy: Self)
        ensures
            copy == *self,
    {
        match self {
            Trigger::Oneshot(rule) => Trigger::Oneshot(*rule),
            Trigger::Interval(rule) => Trigger::Interval(*rule),
            Trigger::Weekly(rule) => Trigger::Weekly(rule.clone()),
        }
    }
}

impl PartialEq for Trigger {
    /// Whether the two triggers have the same canonical form.
    fn eq(&self, other: &Self) -> (same: bool) {
        self.same_as(other)
    }
}

impl Eq for Trigger {

}

impl vstd::std_specs::cmp::PartialEqSpecImpl for Trigger {
    open spec fn obeys_eq_spec() -> bool {
        true
    }

    open spec fn eq_spec(&self, other: &Self) -> bool {
        self.canonical() == other.canonical()
    }
}

impl PartialOrd for Trigger {
    /// The order of the two triggers: that of their canonical forms.
    fn partial_cmp(&self, other: &Self) -> (order: Option<Ordering>) {
        proof {
            lemma_text_order(self.canonical(), other.canonical(), self.canonical());
        }
        if self.comes_before(other) {
            Some(Ordering::Less)
        } else if other.comes_before(self) {
            Some(Ordering::Greater)
        } else {
            Some(Ordering::Equal)
        }
    }
}

impl vstd::std_specs::cmp::PartialOrdSpecImpl for Trigger {
    open spec fn obeys_partial_cmp_spec() -> bool {
        true
    }

    open spec fn partial_cmp_spec(&self, other: &Self) -> Option<Ordering> {
        if text_lt(self.canonical(), other.canonical()) {
            Some(Ordering::Less)
        } else if text_lt(other.canonical(), self.canonical()) {
            Some(Ordering::Greater)
        } else {
            Some(Ordering::Equal)
        }
    }
}

} // verus!
