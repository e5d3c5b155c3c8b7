//! The interval trigger: an occurrence every period, on a grid that is
//! anchored where the trigger last fired.

use crate::text::{append_span, span_text};
use crate::time::{
    div_floor, instant_text, instants, instants_of, spans_of, waits_from, waits_until, Instant,
    Span, MAX_NANOS, MAX_SPAN_NANOS, MIN_NANOS,
};
use vstd::arithmetic::div_mod::{lemma_fundamental_div_mod, lemma_mod_bound};
use vstd::arithmetic::mul::{lemma_mul_inequality, lemma_mul_is_commutative};
use vstd::prelude::*;

verus! {

/// The whole multiples of `d` below `x` end at `x / d`.
proof fn lemma_floor(x: int, d: int)
    requires
        d > 0,
    ensures
        (x / d) * d <= x < (x / d) * d + d,
{
    lemma_fundamental_div_mod(x, d);
    lemma_mod_bound(x, d);
    lemma_mul_is_commutative(d, x / d);
}

/// `k` multiples of `d` fit into `x` exactly when `k` is at most `x / d`.
proof fn lemma_fits(x: int, d: int, k: int)
    requires
        d > 0,
    ensures
        k * d <= x <==> k <= x / d,
{
    lemma_floor(x, d);
    let q = x / d;
    if k <= q {
        lemma_mul_inequality(k, q, d);
    } else {
        lemma_mul_inequality(q + 1, k, d);
        assert((q + 1) * d == q * d + d) by (nonlinear_arith);
    }
}

/// The latest point of the trigger's grid that is not after `now`: `last_run`
/// moved on by as many whole periods as have passed since. A trigger that
/// never fired, and one with an empty period, has `now` itself for it.
pub open spec fn interval_base(period: nat, last_run: Option<int>, now: int) -> int {
    match last_run {
        Some(last) => if period > 0 {
            last + ((now - last) / (period as int)) * period
        } else {
            now
        },
        None => now,
    }
}

/// How many of the `n` occurrences after `base` the calendar still holds.
pub open spec fn interval_count(period: nat, base: int, n: nat) -> nat {
    if period == 0 {
        n
    } else {
        let room = (MAX_NANOS - base) / (period as int);
        if room < 0 {
            0
        } else if room < n {
            room as nat
        } else {
            n
        }
    }
}

/// What an interval trigger reports at `now` when asked for `n` occurrences:
/// the next `n` points of its grid, as far as the calendar reaches, and
/// nothing more where `n` is positive and the calendar holds none.
pub open spec fn interval_runs(period: nat, last_run: Option<int>, now: int, n: nat) -> Option<
    Seq<int>,
> {
    let base = interval_base(period, last_run, now);
    let count = interval_count(period, base, n);
    if n > 0 && count == 0 {
        None
    } else {
        Some(Seq::new(count, |i: int| base + (i + 1) * period))
    }
}

/// The grid point that a trigger starts from is never after `now`, and less
/// than a period before it.
pub proof fn lemma_interval_base_bounds(period: nat, last_run: Option<int>, now: int)
    ensures
        interval_base(period, last_run, now) <= now,
        period > 0 ==> now < interval_base(period, last_run, now) + period,
        period == 0 ==> interval_base(period, last_run, now) == now,
{
    match last_run {
        Some(last) => {
            if period > 0 {
                lemma_floor(now - last, period as int);
            }
        },
        None => {},
    }
}

/// An interval trigger that never fired reports the `n` instants that lie
/// one, two, ... `n` periods after `now`, wherever the calendar holds the
/// last of them.
pub proof fn lemma_interval_first_use(period: nat, now: int, n: nat)
    requires
        now + n * period <= MAX_NANOS,
    ensures
        interval_runs(period, None, now, n) == Some(Seq::new(n, |i: int| now + (i + 1) * period)),
{
    if period > 0 {
        lemma_fits(MAX_NANOS - now, period as int, n as int);
    }
}

/// After a pause an interval trigger catches up with a single occurrence on
/// its old grid: asked two and a half periods after it last fired, at `last`,
/// it reports the boundary three periods after `last`, and neither `now` nor
/// the two boundaries that were missed.
pub proof fn lemma_interval_catch_up(period: nat, last: int, now: int)
    requires
        2 * (now - last) == 5 * period,
        last + 3 * period <= MAX_NANOS,
    ensures
        interval_runs(period, Some(last), now, 1) == Some(seq![last + 3 * period]),
{
    let p = period as int;
    let base = interval_base(period, Some(last), now);
    if period > 0 {
        lemma_fits(now - last, p, 2);
        lemma_fits(now - last, p, 3);
        assert(base == last + 2 * p);
        lemma_fits(MAX_NANOS - base, p, 1);
    }
    assert(interval_count(period, base, 1) == 1);
    assert(Seq::new(1, |i: int| base + (i + 1) * period) =~= seq![last + 3 * period]);
}

/// An interval trigger reports no instant before `now`, and no more than it
/// was asked for.
pub proof fn lemma_interval_runs_bounds(period: nat, last_run: Option<int>, now: int, n: nat)
    ensures
        interval_runs(period, last_run, now, n) matches Some(list) ==> {
            &&& list.len() <= n
            &&& forall|i: int| 0 <= i < list.len() ==> now <= #[trigger] list[i]
        },
{
    if period > 0 {
        lemma_interval_runs_ascend(period, last_run, now, n);
    } else {
        let list = Seq::new(n, |i: int| now + (i + 1) * period);
        assert forall|i: int| 0 <= i < list.len() implies now <= #[trigger] list[i] by {
            assert((i + 1) * period == 0) by (nonlinear_arith)
                requires
                    period == 0,
            ;
        }
    }
}

/// An interval trigger reports its occurrences in the order of time: none
/// is earlier than one before it.
pub proof fn lemma_interval_runs_ordered(period: nat, last_run: Option<int>, now: int, n: nat)
    ensures
        interval_runs(period, last_run, now, n) matches Some(list) ==> forall|i: int, j: int|
            0 <= i < j < list.len() ==> list[i] <= list[j],
{
    let base = interval_base(period, last_run, now);
    let list = Seq::new(interval_count(period, base, n), |i: int| base + (i + 1) * period);
    assert forall|i: int, j: int| 0 <= i < j < list.len() implies list[i] <= list[j] by {
        lemma_mul_inequality(i + 1, j + 1, period as int);
    }
}

/// With a period that is not empty an interval trigger reports only instants
/// after `now`, each later than the one before, and none beyond the calendar.
pub proof fn lemma_interval_runs_ascend(period: nat, last_run: Option<int>, now: int, n: nat)
    requires
        period > 0,
    ensures
        interval_runs(period, last_run, now, n) matches Some(list) ==> {
            &&& list.len() <= n
            &&& forall|i: int| 0 <= i < list.len() ==> now < #[trigger] list[i] <= MAX_NANOS
            &&& forall|i: int, j: int| 0 <= i < j < list.len() ==> list[i] < list[j]
        },
{
    let p = period as int;
    let base = interval_base(period, last_run, now);
    let count = interval_count(period, base, n);
    lemma_interval_base_bounds(period, last_run, now);
    let list = Seq::new(count, |i: int| base + (i + 1) * period);
    assert forall|i: int| 0 <= i < list.len() implies now < #[trigger] list[i] <= MAX_NANOS by {
        lemma_mul_inequality(1, i + 1, p);
        lemma_fits(MAX_NANOS - base, p, i + 1);
    }
    assert forall|i: int, j: int| 0 <= i < j < list.len() implies list[i] < list[j] by {
        lemma_mul_inequality(i + 2, j + 1, p);
        assert((i + 2) * p == (i + 1) * p + p) by (nonlinear_arith);
    }
}

/// The instant a trigger last fired as its canonical form holds it: in RFC
/// 3339 form, or `null` for a trigger that never fired.
pub open spec fn last_run_text(last_run: Option<int>) -> Seq<char> {
    match last_run {
        Some(last) => "\""@ + instant_text(last) + "\""@,
        None => "null"@,
    }
}

/// The fields of an interval trigger's canonical form: the period and the
/// instant it last fired.
pub open spec fn interval_fields(period: nat, last_run: Option<int>) -> Seq<char> {
    "\"interval\":"@ + span_text(period) + ",\"last_run\":"@ + last_run_text(last_run)
}

/// Fires every period. The grid of its occurrences is anchored at the
/// instant it last fired, if it ever did, and at the moment of asking
/// otherwise.
#[derive(Clone, Copy, Debug)]
pub struct Interval {
    interval: Span,
    last_run: Option<Instant>,
}

impl Interval {
    /// The period, in nanoseconds.
    pub closed spec fn period(&self) -> nat {
        self.interval@
    }

    /// The instant the trigger last fired, in nanoseconds since the epoch.
    pub closed spec fn last_run(&self) -> Option<int> {
        match self.last_run {
            Some(last) => Some(last@),
            None => None,
        }
    }

    /// What the trigger reports at `now` when asked for `n` occurrences.
    pub open spec fn runs(&self, now: int, n: nat) -> Option<Seq<int>> {
        interval_runs(self.period(), self.last_run(), now, n)
    }

    /// The fields of the canonical form.
    pub open spec fn fields(&self) -> Seq<char> {
        interval_fields(self.period(), self.last_run())
    }

    /// The canonical form: a JSON object of the fields.
    pub open spec fn canonical(&self) -> Seq<char> {
        "{"@ + self.fields() + "}"@
    }

    /// A trigger that fires every `interval` and has not fired yet.
    pub fn new(interval: Span) -> (made: Self)
        ensures
            made.period() == interval@,
            made.last_run() is None,
    {
        Interval { interval, last_run: None }
    }

    /// A trigger that fires every `interval` and last fired at `last_run`.
    pub fn resumed(interval: Span, last_run: Instant) -> (made: Self)
        ensures
            made.period() == interval@,
            made.last_run() == Some(last_run@),
    {
        Interval { interval, last_run: Some(last_run) }
    }

    /// The period.
    pub fn interval(&self) -> (period: Span)
        ensures
            period@ == self.period(),
    {
        self.interval
    }

    /// The instant the trigger last fired, if it ever did.
    pub fn last_fired(&self) -> (last: Option<Instant>)
        ensures
            (match last {
                Some(at) => Some(at@),
                None => None,
            }) == self.last_run(),
    {
        self.last_run
    }

    /// The latest point of the grid that is not after the instant `at`.
    fn base(&self, at: i128) -> (base: i128)
        requires
            MIN_NANOS <= at <= MAX_NANOS,
        ensures
            base == interval_base(self.period(), self.last_run(), at as int),
            base <= at,
            self.period() > 0 ==> at < base + self.period(),
            self.period() == 0 ==> base == at,
    {
        let period: u128 = self.interval.to_nanos();
        proof {
            lemma_interval_base_bounds(self.period(), self.last_run(), at as int);
        }
        match self.last_run {
            Some(last) => {
                if period > 0 {
                    let from: i128 = last.to_nanos();
                    let whole: i128 = div_floor(at - from, period as i128);
                    proof {
                        lemma_floor((at - from) as int, period as int);
                    }
                    from + whole * (period as i128)
                } else {
                    at
                }
            },
            None => at,
        }
    }

    /// The next `n` occurrences after `now`, earliest first: the points of
    /// the grid that follow the latest one not after `now`. However long the
    /// pause since the trigger last fired, the boundaries that were missed
    /// are not reported, and the grid does not move. `None` only where `n`
    /// is positive and the calendar ends before the next occurrence.
    pub fn next_runs(&self, now: Instant, n: usize) -> (runs: Option<Vec<Instant>>)
        ensures
            instants_of(runs) == self.runs(now@, n as nat),
            runs matches Some(list) ==> {
                &&& list.len() <= n
                &&& forall|i: int| 0 <= i < list.len() ==> now@ <= (#[trigger] list[i])@
                &&& forall|i: int, j: int| 0 <= i < j < list.len() ==> list[i]@ <= list[j]@
            },
    {
        let period: u128 = self.interval.to_nanos();
        let step: i128 = period as i128;
        let at: i128 = now.to_nanos();
        let base: i128 = self.base(at);
        let count: usize = if period == 0 {
            n
        } else {
            let room: i128 = (MAX_NANOS - base) / step;
            proof {
                lemma_floor((MAX_NANOS - base) as int, step as int);
                lemma_fits((MAX_NANOS - base) as int, step as int, 0);
            }
            if room < n as i128 {
                room as usize
            } else {
                n
            }
        };
        assert(count == interval_count(self.period(), base as int, n as nat));
        if n > 0 && count == 0 {
            return None;
        }
        let mut list: Vec<Instant> = Vec::new();
        let mut i: usize = 0;
        while i < count
            invariant
                0 <= i <= count <= n,
                list.len() == i,
                step == self.period(),
                base <= at == now@,
                MIN_NANOS <= at <= MAX_NANOS,
                step > 0 ==> at < base + step,
                step == 0 ==> base == at,
                step > 0 ==> count <= (MAX_NANOS - base) / (step as int),
                0 <= step <= MAX_SPAN_NANOS,
                forall|j: int| 0 <= j < i ==> (#[trigger] list[j])@ == base + (j + 1) * step,
                forall|j: int| 0 <= j < i ==> at <= (#[trigger] list[j])@,
            decreases count - i,
        {
            proof {
                if step > 0 {
                    lemma_fits((MAX_NANOS - base) as int, step as int, i + 1);
                    lemma_mul_inequality(1, i + 1, step as int);
                } else {
                    assert((i + 1) * step == 0) by (nonlinear_arith)
                        requires
                            step == 0,
                    ;
                }
            }
            let next: i128 = base + ((i as i128) + 1) * step;
            let made = Instant::from_nanos(next);
            list.push(made.unwrap());
            i += 1;
        }
        assert(instants(list@) =~= Seq::new(
            count as nat,
            |j: int| base + (j + 1) * self.period(),
        ));
        assert forall|a: int, b: int| 0 <= a < b < list.len() implies list[a]@ <= list[b]@ by {
            lemma_mul_inequality(a + 1, b + 1, step as int);
        }
        Some(list)
    }

    /// The time from `now` to each of the occurrences that `next_runs`
    /// reports for the same `now` and `n`.
    pub fn time_to_next_runs(&self, now: Instant, n: usize) -> (waits: Option<Vec<Span>>)
        ensures
            spans_of(waits) == waits_from(now@, self.runs(now@, n as nat)),
    {
        waits_until(&now, self.next_runs(now, n))
    }

    /// Writes the fields of the canonical form at the end of `out`.
    pub fn append_fields(&self, out: &mut String)
        ensures
            final(out)@ == old(out)@ + self.fields(),
    {
        out.append("\"interval\":");
        append_span(out, &self.interval);
        out.append(",\"last_run\":");
        match self.last_run {
            Some(last) => {
                out.append("\"");
                let at = last.to_rfc3339();
                out.append(at.as_str());
                out.append("\"");
            },
            None => {
                out.append("null");
            },
        }
        assert(out@ =~= old(out)@ + self.fields());
    }

    /// The canonical form, by which triggers are told apart and ordered.
    pub fn hash(&self) -> (text: String)
        ensures
            text@ == self.canonical(),
    {
        let mut text = String::from_str("{");
        self.append_fields(&mut text);
        text.append("}");
        text
    }
}

} // verus!
