//! The weekly trigger: chosen weekdays, at one time of day on the wall clock
//! of a time zone.

use crate::text::{append_flags, append_span, flags_text, span_text};
use crate::time::{
    div_floor, instants, instants_of, mod_floor, spans_of, waits_from, waits_until, Instant, Span,
    MAX_NANOS, MAX_SECS, MIN_NANOS, MIN_SECS, NANOS_PER_SEC, SECS_PER_DAY,
};
use crate::zone::{zone_local_time, zone_offset_at, LocalTime, Tz};
use vstd::prelude::*;

verus! {

/// Whether no weekday of `mask` is chosen.
pub open spec fn mask_is_empty(mask: Seq<bool>) -> bool {
    forall|i: int| 0 <= i < mask.len() ==> !mask[i]
}

/// The weekday of the civil day `day`, counted in days since 1970-01-01, a
/// Thursday: 0 for Monday, 6 for Sunday.
pub open spec fn weekday_of(day: int) -> int {
    (day + 3) % 7
}

/// The civil day, in days since 1970-01-01, that the wall clock of `zone`
/// shows at the instant `now`.
pub open spec fn local_day(zone: Seq<char>, now: int) -> int {
    let secs = now / (NANOS_PER_SEC as int);
    (secs + zone_offset_at(zone, secs)) / (SECS_PER_DAY as int)
}

/// The first civil day on which the time of day `time` lies beyond the
/// calendar.
pub open spec fn calendar_end_day(time: nat) -> int {
    (MAX_SECS - (time as int) / (NANOS_PER_SEC as int)) / (SECS_PER_DAY as int) + 1
}

/// The reading of the wall clock on the civil day `day`: midnight plus
/// `time`, in seconds since 1970-01-01T00:00:00 on that clock.
pub open spec fn reading_secs(time: nat, day: int) -> int {
    day * SECS_PER_DAY + (time as int) / (NANOS_PER_SEC as int)
}

/// What the reading of the civil day `day` stands for in `zone`, or `None`
/// for a reading that the calendar does not reach.
pub open spec fn weekly_reading(time: nat, zone: Seq<char>, day: int) -> Option<LocalTime> {
    let local = reading_secs(time, day);
    if MIN_SECS <= local <= MAX_SECS {
        Some(zone_local_time(zone, local))
    } else {
        None
    }
}

/// The occurrence on the civil day `day`, if it has one, where the reading
/// of that day stands for `reading`: the weekday is chosen, the reading
/// stands for exactly one instant, and that instant is not before `from` and
/// not beyond the calendar.
pub open spec fn weekly_occurrence(
    mask: Seq<bool>,
    time: nat,
    from: int,
    day: int,
    reading: Option<LocalTime>,
) -> Option<int> {
    if !mask[weekday_of(day)] {
        None
    } else {
        match reading {
            Some(LocalTime::Single(offset)) => {
                let at = (reading_secs(time, day) - offset) * NANOS_PER_SEC + (time as int) % (
                NANOS_PER_SEC as int);
                if from <= at <= MAX_NANOS {
                    Some(at)
                } else {
                    None
                }
            },
            _ => None,
        }
    }
}

/// The occurrence on the civil day `day` in `zone`, if it has one that is
/// not before `from`.
pub open spec fn weekly_candidate(
    mask: Seq<bool>,
    time: nat,
    zone: Seq<char>,
    from: int,
    day: int,
) -> Option<int> {
    weekly_occurrence(mask, time, from, day, weekly_reading(time, zone, day))
}

/// The first `n` occurrences on the civil days from `day` up to, not
/// including, `end`, none before `from` and each later than the one before:
/// a day whose occurrence is not later than the last one taken is passed
/// over.
pub open spec fn weekly_scan(
    mask: Seq<bool>,
    time: nat,
    zone: Seq<char>,
    from: int,
    day: int,
    end: int,
    n: nat,
) -> Seq<int>
    decreases end - day,
{
    if n == 0 || day >= end {
        Seq::empty()
    } else {
        match weekly_candidate(mask, time, zone, from, day) {
            Some(at) => seq![at] + weekly_scan(
                mask,
                time,
                zone,
                at + 1,
                day + 1,
                end,
                (n - 1) as nat,
            ),
            None => weekly_scan(mask, time, zone, from, day + 1, end, n),
        }
    }
}

/// What a weekly trigger reports at `now` when asked for `n` occurrences:
/// nothing more with no weekday chosen, else the first `n` occurrences from
/// the current local day on, and nothing more where `n` is positive and the
/// calendar holds none.
pub open spec fn weekly_runs(
    mask: Seq<bool>,
    time: nat,
    zone: Seq<char>,
    now: int,
    n: nat,
) -> Option<Seq<int>> {
    if mask_is_empty(mask) {
        None
    } else {
        let found = weekly_scan(
            mask,
            time,
            zone,
            now,
            local_day(zone, now),
            calendar_end_day(time),
            n,
        );
        if n > 0 && found.len() == 0 {
            None
        } else {
            Some(found)
        }
    }
}

/// A weekly trigger never reports an occurrence before the instant it is
/// asked from, never one beyond the calendar, and never more than it was
/// asked for.
pub proof fn lemma_weekly_scan_bounds(
    mask: Seq<bool>,
    time: nat,
    zone: Seq<char>,
    from: int,
    day: int,
    end: int,
    n: nat,
)
    ensures
        weekly_scan(mask, time, zone, from, day, end, n).len() <= n,
        forall|i: int|
            0 <= i < weekly_scan(mask, time, zone, from, day, end, n).len() ==> from <= (
            #[trigger] weekly_scan(mask, time, zone, from, day, end, n)[i]) <= MAX_NANOS,
    decreases end - day,
{
    if n == 0 || day >= end {
    } else {
        match weekly_candidate(mask, time, zone, from, day) {
            Some(at) => {
                lemma_weekly_scan_bounds(mask, time, zone, at + 1, day + 1, end, (n - 1) as nat);
            },
            None => {
                lemma_weekly_scan_bounds(mask, time, zone, from, day + 1, end, n);
            },
        }
    }
}

/// A weekly trigger reports each occurrence later than the one before.
pub proof fn lemma_weekly_scan_ascends(
    mask: Seq<bool>,
    time: nat,
    zone: Seq<char>,
    from: int,
    day: int,
    end: int,
    n: nat,
)
    ensures
        forall|i: int, j: int|
            0 <= i < j < weekly_scan(mask, time, zone, from, day, end, n).len() ==> weekly_scan(
                mask,
                time,
                zone,
                from,
                day,
                end,
                n,
            )[i] < weekly_scan(mask, time, zone, from, day, end, n)[j],
    decreases end - day,
{
    if n == 0 || day >= end {
    } else {
        match weekly_candidate(mask, time, zone, from, day) {
            Some(at) => {
                let rest = weekly_scan(mask, time, zone, at + 1, day + 1, end, (n - 1) as nat);
                lemma_weekly_scan_ascends(mask, time, zone, at + 1, day + 1, end, (n - 1) as nat);
                lemma_weekly_scan_bounds(mask, time, zone, at + 1, day + 1, end, (n - 1) as nat);
                let found = weekly_scan(mask, time, zone, from, day, end, n);
                assert(found == seq![at] + rest);
                assert forall|i: int, j: int| 0 <= i < j < found.len() implies found[i]
                    < found[j] by {
                    assert(found[j] == rest[j - 1]);
                    if i > 0 {
                        assert(found[i] == rest[i - 1]);
                        assert(rest[i - 1] < rest[j - 1]);
                    } else {
                        assert(found[i] == at);
                        assert(at + 1 <= rest[j - 1]);
                    }
                }
            },
            None => {
                lemma_weekly_scan_ascends(mask, time, zone, from, day + 1, end, n);
                assert(weekly_scan(mask, time, zone, from, day, end, n) == weekly_scan(
                    mask,
                    time,
                    zone,
                    from,
                    day + 1,
                    end,
                    n,
                ));
            },
        }
    }
}

/// With no weekday chosen a weekly trigger has nothing more to report,
/// whenever and for however many occurrences it is asked.
pub proof fn lemma_weekly_empty_mask(mask: Seq<bool>, time: nat, zone: Seq<char>, now: int, n: nat)
    requires
        mask_is_empty(mask),
    ensures
        weekly_runs(mask, time, zone, now, n) is None,
{
}

/// The fields of a weekly trigger's canonical form: the weekdays, the time
/// of day and the name of the zone.
pub open spec fn weekly_fields(mask: Seq<bool>, time: nat, zone: Seq<char>) -> Seq<char> {
    "\"weekdays\":["@ + flags_text(mask) + "],\"time\":"@ + span_text(time) + ",\"tz\":\""@ + zone
        + "\""@
}

/// Fires on the chosen weekdays, at one time of day on the wall clock of a
/// time zone.
#[derive(Debug)]
pub struct Weekly {
    weekdays: [bool; 7],
    time: Span,
    tz: Tz,
}

impl Clone for Weekly {
    fn clone(&self) -> (copy: Self)
        ensures
            copy == *self,
    {
        Weekly { weekdays: self.weekdays, time: self.time, tz: self.tz.clone() }
    }
}

impl Weekly {
    /// The chosen weekdays, Monday first.
    pub closed spec fn weekdays(&self) -> Seq<bool> {
        self.weekdays@
    }

    /// The time of day, in nanoseconds after local midnight.
    pub closed spec fn time(&self) -> nat {
        self.time@
    }

    /// The name of the time zone.
    pub closed spec fn zone(&self) -> Seq<char> {
        self.tz@
    }

    /// What the trigger reports at `now` when asked for `n` occurrences.
    pub open spec fn runs(&self, now: int, n: nat) -> Option<Seq<int>> {
        weekly_runs(self.weekdays(), self.time(), self.zone(), now, n)
    }

    /// The fields of the canonical form.
    pub open spec fn fields(&self) -> Seq<char> {
        weekly_fields(self.weekdays(), self.time(), self.zone())
    }

    /// The canonical form: a JSON object of the fields.
    pub open spec fn canonical(&self) -> Seq<char> {
        "{"@ + self.fields() + "}"@
    }

    /// A trigger for the weekdays chosen in `weekdays`, Monday first, at
    /// `time` after local midnight in the zone `tz`.
    pub fn new(weekdays: [bool; 7], time: Span, tz: Tz) -> (made: Self)
        ensures
            made.weekdays() == weekdays@,
            made.time() == time@,
            made.zone() == tz@,
    {
        Weekly { weekdays, time, tz }
    }

    /// The chosen weekdays, Monday first.
    pub fn chosen_weekdays(&self) -> (weekdays: [bool; 7])
        ensures
            weekdays@ == self.weekdays(),
    {
        self.weekdays
    }

    /// The time of day, after local midnight.
    pub fn time_of_day(&self) -> (time: Span)
        ensures
            time@ == self.time(),
    {
        self.time
    }

    /// The time zone.
    pub fn tz(&self) -> (tz: &Tz)
        ensures
            tz@ == self.zone(),
    {
        &self.tz
    }

    /// Whether no weekday is chosen.
    pub fn never_fires(&self) -> (never: bool)
        ensures
            never == mask_is_empty(self.weekdays()),
    {
        let mut i: usize = 0;
        while i < 7
            invariant
                0 <= i <= 7,
                forall|j: int| 0 <= j < i ==> !self.weekdays@[j],
            decreases 7 - i,
        {
            if self.weekdays[i] {
                return false;
            }
            i += 1;
        }
        true
    }

    /// The civil day, in days since 1970-01-01, that a wall clock shows at
    /// the instant `now` where it is `offset` seconds ahead of UTC.
    pub fn first_day(now: &Instant, offset: i32) -> (day: i128)
        ensures
            day == (now@ / (NANOS_PER_SEC as int) + offset) / (SECS_PER_DAY as int),
    {
        div_floor((now.timestamp() as i128) + (offset as i128), SECS_PER_DAY)
    }

    /// Whether the weekday of the civil day `day` is chosen.
    fn is_chosen(&self, day: i128) -> (chosen: bool)
        requires
            -1_000_000_000_000_000 <= day <= 1_000_000_000_000_000,
        ensures
            chosen == self.weekdays()[weekday_of(day as int)],
    {
        let weekday: i128 = mod_floor(day + 3, 7);
        self.weekdays[weekday as usize]
    }

    /// What the reading of the civil day `day` stands for in the trigger's
    /// zone.
    fn reading_on(&self, day: i128) -> (reading: Option<LocalTime>)
        requires
            -1_000_000_000_000_000 <= day <= 1_000_000_000_000_000,
        ensures
            reading == weekly_reading(self.time(), self.zone(), day as int),
    {
        let local: i128 = day * SECS_PER_DAY + (self.time.as_secs() as i128);
        if local < (MIN_SECS as i128) || local > (MAX_SECS as i128) {
            None
        } else {
            self.tz.resolve_local(local as i64)
        }
    }

    /// The occurrence on the civil day `day` that is not before the instant
    /// `from`, where the reading of that day stands for `reading`.
    fn occurrence_from(&self, from: i128, day: i128, reading: Option<LocalTime>) -> (found: Option<
        Instant,
    >)
        requires
            MIN_NANOS <= from <= MAX_NANOS + 1,
        ensures
            (match found {
                Some(at) => Some(at@),
                None => None,
            }) == weekly_occurrence(self.weekdays(), self.time(), from as int, day as int, reading),
    {
        let secs: i128 = self.time.as_secs() as i128;
        let sub: i128 = self.time.subsec_nanos() as i128;
        if day < -1_000_000_000_000_000 || day > 1_000_000_000_000_000 {
            // no instant of the calendar lies on such a day
            return None;
        }
        if !self.is_chosen(day) {
            return None;
        }
        match reading {
            Some(LocalTime::Single(offset)) => {
                let local: i128 = day * SECS_PER_DAY + secs;
                let at: i128 = (local - (offset as i128)) * NANOS_PER_SEC + sub;
                if from <= at && at <= MAX_NANOS {
                    Instant::from_nanos(at)
                } else {
                    None
                }
            },
            _ => None,
        }
    }

    /// The occurrence on the civil day `day`, counted in days since
    /// 1970-01-01, if it has one at or after `now`, where midnight plus the
    /// time of day on the wall clock of that day stands for `reading`: the
    /// weekday must be chosen, and the reading must stand for exactly one
    /// instant. A reading that the clocks skip or show twice, and one that
    /// the calendar does not reach, yields none.
    pub fn occurrence_on(&self, now: &Instant, day: i128, reading: Option<LocalTime>) -> (found:
        Option<Instant>)
        ensures
            (match found {
                Some(at) => Some(at@),
                None => None,
            }) == weekly_occurrence(self.weekdays(), self.time(), now@, day as int, reading),
    {
        self.occurrence_from(now.to_nanos(), day, reading)
    }

    /// Up to `n` occurrences from `now` on, each later than the one before,
    /// or `None` where there are no more: no weekday is chosen, or `n` is
    /// positive and the calendar holds no further occurrence.
    ///
    /// Each civil day from the current one on, by the wall clock of the
    /// trigger's zone, is a candidate: its weekday must be chosen, and
    /// midnight plus the time of day must be shown at exactly one instant.
    /// A reading that the clocks skip, or show twice, yields no occurrence
    /// for that day; nor does a day whose occurrence would not be later than
    /// the one before.
    pub fn next_runs(&self, now: Instant, n: usize) -> (runs: Option<Vec<Instant>>)
        ensures
            instants_of(runs) == self.runs(now@, n as nat),
            runs matches Some(list) ==> {
                &&& list.len() <= n
                &&& forall|i: int| 0 <= i < list.len() ==> now@ <= (#[trigger] list[i])@
                &&& forall|i: int, j: int| 0 <= i < j < list.len() ==> list[i]@ < list[j]@
            },
    {
        if self.never_fires() {
            return None;
        }
        let today: i128 = Weekly::first_day(&now, self.tz.offset_at(&now));
        let end: i128 = div_floor((MAX_SECS as i128) - (self.time.as_secs() as i128), SECS_PER_DAY)
            + 1;
        let mut found: Vec<Instant> = Vec::new();
        let mut day: i128 = today;
        let mut from: i128 = now.to_nanos();
        let ghost mask = self.weekdays();
        let ghost time = self.time();
        let ghost zone = self.zone();
        assert(instants(found@) =~= Seq::<int>::empty());
        while day < end && found.len() < n
            invariant
                mask == self.weekdays(),
                time == self.time(),
                zone == self.zone(),
                today == local_day(zone, now@),
                end == calendar_end_day(time),
                -1_000_000_000_000_000 <= today <= day,
                end <= 1_000_000_000_000_000,
                found.len() <= n,
                now@ <= from,
                MIN_NANOS <= from <= MAX_NANOS + 1,
                instants(found@) + weekly_scan(
                    mask,
                    time,
                    zone,
                    from as int,
                    day as int,
                    end as int,
                    (n - found.len()) as nat,
                ) == weekly_scan(mask, time, zone, now@, today as int, end as int, n as nat),
            decreases end - day,
        {
            let ghost before = instants(found@);
            let ghost rest = weekly_scan(
                mask,
                time,
                zone,
                from as int,
                day as int,
                end as int,
                (n - found.len()) as nat,
            );
            let taken = if self.is_chosen(day) {
                self.occurrence_from(from, day, self.reading_on(day))
            } else {
                None
            };
            match taken {
                Some(at) => {
                    found.push(at);
                    from = at.to_nanos() + 1;
                    proof {
                        let tail = weekly_scan(
                            mask,
                            time,
                            zone,
                            at@ + 1,
                            day + 1,
                            end as int,
                            (n - found.len()) as nat,
                        );
                        assert(rest == seq![at@] + tail);
                        assert(instants(found@) =~= before.push(at@));
                        assert(before.push(at@) + tail =~= before + (seq![at@] + tail));
                    }
                },
                None => {},
            }
            day += 1;
        }
        proof {
            assert(weekly_scan(
                mask,
                time,
                zone,
                from as int,
                day as int,
                end as int,
                (n - found.len()) as nat,
            ) =~= Seq::<int>::empty());
            let all = weekly_scan(mask, time, zone, now@, today as int, end as int, n as nat);
            assert(instants(found@) =~= all);
            lemma_weekly_scan_bounds(mask, time, zone, now@, today as int, end as int, n as nat);
            lemma_weekly_scan_ascends(mask, time, zone, now@, today as int, end as int, n as nat);
            assert forall|i: int| 0 <= i < found.len() implies now@ <= (#[trigger] found[i])@ by {
                assert(found[i]@ == all[i]);
            }
            assert forall|i: int, j: int| 0 <= i < j < found.len() implies found[i]@
                < found[j]@ by {
                assert(found[i]@ == all[i]);
                assert(found[j]@ == all[j]);
            }
        }
        if n > 0 && found.len() == 0 {
            None
        } else {
            Some(found)
        }
    }

    /// The time from `now` to each of the occurrences that `next_runs`
    /// reports for the same `now` and `n`.
    pub fn time_to_next_runs(&self, now: Instant, n: usize) -> (waits: Option<Vec<Span>>)
        ensures
            spans_of(waits) == waits_from(now@, self.runs(now@, n as nat)),
    {
        waits_until(&now, self.next_runs(now, n))
    }

    /// Writes the fields of the canonical form at the end of `out`.
    pub fn append_fields(&self, out: &mut String)
        ensures
            final(out)@ == old(out)@ + self.fields(),
    {
        out.append("\"weekdays\":[");
        append_flags(out, &self.weekdays);
        out.append("],\"time\":");
        append_span(out, &self.time);
        out.append(",\"tz\":\"");
        out.append(self.tz.name());
        out.append("\"");
        assert(out@ =~= old(out)@ + self.fields());
    }

    /// The canonical form, by which triggers are told apart and ordered.
    pub fn hash(&self) -> (text: String)
        ensures
            text@ == self.canonical(),
    {
        let mut text = String::from_str("{");
        self.append_fields(&mut text);
        text.append("}");
        text
    }
}

} // verus!
