//! Instants and spans of time, counted in whole nanoseconds.
//!
//! An [`Instant`] is a point on the UTC time line, a [`Span`] a non-negative
//! length of time. Contracts speak of both through their views: an `int` of
//! nanoseconds since 1970-01-01T00:00:00Z, and a `nat` of nanoseconds.

use vstd::arithmetic::div_mod::{
    lemma_div_pos_is_pos, lemma_fundamental_div_mod, lemma_fundamental_div_mod_converse,
    lemma_mod_pos_bound,
};
use vstd::prelude::*;

verus! {

/// Nanoseconds in one second.
pub const NANOS_PER_SEC: i128 = 1_000_000_000;

/// Seconds in one civil day.
pub const SECS_PER_DAY: i128 = 86_400;

/// The earliest second an [`Instant`] can hold: midnight of 1 January of the
/// year -262143, the first second of the calendar range of `chrono`.
pub const MIN_SECS: i64 = -8_334_601_228_800;

/// The latest second an [`Instant`] can hold: the last second of 31 December
/// of the year 262142, the end of the calendar range of `chrono`.
pub const MAX_SECS: i64 = 8_210_266_876_799;

/// The earliest instant, in nanoseconds since the epoch.
pub const MIN_NANOS: i128 = -8_334_601_228_800_000_000_000;

/// The latest instant, in nanoseconds since the epoch.
pub const MAX_NANOS: i128 = 8_210_266_876_799_999_999_999;

/// The longest span, in nanoseconds: `u64::MAX` seconds and 999 999 999
/// nanoseconds.
pub const MAX_SPAN_NANOS: u128 = 18_446_744_073_709_551_615_999_999_999;

/// The text that `chrono` writes for the UTC instant `secs` seconds and `nanos`
/// nanoseconds after the epoch, in RFC 3339 form with `Z` for the offset and
/// with as many fractional digits (none, 3, 6 or 9) as the nanoseconds need.
pub uninterp spec fn rfc3339_text(secs: int, nanos: int) -> Seq<char>;

/// The RFC 3339 text of the instant `t` nanoseconds after the epoch.
pub open spec fn instant_text(t: int) -> Seq<char> {
    rfc3339_text(t / (NANOS_PER_SEC as int), t % (NANOS_PER_SEC as int))
}

/// Whether `secs` seconds and `nanos` nanoseconds name an instant in range.
pub open spec fn timestamp_in_range(secs: int, nanos: int) -> bool {
    MIN_SECS <= secs <= MAX_SECS && 0 <= nanos < NANOS_PER_SEC
}

/// The instants of `list` as nanoseconds since the epoch.
pub open spec fn instants(list: Seq<Instant>) -> Seq<int> {
    list.map_values(|t: Instant| t@)
}

/// The spans of `list` in nanoseconds.
pub open spec fn spans(list: Seq<Span>) -> Seq<nat> {
    list.map_values(|s: Span| s@)
}

/// What a trigger reported: its instants as nanoseconds since the epoch, or
/// `None` where it had no more.
pub open spec fn instants_of(runs: Option<Vec<Instant>>) -> Option<Seq<int>> {
    match runs {
        Some(list) => Some(instants(list@)),
        None => None,
    }
}

/// The waits that a trigger reported, in nanoseconds, or `None` where it had
/// no more.
pub open spec fn spans_of(waits: Option<Vec<Span>>) -> Option<Seq<nat>> {
    match waits {
        Some(list) => Some(spans(list@)),
        None => None,
    }
}

/// The time from `now` to the instant `at`, and none where `at` has passed.
pub open spec fn wait_from(now: int, at: int) -> nat {
    if at >= now {
        (at - now) as nat
    } else {
        0
    }
}

/// The time from `now` to each of `runs`.
pub open spec fn waits_from(now: int, runs: Option<Seq<int>>) -> Option<Seq<nat>> {
    match runs {
        Some(list) => Some(list.map_values(|at: int| wait_from(now, at))),
        None => None,
    }
}

/// A point on the UTC time line, to the nanosecond.
#[derive(Clone, Copy, Debug, PartialEq, Eq, Structural, PartialOrd, Ord, Hash)]
pub struct Instant {
    secs: i64,
    nanos: u32,
}

/// A non-negative length of time, to the nanosecond.
#[derive(Clone, Copy, Debug, PartialEq, Eq, Structural, PartialOrd, Ord, Hash)]
pub struct Span {
    secs: u64,
    nanos: u32,
}

/// Calls `DateTime::from_timestamp` and `DateTime::to_rfc3339_opts` of
/// `chrono`, with `SecondsFormat::AutoSi` and `Z` for UTC: the form in which
/// `chrono` hands a `DateTime<Utc>` to serde. The result is named, not
/// described: it is whatever `chrono` writes for these two numbers.
#[verifier::external_body]
fn format_rfc3339(secs: i64, nanos: u32) -> (text: String)
    requires
        timestamp_in_range(secs as int, nanos as int),
    ensures
        text@ == rfc3339_text(secs as int, nanos as int),
{
    chrono::DateTime::from_timestamp(secs, nanos).unwrap().to_rfc3339_opts(
        chrono::SecondsFormat::AutoSi,
        true,
    )
}

/// Floor division of a negative number by way of its positive opposite:
/// where `b` goes `q` times into `m` and leaves `r`, it goes into `-m` one
/// time more, towards negative infinity, unless it leaves nothing.
proof fn lemma_floor_of_negative(m: int, b: int, q: int, r: int)
    requires
        0 < b,
        0 <= m,
        q == m / b,
        r == m % b,
    ensures
        0 <= r < b,
        r == 0 ==> (-m) / b == -q && (-m) % b == 0,
        r != 0 ==> (-m) / b == -q - 1 && (-m) % b == b - r,
{
    lemma_fundamental_div_mod(m, b);
    lemma_mod_pos_bound(m, b);
    assert(b * q == q * b) by (nonlinear_arith);
    if r == 0 {
        assert(-m == (-q) * b + 0) by (nonlinear_arith)
            requires
                m == q * b + r,
                r == 0,
        ;
        lemma_fundamental_div_mod_converse(-m, b, -q, 0);
    } else {
        assert(-m == (-q - 1) * b + (b - r)) by (nonlinear_arith)
            requires
                m == q * b + r,
        ;
        lemma_fundamental_div_mod_converse(-m, b, -q - 1, b - r);
    }
}

/// `a` divided by `b`, rounded towards negative infinity.
pub(crate) fn div_floor(a: i128, b: i128) -> (q: i128)
    requires
        0 < b,
        i128::MIN < a,
    ensures
        q == (a as int) / (b as int),
{
    if a >= 0 {
        a / b
    } else {
        let m: i128 = -a;
        let q0: i128 = m / b;
        let r0: i128 = m % b;
        proof {
            lemma_div_pos_is_pos(m as int, b as int);
            lemma_floor_of_negative(m as int, b as int, q0 as int, r0 as int);
        }
        if r0 == 0 {
            -q0
        } else {
            -q0 - 1
        }
    }
}

/// What `a` leaves when divided by `b`, never negative.
pub(crate) fn mod_floor(a: i128, b: i128) -> (r: i128)
    requires
        0 < b,
        i128::MIN < a,
    ensures
        r == (a as int) % (b as int),
        0 <= r < b,
{
    if a >= 0 {
        proof {
            lemma_mod_pos_bound(a as int, b as int);
        }
        a % b
    } else {
        let m: i128 = -a;
        let q0: i128 = m / b;
        let r0: i128 = m % b;
        proof {
            lemma_floor_of_negative(m as int, b as int, q0 as int, r0 as int);
        }
        if r0 == 0 {
            0
        } else {
            b - r0
        }
    }
}

impl View for Instant {
    type V = int;

    closed spec fn view(&self) -> int {
        self.secs * NANOS_PER_SEC + self.nanos
    }
}

impl Instant {
    #[verifier::type_invariant]
    spec fn in_range(self) -> bool {
        timestamp_in_range(self.secs as int, self.nanos as int)
    }

    /// The instant `secs` seconds and `nanos` nanoseconds after the epoch, if
    /// the calendar reaches that far and `nanos` is less than a second.
    pub fn from_timestamp(secs: i64, nanos: u32) -> (made: Option<Instant>)
        ensures
            made is Some <==> timestamp_in_range(secs as int, nanos as int),
            made matches Some(t) ==> t@ == secs * NANOS_PER_SEC + nanos,
    {
        if MIN_SECS <= secs && secs <= MAX_SECS && nanos < 1_000_000_000 {
            Some(Instant { secs, nanos })
        } else {
            None
        }
    }

    /// The instant `nanos` nanoseconds after the epoch, if it is in range.
    pub fn from_nanos(nanos: i128) -> (made: Option<Instant>)
        ensures
            made is Some <==> MIN_NANOS <= nanos <= MAX_NANOS,
            made matches Some(t) ==> t@ == nanos,
    {
        if MIN_NANOS <= nanos && nanos <= MAX_NANOS {
            let rem: i128 = nanos % NANOS_PER_SEC;
            let (secs, sub): (i128, i128) = if rem < 0 {
                (nanos / NANOS_PER_SEC - 1, rem + NANOS_PER_SEC)
            } else {
                (nanos / NANOS_PER_SEC, rem)
            };
            assert(secs * NANOS_PER_SEC + sub == nanos);
            Some(Instant { secs: secs as i64, nanos: sub as u32 })
        } else {
            None
        }
    }

    /// Nanoseconds since the epoch.
    pub fn to_nanos(&self) -> (nanos: i128)
        ensures
            nanos == self@,
            MIN_NANOS <= nanos <= MAX_NANOS,
    {
        proof {
            use_type_invariant(self);
        }
        (self.secs as i128) * NANOS_PER_SEC + (self.nanos as i128)
    }

    /// Whole seconds since the epoch, rounded towards the past.
    pub fn timestamp(&self) -> (secs: i64)
        ensures
            secs == self@ / (NANOS_PER_SEC as int),
            MIN_SECS <= secs <= MAX_SECS,
    {
        proof {
            use_type_invariant(self);
        }
        self.secs
    }

    /// Nanoseconds since the last whole second.
    pub fn timestamp_subsec_nanos(&self) -> (nanos: u32)
        ensures
            nanos == self@ % (NANOS_PER_SEC as int),
    {
        proof {
            use_type_invariant(self);
        }
        self.nanos
    }

    /// Whether this instant lies before `other`.
    pub fn is_before(&self, other: &Instant) -> (before: bool)
        ensures
            before == (self@ < other@),
    {
        proof {
            use_type_invariant(self);
            use_type_invariant(other);
        }
        self.secs < other.secs || (self.secs == other.secs && self.nanos < other.nanos)
    }

    /// The time from `earlier` to this instant, or nothing where `earlier` is
    /// the later of the two.
    pub fn saturating_since(&self, earlier: &Instant) -> (elapsed: Span)
        ensures
            elapsed@ == wait_from(earlier@, self@),
    {
        let from: i128 = earlier.to_nanos();
        let to: i128 = self.to_nanos();
        if to >= from {
            Span::from_bounded_nanos((to - from) as u128)
        } else {
            Span::from_bounded_nanos(0)
        }
    }

    /// The instant in RFC 3339 form, as `chrono` writes it.
    pub fn to_rfc3339(&self) -> (text: String)
        ensures
            text@ == instant_text(self@),
    {
        proof {
            use_type_invariant(self);
        }
        format_rfc3339(self.secs, self.nanos)
    }
}

/// The time from `now` to each of the occurrences that a trigger reported.
pub fn waits_until(now: &Instant, runs: Option<Vec<Instant>>) -> (waits: Option<Vec<Span>>)
    ensures
        spans_of(waits) == waits_from(now@, instants_of(runs)),
{
    match runs {
        Some(list) => {
            let mut waits: Vec<Span> = Vec::new();
            let mut i: usize = 0;
            while i < list.len()
                invariant
                    0 <= i <= list.len(),
                    waits.len() == i,
                    forall|j: int|
                        0 <= j < i ==> (#[trigger] waits[j])@ == wait_from(now@, list[j]@),
                decreases list.len() - i,
            {
                waits.push(list[i].saturating_since(now));
                i += 1;
            }
            assert(spans(waits@) =~= instants(list@).map_values(|at: int| wait_from(now@, at)));
            Some(waits)
        },
        None => None,
    }
}

impl View for Span {
    type V = nat;

    closed spec fn view(&self) -> nat {
        (self.secs * NANOS_PER_SEC + self.nanos) as nat
    }
}

impl Span {
    #[verifier::type_invariant]
    spec fn in_range(self) -> bool {
        self.nanos < NANOS_PER_SEC
    }

    /// A span of `secs` seconds and `nanos` nanoseconds. Nanoseconds beyond a
    /// second carry over; there is no span where the seconds then pass
    /// `u64::MAX`.
    pub fn new(secs: u64, nanos: u32) -> (made: Option<Span>)
        ensures
            made is Some <==> secs * NANOS_PER_SEC + nanos <= MAX_SPAN_NANOS,
            made matches Some(s) ==> s@ == secs * NANOS_PER_SEC + nanos,
    {
        Span::from_nanos((secs as u128) * 1_000_000_000 + (nanos as u128))
    }

    /// A span of whole seconds.
    pub fn from_secs(secs: u64) -> (made: Span)
        ensures
            made@ == secs * NANOS_PER_SEC,
    {
        Span { secs, nanos: 0 }
    }

    /// A span of `nanos` nanoseconds, if it is no longer than the longest.
    pub fn from_nanos(nanos: u128) -> (made: Option<Span>)
        ensures
            made is Some <==> nanos <= MAX_SPAN_NANOS,
            made matches Some(s) ==> s@ == nanos,
    {
        if nanos <= MAX_SPAN_NANOS {
            Some(Span::from_bounded_nanos(nanos))
        } else {
            None
        }
    }

    fn from_bounded_nanos(nanos: u128) -> (made: Span)
        requires
            nanos <= MAX_SPAN_NANOS,
        ensures
            made@ == nanos,
    {
        let secs: u128 = nanos / 1_000_000_000;
        let sub: u128 = nanos % 1_000_000_000;
        Span { secs: secs as u64, nanos: sub as u32 }
    }

    /// The span in nanoseconds.
    pub fn to_nanos(&self) -> (nanos: u128)
        ensures
            nanos == self@,
            nanos <= MAX_SPAN_NANOS,
    {
        proof {
            use_type_invariant(self);
        }
        (self.secs as u128) * 1_000_000_000 + (self.nanos as u128)
    }

    /// The whole seconds of the span.
    pub fn as_secs(&self) -> (secs: u64)
        ensures
            secs == (self@ as int) / (NANOS_PER_SEC as int),
    {
        proof {
            use_type_invariant(self);
            assert(self@ == self.secs * 1_000_000_000 + self.nanos);
        }
        self.secs
    }

    /// The nanoseconds of the span beyond its whole seconds.
    pub fn subsec_nanos(&self) -> (nanos: u32)
        ensures
            nanos == (self@ as int) % (NANOS_PER_SEC as int),
            nanos < NANOS_PER_SEC,
    {
        proof {
            use_type_invariant(self);
            assert(self@ == self.secs * 1_000_000_000 + self.nanos);
        }
        self.nanos
    }
}

} // verus!
