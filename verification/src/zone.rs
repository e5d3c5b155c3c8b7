//! Time zones of the IANA database, known by name.
//!
//! What a zone's rules say is computed by `chrono-tz`. Contracts speak of it
//! through three names: whether a zone of a given name exists, its offset at a
//! UTC second, and what a second on the local wall clock resolves to.

use crate::text::{lemma_text_order, precedes, text_lt};
use crate::time::{Instant, MAX_SECS, MIN_SECS, NANOS_PER_SEC};
use chrono::{Offset, TimeZone};
use core::cmp::Ordering;
use vstd::prelude::*;

verus! {

/// What a reading of a zone's wall clock stands for.
#[derive(Clone, Copy, Debug, PartialEq, Eq, Structural)]
pub enum LocalTime {
    /// No instant: the clocks were set forward over this reading.
    Gap,
    /// One instant, at this offset from UTC in seconds, east positive.
    Single(i32),
    /// Two instants: the clocks were set back over this reading. The offsets
    /// are those of the earlier and of the later one.
    Fold(i32, i32),
}

/// Whether `chrono-tz` knows a zone by exactly this name.
pub uninterp spec fn zone_exists(name: Seq<char>) -> bool;

/// The offset from UTC, in seconds and east positive, that the zone `name`
/// keeps at the UTC second `utc_secs`.
pub uninterp spec fn zone_offset_at(name: Seq<char>, utc_secs: int) -> int;

/// What the reading `local_secs`, in seconds since 1970-01-01T00:00:00 on the
/// wall clock of the zone `name`, stands for.
pub uninterp spec fn zone_local_time(name: Seq<char>, local_secs: int) -> LocalTime;

/// Calls `Tz::from_str` of `chrono-tz`, which looks the name up, letter for
/// letter, among the zones it was built with.
#[verifier::external_body]
fn zone_known(name: &str) -> (known: bool)
    ensures
        known == zone_exists(name@),
{
    name.parse::<chrono_tz::Tz>().is_ok()
}

/// Calls `TimeZone::offset_from_utc_datetime` of `chrono-tz` for the zone of
/// this name, and reads the offset's seconds east of UTC. The zone's rules go
/// by whole seconds.
#[verifier::external_body]
fn offset_from_utc(name: &str, utc_secs: i64) -> (offset: i32)
    requires
        zone_exists(name@),
        MIN_SECS <= utc_secs <= MAX_SECS,
    ensures
        offset == zone_offset_at(name@, utc_secs as int),
{
    let zone: chrono_tz::Tz = name.parse().unwrap();
    let utc = chrono::DateTime::from_timestamp(utc_secs, 0).unwrap().naive_utc();
    zone.offset_from_utc_datetime(&utc).fix().local_minus_utc()
}

/// Calls `TimeZone::offset_from_local_datetime` of `chrono-tz` for the zone of
/// this name, and reads the seconds east of UTC of each offset it finds: none
/// in a gap, one as a rule, two where the clocks were set back.
#[verifier::external_body]
fn offset_from_local(name: &str, local_secs: i64) -> (found: LocalTime)
    requires
        zone_exists(name@),
        MIN_SECS <= local_secs <= MAX_SECS,
    ensures
        found == zone_local_time(name@, local_secs as int),
{
    let zone: chrono_tz::Tz = name.parse().unwrap();
    let local = chrono::DateTime::from_timestamp(local_secs, 0).unwrap().naive_utc();
    match zone.offset_from_local_datetime(&local) {
        chrono::LocalResult::None => LocalTime::Gap,
        chrono::LocalResult::Single(a) => LocalTime::Single(a.fix().local_minus_utc()),
        chrono::LocalResult::Ambiguous(a, b) => LocalTime::Fold(
            a.fix().local_minus_utc(),
            b.fix().local_minus_utc(),
        ),
    }
}

/// A time zone of the IANA database.
#[derive(Debug)]
pub struct Tz {
    name: String,
}

impl View for Tz {
    type V = Seq<char>;

    /// The zone's name, such as `Europe/Berlin`.
    closed spec fn view(&self) -> Seq<char> {
        self.name@
    }
}

impl Clone for Tz {
    fn clone(&self) -> (copy: Self)
        ensures
            copy == *self,
    {
        proof {
            use_type_invariant(self);
        }
        Tz { name: self.name.clone() }
    }
}

impl PartialEq for Tz {
    /// Whether the two zones have the same name.
    fn eq(&self, other: &Self) -> (same: bool) {
        self.name == other.name
    }
}

impl Eq for Tz {

}

impl vstd::std_specs::cmp::PartialEqSpecImpl for Tz {
    open spec fn obeys_eq_spec() -> bool {
        true
    }

    open spec fn eq_spec(&self, other: &Self) -> bool {
        self@ == other@
    }
}

impl PartialOrd for Tz {
    /// The order of the two zones: that of their names.
    fn partial_cmp(&self, other: &Self) -> (order: Option<Ordering>) {
        proof {
            lemma_text_order(self@, other@, self@);
        }
        if precedes(self.name.as_str(), other.name.as_str()) {
            Some(Ordering::Less)
        } else if precedes(other.name.as_str(), self.name.as_str()) {
            Some(Ordering::Greater)
        } else {
            Some(Ordering::Equal)
        }
    }
}

impl vstd::std_specs::cmp::PartialOrdSpecImpl for Tz {
    open spec fn obeys_partial_cmp_spec() -> bool {
        true
    }

    open spec fn partial_cmp_spec(&self, other: &Self) -> Option<Ordering> {
        if text_lt(self@, other@) {
            Some(Ordering::Less)
        } else if text_lt(other@, self@) {
            Some(Ordering::Greater)
        } else {
            Some(Ordering::Equal)
        }
    }
}

impl Tz {
    #[verifier::type_invariant]
    spec fn known(self) -> bool {
        zone_exists(self.name@)
    }

    /// The zone of this name, if there is one.
    pub fn from_name(name: &str) -> (made: Option<Tz>)
        ensures
            made is Some <==> zone_exists(name@),
            made matches Some(tz) ==> tz@ == name@,
    {
        if zone_known(name) {
            Some(Tz { name: String::from_str(name) })
        } else {
            None
        }
    }

    /// The zone's name.
    pub fn name(&self) -> (name: &str)
        ensures
            name@ == self@,
            zone_exists(name@),
    {
        proof {
            use_type_invariant(self);
        }
        self.name.as_str()
    }

    /// The zone's offset from UTC at the instant `at`, in seconds, east
    /// positive.
    pub fn offset_at(&self, at: &Instant) -> (offset: i32)
        ensures
            offset == zone_offset_at(self@, at@ / (NANOS_PER_SEC as int)),
    {
        proof {
            use_type_invariant(self);
        }
        offset_from_utc(self.name.as_str(), at.timestamp())
    }

    /// What the reading `local_secs` of the zone's wall clock stands for, in
    /// seconds since 1970-01-01T00:00:00 on that clock; nothing for a reading
    /// that the calendar does not reach.
    pub fn resolve_local(&self, local_secs: i64) -> (found: Option<LocalTime>)
        ensures
            found is Some <==> MIN_SECS <= local_secs <= MAX_SECS,
            found matches Some(reading) ==> reading == zone_local_time(self@, local_secs as int),
    {
        proof {
            use_type_invariant(self);
        }
        if MIN_SECS <= local_secs && local_secs <= MAX_SECS {
            Some(offset_from_local(self.name.as_str(), local_secs))
        } else {
            None
        }
    }
}

} // verus!
