use chrono::{Datelike, MappedLocalTime, NaiveDate, TimeZone, Timelike};
use chrono_tz::Tz;
use vstd::prelude::*;

verus! {

#[verifier::external_type_specification]
#[verifier::external_body]
pub struct ExTz(chrono_tz::Tz);

/// A civil (wall-clock) date and time in some zone.
#[derive(Clone, Copy, Debug, PartialEq, Eq, Structural)]
pub struct CivilDateTime {
    pub year: i32,
    pub month: u32,
    pub day: u32,
    pub hour: u32,
    pub minute: u32,
    pub second: u32,
}

impl CivilDateTime {
    pub open spec fn wf(&self) -> bool {
        &&& 1 <= self.month <= 12
        &&& 1 <= self.day <= 31
        &&& self.hour < 24
        &&& self.minute < 60
        &&& self.second < 60
    }
}

/// Why an instant could not be placed in a zone.
#[derive(Clone, Copy, Debug, PartialEq, Eq, Structural)]
pub enum ZoneError {
    NegativeTimestamp,
    ZoneParse,
    AmbiguousLocalTime,
    NonexistentLocalTime,
}

/// The local times that an instant maps to in a zone.
#[derive(Clone, Copy, Debug, PartialEq, Eq, Structural)]
pub enum LocalLookup {
    Single(CivilDateTime),
    Ambiguous,
    Missing,
}

/// How many instants a civil time stands for in a zone: one, two (a
/// repeated interval, when clocks go back) or none (a skipped interval).
#[derive(Clone, Copy, Debug, PartialEq, Eq, Structural)]
pub enum WallTimes {
    One,
    Two,
    Zero,
}

/// A recognised IANA zone, together with the name it was parsed from.
pub struct Zone {
    name: String,
    tz: Tz,
}

impl Zone {
    pub closed spec fn name(&self) -> Seq<char> {
        self.name@
    }
}

/// Whether the bundled zone table knows the name.
pub uninterp spec fn zone_known(name: Seq<char>) -> bool;

/// The local times of the instant `millis` (ms since the epoch) in the named zone.
pub uninterp spec fn local_of(millis: int, zone: Seq<char>) -> LocalLookup;

/// How many instants the civil time `c` stands for in the named zone.
pub uninterp spec fn wall_times_of(c: CivilDateTime, zone: Seq<char>) -> WallTimes;

/// Relies on `<chrono_tz::Tz as FromStr>::from_str`, a lookup of the name in
/// the zone table bundled with chrono-tz.
#[verifier::external_body]
fn parse_zone(name: &str) -> (r: Option<Zone>)
    ensures
        r is Some <==> zone_known(name@),
        r matches Some(z) ==> z.name() == name@,
{
    match name.parse::<Tz>() {
        Ok(tz) => Some(Zone { name: name.to_string(), tz }),
        Err(_) => None,
    }
}

/// Relies on `chrono::TimeZone::timestamp_millis_opt` for `chrono_tz::Tz`,
/// whose result is read through the `Datelike` and `Timelike` getters. This
/// maps an absolute instant forward, so it never yields two local times;
/// whether the local time it gives is repeated is asked by `wall_times`.
#[verifier::external_body]
fn local_time(millis: i64, zone: &Zone) -> (r: LocalLookup)
    ensures
        r == local_of(millis as int, zone.name()),
        !(r is Ambiguous),
        r matches LocalLookup::Single(c) ==> c.wf(),
{
    match zone.tz.timestamp_millis_opt(millis) {
        MappedLocalTime::Single(t) => LocalLookup::Single(CivilDateTime {
            year: t.year(),
            month: t.month(),
            day: t.day(),
            hour: t.hour(),
            minute: t.minute(),
            second: t.second(),
        }),
        MappedLocalTime::Ambiguous(_, _) => LocalLookup::Ambiguous,
        MappedLocalTime::None => LocalLookup::Missing,
    }
}

/// Relies on `chrono::TimeZone::from_local_datetime` for `chrono_tz::Tz`, on
/// the civil time built with `NaiveDate::from_ymd_opt` and
/// `NaiveDate::and_hms_opt` (fields that name no valid date or time stand
/// for no instant).
#[verifier::external_body]
fn wall_times(c: &CivilDateTime, zone: &Zone) -> (r: WallTimes)
    ensures
        r == wall_times_of(*c, zone.name()),
{
    let local = match NaiveDate::from_ymd_opt(c.year, c.month, c.day) {
        Some(d) => d.and_hms_opt(c.hour, c.minute, c.second),
        None => None,
    };
    match local {
        Some(l) => match zone.tz.from_local_datetime(&l) {
            MappedLocalTime::Single(_) => WallTimes::One,
            MappedLocalTime::Ambiguous(_, _) => WallTimes::Two,
            MappedLocalTime::None => WallTimes::Zero,
        },
        None => WallTimes::Zero,
    }
}

/// Keeps a civil time only where it stands for one instant in its zone.
pub open spec fn wall_result(c: CivilDateTime, w: WallTimes) -> Result<CivilDateTime, ZoneError> {
    match w {
        WallTimes::One => Ok(c),
        WallTimes::Two => Err(ZoneError::AmbiguousLocalTime),
        WallTimes::Zero => Err(ZoneError::NonexistentLocalTime),
    }
}

/// What placing a local lookup's outcome yields: the single local time, or an error.
pub open spec fn lookup_result(l: LocalLookup) -> Result<CivilDateTime, ZoneError> {
    match l {
        LocalLookup::Single(c) => Ok(c),
        LocalLookup::Ambiguous => Err(ZoneError::AmbiguousLocalTime),
        LocalLookup::Missing => Err(ZoneError::NonexistentLocalTime),
    }
}

/// The civil time of the instant `millis` in the named zone, or why there is none.
pub open spec fn zoned(millis: int, zone: Seq<char>) -> Result<CivilDateTime, ZoneError> {
    if millis < 0 {
        Err(ZoneError::NegativeTimestamp)
    } else if !zone_known(zone) {
        Err(ZoneError::ZoneParse)
    } else {
        match lookup_result(local_of(millis, zone)) {
            Ok(c) => wall_result(c, wall_times_of(c, zone)),
            Err(e) => Err(e),
        }
    }
}

/// Accepts only a single local time: two candidates or none are errors.
pub fn from_lookup(l: LocalLookup) -> (r: Result<CivilDateTime, ZoneError>)
    ensures
        r == lookup_result(l),
{
    match l {
        LocalLookup::Single(c) => Ok(c),
        LocalLookup::Ambiguous => Err(ZoneError::AmbiguousLocalTime),
        LocalLookup::Missing => Err(ZoneError::NonexistentLocalTime),
    }
}

/// Accepts a civil time that stands for one instant of its zone; one in a
/// repeated interval is ambiguous, one in a skipped interval does not exist.
pub fn from_wall(c: CivilDateTime, w: WallTimes) -> (r: Result<CivilDateTime, ZoneError>)
    ensures
        r == wall_result(c, w),
{
    match w {
        WallTimes::One => Ok(c),
        WallTimes::Two => Err(ZoneError::AmbiguousLocalTime),
        WallTimes::Zero => Err(ZoneError::NonexistentLocalTime),
    }
}

/// Places the instant `millis` (ms since the epoch) in the named zone. Fails
/// for a negative instant, an unknown zone, an instant out of range, and a
/// local time that the zone's clocks show twice (or never).
pub fn to_zoned(millis: i64, zone: &str) -> (r: Result<CivilDateTime, ZoneError>)
    ensures
        r == zoned(millis as int, zone@),
        r matches Ok(c) ==> c.wf(),
{
    if millis < 0 {
        return Err(ZoneError::NegativeTimestamp);
    }
    match parse_zone(zone) {
        None => Err(ZoneError::ZoneParse),
        Some(z) => match from_lookup(local_time(millis, &z)) {
            Ok(c) => from_wall(c, wall_times(&c, &z)),
            Err(e) => Err(e),
        },
    }
}

} // verus!
