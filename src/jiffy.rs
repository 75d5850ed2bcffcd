use crate::zone::{to_zoned, zoned, CivilDateTime, ZoneError};
use vstd::prelude::*;

verus! {

/// Lifecycle state of an owner or an entry in the backup.
#[derive(Clone, Copy, Debug, PartialEq, Eq, Structural)]
pub enum Status {
    Active,
    Archived,
    Deleted,
}

#[derive(Clone, Copy, Debug, PartialEq, Eq, Structural)]
pub enum Weekday {
    Monday,
    Tuesday,
    Wednesday,
    Thursday,
    Friday,
    Saturday,
    Sunday,
}

#[derive(Clone, Debug)]
pub struct BaseWorkTime {
    pub duration: i64,
    pub id: String,
    pub last_changed: i64,
    pub status: String,
    pub weekday: Weekday,
    pub work_time_group_id: u32,
}

#[derive(Clone, Debug)]
pub struct DayStart {
    pub day_id: u32,
    pub last_changed: i64,
    pub zone_name: String,
    pub zone_offset: i64,
    pub start_of_day: i64,
}

#[derive(Clone, Debug)]
pub struct Meta {
    pub db_version: u32,
    pub partial_backup: bool,
    pub last_used_sync: i64,
    pub version_code: u32,
    pub version_name: String,
}

#[derive(Clone, Debug)]
pub struct Preferences {
    pub balance_enabled: bool,
    pub duration_presentation: String,
    pub first_day_of_week: String,
    pub paused_notifiation_enabled: bool,
    pub sort_order: String,
    pub start_of_day: String,
}

#[derive(Clone, Debug)]
pub struct Purchase {
    pub price: String,
    pub purchase_time: Option<i64>,
    pub order_id: Option<String>,
    pub sku: String,
    pub status: String,
}

#[derive(Clone, Debug)]
pub struct Setting {
    pub name: String,
    pub value: Option<String>,
}

/// A span of tracked time, attributed to one owner. A `stop_time` of -1
/// means that the entry was never stopped.
#[derive(Clone, Debug)]
pub struct TimeEntry {
    pub id: String,
    pub owner_id: String,
    pub start_time: i64,
    pub start_time_zone: String,
    pub stop_time: i64,
    pub stop_time_zone: String,
    pub last_changed: i64,
    pub locked: bool,
    pub note: Option<String>,
    pub status: Status,
}

/// The stop time that marks an entry that was never stopped.
pub const NEVER_STOPPED: i64 = -1;

/// The elapsed milliseconds of an entry, absent when it was never stopped.
pub open spec fn entry_duration(e: TimeEntry) -> Option<int> {
    if e.stop_time == NEVER_STOPPED {
        None
    } else {
        Some(e.stop_time - e.start_time)
    }
}

impl TimeEntry {
    /// The start instant in the start zone.
    pub fn start(&self) -> (r: Result<CivilDateTime, ZoneError>)
        ensures
            r == zoned(self.start_time as int, self.start_time_zone@),
    {
        to_zoned(self.start_time, self.start_time_zone.as_str())
    }

    /// The stop instant in the stop zone.
    pub fn stop(&self) -> (r: Result<CivilDateTime, ZoneError>)
        ensures
            r == zoned(self.stop_time as int, self.stop_time_zone@),
    {
        to_zoned(self.stop_time, self.stop_time_zone.as_str())
    }

    /// Milliseconds from start to stop, taken from the absolute instants.
    pub fn duration(&self) -> (r: Option<i128>)
        ensures
            r matches Some(d) ==> entry_duration(*self) == Some(d as int),
            r is None ==> entry_duration(*self) is None,
    {
        if self.stop_time == NEVER_STOPPED {
            None
        } else {
            Some(self.stop_time as i128 - self.start_time as i128)
        }
    }
}

/// A client, project or task, according to its place in the hierarchy.
#[derive(Clone, Debug)]
pub struct TimeOwner {
    pub id: String,
    pub parent_id: Option<String>,
    pub name: String,
    pub color: String,
    pub last_changed: i64,
    pub local: bool,
    pub sort_value: i64,
    pub status: Status,
    pub work_time_group: u32,
}

} // verus!
