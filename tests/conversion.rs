use jiffy2toggl::convert::{entry_outcome, transform, SkipReason};
use jiffy2toggl::hierarchy::{HierarchyError, TimeOwnersHierarchy};
use jiffy2toggl::jiffy::{Status, TimeEntry, TimeOwner};
use jiffy2toggl::text::{format_date, format_duration, format_time};
use jiffy2toggl::toggl::Row;
use jiffy2toggl::zone::{from_wall, to_zoned, CivilDateTime, WallTimes, ZoneError};
use jiffy2toggl::Cli;

fn owner(id: &str, parent: Option<&str>, name: &str) -> TimeOwner {
    TimeOwner {
        id: id.to_string(),
        parent_id: parent.map(|p| p.to_string()),
        name: name.to_string(),
        color: String::new(),
        last_changed: 0,
        local: false,
        sort_value: 0,
        status: Status::Active,
        work_time_group: 0,
    }
}

fn entry(id: &str, owner_id: &str, start: i64, stop: i64, zone: &str, status: Status) -> TimeEntry {
    TimeEntry {
        id: id.to_string(),
        owner_id: owner_id.to_string(),
        start_time: start,
        start_time_zone: zone.to_string(),
        stop_time: stop,
        stop_time_zone: zone.to_string(),
        last_changed: 0,
        locked: false,
        note: None,
        status,
    }
}

fn acme() -> Vec<TimeOwner> {
    vec![
        owner("A", None, "Acme"),
        owner("B", Some("A"), "Website"),
        owner("C", Some("B"), "Design"),
    ]
}

// 2021-03-04 05:06:07 UTC
const T0: i64 = 1_614_834_367_000;

#[test]
fn duration_beyond_a_day() {
    assert_eq!(format_duration(90_061_000), "25:01:01");
}

#[test]
fn duration_small_and_zero() {
    assert_eq!(format_duration(0), "00:00:00");
    assert_eq!(format_duration(3_725_000), "01:02:05");
    assert_eq!(format_duration(999), "00:00:00");
    assert_eq!(format_duration(360_000_000_000), "100000:00:00");
}

#[test]
fn duration_negative_truncates_toward_zero() {
    assert_eq!(format_duration(-90_000), "00:-1:-30");
    assert_eq!(format_duration(-3_725_000), "-1:-2:-5");
}

#[test]
fn date_and_time_text() {
    let c = CivilDateTime { year: 2021, month: 3, day: 4, hour: 5, minute: 6, second: 7 };
    assert_eq!(format_date(&c), "2021-03-04");
    assert_eq!(format_time(&c), "05:06:07");
    let far = CivilDateTime { year: 12345, month: 12, day: 31, hour: 23, minute: 59, second: 59 };
    assert_eq!(format_date(&far), "+12345-12-31");
    assert_eq!(format_time(&far), "23:59:59");
    let early = CivilDateTime { year: 7, month: 1, day: 1, hour: 0, minute: 0, second: 0 };
    assert_eq!(format_date(&early), "0007-01-01");
}

#[test]
fn zoned_utc() {
    let c = to_zoned(T0, "UTC").unwrap();
    assert_eq!(c, CivilDateTime { year: 2021, month: 3, day: 4, hour: 5, minute: 6, second: 7 });
    let epoch = to_zoned(0, "UTC").unwrap();
    assert_eq!(format_date(&epoch), "1970-01-01");
    assert_eq!(format_time(&epoch), "00:00:00");
}

#[test]
fn zoned_applies_offset() {
    let c = to_zoned(T0, "Asia/Tokyo").unwrap();
    assert_eq!(c, CivilDateTime { year: 2021, month: 3, day: 4, hour: 14, minute: 6, second: 7 });
    let ny = to_zoned(0, "America/New_York").unwrap();
    assert_eq!(ny, CivilDateTime { year: 1969, month: 12, day: 31, hour: 19, minute: 0, second: 0 });
}

#[test]
fn zoned_errors() {
    assert_eq!(to_zoned(-1, "UTC"), Err(ZoneError::NegativeTimestamp));
    assert_eq!(to_zoned(T0, "Mars/Olympus_Mons"), Err(ZoneError::ZoneParse));
    assert_eq!(to_zoned(i64::MAX, "UTC"), Err(ZoneError::NonexistentLocalTime));
}

#[test]
fn entry_duration_is_stop_minus_start() {
    let e = entry("e", "C", T0, T0 + 3_725_000, "UTC", Status::Active);
    assert_eq!(e.duration(), Some(3_725_000));
    let open = entry("e", "C", T0, -1, "UTC", Status::Active);
    assert_eq!(open.duration(), None);
    let odd = entry("e", "C", T0, 0, "UTC", Status::Active);
    assert_eq!(odd.duration(), Some(-(T0 as i128)));
}

#[test]
fn classification_counts_every_owner() {
    let h = TimeOwnersHierarchy::new(acme()).unwrap();
    let loc = h.locate(&"C".to_string());
    assert_eq!(loc.task, Some(2));
    assert_eq!(loc.project, Some(1));
    assert_eq!(loc.client, Some(0));
}

#[test]
fn classification_fails_on_dangling_parent() {
    let mut owners = acme();
    owners.push(owner("D", Some("missing"), "Lost"));
    assert!(matches!(TimeOwnersHierarchy::new(owners), Err(HierarchyError::IncompleteClassification)));
}

#[test]
fn classification_fails_on_fourth_level() {
    let mut owners = acme();
    owners.push(owner("D", Some("C"), "Subtask"));
    assert!(matches!(TimeOwnersHierarchy::new(owners), Err(HierarchyError::IncompleteClassification)));
}

#[test]
fn classification_is_order_independent() {
    let owners = vec![
        owner("C", Some("B"), "Design"),
        owner("B", Some("A"), "Website"),
        owner("A", None, "Acme"),
    ];
    let h = TimeOwnersHierarchy::new(owners).unwrap();
    let loc = h.locate(&"C".to_string());
    assert_eq!(loc.task, Some(0));
    assert_eq!(loc.project, Some(1));
    assert_eq!(loc.client, Some(2));
}

#[test]
fn classification_of_no_owners() {
    let h = TimeOwnersHierarchy::new(vec![]).unwrap();
    let loc = h.locate(&"X".to_string());
    assert_eq!((loc.client, loc.project, loc.task), (None, None, None));
}

#[test]
fn locate_project_and_client_directly() {
    let h = TimeOwnersHierarchy::new(acme()).unwrap();
    let p = h.locate(&"B".to_string());
    assert_eq!((p.client, p.project, p.task), (Some(0), Some(1), None));
    let c = h.locate(&"A".to_string());
    assert_eq!((c.client, c.project, c.task), (Some(0), None, None));
    assert_eq!(h.owner(1).name, "Website");
}

#[test]
fn locate_unknown_owner() {
    let h = TimeOwnersHierarchy::new(acme()).unwrap();
    let e = entry("e", "nobody", T0, T0 + 1000, "UTC", Status::Active);
    let loc = h.location(&e);
    assert_eq!((loc.client, loc.project, loc.task), (None, None, None));
}

fn expect_row(r: &Row, client: Option<&str>, project: Option<&str>, description: &str, duration: &str) {
    assert_eq!(r.user, "me@example.com");
    assert_eq!(r.email, "me@example.com");
    assert_eq!(r.client.as_deref(), client);
    assert_eq!(r.project.as_deref(), project);
    assert_eq!(r.description, description);
    assert_eq!(r.duration, duration);
}

#[test]
fn scenario_full_chain_row() {
    let h = TimeOwnersHierarchy::new(acme()).unwrap();
    let entries = vec![entry("e1", "C", T0, T0 + 3_725_000, "UTC", Status::Active)];
    let out = transform(&h, &entries, "me@example.com", 0, 5000);
    assert_eq!(out.rows.len(), 1);
    expect_row(&out.rows[0], Some("Acme"), Some("Website"), "Design", "01:02:05");
    assert_eq!(out.rows[0].start_date, "2021-03-04");
    assert_eq!(out.rows[0].start_time, "05:06:07");
    assert!(out.skipped.is_empty());
}

#[test]
fn scenario_project_and_client_rows() {
    let h = TimeOwnersHierarchy::new(acme()).unwrap();
    let entries = vec![
        entry("p", "B", T0, T0 + 60_000, "UTC", Status::Archived),
        entry("c", "A", T0 - 1000, T0, "UTC", Status::Active),
        entry("x", "ghost", T0 - 2000, T0, "UTC", Status::Active),
    ];
    let out = transform(&h, &entries, "me@example.com", 0, 5000);
    assert_eq!(out.rows.len(), 3);
    expect_row(&out.rows[0], Some("Acme"), Some("Website"), "", "00:01:00");
    expect_row(&out.rows[1], Some("Acme"), None, "", "00:00:01");
    expect_row(&out.rows[2], None, None, "", "00:00:02");
}

#[test]
fn scenario_deleted_entry() {
    let h = TimeOwnersHierarchy::new(acme()).unwrap();
    let entries = vec![entry("e1", "C", T0, T0 + 3_725_000, "UTC", Status::Deleted)];
    let out = transform(&h, &entries, "me@example.com", 0, 5000);
    assert!(out.rows.is_empty());
    assert_eq!(out.skipped.len(), 1);
    assert_eq!(out.skipped[0].entry, 0);
    assert_eq!(out.skipped[0].reason, SkipReason::Deleted);
}

#[test]
fn scenario_never_stopped() {
    let h = TimeOwnersHierarchy::new(acme()).unwrap();
    let entries = vec![entry("e1", "C", T0, -1, "UTC", Status::Active)];
    let out = transform(&h, &entries, "me@example.com", 0, 5000);
    assert!(out.rows.is_empty());
    assert_eq!(out.skipped.len(), 1);
    assert_eq!(out.skipped[0].reason, SkipReason::NeverStopped);
}

#[test]
fn scenario_unknown_zone_continues() {
    let h = TimeOwnersHierarchy::new(acme()).unwrap();
    let entries = vec![
        entry("bad", "C", T0, T0 + 1000, "Nowhere/Special", Status::Active),
        entry("good", "C", T0 - 5000, T0, "UTC", Status::Active),
        entry("neg", "C", -5, 10, "UTC", Status::Active),
    ];
    let out = transform(&h, &entries, "me@example.com", 0, 5000);
    assert_eq!(out.rows.len(), 1);
    expect_row(&out.rows[0], Some("Acme"), Some("Website"), "Design", "00:00:05");
    assert_eq!(out.skipped.len(), 2);
    assert_eq!(out.skipped[0].entry, 0);
    assert_eq!(out.skipped[0].reason, SkipReason::InvalidStart(ZoneError::ZoneParse));
    assert_eq!(out.skipped[1].entry, 2);
    assert_eq!(out.skipped[1].reason, SkipReason::InvalidStart(ZoneError::NegativeTimestamp));
}

#[test]
fn entry_outcome_reasons() {
    let h = TimeOwnersHierarchy::new(acme()).unwrap();
    let deleted_and_open = entry("e", "C", T0, -1, "UTC", Status::Deleted);
    assert!(matches!(entry_outcome(&h, &deleted_and_open, "u"), Err(SkipReason::Deleted)));
    let bad_zone_and_open = entry("e", "C", T0, -1, "Bad/Zone", Status::Active);
    assert!(matches!(
        entry_outcome(&h, &bad_zone_and_open, "u"),
        Err(SkipReason::InvalidStart(ZoneError::ZoneParse))
    ));
}

#[test]
fn rows_latest_first_ties_in_input_order() {
    let h = TimeOwnersHierarchy::new(acme()).unwrap();
    let entries = vec![
        entry("a", "C", T0, T0 + 1000, "UTC", Status::Active),
        entry("b", "C", T0 + 10_000, T0 + 12_000, "UTC", Status::Active),
        entry("c", "C", T0, T0 + 3000, "UTC", Status::Active),
        entry("d", "C", T0 + 5000, T0 + 9000, "UTC", Status::Active),
    ];
    let out = transform(&h, &entries, "me@example.com", 0, 5000);
    let durations: Vec<&str> = out.rows.iter().map(|r| r.duration.as_str()).collect();
    assert_eq!(durations, vec!["00:00:02", "00:00:04", "00:00:01", "00:00:03"]);
}

#[test]
fn skip_and_take_after_filtering() {
    let h = TimeOwnersHierarchy::new(acme()).unwrap();
    let mut entries = Vec::new();
    for i in 0..10i64 {
        // entry i lasts i + 1 seconds; later entries start later
        entries.push(entry("e", "C", T0 + i * 100_000, T0 + i * 100_000 + (i + 1) * 1000, "UTC", Status::Active));
        entries.push(entry("x", "C", T0 + i * 100_000 + 1, T0 + i * 100_000 + 5, "UTC", Status::Deleted));
    }
    let out = transform(&h, &entries, "me@example.com", 3, 4);
    let durations: Vec<&str> = out.rows.iter().map(|r| r.duration.as_str()).collect();
    // ranked by recency: 10 s, 9 s, 8 s, then 7 s .. 4 s
    assert_eq!(durations, vec!["00:00:07", "00:00:06", "00:00:05", "00:00:04"]);
    assert_eq!(out.skipped.len(), 10);
}

#[test]
fn skip_beyond_rows_and_take_zero() {
    let h = TimeOwnersHierarchy::new(acme()).unwrap();
    let entries = vec![entry("a", "C", T0, T0 + 1000, "UTC", Status::Active)];
    assert!(transform(&h, &entries, "u", 5, 10).rows.is_empty());
    assert!(transform(&h, &entries, "u", 0, 0).rows.is_empty());
}

#[test]
fn cli_convert_defaults_and_failure() {
    let cli = Cli { backup: "b.json".to_string(), email: "me@example.com".to_string(), skip: None, take: 5000 };
    let entries = vec![entry("e1", "C", T0, T0 + 3_725_000, "UTC", Status::Active)];
    let out = cli.convert(acme(), &entries).unwrap();
    assert_eq!(out.rows.len(), 1);
    expect_row(&out.rows[0], Some("Acme"), Some("Website"), "Design", "01:02:05");
    let mut owners = acme();
    owners.push(owner("D", Some("nowhere"), "Lost"));
    assert!(matches!(cli.convert(owners, &entries), Err(HierarchyError::IncompleteClassification)));
}

#[test]
fn duplicate_owner_ids_fail_classification() {
    let mut owners = acme();
    owners.push(owner("A", None, "Acme again"));
    assert!(matches!(TimeOwnersHierarchy::new(owners), Err(HierarchyError::IncompleteClassification)));
}

#[test]
fn no_entries_no_rows() {
    let h = TimeOwnersHierarchy::new(acme()).unwrap();
    let out = transform(&h, &vec![], "me@example.com", 0, 5000);
    assert!(out.rows.is_empty());
    assert!(out.skipped.is_empty());
}

#[test]
fn stop_zone_is_read_on_its_own() {
    let mut e = entry("e", "C", T0, T0 + 3_600_000, "UTC", Status::Active);
    e.stop_time_zone = "Asia/Tokyo".to_string();
    let stop = e.stop().unwrap();
    assert_eq!((stop.hour, stop.minute, stop.second), (15, 6, 7));
    assert_eq!(e.start().unwrap().hour, 5);
    assert_eq!(e.duration(), Some(3_600_000));
}

// 2024-11-03T05:30:00Z: 01:30 in New York, inside the hour the clocks repeat
const FALL_BACK: i64 = 1_730_611_800_000;

#[test]
fn zoned_rejects_repeated_local_time() {
    assert_eq!(to_zoned(FALL_BACK, "America/New_York"), Err(ZoneError::AmbiguousLocalTime));
    let after = to_zoned(FALL_BACK + 3_600_000 * 2, "America/New_York").unwrap();
    assert_eq!((after.hour, after.minute), (2, 30));
    let utc = to_zoned(FALL_BACK, "UTC").unwrap();
    assert_eq!((utc.hour, utc.minute), (5, 30));
}

#[test]
fn from_wall_accepts_only_one_instant() {
    let c = CivilDateTime { year: 2024, month: 11, day: 3, hour: 1, minute: 30, second: 0 };
    assert_eq!(from_wall(c, WallTimes::One), Ok(c));
    assert_eq!(from_wall(c, WallTimes::Two), Err(ZoneError::AmbiguousLocalTime));
    assert_eq!(from_wall(c, WallTimes::Zero), Err(ZoneError::NonexistentLocalTime));
}

#[test]
fn ambiguous_start_is_skipped() {
    let h = TimeOwnersHierarchy::new(acme()).unwrap();
    let entries = vec![
        entry("amb", "C", FALL_BACK, FALL_BACK + 1000, "America/New_York", Status::Active),
        entry("ok", "C", FALL_BACK - 1000, FALL_BACK, "UTC", Status::Active),
    ];
    let out = transform(&h, &entries, "me@example.com", 0, 5000);
    assert_eq!(out.rows.len(), 1);
    assert_eq!(out.rows[0].start_time, "05:29:59");
    assert_eq!(out.skipped.len(), 1);
    assert_eq!(out.skipped[0].reason, SkipReason::InvalidStart(ZoneError::AmbiguousLocalTime));
}

#[test]
fn skipped_entries_leave_other_rows_unchanged() {
    let h = TimeOwnersHierarchy::new(acme()).unwrap();
    let kept = vec![
        entry("a", "C", T0, T0 + 1000, "UTC", Status::Active),
        entry("b", "B", T0 + 50_000, T0 + 52_000, "UTC", Status::Active),
    ];
    let mut with_skips = kept.clone();
    with_skips.insert(1, entry("open", "C", T0 + 10_000, -1, "UTC", Status::Active));
    with_skips.push(entry("zone", "C", T0 + 20_000, T0 + 21_000, "Not/AZone", Status::Active));
    let base = transform(&h, &kept, "me@example.com", 0, 5000);
    let run = transform(&h, &with_skips, "me@example.com", 0, 5000);
    let texts = |rows: &Vec<Row>| -> Vec<(String, String, String)> {
        rows.iter().map(|r| (r.description.clone(), r.start_time.clone(), r.duration.clone())).collect()
    };
    assert_eq!(texts(&run.rows), texts(&base.rows));
    assert_eq!(run.skipped.len(), 2);
}
