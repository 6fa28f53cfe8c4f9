use srm::datetime::Timestamp;
use srm::retention::{clean_decision, format_duration, is_expired, item_status, list_statuses,
    CleanDecision, ItemStatus};
use srm::types::{FileMeta, FileType};

fn at(year: u64, month: u64, day: u64, hour: u64, minute: u64, second: u64) -> Timestamp {
    Timestamp { year, month, day, hour, minute, second }
}

fn meta_deleted_at(delete_time: &str, expire_days: i64) -> FileMeta {
    FileMeta {
        original_path: "/home/u/f.txt".to_string(),
        trash_path: "/base/trash/f.txt_1".to_string(),
        delete_time: delete_time.to_string(),
        expire_days,
        file_type: FileType::File,
        permissions: Some(0o644),
        uid: Some(1000),
        gid: Some(1000),
        short_id: "fabc123".to_string(),
        size_bytes: 10,
    }
}

#[test]
fn expiry_is_strictly_past_the_instant() {
    let deleted = at(2026, 1, 1, 0, 0, 0);
    // Exactly at expiry: still active.
    assert!(!is_expired(&deleted, 7, &at(2026, 1, 8, 0, 0, 0)));
    // One second past: expired.
    assert!(is_expired(&deleted, 7, &at(2026, 1, 8, 0, 0, 1)));
}

#[test]
fn default_clean_removes_only_expired_records() {
    let m = meta_deleted_at("2026-01-01 00:00:00", 7);
    let at_expiry = at(2026, 1, 8, 0, 0, 0);
    let past_expiry = at(2026, 1, 8, 0, 0, 1);
    assert_eq!(clean_decision(&m, &at_expiry, false), CleanDecision::Keep);
    assert_eq!(clean_decision(&m, &past_expiry, false), CleanDecision::Remove);
}

#[test]
fn clean_all_removes_regardless_of_expiry() {
    let m = meta_deleted_at("2026-01-01 00:00:00", 7);
    let long_before_expiry = at(2026, 1, 1, 0, 0, 1);
    assert_eq!(clean_decision(&m, &long_before_expiry, true), CleanDecision::Remove);
}

#[test]
fn clean_purges_unreadable_deletion_times() {
    let m = meta_deleted_at("not a timestamp", 7);
    let now = at(2026, 1, 1, 0, 0, 0);
    assert_eq!(clean_decision(&m, &now, false), CleanDecision::PurgeCorrupt);
    // With `all` the record is removed anyway.
    assert_eq!(clean_decision(&m, &now, true), CleanDecision::Remove);
}

#[test]
fn listing_reports_exact_remaining_and_elapsed_seconds() {
    let m = meta_deleted_at("2026-01-01 00:00:00", 1);
    let now = at(2026, 1, 1, 12, 0, 0);
    assert_eq!(item_status(&m, &now), ItemStatus::Active { remaining_seconds: 12 * 3600 });
    let now = at(2026, 1, 2, 12, 0, 0);
    assert_eq!(item_status(&m, &now), ItemStatus::Expired { elapsed_seconds: 12 * 3600 });
    let corrupt = meta_deleted_at("garbage", 1);
    assert_eq!(item_status(&corrupt, &now), ItemStatus::Corrupt);
}

#[test]
fn negative_retention_expires_immediately() {
    let m = meta_deleted_at("2026-01-02 00:00:00", -1);
    let now = at(2026, 1, 1, 0, 0, 1);
    assert_eq!(clean_decision(&m, &now, false), CleanDecision::Remove);
}

#[test]
fn statuses_align_with_records() {
    let records = vec![
        meta_deleted_at("2026-01-01 00:00:00", 7),
        meta_deleted_at("bad", 7),
    ];
    let now = at(2026, 1, 2, 0, 0, 0);
    let statuses = list_statuses(&records, &now);
    assert_eq!(statuses.len(), 2);
    assert!(matches!(statuses[0], ItemStatus::Active { .. }));
    assert_eq!(statuses[1], ItemStatus::Corrupt);
}

#[test]
fn durations_render_like_the_listing() {
    assert_eq!(format_duration(90061), "1d 1h");
    assert_eq!(format_duration(3700), "1h 1m");
    assert_eq!(format_duration(120), "2m");
    assert_eq!(format_duration(0), "0m");
    assert_eq!(format_duration(59), "0m");
    assert_eq!(format_duration(25 * 3600), "1d 1h");
}
