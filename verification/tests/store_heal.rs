use srm::store::{file_name_of, heal_records, meta_file_name, meta_tmp_file_name,
    resolve_identifier, restore_step, restore_target, validate_entry, RestoreStep, ScanEntry};
use srm::types::{FileMeta, FileType};

fn sample_meta(short_id: &str) -> FileMeta {
    FileMeta {
        original_path: "/home/u/notes.txt".to_string(),
        trash_path: "/base/trash/notes.txt_7".to_string(),
        delete_time: "2026-01-01 00:00:00".to_string(),
        expire_days: 7,
        file_type: FileType::File,
        permissions: Some(0o600),
        uid: Some(1000),
        gid: Some(1000),
        short_id: short_id.to_string(),
        size_bytes: 42,
    }
}

fn entry(id: &str, parsed: Option<FileMeta>, trash_exists: bool, same_device: bool) -> ScanEntry {
    ScanEntry { trash_id: id.to_string(), parsed, trash_exists, same_device }
}

#[test]
fn enumeration_never_returns_missing_or_cross_device_records() {
    let entries = vec![
        entry("good_1", Some(sample_meta("faaa111")), true, true),
        entry("gone_2", Some(sample_meta("fbbb222")), false, true),
        entry("wrongdev_3", Some(sample_meta("fccc333")), true, false),
        entry("corrupt_4", None, true, true),
    ];
    let (kept, purged) = heal_records(&entries);
    assert_eq!(kept.len(), 1);
    assert_eq!(kept[0].0, "good_1");
    assert_eq!(kept[0].1.short_id, "faaa111");
    assert_eq!(purged.len(), 3);
    assert!(purged.contains(&"gone_2".to_string()));
    assert!(purged.contains(&"wrongdev_3".to_string()));
    assert!(purged.contains(&"corrupt_4".to_string()));
}

#[test]
fn missing_short_id_is_backfilled_from_the_key() {
    let e = entry("notes.txt_7", Some(sample_meta("")), true, true);
    let m = validate_entry(&e).unwrap();
    assert_eq!(m.short_id, "notes.txt_7");
    // A present short identifier is kept as it is.
    let e = entry("notes.txt_7", Some(sample_meta("fzzz999")), true, true);
    let m = validate_entry(&e).unwrap();
    assert_eq!(m.short_id, "fzzz999");
}

#[test]
fn identifiers_resolve_by_short_id_then_key() {
    let records = vec![
        ("key_1".to_string(), sample_meta("faaa111")),
        ("key_2".to_string(), sample_meta("fbbb222")),
    ];
    assert_eq!(resolve_identifier(&records, "fbbb222"), Some(1));
    assert_eq!(resolve_identifier(&records, "key_1"), Some(0));
    assert_eq!(resolve_identifier(&records, "nothing"), None);
}

#[test]
fn short_id_wins_over_a_key_of_the_same_name() {
    let records = vec![
        ("x".to_string(), sample_meta("faaa111")),
        ("key_2".to_string(), sample_meta("x")),
    ];
    assert_eq!(resolve_identifier(&records, "x"), Some(1));
}

#[test]
fn an_empty_store_heals_to_nothing() {
    let (kept, purged) = heal_records(&vec![]);
    assert!(kept.is_empty());
    assert!(purged.is_empty());
}

#[test]
fn missing_trash_file_reports_and_purges() {
    assert_eq!(restore_step(false, false), RestoreStep::NotFound);
    assert_eq!(restore_step(false, true), RestoreStep::NotFound);
    assert_eq!(restore_step(true, false), RestoreStep::PurgeMissing);
    assert_eq!(restore_step(true, true), RestoreStep::Restore);
}

#[test]
fn restore_goes_to_the_original_path_by_default() {
    let m = sample_meta("faaa111");
    assert_eq!(restore_target(&m, None, false), "/home/u/notes.txt");
    // And the record still carries the captured permission bits to reapply.
    assert_eq!(m.permissions, Some(0o600));
}

#[test]
fn explicit_targets_override_the_original_path() {
    let m = sample_meta("faaa111");
    let dir = "/tmp/out".to_string();
    assert_eq!(restore_target(&m, Some(&dir), true), "/tmp/out/notes.txt");
    let file = "/tmp/out/other.txt".to_string();
    assert_eq!(restore_target(&m, Some(&file), false), "/tmp/out/other.txt");
}

#[test]
fn file_name_component() {
    assert_eq!(file_name_of("/a/b/c.txt"), "c.txt");
    assert_eq!(file_name_of("c.txt"), "c.txt");
    assert_eq!(file_name_of("/a/b/"), "");
}

#[test]
fn record_file_names() {
    assert_eq!(meta_file_name("notes.txt_7"), "notes.txt_7.meta");
    assert_eq!(meta_tmp_file_name("notes.txt_7"), "notes.txt_7.meta.tmp");
    assert_ne!(meta_file_name("x"), meta_tmp_file_name("x"));
}
