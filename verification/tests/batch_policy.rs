use srm::batch::{admit_item, batch_total, is_protected_path, path_flags_violation,
    symlink_target_protected, total_saturating, BatchTracker, ItemDecision, MovedItem, SkipReason};
use srm::space::SpaceError;
use srm::strutil::truncate_path;
use srm::types::FileType;

#[test]
fn traversal_and_flag_paths_are_skipped_per_item() {
    assert!(path_flags_violation("../etc/passwd"));
    assert!(path_flags_violation("a/b/../c"));
    assert!(path_flags_violation("-rf"));
    assert!(!path_flags_violation("./plain/file.txt"));

    // A flagged path is skipped with its own reason, before anything else
    // is weighed; the rest of the batch is unaffected.
    assert_eq!(
        admit_item(false, true, false, false, true, false, FileType::File, 1, 1000),
        ItemDecision::Skip(SkipReason::FlaggedPath)
    );
    // The force override admits it.
    assert_eq!(
        admit_item(true, true, false, false, true, false, FileType::File, 1, 1000),
        ItemDecision::Accept
    );
}

#[test]
fn protected_roots_guard_whole_components() {
    assert!(is_protected_path("/bin"));
    assert!(is_protected_path("/bin/ls"));
    assert!(!is_protected_path("/bine/ls"));
    assert!(is_protected_path("/etc/passwd"));
    assert!(is_protected_path("/lib64/x.so"));
    assert!(!is_protected_path("/home/u/bin"));
    assert!(symlink_target_protected("/etc/passwd"));
    assert!(symlink_target_protected("/libexec"));
    assert!(!symlink_target_protected("/home/etc"));
}

#[test]
fn item_screening_applies_checks_in_order() {
    // Symlink to a protected target.
    assert_eq!(
        admit_item(false, false, true, true, true, false, FileType::Symlink, 0, 1000),
        ItemDecision::Skip(SkipReason::SymlinkProtected)
    );
    // Force overrides that.
    assert_eq!(
        admit_item(true, false, true, true, true, false, FileType::Symlink, 0, 1000),
        ItemDecision::Accept
    );
    // Missing path.
    assert_eq!(
        admit_item(false, false, false, false, false, false, FileType::File, 1, 1000),
        ItemDecision::Skip(SkipReason::NotFound)
    );
    // Protected canonical path.
    assert_eq!(
        admit_item(false, false, false, false, true, true, FileType::File, 1, 1000),
        ItemDecision::Skip(SkipReason::Protected)
    );
    // Single-item space rule: 801 of 1000 available is over 80%.
    assert_eq!(
        admit_item(false, false, false, false, true, false, FileType::File, 801, 1000),
        ItemDecision::Skip(SkipReason::Space(SpaceError::SingleItemTooLarge))
    );
    // Exactly 80% passes.
    assert_eq!(
        admit_item(false, false, false, false, true, false, FileType::File, 800, 1000),
        ItemDecision::Accept
    );
    // Directories skip the per-item space rule.
    assert_eq!(
        admit_item(false, false, false, false, true, false, FileType::Dir, 801, 1000),
        ItemDecision::Accept
    );
}

#[test]
fn batch_totals_check_for_overflow() {
    assert_eq!(batch_total(&vec![1, 2, 3]), Some(6));
    assert_eq!(batch_total(&vec![]), Some(0));
    assert_eq!(batch_total(&vec![u64::MAX, 1]), None);
    assert_eq!(total_saturating(&vec![u64::MAX, 1]), u64::MAX);
    assert_eq!(total_saturating(&vec![40, 2]), 42);
}

fn moved(n: usize) -> MovedItem {
    MovedItem {
        trash_id: format!("f{}_{}", n, n),
        short_id: format!("f{:06}", n),
        original_path: format!("/home/u/{}", n),
        trash_path: format!("/base/trash/f{}_{}", n, n),
        size_bytes: n as u64,
    }
}

#[test]
fn interrupted_batch_unwinds_in_reverse_completion_order() {
    // Ten items planned, four relocated before the interrupt: the rollback
    // names exactly those four, newest first.
    let mut tracker = BatchTracker::new();
    for n in 0..4 {
        tracker.record(moved(n));
    }
    assert_eq!(tracker.count(), 4);
    let order = tracker.rollback_order();
    assert_eq!(order, vec![3, 2, 1, 0]);
    for (k, idx) in order.iter().enumerate() {
        assert_eq!(tracker.moved[*idx].original_path, format!("/home/u/{}", 3 - k));
    }
}

#[test]
fn truncation_keeps_short_paths_and_splits_long_ones() {
    assert_eq!(truncate_path("abcdef", 10), "abcdef");
    // A path that already fits comes back whole at any width.
    assert_eq!(truncate_path("ab", 2), "ab");
    assert_eq!(truncate_path("", 0), "");
    assert_eq!(truncate_path("abcdefghijk", 9), "abc...ijk");
    assert_eq!(truncate_path("abcd", 4), "abcd");
    assert_eq!(truncate_path("abcde", 4), "...");
    assert_eq!(truncate_path("abcdefghijklmnop", 11), "abcd...mnop");
}

#[test]
fn truncation_counts_characters_not_bytes() {
    // Eleven two-byte characters truncated to nine: three head, three tail.
    assert_eq!(truncate_path("ααβββγγγδδδ", 9), "ααβ...δδδ");
    assert_eq!(truncate_path("ααβ", 9), "ααβ");
}

#[test]
fn a_lone_dash_is_flag_like() {
    assert!(path_flags_violation("-"));
    assert!(!path_flags_violation(""));
}
