use srm::space::{check_admission, SpaceError, HEADROOM_THRESHOLD_BYTES};

#[test]
fn zero_space_refuses_everything() {
    assert_eq!(check_admission(0, 0, false), Err(SpaceError::NoSpaceAvailable));
    assert_eq!(check_admission(0, 1, true), Err(SpaceError::NoSpaceAvailable));
}

#[test]
fn single_item_eighty_percent_boundary_is_inclusive() {
    // 80% of 1000 bytes is 800: exactly 800 is admitted, 801 is not, and
    // the rejection happens before anything is mutated.
    assert_eq!(check_admission(1000, 800, true), Ok(()));
    assert_eq!(check_admission(1000, 801, true), Err(SpaceError::SingleItemTooLarge));
}

#[test]
fn eighty_percent_rule_only_for_single_items() {
    assert_eq!(check_admission(1000, 801, false), Ok(()));
}

#[test]
fn small_sizes_need_exactly_their_own_bytes() {
    assert_eq!(check_admission(500, 500, false), Ok(()));
    assert_eq!(check_admission(500, 501, false), Err(SpaceError::InsufficientSpace));
}

#[test]
fn large_sizes_need_twenty_percent_headroom() {
    let two_hundred_mib: u64 = 200 * 1024 * 1024;
    let with_headroom = two_hundred_mib * 120 / 100;
    assert!(two_hundred_mib >= HEADROOM_THRESHOLD_BYTES);
    assert_eq!(check_admission(with_headroom, two_hundred_mib, false), Ok(()));
    assert_eq!(
        check_admission(with_headroom - 1, two_hundred_mib, false),
        Err(SpaceError::InsufficientSpace)
    );
}

#[test]
fn threshold_boundary_switches_to_headroom() {
    let t = HEADROOM_THRESHOLD_BYTES;
    // One byte below the threshold: the plain size must fit.
    assert_eq!(check_admission(t - 1, t - 1, false), Ok(()));
    // At the threshold: 120% must fit, so the same-size space now refuses.
    assert_eq!(check_admission(t, t, false), Err(SpaceError::InsufficientSpace));
}

#[test]
fn headroom_overflow_is_reported_not_wrapped() {
    assert_eq!(check_admission(u64::MAX, u64::MAX, false), Err(SpaceError::SizeOverflow));
}
