use srm::relocate::{copy_strategy, move_strategy, next_chunk_end, try_reflink_copy, CopyStrategy,
    MoveStrategy, MMAP_CHUNK_SIZE, MMAP_SIZE_THRESHOLD};
use srm::walker::{DirStats, WalkStep, Walker, MAX_RECURSION_DEPTH};

#[test]
fn a_directory_past_the_depth_limit_is_rejected_before_its_contents() {
    // Nest 1001 levels: the frame for the deepest directory fails the walk
    // the moment it is popped, before any of its entries are handed out.
    let mut w = Walker::new("/src".to_string(), "/dst".to_string());
    let mut depth = 0usize;
    let mut reached_limit = false;
    for level in 1..=1001usize {
        match w.next(false) {
            WalkStep::Visit(frame) => {
                assert_eq!(frame.depth, depth);
                w.push_subdir(
                    format!("/src/{}", level),
                    format!("/dst/{}", level),
                    frame.depth,
                );
                depth = frame.depth + 1;
            }
            WalkStep::FailDepth => {
                reached_limit = true;
                break;
            }
            _ => panic!("unexpected walk step"),
        }
    }
    assert!(!reached_limit);
    assert_eq!(depth, 1001);
    assert!(depth > MAX_RECURSION_DEPTH);
    match w.next(false) {
        WalkStep::FailDepth => {}
        _ => panic!("a frame nested 1001 deep must fail the depth limit"),
    }
}

#[test]
fn depth_exactly_at_the_limit_still_walks() {
    let mut w = Walker::new("/s".to_string(), "/d".to_string());
    match w.next(false) {
        WalkStep::Visit(_) => {}
        _ => panic!("root visit expected"),
    }
    w.push_subdir("/s/a".to_string(), "/d/a".to_string(), MAX_RECURSION_DEPTH - 1);
    match w.next(false) {
        WalkStep::Visit(frame) => assert_eq!(frame.depth, MAX_RECURSION_DEPTH),
        _ => panic!("a frame at the limit is still visited"),
    }
    assert!(w.is_done());
}

#[test]
fn cancellation_is_polled_on_every_pop() {
    let mut w = Walker::new("/s".to_string(), "/d".to_string());
    match w.next(true) {
        WalkStep::FailInterrupted => {}
        _ => panic!("interrupt must be seen at the poll point"),
    }
    assert!(w.is_done());
    match w.next(true) {
        WalkStep::Done => {}
        _ => panic!("an empty walk is done"),
    }
}

#[test]
fn stats_count_entries_and_saturate() {
    let mut s = DirStats::new();
    s.add_entry(Some(10));
    s.add_entry(None);
    s.add_entry(Some(32));
    assert_eq!(s.total_items, 3);
    assert_eq!(s.total_bytes, 42);
    s.add_entry(Some(u64::MAX));
    assert_eq!(s.total_bytes, u64::MAX);
    assert_eq!(s.total_items, 4);
}

#[test]
fn move_ladder_prefers_rename_then_kind() {
    assert_eq!(move_strategy(true, true, true), MoveStrategy::RenameDone);
    assert_eq!(move_strategy(false, true, false), MoveStrategy::RecreateSymlink);
    assert_eq!(move_strategy(false, false, true), MoveStrategy::MoveDirectory);
    assert_eq!(move_strategy(false, false, false), MoveStrategy::CopyFile);
}

#[test]
fn copy_ladder_prefers_clone_then_link_then_size() {
    assert_eq!(copy_strategy(true, false, 0), CopyStrategy::ReflinkDone);
    assert_eq!(copy_strategy(false, true, 0), CopyStrategy::HardLinkDone);
    assert_eq!(
        copy_strategy(false, false, MMAP_SIZE_THRESHOLD + 1),
        CopyStrategy::MmapChunks
    );
    assert_eq!(copy_strategy(false, false, MMAP_SIZE_THRESHOLD), CopyStrategy::Buffered);
}

#[test]
fn reflink_probe_reports_inapplicable() {
    assert!(!try_reflink_copy("/a", "/b"));
}

#[test]
fn chunks_are_bounded_and_cover_the_file() {
    assert_eq!(next_chunk_end(0, MMAP_CHUNK_SIZE * 2), MMAP_CHUNK_SIZE);
    assert_eq!(next_chunk_end(MMAP_CHUNK_SIZE, MMAP_CHUNK_SIZE * 2), MMAP_CHUNK_SIZE * 2);
    assert_eq!(next_chunk_end(0, 100), 100);
    let mut offset = 0usize;
    let len = MMAP_CHUNK_SIZE * 2 + 123;
    let mut chunks = 0;
    while offset < len {
        offset = next_chunk_end(offset, len);
        chunks += 1;
    }
    assert_eq!(offset, len);
    assert_eq!(chunks, 3);
}
