//! Relocation strategy selection. One filesystem entry moves by the
//! cheapest strategy whose preconditions hold, each later one tried only
//! when the one before is inapplicable or failed: atomic rename first —
//! the only single-syscall strategy — then symlink re-creation, recursive
//! directory move, and for plain files the copy ladder: copy-on-write
//! clone, hard link within a filesystem, memory-mapped chunked copy for
//! large files, buffered streaming copy otherwise. Whatever copies, the
//! source is removed only after the destination is complete.

use vstd::prelude::*;

verus! {

/// Files above this many bytes copy through memory-mapped chunks.
pub const MMAP_SIZE_THRESHOLD: u64 = 10 * 1024 * 1024;

/// One memory-mapped chunk: this many bytes between cancellation polls.
pub const MMAP_CHUNK_SIZE: usize = 4 * 1024 * 1024;

/// How one entry moves, once the atomic rename has failed.
#[derive(Clone, Copy, Debug, PartialEq, Eq, Structural)]
pub enum MoveStrategy {
    /// The rename succeeded: nothing more to do.
    RenameDone,
    /// A symbolic link crosses devices: recreate it, then remove the
    /// original; zero bytes of content move.
    RecreateSymlink,
    /// A directory: walk it, moving each child by this same ladder.
    MoveDirectory,
    /// A plain file: run the copy ladder, then remove the source.
    CopyFile,
}

/// The move decision, in strategy order, from what the rename attempt and
/// the entry's metadata showed.
pub open spec fn spec_move_strategy(
    rename_succeeded: bool,
    is_symlink: bool,
    is_dir: bool,
) -> MoveStrategy {
    if rename_succeeded {
        MoveStrategy::RenameDone
    } else if is_symlink {
        MoveStrategy::RecreateSymlink
    } else if is_dir {
        MoveStrategy::MoveDirectory
    } else {
        MoveStrategy::CopyFile
    }
}

/// Picks how an entry moves after the rename was attempted.
pub fn move_strategy(rename_succeeded: bool, is_symlink: bool, is_dir: bool) -> (r: MoveStrategy)
    ensures
        r == spec_move_strategy(rename_succeeded, is_symlink, is_dir),
{
    if rename_succeeded {
        MoveStrategy::RenameDone
    } else if is_symlink {
        MoveStrategy::RecreateSymlink
    } else if is_dir {
        MoveStrategy::MoveDirectory
    } else {
        MoveStrategy::CopyFile
    }
}

/// How a plain file's bytes cross, once the cheap shortcuts were probed.
#[derive(Clone, Copy, Debug, PartialEq, Eq, Structural)]
pub enum CopyStrategy {
    /// A copy-on-write clone took effect: instant and space-sharing.
    ReflinkDone,
    /// A hard link within the same filesystem took effect.
    HardLinkDone,
    /// Large file: memory-mapped copy in bounded chunks, polling
    /// cancellation between chunks.
    MmapChunks,
    /// Buffered streaming copy.
    Buffered,
}

/// The copy decision: a successful clone or hard link ends the ladder; the
/// file's size picks between the two real copies.
pub open spec fn spec_copy_strategy(
    reflink_succeeded: bool,
    hard_link_succeeded: bool,
    size_bytes: u64,
) -> CopyStrategy {
    if reflink_succeeded {
        CopyStrategy::ReflinkDone
    } else if hard_link_succeeded {
        CopyStrategy::HardLinkDone
    } else if size_bytes > MMAP_SIZE_THRESHOLD {
        CopyStrategy::MmapChunks
    } else {
        CopyStrategy::Buffered
    }
}

/// Picks how a plain file's bytes cross. The hard link is probed only
/// within one filesystem, so `hard_link_succeeded` is false across devices.
pub fn copy_strategy(reflink_succeeded: bool, hard_link_succeeded: bool, size_bytes: u64) -> (r:
    CopyStrategy)
    ensures
        r == spec_copy_strategy(reflink_succeeded, hard_link_succeeded, size_bytes),
{
    if reflink_succeeded {
        CopyStrategy::ReflinkDone
    } else if hard_link_succeeded {
        CopyStrategy::HardLinkDone
    } else if size_bytes > MMAP_SIZE_THRESHOLD {
        CopyStrategy::MmapChunks
    } else {
        CopyStrategy::Buffered
    }
}

/// Probes the copy-on-write clone. The block-sharing clone is an optional
/// platform capability; none is wired into this engine, so the probe
/// reports the strategy inapplicable and the ladder falls through to the
/// next strategy. A driver with a platform clone substitutes its own probe
/// result into `copy_strategy`.
pub fn try_reflink_copy(src: &str, dst: &str) -> (r: bool)
    ensures
        !r,
{
    let _ = src;
    let _ = dst;
    false
}

/// Where the chunk beginning at `offset` ends: a whole chunk where one
/// fits, the end of the file otherwise.
pub fn next_chunk_end(offset: usize, len: usize) -> (r: usize)
    requires
        offset < len,
    ensures
        offset < r <= len,
        r == if len - offset > MMAP_CHUNK_SIZE {
            offset + MMAP_CHUNK_SIZE
        } else {
            len as int
        },
{
    if len - offset > MMAP_CHUNK_SIZE {
        offset + MMAP_CHUNK_SIZE
    } else {
        len
    }
}

} // verus!
