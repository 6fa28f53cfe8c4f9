//! Batch deletion policy and rollback bookkeeping. Each item is screened
//! before any mutation: without the force override, a path that looks like
//! traversal or a flag, or that lies under an OS-critical prefix, is
//! skipped with its reason while the rest of the batch proceeds. Completed
//! relocations are tracked in order; on interruption the batch unwinds
//! them in exact reverse order of completion, so children moved before an
//! ancestor are restored first.

use vstd::prelude::*;
use crate::space::SpaceError;
use crate::strutil::{spec_has_dotdot, spec_starts_with, has_dotdot, str_starts_with};
use crate::types::FileType;

verus! {

/// A path is refused without the force override when it holds a traversal
/// segment or begins like a command-line flag.
pub open spec fn spec_flags_violation(s: Seq<char>) -> bool {
    spec_has_dotdot(s) || (s.len() > 0 && s[0] == '-')
}

/// Scans one path for the traversal / flag-prefix shapes.
pub fn path_flags_violation(path: &str) -> (b: bool)
    ensures
        b == spec_flags_violation(path@),
{
    if has_dotdot(path) {
        return true;
    }
    if path.unicode_len() > 0 && path.get_char(0) == '-' {
        return true;
    }
    false
}

/// A prefix guards a path when the path starts with it and the next
/// character, if any, is a separator — so `/bine` is not under `/bin`.
pub open spec fn spec_prefix_guard(s: Seq<char>, p: Seq<char>) -> bool {
    spec_starts_with(s, p) && (s.len() == p.len() || s[p.len() as int] == '/')
}

/// Whether a canonical path lies under one of the OS-critical roots.
pub open spec fn spec_protected(s: Seq<char>) -> bool {
    ||| spec_prefix_guard(s, "/bin"@)
    ||| spec_prefix_guard(s, "/sbin"@)
    ||| spec_prefix_guard(s, "/etc"@)
    ||| spec_prefix_guard(s, "/usr"@)
    ||| spec_prefix_guard(s, "/lib"@)
    ||| spec_prefix_guard(s, "/lib64"@)
    ||| spec_prefix_guard(s, "/root"@)
    ||| spec_prefix_guard(s, "/boot"@)
}

/// Tests one guarded prefix.
fn prefix_guard(s: &str, p: &str) -> (b: bool)
    ensures
        b == spec_prefix_guard(s@, p@),
{
    if !str_starts_with(s, p) {
        return false;
    }
    let plen = p.unicode_len();
    if s.unicode_len() == plen {
        return true;
    }
    s.get_char(plen) == '/'
}

/// Whether a canonical path lies under an OS-critical root and is refused
/// without the force override.
pub fn is_protected_path(s: &str) -> (b: bool)
    ensures
        b == spec_protected(s@),
{
    prefix_guard(s, "/bin") || prefix_guard(s, "/sbin") || prefix_guard(s, "/etc") || prefix_guard(
        s,
        "/usr",
    ) || prefix_guard(s, "/lib") || prefix_guard(s, "/lib64") || prefix_guard(s, "/root")
        || prefix_guard(s, "/boot")
}

/// Whether a symbolic link's target begins with an OS-critical root; for
/// link targets the bare prefix decides, with no separator check.
pub open spec fn spec_symlink_target_protected(s: Seq<char>) -> bool {
    ||| spec_starts_with(s, "/bin"@)
    ||| spec_starts_with(s, "/sbin"@)
    ||| spec_starts_with(s, "/etc"@)
    ||| spec_starts_with(s, "/usr"@)
    ||| spec_starts_with(s, "/lib"@)
    ||| spec_starts_with(s, "/lib64"@)
    ||| spec_starts_with(s, "/root"@)
    ||| spec_starts_with(s, "/boot"@)
}

/// Tests a symbolic link's target against the OS-critical roots.
pub fn symlink_target_protected(s: &str) -> (b: bool)
    ensures
        b == spec_symlink_target_protected(s@),
{
    str_starts_with(s, "/bin") || str_starts_with(s, "/sbin") || str_starts_with(s, "/etc")
        || str_starts_with(s, "/usr") || str_starts_with(s, "/lib") || str_starts_with(s, "/lib64")
        || str_starts_with(s, "/root") || str_starts_with(s, "/boot")
}

/// Why one item of a batch is skipped before relocation.
#[derive(Clone, Copy, Debug, PartialEq, Eq, Structural)]
pub enum SkipReason {
    /// The path holds a traversal segment or begins like a flag.
    FlaggedPath,
    /// The item is a symbolic link whose target lies under a critical root.
    SymlinkProtected,
    /// The path names nothing.
    NotFound,
    /// The canonical path lies under a critical root.
    Protected,
    /// The per-item space admission refused it.
    Space(SpaceError),
}

/// The screening verdict for one item.
#[derive(Clone, Copy, Debug, PartialEq, Eq, Structural)]
pub enum ItemDecision {
    Skip(SkipReason),
    Accept,
}

/// The per-item screening decision as a function of the probes the caller
/// made: the traversal / flag-prefix shape first, then symlink-target
/// policy, then existence, then the protected roots for non-symlinks, then
/// per-item space admission — which applies only to non-directories of
/// positive size. A violation skips that one item and leaves the rest of
/// the batch untouched.
pub open spec fn spec_admit_item(
    force: bool,
    flags_violation: bool,
    is_symlink: bool,
    target_protected: bool,
    path_exists: bool,
    canonical_protected: bool,
    file_type: FileType,
    size_bytes: u64,
    available_bytes: u64,
) -> ItemDecision {
    if !force && flags_violation {
        ItemDecision::Skip(SkipReason::FlaggedPath)
    } else if !force && is_symlink && target_protected {
        ItemDecision::Skip(SkipReason::SymlinkProtected)
    } else if !path_exists {
        ItemDecision::Skip(SkipReason::NotFound)
    } else if !force && !is_symlink && canonical_protected {
        ItemDecision::Skip(SkipReason::Protected)
    } else if file_type != FileType::Dir && size_bytes > 0 && crate::space::spec_admission(
        available_bytes as nat,
        size_bytes as nat,
        true,
    ) is Err {
        ItemDecision::Skip(
            SkipReason::Space(
                crate::space::spec_admission(
                    available_bytes as nat,
                    size_bytes as nat,
                    true,
                )->Err_0,
            ),
        )
    } else {
        ItemDecision::Accept
    }
}

/// Screens one item of a delete batch before any mutation.
pub fn admit_item(
    force: bool,
    flags_violation: bool,
    is_symlink: bool,
    target_protected: bool,
    path_exists: bool,
    canonical_protected: bool,
    file_type: FileType,
    size_bytes: u64,
    available_bytes: u64,
) -> (r: ItemDecision)
    ensures
        r == spec_admit_item(
            force,
            flags_violation,
            is_symlink,
            target_protected,
            path_exists,
            canonical_protected,
            file_type,
            size_bytes,
            available_bytes,
        ),
{
    if !force && flags_violation {
        return ItemDecision::Skip(SkipReason::FlaggedPath);
    }
    if !force && is_symlink && target_protected {
        return ItemDecision::Skip(SkipReason::SymlinkProtected);
    }
    if !path_exists {
        return ItemDecision::Skip(SkipReason::NotFound);
    }
    if !force && !is_symlink && canonical_protected {
        return ItemDecision::Skip(SkipReason::Protected);
    }
    if file_type != FileType::Dir && size_bytes > 0 {
        match crate::space::check_admission(available_bytes, size_bytes, true) {
            Err(e) => {
                return ItemDecision::Skip(SkipReason::Space(e));
            },
            Ok(()) => {},
        }
    }
    ItemDecision::Accept
}

/// The sum of the accepted items' sizes.
pub open spec fn spec_sum(sizes: Seq<u64>) -> int
    decreases sizes.len(),
{
    if sizes.len() == 0 {
        0
    } else {
        spec_sum(sizes.drop_last()) + sizes.last()
    }
}

/// Totals a batch's sizes for the aggregate admission check; a sum beyond
/// the 64-bit range is reported, never wrapped.
pub fn batch_total(sizes: &Vec<u64>) -> (r: Option<u64>)
    ensures
        r matches Some(t) ==> t == spec_sum(sizes@),
        r is None ==> spec_sum(sizes@) > u64::MAX,
{
    let mut total: u64 = 0;
    let mut i: usize = 0;
    while i < sizes.len()
        invariant
            i <= sizes@.len(),
            total == spec_sum(sizes@.subrange(0, i as int)),
        decreases sizes@.len() - i,
    {
        proof {
            assert(sizes@.subrange(0, i + 1).drop_last() =~= sizes@.subrange(0, i as int));
        }
        total = match total.checked_add(sizes[i]) {
            Some(t) => t,
            None => {
                proof {
                    lemma_sum_monotone(sizes@, i + 1);
                }
                return None;
            },
        };
        i = i + 1;
    }
    proof {
        assert(sizes@.subrange(0, sizes@.len() as int) =~= sizes@);
    }
    Some(total)
}

/// Totals sizes for reporting, clamping at the 64-bit maximum instead of
/// failing: a report never aborts the command it reports on.
pub fn total_saturating(sizes: &Vec<u64>) -> (r: u64)
    ensures
        r == if spec_sum(sizes@) > u64::MAX {
            u64::MAX as int
        } else {
            spec_sum(sizes@)
        },
{
    let mut total: u64 = 0;
    let mut i: usize = 0;
    while i < sizes.len()
        invariant
            i <= sizes@.len(),
            total == if spec_sum(sizes@.subrange(0, i as int)) > u64::MAX {
                u64::MAX as int
            } else {
                spec_sum(sizes@.subrange(0, i as int))
            },
        decreases sizes@.len() - i,
    {
        proof {
            assert(sizes@.subrange(0, i + 1).drop_last() =~= sizes@.subrange(0, i as int));
        }
        let x = sizes[i];
        total = if total > u64::MAX - x {
            u64::MAX
        } else {
            total + x
        };
        i = i + 1;
    }
    proof {
        assert(sizes@.subrange(0, sizes@.len() as int) =~= sizes@);
    }
    total
}

proof fn lemma_sum_monotone(sizes: Seq<u64>, k: int)
    requires
        0 <= k <= sizes.len(),
    ensures
        spec_sum(sizes) >= spec_sum(sizes.subrange(0, k)),
    decreases sizes.len() - k,
{
    if k < sizes.len() {
        lemma_sum_monotone(sizes, k + 1);
        assert(sizes.subrange(0, k + 1).drop_last() =~= sizes.subrange(0, k));
        assert(spec_sum(sizes.subrange(0, k + 1)) >= spec_sum(sizes.subrange(0, k)));
    } else {
        assert(sizes.subrange(0, k) =~= sizes);
    }
}

/// One successfully relocated item, as remembered for rollback.
pub struct MovedItem {
    pub trash_id: String,
    pub short_id: String,
    pub original_path: String,
    pub trash_path: String,
    pub size_bytes: u64,
}

/// Remembers completed relocations in completion order.
pub struct BatchTracker {
    pub moved: Vec<MovedItem>,
}

impl BatchTracker {
    /// An empty tracker.
    pub fn new() -> (r: BatchTracker)
        ensures
            r.moved@.len() == 0,
    {
        BatchTracker { moved: Vec::new() }
    }

    /// Records one completed relocation, after the ones before it.
    pub fn record(&mut self, item: MovedItem)
        ensures
            final(self).moved@ == old(self).moved@.push(item),
    {
        self.moved.push(item);
    }

    /// How many relocations completed.
    pub fn count(&self) -> (r: usize)
        ensures
            r == self.moved@.len(),
    {
        self.moved.len()
    }

    /// The order in which an interrupted batch is unwound: the indices of
    /// every completed relocation, in exact reverse order of completion.
    /// Children relocated before an ancestor are thus restored first, and
    /// the rollback touches each completed item exactly once.
    pub fn rollback_order(&self) -> (r: Vec<usize>)
        ensures
            r@.len() == self.moved@.len(),
            forall|i: int| 0 <= i < r@.len() ==> r@[i] == self.moved@.len() - 1 - i,
    {
        let n = self.moved.len();
        let mut out: Vec<usize> = Vec::new();
        let mut i: usize = 0;
        while i < n
            invariant
                i <= n,
                n == self.moved@.len(),
                out@.len() == i,
                forall|j: int| 0 <= j < i ==> out@[j] == n - 1 - j,
            decreases n - i,
        {
            out.push(n - 1 - i);
            i = i + 1;
        }
        out
    }
}

} // verus!
