//! The directory walker: an explicit work stack, not call recursion, drives
//! traversal, so tree depth cannot exhaust the machine stack; a fixed
//! nesting limit bounds it instead, and crossing the limit fails the
//! operation for that subtree before any of its contents are touched.
//! Cancellation is polled once per stack pop.

use vstd::prelude::*;

verus! {

/// The deepest nesting the walker follows.
pub const MAX_RECURSION_DEPTH: usize = 1000;

/// One pending directory: where it is, where its contents go, how deep it
/// sits under the walk's root.
pub struct WalkFrame {
    pub src: String,
    pub dst: String,
    pub depth: usize,
}

/// What the walker asks of its driver next.
pub enum WalkStep {
    /// The stack is empty: the walk is complete.
    Done,
    /// Nesting crossed the limit: fail, with nothing of that directory
    /// visited or moved.
    FailDepth,
    /// Cancellation was observed at the poll point: fail promptly.
    FailInterrupted,
    /// Enumerate this directory: relocate its plain entries, push its
    /// subdirectories, then remove it once empty.
    Visit(WalkFrame),
}

/// The walker's state: the directories still to visit.
pub struct Walker {
    pub stack: Vec<WalkFrame>,
}

impl Walker {
    /// A walk of one root directory, at depth zero.
    pub fn new(src: String, dst: String) -> (r: Walker)
        ensures
            r.stack@.len() == 1,
            r.stack@[0].src@ == src@,
            r.stack@[0].dst@ == dst@,
            r.stack@[0].depth == 0,
    {
        let frame = WalkFrame { src, dst, depth: 0 };
        let mut stack: Vec<WalkFrame> = Vec::new();
        stack.push(frame);
        Walker { stack }
    }

    /// Pops the next directory. The depth limit is enforced on the popped
    /// frame before anything else — a frame past the limit is never handed
    /// out, so none of its contents are moved — and cancellation is polled
    /// on every pop.
    pub fn next(&mut self, interrupted: bool) -> (r: WalkStep)
        ensures
            old(self).stack@.len() == 0 ==> r is Done && final(self).stack@ == old(self).stack@,
            old(self).stack@.len() > 0 ==> final(self).stack@ == old(self).stack@.drop_last() && (
            if old(self).stack@.last().depth > MAX_RECURSION_DEPTH {
                r is FailDepth
            } else if interrupted {
                r is FailInterrupted
            } else {
                r matches WalkStep::Visit(f) && f == old(self).stack@.last()
            }),
    {
        match self.stack.pop() {
            None => WalkStep::Done,
            Some(frame) => {
                if frame.depth > MAX_RECURSION_DEPTH {
                    WalkStep::FailDepth
                } else if interrupted {
                    WalkStep::FailInterrupted
                } else {
                    WalkStep::Visit(frame)
                }
            },
        }
    }

    /// Queues a subdirectory of the frame being visited, one level deeper.
    pub fn push_subdir(&mut self, src: String, dst: String, parent_depth: usize)
        requires
            parent_depth < usize::MAX,
        ensures
            final(self).stack@.len() == old(self).stack@.len() + 1,
            final(self).stack@.last().src@ == src@,
            final(self).stack@.last().dst@ == dst@,
            final(self).stack@.last().depth == parent_depth + 1,
            final(self).stack@.drop_last() == old(self).stack@,
    {
        let frame = WalkFrame { src, dst, depth: parent_depth + 1 };
        self.stack.push(frame);
        proof {
            assert(self.stack@.drop_last() =~= old(self).stack@);
        }
    }

    /// Whether any directories remain.
    pub fn is_done(&self) -> (r: bool)
        ensures
            r == (self.stack@.len() == 0),
    {
        self.stack.len() == 0
    }
}

/// Running totals of a statistics walk: bytes and entries seen so far.
/// Additions saturate at the type's maximum rather than wrap.
pub struct DirStats {
    pub total_bytes: u64,
    pub total_items: u64,
}

impl DirStats {
    /// Empty totals.
    pub fn new() -> (r: DirStats)
        ensures
            r.total_bytes == 0,
            r.total_items == 0,
    {
        DirStats { total_bytes: 0, total_items: 0 }
    }

    /// Counts one entry; a plain entry also adds its size.
    pub fn add_entry(&mut self, size: Option<u64>)
        ensures
            final(self).total_items == if old(self).total_items == u64::MAX {
                u64::MAX as int
            } else {
                old(self).total_items + 1
            },
            final(self).total_bytes == match size {
                Some(n) => if old(self).total_bytes + n > u64::MAX {
                    u64::MAX as int
                } else {
                    old(self).total_bytes + n
                },
                None => old(self).total_bytes as int,
            },
    {
        self.total_items = if self.total_items == u64::MAX {
            u64::MAX
        } else {
            self.total_items + 1
        };
        match size {
            Some(n) => {
                self.total_bytes = if self.total_bytes > u64::MAX - n {
                    u64::MAX
                } else {
                    self.total_bytes + n
                };
            },
            None => {},
        }
    }
}

} // verus!
