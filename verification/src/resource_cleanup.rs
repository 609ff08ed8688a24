//! Which stored files are old enough to go.

use vstd::prelude::*;

verus! {

/// How often old files are looked for, in seconds.
pub const RESOURCE_CLEANUP_INTERVAL: u64 = 86_400;

/// How long a file is kept, in seconds: a month counts as 30 days.
pub const RESOURCE_RETENTION: i64 = 2_592_000;

/// Files that were stored before this moment are old.
pub fn cutoff_timestamp(now: i64) -> (r: i64)
    requires
        now >= i64::MIN + RESOURCE_RETENTION,
    ensures
        r == now - RESOURCE_RETENTION,
{
    now - RESOURCE_RETENTION
}

/// What was done about old files.
#[derive(Debug, Clone, Copy, PartialEq, Eq, Structural)]
pub struct CleanupStats {
    pub scanned: usize,
    pub deleted: usize,
    pub failed: usize,
}

impl CleanupStats {
    /// Before the first of the files.
    pub fn new(scanned: usize) -> (r: CleanupStats)
        ensures
            r == (CleanupStats { scanned, deleted: 0, failed: 0 }),
    {
        CleanupStats { scanned, deleted: 0, failed: 0 }
    }

    /// Whether there are files that nothing was done about yet.
    pub open spec fn unfinished(self) -> bool {
        self.deleted + self.failed < self.scanned
    }

    /// Counts a file. Its record goes only once the file is gone; a record that is gone already
    /// counts as deleted.
    pub fn count(&mut self, outcome: FileOutcome)
        requires
            old(self).unfinished(),
        ensures
            final(self).scanned == old(self).scanned,
            final(self).deleted == old(self).deleted + (if outcome is Gone {
                1int
            } else {
                0
            }),
            final(self).failed == old(self).failed + (if outcome is Gone {
                0int
            } else {
                1
            }),
    {
        match outcome {
            FileOutcome::Gone => {
                self.deleted = self.deleted + 1;
            },
            FileOutcome::FileKept => {
                self.failed = self.failed + 1;
            },
            FileOutcome::RecordKept => {
                self.failed = self.failed + 1;
            },
        }
    }
}

/// What became of an old file.
#[derive(Debug, Clone, Copy, PartialEq, Eq, Structural)]
pub enum FileOutcome {
    /// The file could not be removed; its record stays.
    FileKept,
    /// The file is gone, but its record could not be removed.
    RecordKept,
    Gone,
}

/// What became of an old file: whether it was removed, and then whether its record was, where
/// `Some` tells whether there still was one.
pub fn file_outcome(file_removed: bool, record_removed: Option<bool>) -> (r: FileOutcome)
    ensures
        r == (if !file_removed {
            FileOutcome::FileKept
        } else if record_removed is None {
            FileOutcome::RecordKept
        } else {
            FileOutcome::Gone
        }),
{
    if !file_removed {
        FileOutcome::FileKept
    } else {
        match record_removed {
            None => FileOutcome::RecordKept,
            Some(_) => FileOutcome::Gone,
        }
    }
}

/// Whether a path, by its parts, lies in a directory or is it.
pub open spec fn lies_within(path: Seq<Seq<char>>, root: Seq<Seq<char>>) -> bool {
    root.len() <= path.len() && path.take(root.len() as int) == root
}

/// Whether a path, by its parts, lies in a directory or is it. Only such a file may be removed.
pub fn is_managed(path: &Vec<String>, root: &Vec<String>) -> (r: bool)
    ensures
        r == lies_within(crate::text::texts(path@), crate::text::texts(root@)),
{
    let ghost p = crate::text::texts(path@);
    let ghost t = crate::text::texts(root@);
    if root.len() > path.len() {
        return false;
    }
    let mut i: usize = 0;
    while i < root.len()
        invariant
            i <= root@.len() <= path@.len(),
            p == crate::text::texts(path@),
            t == crate::text::texts(root@),
            forall|j: int| 0 <= j < i ==> #[trigger] p[j] == t[j],
        decreases root@.len() - i,
    {
        if !crate::text::same_text(&path[i], &root[i]) {
            assert(p.take(t.len() as int)[i as int] != t[i as int]);
            return false;
        }
        assert(p[i as int] == t[i as int]);
        i += 1;
    }
    assert(p.take(t.len() as int) =~= t);
    true
}

} // verus!
