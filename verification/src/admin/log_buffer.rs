//! The latest log entries, kept in memory.

use vstd::prelude::*;

use crate::text::{cut_to_bytes, truncate_utf8};

verus! {

/// How many bytes a text of a log entry may take.
pub const MAX_LOG_TEXT_BYTES: usize = 32768;

/// How many log entries a page holds at most.
pub const MAX_LOG_PAGE: usize = 500;

/// A log entry.
#[derive(Debug, PartialEq, Eq)]
pub struct AdminLogEntry {
    pub id: u64,
    pub timestamp: i64,
    pub level: String,
    pub target: String,
    pub message: String,
    pub fields: String,
}

impl Clone for AdminLogEntry {
    fn clone(&self) -> (r: AdminLogEntry)
        ensures
            r == *self,
    {
        AdminLogEntry {
            id: self.id,
            timestamp: self.timestamp,
            level: self.level.clone(),
            target: self.target.clone(),
            message: self.message.clone(),
            fields: self.fields.clone(),
        }
    }
}

/// What a log entry holds.
pub struct LogEntryView {
    pub id: u64,
    pub timestamp: i64,
    pub level: Seq<char>,
    pub target: Seq<char>,
    pub message: Seq<char>,
    pub fields: Seq<char>,
}

impl View for AdminLogEntry {
    type V = LogEntryView;

    open spec fn view(&self) -> LogEntryView {
        LogEntryView {
            id: self.id,
            timestamp: self.timestamp,
            level: self.level@,
            target: self.target@,
            message: self.message@,
            fields: self.fields@,
        }
    }
}

/// The log entries of a list.
pub open spec fn entries_view(entries: Seq<AdminLogEntry>) -> Seq<LogEntryView> {
    Seq::new(entries.len(), |i: int| entries[i]@)
}

/// Log entries for a page.
#[derive(Debug, PartialEq, Eq)]
pub struct AdminLogPage {
    pub items: Vec<AdminLogEntry>,
    pub latest_id: u64,
    /// Whether entries behind the reader's last one are gone.
    pub truncated: bool,
}

/// The latest log entries, no more than a number of them.
#[derive(Debug, PartialEq, Eq)]
pub struct AdminLogBuffer {
    capacity: usize,
    next_id: u64,
    entries: Vec<AdminLogEntry>,
}

/// The latest log entries.
pub struct LogView {
    pub capacity: nat,
    pub next_id: u64,
    pub entries: Seq<LogEntryView>,
}

impl View for AdminLogBuffer {
    type V = LogView;

    closed spec fn view(&self) -> LogView {
        LogView {
            capacity: self.capacity as nat,
            next_id: self.next_id,
            entries: entries_view(self.entries@),
        }
    }
}

/// A log entry as it is kept: with its number, and its texts cut where they are too long.
pub open spec fn kept_entry(entry: LogEntryView, id: u64) -> LogEntryView {
    LogEntryView {
        id,
        message: cut_to_bytes(entry.message, MAX_LOG_TEXT_BYTES as nat),
        fields: cut_to_bytes(entry.fields, MAX_LOG_TEXT_BYTES as nat),
        ..entry
    }
}

/// A log with one more entry: where it is full, the oldest one goes.
pub open spec fn with_entry(log: LogView, entry: LogEntryView) -> LogView {
    LogView {
        capacity: log.capacity,
        next_id: if log.next_id == u64::MAX {
            u64::MAX
        } else {
            (log.next_id + 1) as u64
        },
        entries: (if log.entries.len() == log.capacity {
            log.entries.skip(1)
        } else {
            log.entries
        }).push(kept_entry(entry, log.next_id)),
    }
}

/// How many entries a page holds that is asked for so many.
pub open spec fn page_size(limit: usize) -> int {
    if limit < 1 {
        1
    } else if limit > MAX_LOG_PAGE {
        MAX_LOG_PAGE as int
    } else {
        limit as int
    }
}

/// The first entries, at most `limit` of them, behind a number, of the first `n`.
pub open spec fn entries_after(entries: Seq<LogEntryView>, after_id: u64, limit: int, n: nat) -> Seq<
    LogEntryView,
>
    decreases n,
{
    if n == 0 {
        Seq::empty()
    } else {
        let before = entries_after(entries, after_id, limit, (n - 1) as nat);
        if entries[n - 1].id > after_id && before.len() < limit {
            before.push(entries[n - 1])
        } else {
            before
        }
    }
}

/// The entries of a page: those behind a number, or the latest ones.
pub open spec fn page_items(log: LogView, after_id: Option<u64>, limit: int) -> Seq<LogEntryView> {
    match after_id {
        Some(id) => entries_after(log.entries, id, limit, log.entries.len()),
        None => if log.entries.len() <= limit {
            log.entries
        } else {
            log.entries.skip(log.entries.len() - limit)
        },
    }
}

/// Whether entries behind a number are gone.
pub open spec fn has_gap(log: LogView, after_id: Option<u64>) -> bool {
    match after_id {
        Some(id) => log.entries.len() > 0 && (if id == u64::MAX {
            u64::MAX as int
        } else {
            id + 1
        }) < log.entries[0].id,
        None => false,
    }
}

impl AdminLogBuffer {
    #[verifier::type_invariant]
    closed spec fn fits(self) -> bool {
        self.entries@.len() <= self.capacity && self.capacity >= 1
    }

    /// An empty log for a number of entries, at least one.
    pub fn new(capacity: usize) -> (r: AdminLogBuffer)
        ensures
            r@ == (LogView {
                capacity: if capacity < 1 {
                    1
                } else {
                    capacity as nat
                },
                next_id: 1,
                entries: Seq::empty(),
            }),
    {
        let capacity: usize = if capacity < 1 {
            1
        } else {
            capacity
        };
        let r = AdminLogBuffer { capacity, next_id: 1, entries: Vec::new() };
        assert(r@.entries =~= Seq::empty());
        r
    }

    /// Adds an entry.
    pub fn push(&mut self, entry: AdminLogEntry)
        ensures
            final(self)@ == with_entry(old(self)@, entry@),
            final(self)@.entries.len() <= final(self)@.capacity,
    {
        proof {
            use_type_invariant(&*self);
        }
        let ghost before = self@;
        let kept = AdminLogEntry {
            id: self.next_id,
            timestamp: entry.timestamp,
            level: entry.level,
            target: entry.target,
            message: truncate_utf8(&entry.message, MAX_LOG_TEXT_BYTES),
            fields: truncate_utf8(&entry.fields, MAX_LOG_TEXT_BYTES),
        };
        let next_id: u64 = if self.next_id == u64::MAX {
            u64::MAX
        } else {
            self.next_id + 1
        };
        let mut entries: Vec<AdminLogEntry> = Vec::new();
        std::mem::swap(&mut entries, &mut self.entries);
        let ghost list = entries@;
        assert(entries_view(list).len() == list.len());
        if entries.len() == self.capacity {
            let _oldest = entries.remove(0);
            assert(entries_view(entries@) =~= before.entries.skip(1));
        }
        let ghost room = entries_view(entries@);
        let ghost shown = kept@;
        entries.push(kept);
        assert(entries_view(entries@) =~= room.push(shown));
        self.entries = entries;
        self.next_id = next_id;
    }

    /// The entries behind a number, or the latest ones.
    pub fn read_after(&self, after_id: Option<u64>, limit: usize) -> (r: AdminLogPage)
        ensures
            entries_view(r.items@) == page_items(self@, after_id, page_size(limit)),
            r.latest_id == (if self@.entries.len() > 0 {
                self@.entries.last().id
            } else {
                0
            }),
            r.truncated == has_gap(self@, after_id),
    {
        let limit: usize = if limit < 1 {
            1
        } else if limit > MAX_LOG_PAGE {
            MAX_LOG_PAGE
        } else {
            limit
        };
        let total: usize = self.entries.len();
        let ghost all = self@.entries;
        assert(all.len() == total);
        let truncated = match after_id {
            Some(id) => {
                let next: u64 = if id == u64::MAX {
                    u64::MAX
                } else {
                    id + 1
                };
                if total > 0 {
                    assert(all[0] == self.entries@[0]@);
                    next < self.entries[0].id
                } else {
                    false
                }
            },
            None => false,
        };
        let mut items: Vec<AdminLogEntry> = Vec::new();
        assert(entries_view(items@) =~= Seq::empty());
        match after_id {
            Some(id) => {
                let mut i: usize = 0;
                while i < total
                    invariant
                        i <= total == self.entries@.len(),
                        all == entries_view(self.entries@),
                        entries_view(items@) == entries_after(all, id, limit as int, i as nat),
                    decreases total - i,
                {
                    assert(all[i as int] == self.entries@[i as int]@);
                    assert(entries_view(items@).len() == items@.len());
                    if self.entries[i].id > id && items.len() < limit {
                        let ghost before = entries_view(items@);
                        items.push(self.entries[i].clone());
                        assert(entries_view(items@) =~= before.push(all[i as int]));
                    }
                    i += 1;
                }
            },
            None => {
                let start: usize = if total <= limit {
                    0
                } else {
                    total - limit
                };
                let mut i: usize = start;
                while i < total
                    invariant
                        start <= i <= total == self.entries@.len(),
                        all == entries_view(self.entries@),
                        entries_view(items@) =~= all.subrange(start as int, i as int),
                    decreases total - i,
                {
                    let ghost before = entries_view(items@);
                    items.push(self.entries[i].clone());
                    assert(entries_view(items@) =~= before.push(all[i as int]));
                    i += 1;
                }
                assert(entries_view(items@) =~= page_items(self@, after_id, limit as int));
            },
        }
        let latest_id: u64 = if total > 0 {
            assert(all[total - 1] == self.entries@[total - 1]@);
            self.entries[total - 1].id
        } else {
            0
        };
        AdminLogPage { items, latest_id, truncated }
    }
}

/// Whether the entries of a log carry numbers one after the other, up to the next one.
pub open spec fn numbered(log: LogView) -> bool {
    log.entries.len() < log.next_id && forall|i: int|
        0 <= i < log.entries.len() ==> (#[trigger] log.entries[i]).id == log.next_id
            - log.entries.len() + i
}

/// Whether a log holds an entry with a number.
pub open spec fn has_number(log: LogView, id: u64) -> bool {
    exists|i: int| 0 <= i < log.entries.len() && (#[trigger] log.entries[i]).id == id
}

/// Adding an entry keeps the numbers one after the other, as long as there are numbers; the new
/// entry has the latest one, and a log that is full forgets just its oldest entry.
pub proof fn law_log_numbers(log: LogView, entry: LogEntryView)
    requires
        numbered(log),
        log.entries.len() <= log.capacity,
        log.capacity >= 1,
        log.next_id < u64::MAX,
    ensures
        numbered(with_entry(log, entry)),
        with_entry(log, entry).entries.len() <= log.capacity,
        with_entry(log, entry).entries.last().id == log.next_id,
        forall|id: u64|
            log.next_id - log.entries.len() < id <= log.next_id ==> #[trigger] has_number(
                with_entry(log, entry),
                id,
            ),
{
    let after = with_entry(log, entry);
    assert forall|i: int| 0 <= i < after.entries.len() implies (#[trigger] after.entries[i]).id
        == after.next_id - after.entries.len() + i by {
        if i < after.entries.len() - 1 {
            if log.entries.len() == log.capacity {
                assert(after.entries[i] == log.entries[i + 1]);
            } else {
                assert(after.entries[i] == log.entries[i]);
            }
        }
    }
    assert forall|id: u64|
        log.next_id - log.entries.len() < id <= log.next_id implies #[trigger] has_number(
        after,
        id,
    ) by {
        let i = id - (after.next_id - after.entries.len());
        assert(after.entries[i].id == id);
    }
}

proof fn lemma_entries_behind(entries: Seq<LogEntryView>, after_id: u64, limit: int, n: nat, k: int)
    requires
        0 <= k <= entries.len(),
        n <= entries.len(),
        limit >= 0,
        forall|i: int| 0 <= i < k ==> (#[trigger] entries[i]).id <= after_id,
        forall|i: int| k <= i < entries.len() ==> (#[trigger] entries[i]).id > after_id,
    ensures
        entries_after(entries, after_id, limit, n) == if n <= k {
            Seq::empty()
        } else if n - k <= limit {
            entries.subrange(k, n as int)
        } else {
            entries.subrange(k, k + limit)
        },
    decreases n,
{
    if n > 0 {
        lemma_entries_behind(entries, after_id, limit, (n - 1) as nat, k);
        if n > k && n - k <= limit {
            assert(entries_after(entries, after_id, limit, n) =~= entries.subrange(k, n as int));
        } else if n > k {
            assert(entries_after(entries, after_id, limit, n) =~= entries.subrange(k, k + limit));
        }
    }
}

/// A page goes on right behind the number that was given: where the first `k` entries are those up to
/// that number, the page holds the entries that follow them, without a gap, up to its size. Without a
/// number it holds the latest entries.
pub proof fn law_pages_follow_each_other(log: LogView, after_id: u64, limit: int, k: int)
    requires
        limit >= 0,
        0 <= k <= log.entries.len(),
        forall|i: int| 0 <= i < k ==> (#[trigger] log.entries[i]).id <= after_id,
        forall|i: int| k <= i < log.entries.len() ==> (#[trigger] log.entries[i]).id > after_id,
    ensures
        log.entries.len() - k <= limit ==> page_items(log, Some(after_id), limit)
            == log.entries.skip(k),
        log.entries.len() - k > limit ==> page_items(log, Some(after_id), limit)
            == log.entries.subrange(k, k + limit),
        log.entries.len() <= limit ==> page_items(log, None, limit) == log.entries,
        log.entries.len() > limit ==> page_items(log, None, limit) == log.entries.skip(
            log.entries.len() - limit,
        ),
{
    lemma_entries_behind(log.entries, after_id, limit, log.entries.len(), k);
    assert(log.entries.skip(k) =~= log.entries.subrange(k, log.entries.len() as int));
}

} // verus!
