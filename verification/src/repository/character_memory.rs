//! What is stored of conversations to be remembered.

use vstd::prelude::*;

use crate::json::option_text;
use crate::text::same_text;

verus! {

/// Something that is remembered of a conversation.
#[derive(Debug, PartialEq, Eq)]
pub struct CharacterMemoryRecord {
    pub id: i64,
    pub title: String,
    pub content: String,
    pub expires_at: i64,
}

/// What became of remembering something.
#[derive(Debug, PartialEq, Eq)]
pub struct CharacterMemoryWriteResult {
    /// Whether it is new.
    pub created: bool,
    /// The title of what had to be forgotten for it.
    pub evicted_title: Option<String>,
}

/// A row of the table: something that is remembered of one conversation.
#[derive(Debug, PartialEq, Eq)]
pub struct MemoryRow {
    pub id: i64,
    pub title: String,
    pub content: String,
    pub expires_at: i64,
    /// When it was shown as about to be forgotten.
    pub expired_seen_at: Option<i64>,
    pub created_at: i64,
    pub updated_at: i64,
}

/// What a row holds.
pub struct RowView {
    pub id: i64,
    pub title: Seq<char>,
    pub content: Seq<char>,
    pub expires_at: i64,
    pub expired_seen_at: Option<i64>,
    pub created_at: i64,
    pub updated_at: i64,
}

impl View for MemoryRow {
    type V = RowView;

    open spec fn view(&self) -> RowView {
        RowView {
            id: self.id,
            title: self.title@,
            content: self.content@,
            expires_at: self.expires_at,
            expired_seen_at: self.expired_seen_at,
            created_at: self.created_at,
            updated_at: self.updated_at,
        }
    }
}

/// The rows of a table.
pub open spec fn rows_view(rows: Seq<MemoryRow>) -> Seq<RowView> {
    Seq::new(rows.len(), |i: int| rows[i]@)
}

/// Whether no two rows share a number or a title.
pub open spec fn distinct_rows(rows: Seq<RowView>) -> bool {
    forall|i: int, j: int|
        0 <= i < j < rows.len() ==> (#[trigger] rows[i]).id != (#[trigger] rows[j]).id
            && rows[i].title != rows[j].title
}

/// Where a title stands.
pub open spec fn title_position(rows: Seq<RowView>, title: Seq<char>) -> Option<int>
    decreases rows.len(),
{
    if rows.len() == 0 {
        None
    } else {
        match title_position(rows.drop_last(), title) {
            Some(i) => Some(i),
            None => if rows.last().title == title {
                Some(rows.len() - 1)
            } else {
                None
            },
        }
    }
}

proof fn lemma_title_position(rows: Seq<RowView>, title: Seq<char>)
    ensures
        match title_position(rows, title) {
            Some(i) => 0 <= i < rows.len() && rows[i].title == title && forall|j: int|
                0 <= j < i ==> (#[trigger] rows[j]).title != title,
            None => forall|j: int| 0 <= j < rows.len() ==> (#[trigger] rows[j]).title != title,
        },
    decreases rows.len(),
{
    if rows.len() > 0 {
        let front = rows.drop_last();
        lemma_title_position(front, title);
        assert forall|j: int| 0 <= j < front.len() implies front[j] == #[trigger] rows[j] by {}
    }
}

fn find_title(rows: &Vec<MemoryRow>, title: &str) -> (r: Option<usize>)
    ensures
        match r {
            Some(i) => i < rows@.len() && title_position(rows_view(rows@), title@) == Some(
                i as int,
            ),
            None => title_position(rows_view(rows@), title@) is None,
        },
{
    let ghost all = rows_view(rows@);
    let mut i: usize = 0;
    while i < rows.len()
        invariant
            i <= rows@.len(),
            all == rows_view(rows@),
            forall|j: int| 0 <= j < i ==> (#[trigger] all[j]).title != title@,
        decreases rows@.len() - i,
    {
        if same_text(&rows[i].title, title) {
            proof {
                assert(all[i as int].title == title@);
                lemma_title_position(all, title@);
            }
            return Some(i);
        }
        i += 1;
    }
    proof {
        lemma_title_position(all, title@);
    }
    None
}

/// Whether a row is forgotten before another: it expires earlier, or is older, or has the lower
/// number.
pub open spec fn goes_before(a: RowView, b: RowView) -> bool {
    a.expires_at < b.expires_at || (a.expires_at == b.expires_at && (a.created_at < b.created_at
        || (a.created_at == b.created_at && a.id < b.id)))
}

fn row_goes_before(a: &MemoryRow, b: &MemoryRow) -> (r: bool)
    ensures
        r == goes_before(a@, b@),
{
    a.expires_at < b.expires_at || (a.expires_at == b.expires_at && (a.created_at < b.created_at
        || (a.created_at == b.created_at && a.id < b.id)))
}

/// The row that is forgotten first among the first `n`.
pub open spec fn first_to_go(rows: Seq<RowView>, n: nat) -> Option<int>
    decreases n,
{
    if n == 0 {
        None
    } else {
        match first_to_go(rows, (n - 1) as nat) {
            None => Some(n - 1),
            Some(b) => if goes_before(rows[n - 1], rows[b]) {
                Some(n - 1)
            } else {
                Some(b)
            },
        }
    }
}

fn find_first_to_go(rows: &Vec<MemoryRow>, n: usize) -> (r: Option<usize>)
    requires
        n <= rows@.len(),
    ensures
        match r {
            Some(i) => i < n && first_to_go(rows_view(rows@), n as nat) == Some(i as int),
            None => first_to_go(rows_view(rows@), n as nat) is None,
        },
{
    let ghost all = rows_view(rows@);
    let mut best: Option<usize> = None;
    let mut i: usize = 0;
    while i < n
        invariant
            i <= n <= rows@.len(),
            all == rows_view(rows@),
            match best {
                Some(b) => b < i && first_to_go(all, i as nat) == Some(b as int),
                None => first_to_go(all, i as nat) is None,
            },
        decreases n - i,
    {
        assert(all[i as int] == rows@[i as int]@);
        match best {
            None => {
                best = Some(i);
            },
            Some(b) => {
                if row_goes_before(&rows[i], &rows[b]) {
                    best = Some(i);
                }
            },
        }
        i += 1;
    }
    best
}

/// Why something new cannot be remembered.
#[derive(Debug, Clone, Copy, PartialEq, Eq, Structural)]
pub enum MemoryWriteError {
    MissingContent,
    MissingExpiry,
}

/// A row after a change: what is not given stays, and giving a time makes it unseen again.
pub open spec fn changed_row(
    row: RowView,
    content: Option<Seq<char>>,
    expires_at: Option<i64>,
    now: i64,
) -> RowView {
    RowView {
        content: match content {
            Some(text) => text,
            None => row.content,
        },
        expires_at: match expires_at {
            Some(t) => t,
            None => row.expires_at,
        },
        expired_seen_at: if expires_at is Some {
            None
        } else {
            row.expired_seen_at
        },
        updated_at: now,
        ..row
    }
}

/// A table once something is remembered under a title, what became of it, and the title that was
/// forgotten. Where a new row makes the table too long, the older row that is first to go leaves.
pub open spec fn after_set(
    rows: Seq<RowView>,
    id: i64,
    title: Seq<char>,
    content: Option<Seq<char>>,
    expires_at: Option<i64>,
    max_memories: nat,
    now: i64,
) -> Result<(Seq<RowView>, bool, Option<Seq<char>>), MemoryWriteError> {
    match title_position(rows, title) {
        Some(i) => Ok(
            (rows.update(i, changed_row(rows[i], content, expires_at, now)), false, None),
        ),
        None => match (content, expires_at) {
            (None, _) => Err(MemoryWriteError::MissingContent),
            (_, None) => Err(MemoryWriteError::MissingExpiry),
            (Some(text), Some(t)) => {
                let added = rows.push(
                    RowView {
                        id,
                        title,
                        content: text,
                        expires_at: t,
                        expired_seen_at: None,
                        created_at: now,
                        updated_at: now,
                    },
                );
                match first_to_go(rows, rows.len()) {
                    Some(i) => if added.len() > max_memories {
                        Ok((added.remove(i), true, Some(rows[i].title)))
                    } else {
                        Ok((added, true, None))
                    },
                    None => Ok((added, true, None)),
                }
            },
        },
    }
}

/// Remembers something under a title, in a table of one conversation; `id` is the number that a new
/// row gets.
pub fn set_character_memory(
    rows: &mut Vec<MemoryRow>,
    id: i64,
    title: &str,
    content: &Option<String>,
    expires_at: Option<i64>,
    max_memories: usize,
    now: i64,
) -> (r: Result<CharacterMemoryWriteResult, MemoryWriteError>)
    ensures
        match after_set(
            rows_view(old(rows)@),
            id,
            title@,
            option_text(*content),
            expires_at,
            max_memories as nat,
            now,
        ) {
            Ok((after, created, evicted)) => r is Ok && rows_view(final(rows)@) == after
                && r->Ok_0.created == created && option_text(r->Ok_0.evicted_title) == evicted,
            Err(e) => r == Err::<CharacterMemoryWriteResult, MemoryWriteError>(e) && final(rows)@
                == old(rows)@,
        },
{
    let ghost before = rows_view(rows@);
    match find_title(rows, title) {
        Some(i) => {
            let row = &rows[i];
            let next_content = match content {
                Some(text) => text.clone(),
                None => row.content.clone(),
            };
            let (next_expires_at, next_seen_at): (i64, Option<i64>) = match expires_at {
                Some(t) => (t, None),
                None => (row.expires_at, row.expired_seen_at),
            };
            let changed = MemoryRow {
                id: row.id,
                title: row.title.clone(),
                content: next_content,
                expires_at: next_expires_at,
                expired_seen_at: next_seen_at,
                created_at: row.created_at,
                updated_at: now,
            };
            let ghost shown = changed@;
            rows.set(i, changed);
            assert(rows_view(rows@) =~= before.update(i as int, shown));
            Ok(CharacterMemoryWriteResult { created: false, evicted_title: None })
        },
        None => {
            let content = match content {
                Some(text) => text.clone(),
                None => {
                    return Err(MemoryWriteError::MissingContent);
                },
            };
            let expires_at: i64 = match expires_at {
                Some(t) => t,
                None => {
                    return Err(MemoryWriteError::MissingExpiry);
                },
            };
            let first = find_first_to_go(rows, rows.len());
            let row = MemoryRow {
                id,
                title: title.to_owned(),
                content,
                expires_at,
                expired_seen_at: None,
                created_at: now,
                updated_at: now,
            };
            let ghost shown = row@;
            rows.push(row);
            let ghost added = before.push(shown);
            assert(rows_view(rows@) =~= added);
            if rows.len() > max_memories {
                if let Some(i) = first {
                    assert(added[i as int] == before[i as int]);
                    let evicted = rows.remove(i);
                    assert(rows_view(rows@) =~= added.remove(i as int));
                    return Ok(
                        CharacterMemoryWriteResult {
                            created: true,
                            evicted_title: Some(evicted.title),
                        },
                    );
                }
            }
            Ok(CharacterMemoryWriteResult { created: true, evicted_title: None })
        },
    }
}

proof fn lemma_first_to_go(rows: Seq<RowView>, n: nat)
    requires
        n <= rows.len(),
    ensures
        match first_to_go(rows, n) {
            Some(i) => 0 <= i < n && forall|j: int|
                0 <= j < n ==> !goes_before(#[trigger] rows[j], rows[i]),
            None => n == 0,
        },
    decreases n,
{
    if n > 0 {
        lemma_first_to_go(rows, (n - 1) as nat);
        let b = first_to_go(rows, (n - 1) as nat);
        if b is Some && goes_before(rows[n - 1], rows[b.unwrap()]) {
            assert forall|j: int| 0 <= j < n implies !goes_before(
                #[trigger] rows[j],
                rows[n - 1],
            ) by {
                if j < n - 1 {
                    assert(!goes_before(rows[j], rows[b.unwrap()]));
                }
            }
        }
    }
}

/// What is remembered under a title is found under it: a new row is never the one that leaves. A
/// table that was not too long stays so, no two rows share a title or a number, and what leaves is
/// first to go among the older rows.
pub proof fn law_what_is_remembered_stays(
    rows: Seq<RowView>,
    id: i64,
    title: Seq<char>,
    content: Option<Seq<char>>,
    expires_at: Option<i64>,
    max_memories: nat,
    now: i64,
)
    requires
        distinct_rows(rows),
        forall|i: int| 0 <= i < rows.len() ==> (#[trigger] rows[i]).id != id,
        rows.len() <= max_memories,
        max_memories >= 1,
    ensures
        after_set(rows, id, title, content, expires_at, max_memories, now) matches Ok(
            (after, created, evicted),
        ) ==> {
            &&& after.len() <= max_memories
            &&& distinct_rows(after)
            &&& title_position(after, title) matches Some(i) && (content matches Some(text)
                ==> after[i].content == text) && (expires_at matches Some(t) ==> after[i].expires_at
                == t)
            &&& evicted is Some <==> created && rows.len() == max_memories
            &&& evicted is Some ==> {
                let i = first_to_go(rows, rows.len()).unwrap();
                0 <= i < rows.len() && evicted == Some(rows[i].title) && forall|j: int|
                    0 <= j < rows.len() ==> !goes_before(#[trigger] rows[j], rows[i])
            }
        },
{
    let r = after_set(rows, id, title, content, expires_at, max_memories, now);
    lemma_title_position(rows, title);
    lemma_first_to_go(rows, rows.len());
    if r is Ok {
        let after = r->Ok_0.0;
        lemma_title_position(after, title);
        match title_position(rows, title) {
            Some(i) => {
                assert(distinct_rows(after)) by {
                    assert forall|j: int, k: int| 0 <= j < k < after.len() implies (
                    #[trigger] after[j]).id != (#[trigger] after[k]).id && after[j].title
                        != after[k].title by {
                        assert(rows[j].id != rows[k].id && rows[j].title != rows[k].title);
                    }
                }
                assert(after[i].title == title);
                let p = title_position(after, title).unwrap();
                if p < i {
                    assert(after[p].title != after[i].title);
                }
            },
            None => {
                let added = rows.push(
                    RowView {
                        id,
                        title,
                        content: content.unwrap(),
                        expires_at: expires_at.unwrap(),
                        expired_seen_at: None,
                        created_at: now,
                        updated_at: now,
                    },
                );
                assert(distinct_rows(added)) by {
                    assert forall|j: int, k: int| 0 <= j < k < added.len() implies (
                    #[trigger] added[j]).id != (#[trigger] added[k]).id && added[j].title
                        != added[k].title by {
                        assert(added[j] == rows[j]);
                        if k < rows.len() {
                            assert(added[k] == rows[k]);
                        }
                    }
                }
                assert(distinct_rows(after)) by {
                    assert forall|j: int, k: int| 0 <= j < k < after.len() implies (
                    #[trigger] after[j]).id != (#[trigger] after[k]).id && after[j].title
                        != after[k].title by {
                        if after != added {
                            let i = first_to_go(rows, rows.len()).unwrap();
                            let a = if j < i {
                                j
                            } else {
                                j + 1
                            };
                            let b = if k < i {
                                k
                            } else {
                                k + 1
                            };
                            assert(after[j] == added[a] && after[k] == added[b]);
                        }
                    }
                }
                let last = after.len() - 1;
                assert(after[last].title == title);
                let p = title_position(after, title).unwrap();
                if p < last {
                    assert(after[p].title != after[last].title);
                }
            },
        }
    }
}

/// Whether a row has been shown as about to be forgotten and is now forgotten.
pub open spec fn is_forgotten(row: RowView, now: i64) -> bool {
    row.expires_at <= now && row.expired_seen_at is Some
}

/// The rows that are not forgotten.
pub open spec fn kept_rows(rows: Seq<RowView>, now: i64) -> Seq<RowView>
    decreases rows.len(),
{
    if rows.len() == 0 {
        Seq::empty()
    } else if is_forgotten(rows.last(), now) {
        kept_rows(rows.drop_last(), now)
    } else {
        kept_rows(rows.drop_last(), now).push(rows.last())
    }
}

proof fn lemma_kept_rows_len(rows: Seq<RowView>, now: i64)
    ensures
        kept_rows(rows, now).len() <= rows.len(),
    decreases rows.len(),
{
    if rows.len() > 0 {
        lemma_kept_rows_len(rows.drop_last(), now);
    }
}

/// Takes out the rows that were shown as about to be forgotten and were not kept since; gives their
/// number.
pub fn delete_seen_expired_character_memories(rows: &mut Vec<MemoryRow>, now: i64) -> (r: usize)
    ensures
        rows_view(final(rows)@) == kept_rows(rows_view(old(rows)@), now),
        r == old(rows)@.len() - final(rows)@.len(),
{
    let ghost all = rows_view(rows@);
    let total: usize = rows.len();
    let mut rest: Vec<MemoryRow> = Vec::new();
    std::mem::swap(&mut rest, rows);
    let ghost list = rest@;
    let ghost mut done: int = 0;
    assert(all.take(0) =~= Seq::empty());
    assert(rows_view(rows@) =~= Seq::empty());
    while rest.len() > 0
        invariant
            0 <= done <= list.len(),
            all == rows_view(list),
            rest@ =~= list.skip(done),
            rows_view(rows@) == kept_rows(all.take(done), now),
        decreases rest@.len(),
    {
        let row = rest.remove(0);
        assert(row == list[done]);
        assert(all.take(done + 1).drop_last() =~= all.take(done));
        if !(row.expires_at <= now && row.expired_seen_at.is_some()) {
            let ghost before = rows_view(rows@);
            let ghost added = row@;
            rows.push(row);
            assert(rows_view(rows@) =~= before.push(added));
        }
        proof {
            done = done + 1;
        }
    }
    proof {
        assert(all.take(done) =~= all);
        lemma_kept_rows_len(all, now);
        assert(rows@.len() == rows_view(rows@).len());
    }
    total - rows.len()
}

/// A row once it was shown as about to be forgotten: it is marked where it has expired and was not
/// marked before.
pub open spec fn seen_row(row: RowView, ids: Seq<i64>, now: i64) -> RowView {
    if ids.contains(row.id) && row.expires_at <= now && row.expired_seen_at is None {
        RowView { expired_seen_at: Some(now), updated_at: now, ..row }
    } else {
        row
    }
}

/// How many of the first `n` rows are marked.
pub open spec fn newly_seen(rows: Seq<RowView>, n: nat, ids: Seq<i64>, now: i64) -> nat
    decreases n,
{
    if n == 0 {
        0
    } else {
        newly_seen(rows, (n - 1) as nat, ids, now) + (if seen_row(rows[n - 1], ids, now)
            != rows[n - 1] {
            1nat
        } else {
            0
        })
    }
}

/// Marks the rows that were shown as about to be forgotten; gives their number.
pub fn mark_expired_character_memories_seen(rows: &mut Vec<MemoryRow>, ids: &Vec<i64>, now: i64) -> (r:
    usize)
    ensures
        rows_view(final(rows)@) == Seq::new(
            old(rows)@.len(),
            |i: int| seen_row(old(rows)@[i]@, ids@, now),
        ),
        r == newly_seen(rows_view(old(rows)@), old(rows)@.len(), ids@, now),
{
    let ghost all = rows@;
    let ghost shown = rows_view(all);
    let mut changed: usize = 0;
    let mut i: usize = 0;
    while i < rows.len()
        invariant
            i <= rows@.len(),
            rows@.len() == all.len(),
            changed <= i,
            shown == rows_view(all),
            changed == newly_seen(shown, i as nat, ids@, now),
            forall|j: int| 0 <= j < i ==> (#[trigger] rows@[j])@ == seen_row(all[j]@, ids@, now),
            forall|j: int| i <= j < all.len() ==> #[trigger] rows@[j] == all[j],
        decreases rows@.len() - i,
    {
        assert(shown[i as int] == all[i as int]@);
        let listed = contains_id(ids, rows[i].id);
        if listed && rows[i].expires_at <= now && rows[i].expired_seen_at.is_none() {
            let row = MemoryRow {
                id: rows[i].id,
                title: rows[i].title.clone(),
                content: rows[i].content.clone(),
                expires_at: rows[i].expires_at,
                expired_seen_at: Some(now),
                created_at: rows[i].created_at,
                updated_at: now,
            };
            rows.set(i, row);
            changed += 1;
        }
        i += 1;
    }
    assert(rows_view(rows@) =~= Seq::new(all.len(), |i: int| seen_row(all[i]@, ids@, now)));
    changed
}

fn contains_id(ids: &Vec<i64>, id: i64) -> (r: bool)
    ensures
        r == ids@.contains(id),
{
    let mut i: usize = 0;
    while i < ids.len()
        invariant
            i <= ids@.len(),
            forall|j: int| 0 <= j < i ==> ids@[j] != id,
        decreases ids@.len() - i,
    {
        if ids[i] == id {
            return true;
        }
        i += 1;
    }
    false
}

/// Nothing is forgotten before it was shown as about to be: what expires only now stays for one
/// more round.
pub proof fn law_forgetting_is_announced(row: RowView, ids: Seq<i64>, now: i64, later: i64)
    requires
        row.expired_seen_at is None,
    ensures
        !is_forgotten(row, now),
        is_forgotten(seen_row(row, ids, now), later) ==> ids.contains(row.id) && row.expires_at
            <= now && row.expires_at <= later,
{
}

/// Giving something a new time takes back that it is about to be forgotten.
pub proof fn law_keeping_takes_back(
    row: RowView,
    content: Option<Seq<char>>,
    expires_at: i64,
    now: i64,
    later: i64,
)
    ensures
        !is_forgotten(changed_row(row, content, Some(expires_at), now), later),
{
}

} // verus!
