//! What the assistant remembers of a conversation.

use vstd::prelude::*;

use crate::json::option_text;
use crate::text::{
    chars_of, contains_char, decimal, decimal_of, lemma_made_of_more, lemma_made_of_none, made_of,
    replace, replace_of, same_text, texts, trim, trim_end, trim_end_of, trim_of,
};

verus! {

pub const MAX_GROUP_MEMORIES: usize = 50;

pub const MAX_TITLE_CHARS: usize = 50;

pub const MAX_CONTENT_CHARS: usize = 1000;

pub const MAX_RETENTION_DAYS: u16 = 365;

pub const SECONDS_PER_DAY: i64 = 86400;

/// Something that is remembered of a conversation, with the day of its last change.
#[derive(Debug, PartialEq, Eq)]
pub struct GroupMemory {
    pub id: i64,
    pub title: String,
    pub content: String,
    /// When it is forgotten; 0 means never.
    pub expires_at: i64,
    pub updated_on: String,
}

/// Why something is not remembered or forgotten.
#[derive(Debug, PartialEq, Eq)]
pub enum MemoryError {
    EmptyTitle,
    TitleHasLines,
    LongTitle,
    EmptyContent,
    LongContent,
    LongRetention,
    NothingToChange,
    IncompleteNew,
    NotFound { title: String },
}

/// What an error says.
pub open spec fn memory_error_text(error: MemoryError) -> Seq<char> {
    match error {
        MemoryError::EmptyTitle => "群记忆标题不能为空"@,
        MemoryError::TitleHasLines => "群记忆标题必须是单行文本"@,
        MemoryError::LongTitle => "群记忆标题不能超过 "@ + decimal_of(MAX_TITLE_CHARS as nat) + " 个字符"@,
        MemoryError::EmptyContent => "群记忆内容不能为空"@,
        MemoryError::LongContent => "群记忆内容不能超过 "@ + decimal_of(MAX_CONTENT_CHARS as nat)
            + " 个字符"@,
        MemoryError::LongRetention => "群记忆时间必须在 0 到 "@ + decimal_of(
            MAX_RETENTION_DAYS as nat,
        ) + " 天之间，0 表示永不过期"@,
        MemoryError::NothingToChange => "修改群记忆时至少提供 content 或 retention_days"@,
        MemoryError::IncompleteNew => "新建群记忆时必须同时提供 content 和 retention_days"@,
        MemoryError::NotFound { title } => "找不到标题为“"@ + title@ + "”的群记忆"@,
    }
}

fn limit_text(before: &str, limit: u64, after: &str) -> (r: String)
    ensures
        r@ == before@ + decimal_of(limit as nat) + after@,
{
    let mut r = before.to_owned();
    r.push_str(&decimal(limit));
    r.push_str(after);
    r
}

impl MemoryError {
    /// What the error says.
    pub fn message(&self) -> (r: String)
        ensures
            r@ == memory_error_text(*self),
    {
        match self {
            MemoryError::EmptyTitle => "群记忆标题不能为空".to_owned(),
            MemoryError::TitleHasLines => "群记忆标题必须是单行文本".to_owned(),
            MemoryError::LongTitle => limit_text(
                "群记忆标题不能超过 ",
                MAX_TITLE_CHARS as u64,
                " 个字符",
            ),
            MemoryError::EmptyContent => "群记忆内容不能为空".to_owned(),
            MemoryError::LongContent => limit_text(
                "群记忆内容不能超过 ",
                MAX_CONTENT_CHARS as u64,
                " 个字符",
            ),
            MemoryError::LongRetention => limit_text(
                "群记忆时间必须在 0 到 ",
                MAX_RETENTION_DAYS as u64,
                " 天之间，0 表示永不过期",
            ),
            MemoryError::NothingToChange => "修改群记忆时至少提供 content 或 retention_days".to_owned(),
            MemoryError::IncompleteNew => "新建群记忆时必须同时提供 content 和 retention_days".to_owned(),
            MemoryError::NotFound { title } => {
                let mut r = "找不到标题为“".to_owned();
                r.push_str(title);
                r.push_str("”的群记忆");
                r
            },
        }
    }
}

/// What is wrong with a title.
pub open spec fn title_fault(title: Seq<char>) -> Option<MemoryError> {
    if title.len() == 0 {
        Some(MemoryError::EmptyTitle)
    } else if title.contains('\r') || title.contains('\n') {
        Some(MemoryError::TitleHasLines)
    } else if title.len() > MAX_TITLE_CHARS {
        Some(MemoryError::LongTitle)
    } else {
        None
    }
}

/// What is wrong with a content.
pub open spec fn content_fault(content: Seq<char>) -> Option<MemoryError> {
    if content.len() == 0 {
        Some(MemoryError::EmptyContent)
    } else if content.len() > MAX_CONTENT_CHARS {
        Some(MemoryError::LongContent)
    } else {
        None
    }
}

/// Checks a title.
pub fn validate_title(title: &str) -> (r: Result<(), MemoryError>)
    ensures
        r == (match title_fault(title@) {
            Some(e) => Err::<(), MemoryError>(e),
            None => Ok(()),
        }),
{
    let length: usize = chars_of(title).len();
    if length == 0 {
        return Err(MemoryError::EmptyTitle);
    }
    if contains_char(title, '\r') || contains_char(title, '\n') {
        return Err(MemoryError::TitleHasLines);
    }
    if length > MAX_TITLE_CHARS {
        return Err(MemoryError::LongTitle);
    }
    Ok(())
}

/// Checks a content.
pub fn validate_content(content: &str) -> (r: Result<(), MemoryError>)
    ensures
        r == (match content_fault(content@) {
            Some(e) => Err::<(), MemoryError>(e),
            None => Ok(()),
        }),
{
    let length: usize = chars_of(content).len();
    if length == 0 {
        return Err(MemoryError::EmptyContent);
    }
    if length > MAX_CONTENT_CHARS {
        return Err(MemoryError::LongContent);
    }
    Ok(())
}

/// Whether something has a title.
pub open spec fn has_title(titles: Seq<Seq<char>>, title: Seq<char>) -> bool {
    exists|i: int| 0 <= i < titles.len() && #[trigger] titles[i] == title
}

/// What is to be remembered under a title.
#[derive(Debug, PartialEq, Eq)]
pub struct PlannedMemory {
    pub title: String,
    /// The content, where it changes.
    pub content: Option<String>,
    /// When it is forgotten, where that changes; 0 means never.
    pub expires_at: Option<i64>,
}

/// A text that may be absent, trimmed.
pub open spec fn trimmed(text: Option<Seq<char>>) -> Option<Seq<char>> {
    match text {
        Some(t) => Some(trim_of(t)),
        None => None,
    }
}

/// What is wrong with remembering something. What has a title already may be changed in part, new
/// things need a content and a time.
pub open spec fn set_fault(
    title: Seq<char>,
    content: Option<Seq<char>>,
    retention_days: Option<u16>,
    exists_already: bool,
) -> Option<MemoryError> {
    if title_fault(title) is Some {
        title_fault(title)
    } else if content is Some && content_fault(content.unwrap()) is Some {
        content_fault(content.unwrap())
    } else if retention_days is Some && retention_days.unwrap() > MAX_RETENTION_DAYS {
        Some(MemoryError::LongRetention)
    } else if exists_already && content is None && retention_days is None {
        Some(MemoryError::NothingToChange)
    } else if !exists_already && (content is None || retention_days is None) {
        Some(MemoryError::IncompleteNew)
    } else {
        None
    }
}

/// When something is forgotten that is kept for some days from now on; 0 means never.
pub open spec fn expiry_of(days: Option<u16>, now: i64) -> Option<i64> {
    match days {
        Some(days) => if days == 0 {
            Some(0)
        } else {
            Some((now + days * SECONDS_PER_DAY) as i64)
        },
        None => None,
    }
}

fn find_title(titles: &Vec<String>, title: &str) -> (r: bool)
    ensures
        r == has_title(texts(titles@), title@),
{
    let ghost all = texts(titles@);
    let mut i: usize = 0;
    while i < titles.len()
        invariant
            i <= titles@.len(),
            all == texts(titles@),
            forall|j: int| 0 <= j < i ==> #[trigger] all[j] != title@,
        decreases titles@.len() - i,
    {
        if same_text(&titles[i], title) {
            assert(all[i as int] == title@);
            return true;
        }
        i += 1;
    }
    false
}

/// Plans what is to be remembered under a title, among what has the titles `titles`.
pub fn plan_set_memory(
    title: &str,
    content: &Option<String>,
    retention_days: Option<u16>,
    titles: &Vec<String>,
    now: i64,
) -> (r: Result<PlannedMemory, MemoryError>)
    requires
        now <= i64::MAX - MAX_RETENTION_DAYS * SECONDS_PER_DAY,
    ensures
        ({
            let name = trim_of(title@);
            let text = trimmed(option_text(*content));
            match set_fault(name, text, retention_days, has_title(texts(titles@), name)) {
                Some(e) => r == Err::<PlannedMemory, MemoryError>(e),
                None => r is Ok && r->Ok_0.title@ == name && option_text(r->Ok_0.content) == text
                    && r->Ok_0.expires_at == expiry_of(retention_days, now),
            }
        }),
{
    let title = trim(title);
    let content: Option<String> = match content {
        Some(text) => Some(trim(text)),
        None => None,
    };
    match validate_title(&title) {
        Ok(()) => {},
        Err(e) => {
            return Err(e);
        },
    }
    if let Some(text) = &content {
        match validate_content(text) {
            Ok(()) => {},
            Err(e) => {
                return Err(e);
            },
        }
    }
    if let Some(days) = retention_days {
        if days > MAX_RETENTION_DAYS {
            return Err(MemoryError::LongRetention);
        }
    }
    if find_title(titles, &title) {
        if content.is_none() && retention_days.is_none() {
            return Err(MemoryError::NothingToChange);
        }
    } else if content.is_none() || retention_days.is_none() {
        return Err(MemoryError::IncompleteNew);
    }
    let expires_at: Option<i64> = match retention_days {
        Some(days) => {
            if days == 0 {
                Some(0)
            } else {
                Some(now + days as i64 * SECONDS_PER_DAY)
            }
        },
        None => None,
    };
    Ok(PlannedMemory { title, content, expires_at })
}

/// What is answered once something is remembered.
pub open spec fn set_reply(
    title: Seq<char>,
    created: bool,
    evicted_title: Option<Seq<char>>,
) -> Seq<char> {
    let done = "群记忆“"@ + title + "”"@ + (if created {
        "添加"@
    } else {
        "修改"@
    }) + "成功"@;
    match evicted_title {
        Some(evicted) => done + "；记忆数量超过 "@ + decimal_of(MAX_GROUP_MEMORIES as nat)
            + " 条，已遗忘最快到期的“"@ + evicted + "”"@,
        None => done,
    }
}

/// What is answered once something is remembered.
pub fn set_memory_reply(title: &str, created: bool, evicted_title: &Option<String>) -> (r: String)
    ensures
        r@ == set_reply(title@, created, option_text(*evicted_title)),
{
    let mut r = "群记忆“".to_owned();
    r.push_str(title);
    r.push_str("”");
    if created {
        r.push_str("添加");
    } else {
        r.push_str("修改");
    }
    r.push_str("成功");
    if let Some(evicted) = evicted_title {
        r.push_str("；记忆数量超过 ");
        r.push_str(&decimal(MAX_GROUP_MEMORIES as u64));
        r.push_str(" 条，已遗忘最快到期的“");
        r.push_str(evicted);
        r.push_str("”");
    }
    r
}

/// Checks the title of what is to be forgotten, and gives it trimmed.
pub fn plan_delete_memory(title: &str) -> (r: Result<String, MemoryError>)
    ensures
        match title_fault(trim_of(title@)) {
            Some(e) => r == Err::<String, MemoryError>(e),
            None => r is Ok && r->Ok_0@ == trim_of(title@),
        },
{
    let title = trim(title);
    match validate_title(&title) {
        Ok(()) => Ok(title),
        Err(e) => Err(e),
    }
}

/// What is answered once something was to be forgotten.
pub fn delete_memory_reply(title: &str, deleted: bool) -> (r: Result<String, MemoryError>)
    ensures
        deleted ==> r is Ok && r->Ok_0@ == "群记忆“"@ + title@ + "”删除成功"@,
        !deleted ==> r is Err && (r->Err_0 matches MemoryError::NotFound { title: t } && t@
            == title@),
{
    if !deleted {
        return Err(MemoryError::NotFound { title: title.to_owned() });
    }
    let mut r = "群记忆“".to_owned();
    r.push_str(title);
    r.push_str("”删除成功");
    Ok(r)
}

/// How long something is still remembered.
pub open spec fn remaining_text(expires_at: i64, now: i64) -> Seq<char> {
    if expires_at == 0 {
        "长期（永不过期）"@
    } else if expires_at <= now {
        "0天（已到期，即将遗忘）"@
    } else {
        decimal_of(((expires_at - now + SECONDS_PER_DAY - 1) / SECONDS_PER_DAY as int) as nat) + "天"@
    }
}

/// Something that is remembered, as a prompt shows it.
pub open spec fn memory_block(memory: GroupMemory, now: i64) -> Seq<char> {
    "---\n- 标题："@ + memory.title@ + "\n- 内容："@ + replace_of(memory.content@, "\n"@, "\n    "@)
        + "\n- 最后更新时间："@ + memory.updated_on@ + "\n- 剩余记忆时间："@ + remaining_text(
        memory.expires_at,
        now,
    ) + "\n---\n"@
}

/// What is remembered, as a prompt shows it.
pub open spec fn memory_blocks(memories: Seq<GroupMemory>, now: i64) -> Seq<char>
    decreases memories.len(),
{
    if memories.len() == 0 {
        Seq::empty()
    } else {
        memory_blocks(memories.drop_last(), now) + memory_block(memories.last(), now)
    }
}

/// Whether something is shown as about to be forgotten.
pub open spec fn shown_expired(memory: GroupMemory, now: i64) -> bool {
    memory.expires_at != 0 && memory.expires_at <= now
}

/// The numbers of what is shown as about to be forgotten.
pub open spec fn expired_ids(memories: Seq<GroupMemory>, now: i64) -> Seq<i64>
    decreases memories.len(),
{
    if memories.len() == 0 {
        Seq::empty()
    } else if shown_expired(memories.last(), now) {
        expired_ids(memories.drop_last(), now).push(memories.last().id)
    } else {
        expired_ids(memories.drop_last(), now)
    }
}

fn push_memory_block(prompt: &mut String, memory: &GroupMemory, now: i64)
    ensures
        final(prompt)@ == old(prompt)@ + memory_block(*memory, now),
{
    let ghost before = prompt@;
    prompt.push_str("---\n- 标题：");
    prompt.push_str(&memory.title);
    prompt.push_str("\n- 内容：");
    prompt.push_str(&replace(&memory.content, "\n", "\n    "));
    prompt.push_str("\n- 最后更新时间：");
    prompt.push_str(&memory.updated_on);
    prompt.push_str("\n- 剩余记忆时间：");
    if memory.expires_at == 0 {
        prompt.push_str("长期（永不过期）");
    } else if memory.expires_at <= now {
        prompt.push_str("0天（已到期，即将遗忘）");
    } else {
        let seconds: i128 = memory.expires_at as i128 - now as i128;
        let days: i128 = (seconds + 86400 - 1) / 86400;
        prompt.push_str(&decimal(days as u64));
        prompt.push_str("天");
    }
    prompt.push_str("\n---\n");
    assert(prompt@ =~= before + memory_block(*memory, now));
}

/// What a prompt shows of what is remembered, and the numbers of what it shows as about to be
/// forgotten.
pub fn render_prompt(memories: &Vec<GroupMemory>, now: i64) -> (r: (String, Vec<i64>))
    ensures
        memories@.len() == 0 ==> r.0@ == "当前没有群记忆"@,
        memories@.len() > 0 ==> r.0@ == trim_end_of(memory_blocks(memories@, now)),
        r.1@ == expired_ids(memories@, now),
{
    if memories.len() == 0 {
        return ("当前没有群记忆".to_owned(), Vec::new());
    }
    let mut prompt = String::new();
    let mut expired: Vec<i64> = Vec::new();
    let mut i: usize = 0;
    assert(memories@.take(0) =~= Seq::empty());
    assert(prompt@ =~= Seq::empty());
    while i < memories.len()
        invariant
            i <= memories@.len(),
            prompt@ == memory_blocks(memories@.take(i as int), now),
            expired@ =~= expired_ids(memories@.take(i as int), now),
        decreases memories@.len() - i,
    {
        assert(memories@.take(i + 1).drop_last() =~= memories@.take(i as int));
        let memory = &memories[i];
        if memory.expires_at != 0 && memory.expires_at <= now {
            expired.push(memory.id);
        }
        push_memory_block(&mut prompt, memory, now);
        i += 1;
    }
    assert(memories@.take(i as int) =~= memories@);
    (trim_end(&prompt), expired)
}

/// What is kept for days from now on is not shown as about to be forgotten before they have passed.
pub proof fn law_kept_memories_stay(days: u16, now: i64, later: i64, memory: GroupMemory)
    requires
        days <= MAX_RETENTION_DAYS,
        0 <= now <= i64::MAX - MAX_RETENTION_DAYS * SECONDS_PER_DAY,
        expiry_of(Some(days), now) == Some(memory.expires_at),
    ensures
        shown_expired(memory, later) <==> days > 0 && later >= now + days * SECONDS_PER_DAY,
{
    assert(days * SECONDS_PER_DAY <= MAX_RETENTION_DAYS * SECONDS_PER_DAY) by (nonlinear_arith)
        requires
            days <= MAX_RETENTION_DAYS,
            SECONDS_PER_DAY > 0,
    ;
    assert(days > 0 ==> days * SECONDS_PER_DAY > 0) by (nonlinear_arith)
        requires
            SECONDS_PER_DAY > 0,
    ;
}

/// What a prompt says of something that is remembered: its title, its content, whose lines are set
/// in, the day of its last change, and how long it is still remembered.
pub open spec fn told_memory(memory: GroupMemory, left: Seq<char>) -> Seq<char> {
    "---\n- 标题："@ + memory.title@ + "\n- 内容："@ + replace_of(memory.content@, "\n"@, "\n    "@)
        + "\n- 最后更新时间："@ + memory.updated_on@ + "\n- 剩余记忆时间："@ + left + "\n---\n"@
}

/// Whether a text says how long something is still remembered: for ever, not any more, or the days
/// that are left, of which the last one counts whole.
pub open spec fn tells_time_left(left: Seq<char>, memory: GroupMemory, now: i64) -> bool {
    if memory.expires_at == 0 {
        left == "长期（永不过期）"@
    } else if memory.expires_at <= now {
        left == "0天（已到期，即将遗忘）"@
    } else {
        exists|days: nat|
            #![trigger decimal_of(days)]
            left == decimal_of(days) + "天"@ && (days - 1) * SECONDS_PER_DAY < memory.expires_at - now
                <= days * SECONDS_PER_DAY
    }
}

/// Whether a text says of each memory in turn what is remembered, and nothing else.
pub open spec fn tells_memories(
    text: Seq<char>,
    memories: Seq<GroupMemory>,
    now: i64,
    blocks: Seq<Seq<char>>,
    lefts: Seq<Seq<char>>,
    ends: Seq<int>,
) -> bool {
    &&& blocks.len() == memories.len()
    &&& lefts.len() == memories.len()
    &&& made_of(text, blocks, ends)
    &&& forall|i: int|
        0 <= i < memories.len() ==> (#[trigger] blocks[i]) == told_memory(memories[i], lefts[i])
            && tells_time_left(lefts[i], memories[i], now)
}

/// What a prompt shows is one block for each thing that is remembered, in order, with its title, its
/// content and how long it is still remembered.
pub proof fn law_every_memory_is_shown(memories: Seq<GroupMemory>, now: i64)
    ensures
        exists|blocks: Seq<Seq<char>>, lefts: Seq<Seq<char>>, ends: Seq<int>| #[trigger]
            tells_memories(memory_blocks(memories, now), memories, now, blocks, lefts, ends),
    decreases memories.len(),
{
    if memories.len() == 0 {
        lemma_made_of_none();
        assert(tells_memories(
            memory_blocks(memories, now),
            memories,
            now,
            Seq::empty(),
            Seq::empty(),
            seq![0int],
        ));
    } else {
        let front = memories.drop_last();
        let n = memories.len() - 1;
        law_every_memory_is_shown(front, now);
        let text = memory_blocks(front, now);
        let (blocks, lefts, ends) = choose|
            blocks: Seq<Seq<char>>,
            lefts: Seq<Seq<char>>,
            ends: Seq<int>,
        | #[trigger]
            tells_memories(text, front, now, blocks, lefts, ends);
        let memory = memories[n];
        let left = remaining_text(memory.expires_at, now);
        let block = told_memory(memory, left);
        assert(memory_block(memory, now) =~= block);
        if memory.expires_at != 0 && memory.expires_at > now {
            let days = ((memory.expires_at - now + SECONDS_PER_DAY - 1) / SECONDS_PER_DAY as int)
                as nat;
            assert(left == decimal_of(days) + "天"@);
            assert((days - 1) * SECONDS_PER_DAY < memory.expires_at - now <= days
                * SECONDS_PER_DAY);
        }
        lemma_made_of_more(text, blocks, ends, block);
        let all = blocks.push(block);
        let all_lefts = lefts.push(left);
        assert forall|i: int| 0 <= i < memories.len() implies (#[trigger] all[i]) == told_memory(
            memories[i],
            all_lefts[i],
        ) && tells_time_left(all_lefts[i], memories[i], now) by {
            if i < n {
                assert(all[i] == blocks[i]);
                assert(front[i] == memories[i]);
            }
        }
        assert(tells_memories(
            memory_blocks(memories, now),
            memories,
            now,
            all,
            all_lefts,
            ends.push((text.len() + block.len()) as int),
        ));
    }
}

/// The numbers that are noted are exactly those of what is shown as about to be forgotten.
pub proof fn law_expired_memories_are_noted(memories: Seq<GroupMemory>, now: i64, id: i64)
    ensures
        expired_ids(memories, now).contains(id) <==> exists|i: int|
            0 <= i < memories.len() && (#[trigger] memories[i]).id == id && memories[i].expires_at
                != 0 && memories[i].expires_at <= now,
        expired_ids(memories, now).len() <= memories.len(),
    decreases memories.len(),
{
    if memories.len() > 0 {
        let front = memories.drop_last();
        law_expired_memories_are_noted(front, now, id);
        let before = expired_ids(front, now);
        let all = expired_ids(memories, now);
        let n = memories.len() - 1;
        if all.contains(id) {
            let k = choose|k: int| 0 <= k < all.len() && all[k] == id;
            if k < before.len() {
                assert(before[k] == id);
                let i = choose|i: int|
                    0 <= i < front.len() && (#[trigger] front[i]).id == id && front[i].expires_at
                        != 0 && front[i].expires_at <= now;
                assert(memories[i].id == id);
            } else {
                assert(memories[n].id == id);
            }
        }
        if exists|i: int|
            0 <= i < memories.len() && (#[trigger] memories[i]).id == id && memories[i].expires_at
                != 0 && memories[i].expires_at <= now {
            let i = choose|i: int|
                0 <= i < memories.len() && (#[trigger] memories[i]).id == id
                    && memories[i].expires_at != 0 && memories[i].expires_at <= now;
            if i < n {
                assert(front[i].id == id);
                let k = choose|k: int| 0 <= k < before.len() && before[k] == id;
                assert(all[k] == id);
            } else {
                assert(all[before.len() as int] == id);
            }
        }
    }
}

} // verus!
