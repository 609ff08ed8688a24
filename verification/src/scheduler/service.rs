//! Planning tasks, and waking conversations when they are due.

use vstd::prelude::*;

use rand::Rng;

use crate::conversation_trigger::{ConversationTrigger, RoutedConversationTrigger};
use crate::json::option_text;
use crate::local_time::{full_text, local_time, showable, shown_at, LocalTime};
use crate::scheduler::model::{
    calculate_next_run, form_of, run_fits, schedule_fault, task_text_fault, validate_task_text,
    ScheduleError, ScheduledTask, CRON_PREFIX,
};
use crate::text::{
    begins_with, has_text, is_ascii_word_char, occurs_at, same_text, starts_with, trim, trim_of,
};
use crate::transport::{Conversation, ConversationKind, MessageTarget};

verus! {

/// How many characters of a task's number are drawn.
pub const TASK_ID_RANDOM_CHARS: usize = 8;

/// How often a number for a task is drawn before giving up.
pub const TASK_ID_ATTEMPTS: u32 = 100;

/// How long the scheduler waits after a failure, in seconds.
pub const SCHEDULER_ERROR_RETRY_SECONDS: u64 = 5;

/// Whether a text holds so many letters and digits of ASCII and nothing else.
pub open spec fn is_random_suffix(text: Seq<char>, count: usize) -> bool {
    text.len() == count && forall|i: int|
        0 <= i < text.len() ==> is_ascii_word_char(#[trigger] text[i])
}

/// `rand::distributions::Alphanumeric`, drawn `count` times from `rand::thread_rng`: so many
/// letters and digits of ASCII. Which they are is chance.
#[verifier::external_body]
pub(crate) fn random_suffix(count: usize) -> (r: String)
    ensures
        is_random_suffix(r@, count),
{
    rand::thread_rng()
        .sample_iter(rand::distributions::Alphanumeric)
        .take(count)
        .map(char::from)
        .collect()
}

/// Draws a number for a task, unless it was tried too often; the caller sees whether it is taken.
pub fn draw_task_id(attempt: u32) -> (r: Option<String>)
    ensures
        match r {
            Some(id) => attempt < TASK_ID_ATTEMPTS && exists|suffix: Seq<char>|
                #![trigger is_random_suffix(suffix, TASK_ID_RANDOM_CHARS)]
                is_random_suffix(suffix, TASK_ID_RANDOM_CHARS) && id@ == "task_"@ + suffix,
            None => attempt >= TASK_ID_ATTEMPTS,
        },
{
    if attempt >= TASK_ID_ATTEMPTS {
        return None;
    }
    let suffix = random_suffix(TASK_ID_RANDOM_CHARS);
    let mut id = "task_".to_owned();
    id.push_str(&suffix);
    assert(is_random_suffix(suffix@, TASK_ID_RANDOM_CHARS));
    Some(id)
}

/// A task as it is to be stored.
#[derive(Debug, PartialEq, Eq)]
pub struct PlannedTask {
    pub title: String,
    pub schedule: String,
    pub instruction: String,
    pub next_run_at: i64,
}

/// What is wrong with a task, whatever the time and the place.
pub open spec fn plan_fault(title: Seq<char>, schedule: Seq<char>, instruction: Seq<char>) -> Option<
    ScheduleError,
> {
    match task_text_fault(title, instruction) {
        Some(e) => Some(e),
        None => schedule_fault(schedule),
    }
}

/// Whether a result is that of planning a task with these texts.
pub open spec fn planned_as(
    r: Result<PlannedTask, ScheduleError>,
    title: Seq<char>,
    schedule: Seq<char>,
    instruction: Seq<char>,
    now: i64,
    nanos: u32,
) -> bool {
    match plan_fault(title, schedule, instruction) {
        Some(e) => r == Err::<PlannedTask, ScheduleError>(e),
        None => match r {
            Ok(task) => task.title@ == title && task.schedule@ == schedule && task.instruction@
                == instruction && run_fits(
                form_of(trim_of(schedule)),
                Ok(task.next_run_at),
                now,
                nanos,
            ),
            Err(e) => run_fits(form_of(trim_of(schedule)), Err(e), now, nanos),
        },
    }
}

fn plan(
    title: String,
    schedule: String,
    instruction: String,
    now: i64,
    nanos: u32,
) -> (r: Result<PlannedTask, ScheduleError>)
    requires
        showable(now),
        nanos < 1_000_000_000,
    ensures
        planned_as(r, title@, schedule@, instruction@, now, nanos),
{
    match validate_task_text(&title, &instruction) {
        Ok(()) => {},
        Err(e) => {
            return Err(e);
        },
    }
    match calculate_next_run(&schedule, now, nanos) {
        Ok(next_run_at) => Ok(PlannedTask { title, schedule, instruction, next_run_at }),
        Err(e) => Err(e),
    }
}

/// Plans a task; its texts are trimmed.
pub fn create_task(title: &str, schedule: &str, instruction: &str, now: i64, nanos: u32) -> (r:
    Result<PlannedTask, ScheduleError>)
    requires
        showable(now),
        nanos < 1_000_000_000,
    ensures
        planned_as(r, trim_of(title@), trim_of(schedule@), trim_of(instruction@), now, nanos),
{
    plan(trim(title), trim(schedule), trim(instruction), now, nanos)
}

/// A text that was given, trimmed, or the one that stands.
pub open spec fn changed_text(given: Option<Seq<char>>, stands: Seq<char>) -> Seq<char> {
    match given {
        Some(text) => trim_of(text),
        None => stands,
    }
}

fn change_text(given: &Option<String>, stands: &str) -> (r: String)
    ensures
        r@ == changed_text(option_text(*given), stands@),
{
    match given {
        Some(text) => trim(text),
        None => stands.to_owned(),
    }
}

/// Plans a task anew, with the texts that are given in place of those that stand.
pub fn update_task(
    existing: &ScheduledTask,
    title: &Option<String>,
    schedule: &Option<String>,
    instruction: &Option<String>,
    now: i64,
    nanos: u32,
) -> (r: Result<PlannedTask, ScheduleError>)
    requires
        showable(now),
        nanos < 1_000_000_000,
    ensures
        planned_as(
            r,
            changed_text(option_text(*title), existing.title@),
            changed_text(option_text(*schedule), existing.schedule@),
            changed_text(option_text(*instruction), existing.instruction@),
            now,
            nanos,
        ),
{
    plan(
        change_text(title, &existing.title),
        change_text(schedule, &existing.schedule),
        change_text(instruction, &existing.instruction),
        now,
        nanos,
    )
}

/// How long to wait for a task, in seconds.
pub fn wait_seconds(next_run_at: i64, now: i64) -> (r: u64)
    ensures
        r == (if next_run_at - now > i64::MAX {
            i64::MAX as int
        } else if next_run_at > now {
            next_run_at - now
        } else {
            0
        }),
{
    let left: i128 = next_run_at as i128 - now as i128;
    if left > i64::MAX as i128 {
        i64::MAX as u64
    } else if left > 0 {
        left as u64
    } else {
        0
    }
}

/// When a task that is due runs again: a repeated one has a next run, a single one has none.
pub fn following_run(task: &ScheduledTask, now: i64, nanos: u32) -> (r: Result<
    Option<i64>,
    ScheduleError,
>)
    requires
        showable(now),
        nanos < 1_000_000_000,
    ensures
        !begins_with(task.schedule@, CRON_PREFIX@) ==> r == Ok::<Option<i64>, ScheduleError>(None),
        begins_with(task.schedule@, CRON_PREFIX@) ==> match schedule_fault(task.schedule@) {
            Some(e) => r == Err::<Option<i64>, ScheduleError>(e),
            None => match r {
                Ok(next) => next is Some && run_fits(
                    form_of(trim_of(task.schedule@)),
                    Ok(next.unwrap()),
                    now,
                    nanos,
                ),
                Err(e) => run_fits(form_of(trim_of(task.schedule@)), Err(e), now, nanos),
            },
        },
{
    if !starts_with(&task.schedule, CRON_PREFIX) {
        return Ok(None);
    }
    match calculate_next_run(&task.schedule, now, nanos) {
        Ok(next) => Ok(Some(next)),
        Err(e) => Err(e),
    }
}

/// What happens to a stored task that is claimed.
#[derive(Debug, PartialEq, Eq)]
pub enum ClaimedTask {
    /// It was changed or is gone: the claim fails.
    Refused,
    /// It runs no more and is taken out.
    Removed,
    /// It is kept for its next run.
    Kept { next_run_at: i64, last_triggered_at: i64 },
}

/// What happens to a stored task that is claimed: it must still be due when it was read to be due.
pub fn claim_scheduled_task(
    stored_next_run_at: Option<i64>,
    expected_next_run_at: i64,
    following_run_at: Option<i64>,
) -> (r: ClaimedTask)
    ensures
        r == (match stored_next_run_at {
            Some(stored) => if stored != expected_next_run_at {
                ClaimedTask::Refused
            } else {
                match following_run_at {
                    Some(next) => ClaimedTask::Kept {
                        next_run_at: next,
                        last_triggered_at: stored,
                    },
                    None => ClaimedTask::Removed,
                }
            },
            None => ClaimedTask::Refused,
        }),
{
    match stored_next_run_at {
        Some(stored) => {
            if stored != expected_next_run_at {
                return ClaimedTask::Refused;
            }
            match following_run_at {
                Some(next) => ClaimedTask::Kept { next_run_at: next, last_triggered_at: stored },
                None => ClaimedTask::Removed,
            }
        },
        None => ClaimedTask::Refused,
    }
}

/// Why a task that is due wakes no conversation.
#[derive(Debug, Clone, Copy, PartialEq, Eq, Structural)]
pub enum TriggerError {
    UnknownKind,
    BadTime,
}

/// The kind of conversation that a word names.
pub open spec fn kind_of(word: Seq<char>) -> Option<ConversationKind> {
    if word == "direct"@ {
        Some(ConversationKind::Direct)
    } else if word == "group"@ {
        Some(ConversationKind::Group)
    } else {
        None
    }
}

/// The kind of conversation that a word names.
pub fn parse_kind(word: &str) -> (r: Option<ConversationKind>)
    ensures
        r == kind_of(word@),
{
    if same_text(word, "direct") {
        Some(ConversationKind::Direct)
    } else if same_text(word, "group") {
        Some(ConversationKind::Group)
    } else {
        None
    }
}

/// The prompt with which a task wakes its conversation.
pub open spec fn trigger_prompt(
    task: ScheduledTask,
    scheduled: LocalTime,
    current: LocalTime,
    recovered_after_restart: bool,
) -> Seq<char> {
    let head = "# 系统定时任务触发\n\n任务 ID："@ + task.id@ + "\n任务名称："@ + task.title@ + "\n计划触发时间："@
        + full_text(scheduled);
    if recovered_after_restart {
        head + "\n当前时间："@ + full_text(current)
            + "\n延迟说明：程序启动时发现此任务已经超过计划触发时间，现在进行补充触发。任务原本要处理的情况可能已经变化或失去时效。\n\n任务说明：\n"@
            + task.instruction@
            + "\n\n处理要求：\n请结合任务说明、当前时间和当前会话上下文，自行判断现在最合适的处理方式。不要因为任务已触发就机械执行已经过时的内容。"@
    } else {
        head + "\n\n任务说明：\n"@ + task.instruction@
    }
}

/// Where a task wakes its conversation.
pub open spec fn task_target(task: ScheduledTask, kind: ConversationKind) -> MessageTarget {
    MessageTarget {
        source: task.source,
        bot_id: task.bot_id,
        conversation: Conversation {
            id: task.source_conversation_id,
            kind,
            title: task.conversation_title,
        },
    }
}

/// The trigger of a task, by what the clock on the wall showed or shows then and now.
pub fn build_trigger(
    task: &ScheduledTask,
    scheduled: &LocalTime,
    current: &LocalTime,
    recovered_after_restart: bool,
) -> (r: Result<RoutedConversationTrigger, TriggerError>)
    requires
        scheduled.valid(),
        current.valid(),
    ensures
        match kind_of(task.conversation_kind@) {
            Some(kind) => r is Ok && r->Ok_0.target == task_target(*task, kind)
                && r->Ok_0.trigger.user_prompt@ == trigger_prompt(
                *task,
                *scheduled,
                *current,
                recovered_after_restart,
            ) && !r->Ok_0.trigger.memory_review,
            None => r == Err::<RoutedConversationTrigger, TriggerError>(TriggerError::UnknownKind),
        },
{
    let kind = match parse_kind(&task.conversation_kind) {
        Some(kind) => kind,
        None => {
            return Err(TriggerError::UnknownKind);
        },
    };
    let mut prompt = "# 系统定时任务触发\n\n任务 ID：".to_owned();
    prompt.push_str(&task.id);
    prompt.push_str("\n任务名称：");
    prompt.push_str(&task.title);
    prompt.push_str("\n计划触发时间：");
    prompt.push_str(&scheduled.date_and_time());
    if recovered_after_restart {
        prompt.push_str("\n当前时间：");
        prompt.push_str(&current.date_and_time());
        prompt.push_str("\n延迟说明：程序启动时发现此任务已经超过计划触发时间，现在进行补充触发。任务原本要处理的情况可能已经变化或失去时效。\n\n任务说明：\n");
        prompt.push_str(&task.instruction);
        prompt.push_str("\n\n处理要求：\n请结合任务说明、当前时间和当前会话上下文，自行判断现在最合适的处理方式。不要因为任务已触发就机械执行已经过时的内容。");
    } else {
        prompt.push_str("\n\n任务说明：\n");
        prompt.push_str(&task.instruction);
    }
    Ok(
        RoutedConversationTrigger {
            target: MessageTarget {
                source: task.source.clone(),
                bot_id: task.bot_id.clone(),
                conversation: Conversation {
                    id: task.source_conversation_id.clone(),
                    kind,
                    title: task.conversation_title.clone(),
                },
            },
            trigger: ConversationTrigger { user_prompt: prompt, memory_review: false },
        },
    )
}

/// The trigger of a task that is due at `now`.
pub fn trigger_for(task: &ScheduledTask, now: i64, recovered_after_restart: bool) -> (r: Result<
    RoutedConversationTrigger,
    TriggerError,
>)
    requires
        showable(now),
    ensures
        match kind_of(task.conversation_kind@) {
            None => r == Err::<RoutedConversationTrigger, TriggerError>(TriggerError::UnknownKind),
            Some(kind) => if !showable(task.next_run_at) {
                r == Err::<RoutedConversationTrigger, TriggerError>(TriggerError::BadTime)
            } else {
                r is Ok && r->Ok_0.target == task_target(*task, kind)
                    && !r->Ok_0.trigger.memory_review && exists|scheduled: LocalTime, current: LocalTime|
                    shown_at(scheduled, task.next_run_at) && shown_at(current, now) && r->Ok_0.trigger.user_prompt@
                        == #[trigger] trigger_prompt(
                        *task,
                        scheduled,
                        current,
                        recovered_after_restart,
                    )
            },
        },
{
    if parse_kind(&task.conversation_kind).is_none() {
        return Err(TriggerError::UnknownKind);
    }
    match (local_time(task.next_run_at), local_time(now)) {
        (Some(scheduled), Some(current)) => build_trigger(
            task,
            &scheduled,
            &current,
            recovered_after_restart,
        ),
        _ => Err(TriggerError::BadTime),
    }
}

/// What wakes a conversation for a task names the task, says when it was to run, and ends with what
/// is to be done or goes on behind it; a task that was missed is said to be late.
pub proof fn law_a_task_says_what_is_to_be_done(
    task: ScheduledTask,
    scheduled: LocalTime,
    current: LocalTime,
    late: bool,
)
    ensures
        ({
            let prompt = trigger_prompt(task, scheduled, current, late);
            &&& has_text(prompt, "任务 ID："@ + task.id@)
            &&& has_text(prompt, "任务名称："@ + task.title@)
            &&& has_text(prompt, "计划触发时间："@ + full_text(scheduled))
            &&& has_text(prompt, "任务说明：\n"@ + task.instruction@)
            &&& late ==> has_text(prompt, "当前时间："@ + full_text(current))
        }),
{
    let prompt = trigger_prompt(task, scheduled, current, late);
    reveal_strlit("# 系统定时任务触发\n\n任务 ID：");
    reveal_strlit("任务 ID：");
    reveal_strlit("\n任务名称：");
    reveal_strlit("任务名称：");
    reveal_strlit("\n计划触发时间：");
    reveal_strlit("计划触发时间：");
    reveal_strlit("\n当前时间：");
    reveal_strlit("当前时间：");
    reveal_strlit("\n\n任务说明：\n");
    reveal_strlit("任务说明：\n");
    let delay = "\n延迟说明：程序启动时发现此任务已经超过计划触发时间，现在进行补充触发。任务原本要处理的情况可能已经变化或失去时效。\n\n任务说明：\n"@;
    reveal_strlit("\n延迟说明：程序启动时发现此任务已经超过计划触发时间，现在进行补充触发。任务原本要处理的情况可能已经变化或失去时效。\n\n任务说明：\n");
    let a = "# 系统定时任务触发\n\n任务 ID："@;
    let b = "\n任务名称："@;
    let c = "\n计划触发时间："@;
    let d = "\n当前时间："@;
    let e = "\n\n任务说明：\n"@;
    let id_at = a.len() - "任务 ID："@.len();
    let title_at = a.len() + task.id@.len() + b.len() - "任务名称："@.len();
    let time_at = title_at + "任务名称："@.len() + task.title@.len() + c.len() - "计划触发时间："@.len();
    let head_len = time_at + "计划触发时间："@.len() + full_text(scheduled).len();
    assert(prompt.subrange(id_at, id_at + ("任务 ID："@ + task.id@).len()) =~= "任务 ID："@ + task.id@);
    assert(occurs_at(prompt, "任务 ID："@ + task.id@, id_at));
    assert(prompt.subrange(title_at, title_at + ("任务名称："@ + task.title@).len()) =~= "任务名称："@
        + task.title@);
    assert(occurs_at(prompt, "任务名称："@ + task.title@, title_at));
    let planned = "计划触发时间："@ + full_text(scheduled);
    assert(prompt.subrange(time_at, time_at + planned.len()) =~= planned);
    assert(occurs_at(prompt, planned, time_at));
    let told = "任务说明：\n"@ + task.instruction@;
    if late {
        let now_at = head_len + d.len() - "当前时间："@.len();
        let now_text = "当前时间："@ + full_text(current);
        assert(prompt.subrange(now_at, now_at + now_text.len()) =~= now_text);
        assert(occurs_at(prompt, now_text, now_at));
        let told_at = now_at + now_text.len() + delay.len() - "任务说明：\n"@.len();
        assert(prompt.subrange(told_at, told_at + told.len()) =~= told);
        assert(occurs_at(prompt, told, told_at));
    } else {
        let told_at = head_len + e.len() - "任务说明：\n"@.len();
        assert(prompt.subrange(told_at, told_at + told.len()) =~= told);
        assert(occurs_at(prompt, told, told_at));
    }
}

} // verus!
