//! Tasks, and the expressions that say when they run.

use vstd::prelude::*;

use std::str::FromStr;

use crate::json::{json_written, write_json, Json, JsonView};
use crate::local_time::{
    moment_fits, moment_of, parse_reading, reading_parsed, showable, WallMoment,
    EARLIEST_TIMESTAMP, LATEST_TIMESTAMP,
};
use crate::text::{
    chars_of, contains_char, count_words, decimal, decimal_of, join, join_of, strip_prefix, texts,
    trim, trim_of, without_prefix, words_of,
};

verus! {

pub const SCHEDULE_TITLE_MAX_CHARS: usize = 50;

pub const SCHEDULE_INSTRUCTION_MAX_CHARS: usize = 1000;

pub const SCHEDULE_MAX_CHARS: usize = 100;

/// What an expression for a single run begins with.
pub const AT_PREFIX: &'static str = "at:";

/// What an expression for repeated runs begins with.
pub const CRON_PREFIX: &'static str = "cron:";

/// How a single run is written.
pub const LOCAL_DATETIME_FORMAT: &'static str = "%Y-%m-%d %H:%M:%S";

/// A task, with the conversation that it wakes.
#[derive(Debug, PartialEq, Eq)]
pub struct ScheduledTask {
    pub id: String,
    pub conversation_id: i64,
    pub source: String,
    pub source_conversation_id: String,
    pub conversation_kind: String,
    pub conversation_title: Option<String>,
    pub bot_id: String,
    pub title: String,
    pub schedule: String,
    pub instruction: String,
    pub next_run_at: i64,
    pub last_triggered_at: Option<i64>,
    pub created_at: i64,
    pub updated_at: i64,
}

impl Clone for ScheduledTask {
    fn clone(&self) -> (r: ScheduledTask)
        ensures
            r == *self,
    {
        ScheduledTask {
            id: self.id.clone(),
            conversation_id: self.conversation_id,
            source: self.source.clone(),
            source_conversation_id: self.source_conversation_id.clone(),
            conversation_kind: self.conversation_kind.clone(),
            conversation_title: self.conversation_title.clone(),
            bot_id: self.bot_id.clone(),
            title: self.title.clone(),
            schedule: self.schedule.clone(),
            instruction: self.instruction.clone(),
            next_run_at: self.next_run_at,
            last_triggered_at: self.last_triggered_at,
            created_at: self.created_at,
            updated_at: self.updated_at,
        }
    }
}

/// What a prompt shows of a task.
#[derive(Debug, PartialEq, Eq)]
pub struct ScheduledTaskSummary<'a> {
    pub task_id: &'a str,
    pub title: &'a str,
    pub schedule: &'a str,
}

impl ScheduledTask {
    /// What a prompt shows of the task.
    pub fn summary(&self) -> (r: ScheduledTaskSummary<'_>)
        ensures
            r.task_id@ == self.id@,
            r.title@ == self.title@,
            r.schedule@ == self.schedule@,
    {
        ScheduledTaskSummary {
            task_id: self.id.as_str(),
            title: self.title.as_str(),
            schedule: self.schedule.as_str(),
        }
    }
}

/// A task as a prompt shows it: an object of JSON over several lines.
pub open spec fn task_block(task: ScheduledTask) -> Seq<char> {
    "  {\n    \"task_id\": "@ + json_written(JsonView::Text(task.id@)) + ",\n    \"title\": "@
        + json_written(JsonView::Text(task.title@)) + ",\n    \"schedule\": "@ + json_written(
        JsonView::Text(task.schedule@),
    ) + "\n  }"@
}

/// Tasks as a prompt shows them.
pub open spec fn task_blocks(tasks: Seq<ScheduledTask>) -> Seq<Seq<char>> {
    Seq::new(tasks.len(), |i: int| task_block(tasks[i]))
}

/// Tasks as a prompt shows them: a list of JSON over several lines.
pub open spec fn task_list(tasks: Seq<ScheduledTask>) -> Seq<char> {
    if tasks.len() == 0 {
        "[]"@
    } else {
        "[\n"@ + join_of(task_blocks(tasks), ",\n"@) + "\n]"@
    }
}

/// Tasks as a prompt shows them: their numbers, titles and schedules.
pub fn render_task_summaries(tasks: &Vec<ScheduledTask>) -> (r: String)
    ensures
        r@ == task_list(tasks@),
{
    if tasks.len() == 0 {
        return "[]".to_owned();
    }
    let ghost all = task_blocks(tasks@);
    let mut blocks: Vec<String> = Vec::new();
    let mut i: usize = 0;
    while i < tasks.len()
        invariant
            i <= tasks@.len(),
            all == task_blocks(tasks@),
            texts(blocks@) =~= all.take(i as int),
        decreases tasks@.len() - i,
    {
        let summary = tasks[i].summary();
        let ghost before = texts(blocks@);
        let mut block = "  {\n    \"task_id\": ".to_owned();
        block.push_str(&write_json(&Json::text(summary.task_id)));
        block.push_str(",\n    \"title\": ");
        block.push_str(&write_json(&Json::text(summary.title)));
        block.push_str(",\n    \"schedule\": ");
        block.push_str(&write_json(&Json::text(summary.schedule)));
        block.push_str("\n  }");
        blocks.push(block);
        assert(texts(blocks@) =~= before.push(all[i as int]));
        i += 1;
    }
    assert(all.take(i as int) =~= all);
    let mut r = "[\n".to_owned();
    r.push_str(&join(&blocks, ",\n"));
    r.push_str("\n]");
    r
}

/// Which text of a task has a length out of bounds.
#[derive(Debug, Clone, Copy, PartialEq, Eq, Structural)]
pub enum TaskText {
    Schedule,
    Title,
    Instruction,
}

/// The name of a text of a task.
pub open spec fn task_text_name(text: TaskText) -> Seq<char> {
    match text {
        TaskText::Schedule => "时间表达式"@,
        TaskText::Title => "任务标题"@,
        TaskText::Instruction => "任务说明"@,
    }
}

/// How long a text of a task may be.
pub open spec fn task_text_limit(text: TaskText) -> usize {
    match text {
        TaskText::Schedule => SCHEDULE_MAX_CHARS,
        TaskText::Title => SCHEDULE_TITLE_MAX_CHARS,
        TaskText::Instruction => SCHEDULE_INSTRUCTION_MAX_CHARS,
    }
}

/// Why a task is refused.
#[derive(Debug, Clone, Copy, PartialEq, Eq, Structural)]
pub enum ScheduleError {
    Length(TaskText),
    TitleHasLines,
    /// The expression begins with none of the known words.
    UnknownForm,
    BadTime,
    AmbiguousTime,
    MissingTime,
    PastTime,
    CronFields,
    BadCron,
    NoOccurrence,
}

/// What an error says.
pub open spec fn schedule_error_text(error: ScheduleError) -> Seq<char> {
    match error {
        ScheduleError::Length(text) => task_text_name(text) + "长度必须在 "@ + decimal_of(1)
            + " 到 "@ + decimal_of(task_text_limit(text) as nat) + " 个字符之间"@,
        ScheduleError::TitleHasLines => "任务标题必须是单行文本"@,
        ScheduleError::UnknownForm =>
        "时间表达式必须使用 at:YYYY-MM-DD HH:MM:SS 或 cron:分 时 日 月 周"@,
        ScheduleError::BadTime => "单次任务时间格式无效，应为 YYYY-MM-DD HH:MM:SS"@,
        ScheduleError::AmbiguousTime => "单次任务时间在当前系统时区中存在歧义"@,
        ScheduleError::MissingTime => "单次任务时间在当前系统时区中不存在"@,
        ScheduleError::PastTime => "单次任务时间必须晚于当前时间"@,
        ScheduleError::CronFields => "周期任务必须使用五段 cron 表达式：分 时 日 月 周"@,
        ScheduleError::BadCron => "cron 表达式无效"@,
        ScheduleError::NoOccurrence => "无法计算 cron 表达式的下一次执行时间"@,
    }
}

impl ScheduleError {
    /// What the error says.
    pub fn message(&self) -> (r: String)
        ensures
            r@ == schedule_error_text(*self),
    {
        let text = match self {
            ScheduleError::Length(text) => {
                let (name, limit): (&'static str, usize) = match text {
                    TaskText::Schedule => ("时间表达式", SCHEDULE_MAX_CHARS),
                    TaskText::Title => ("任务标题", SCHEDULE_TITLE_MAX_CHARS),
                    TaskText::Instruction => ("任务说明", SCHEDULE_INSTRUCTION_MAX_CHARS),
                };
                let mut r = name.to_owned();
                r.push_str("长度必须在 ");
                r.push_str(&decimal(1));
                r.push_str(" 到 ");
                r.push_str(&decimal(limit as u64));
                r.push_str(" 个字符之间");
                return r;
            },
            ScheduleError::TitleHasLines => "任务标题必须是单行文本",
            ScheduleError::UnknownForm => "时间表达式必须使用 at:YYYY-MM-DD HH:MM:SS 或 cron:分 时 日 月 周",
            ScheduleError::BadTime => "单次任务时间格式无效，应为 YYYY-MM-DD HH:MM:SS",
            ScheduleError::AmbiguousTime => "单次任务时间在当前系统时区中存在歧义",
            ScheduleError::MissingTime => "单次任务时间在当前系统时区中不存在",
            ScheduleError::PastTime => "单次任务时间必须晚于当前时间",
            ScheduleError::CronFields => "周期任务必须使用五段 cron 表达式：分 时 日 月 周",
            ScheduleError::BadCron => "cron 表达式无效",
            ScheduleError::NoOccurrence => "无法计算 cron 表达式的下一次执行时间",
        };
        text.to_owned()
    }
}

/// Whether a text has at least one character and no more than its limit.
pub open spec fn length_fits(text: Seq<char>, limit: usize) -> bool {
    1 <= text.len() <= limit
}

/// Checks that a text has at least one character and no more than its limit.
pub fn validate_text_length(value: &str, limit: usize) -> (r: bool)
    ensures
        r == length_fits(value@, limit),
{
    let length: usize = chars_of(value).len();
    1 <= length && length <= limit
}

/// What is wrong with the title and the instruction of a task.
pub open spec fn task_text_fault(title: Seq<char>, instruction: Seq<char>) -> Option<
    ScheduleError,
> {
    if !length_fits(trim_of(title), SCHEDULE_TITLE_MAX_CHARS) {
        Some(ScheduleError::Length(TaskText::Title))
    } else if title.contains('\r') || title.contains('\n') {
        Some(ScheduleError::TitleHasLines)
    } else if !length_fits(trim_of(instruction), SCHEDULE_INSTRUCTION_MAX_CHARS) {
        Some(ScheduleError::Length(TaskText::Instruction))
    } else {
        None
    }
}

/// Checks the title and the instruction of a task.
pub fn validate_task_text(title: &str, instruction: &str) -> (r: Result<(), ScheduleError>)
    ensures
        r == (match task_text_fault(title@, instruction@) {
            Some(e) => Err::<(), ScheduleError>(e),
            None => Ok(()),
        }),
{
    if !validate_text_length(&trim(title), SCHEDULE_TITLE_MAX_CHARS) {
        return Err(ScheduleError::Length(TaskText::Title));
    }
    if contains_char(title, '\r') || contains_char(title, '\n') {
        return Err(ScheduleError::TitleHasLines);
    }
    if !validate_text_length(&trim(instruction), SCHEDULE_INSTRUCTION_MAX_CHARS) {
        return Err(ScheduleError::Length(TaskText::Instruction));
    }
    Ok(())
}

/// Whether `croner::Cron::from_str` accepts a text.
pub uninterp spec fn cron_accepted(text: Seq<char>) -> bool;

/// `croner::Cron::from_str`. Whether it accepts the text is named.
#[verifier::external_body]
fn accepts_cron(text: &str) -> (r: bool)
    ensures
        r == cron_accepted(text@),
{
    croner::Cron::from_str(text).is_ok()
}

/// The question when something runs next that runs again and again: as the text says, and after a
/// point in time.
#[derive(Debug, PartialEq, Eq)]
pub struct CronQuery {
    pub text: String,
    pub seconds: i64,
    pub nanos: u32,
}

/// The question when an expression runs next after a point in time.
pub fn cron_query(value: &str, after: i64, after_nanos: u32) -> (q: CronQuery)
    ensures
        q.text@ == trim_of(value@),
        q.seconds == after,
        q.nanos == after_nanos,
{
    CronQuery { text: trim(value), seconds: after, nanos: after_nanos }
}

/// Whether a run can be looked for from a point in time on: a clock can show it in every time zone,
/// none of which is a day from UTC.
pub open spec fn searchable(seconds: i64) -> bool {
    EARLIEST_TIMESTAMP + 86_400 <= seconds <= LATEST_TIMESTAMP - 86_400
}

/// `croner::Cron::from_str` on the text of a question, and `croner::Cron::find_next_occurrence`
/// from its point in time on, which itself is left out, in the time zone of the machine. Which point
/// in time comes back rests on that zone, and nothing is claimed of it: whoever asks looks whether
/// it lies ahead.
#[verifier::external_body]
fn next_occurrence(query: &CronQuery) -> (r: Option<i64>)
    requires
        cron_accepted(query.text@),
        searchable(query.seconds),
        query.nanos < 1_000_000_000,
{
    let cron = croner::Cron::from_str(&query.text).unwrap();
    let after = chrono::DateTime::from_timestamp(query.seconds, query.nanos).unwrap();
    match cron.find_next_occurrence(&after.with_timezone(&chrono::Local), false) {
        Ok(next) => Some(next.timestamp()),
        Err(_) => None,
    }
}

/// An expression for when a task runs.
pub enum ScheduleForm {
    /// Once, at the reading of the clock on the wall that this text gives.
    At(Seq<char>),
    /// Again and again, as this text says.
    Cron(Seq<char>),
    Unknown,
}

/// The form of a trimmed expression.
pub open spec fn form_of(schedule: Seq<char>) -> ScheduleForm {
    match without_prefix(schedule, AT_PREFIX@) {
        Some(value) => ScheduleForm::At(trim_of(value)),
        None => match without_prefix(schedule, CRON_PREFIX@) {
            Some(value) => ScheduleForm::Cron(trim_of(value)),
            None => ScheduleForm::Unknown,
        },
    }
}

/// What is wrong with an expression, whatever the time and the place.
pub open spec fn schedule_fault(schedule: Seq<char>) -> Option<ScheduleError> {
    let trimmed = trim_of(schedule);
    if !length_fits(trimmed, SCHEDULE_MAX_CHARS) {
        Some(ScheduleError::Length(TaskText::Schedule))
    } else {
        match form_of(trimmed) {
            ScheduleForm::At(value) => if reading_parsed(value, LOCAL_DATETIME_FORMAT@) is None {
                Some(ScheduleError::BadTime)
            } else {
                None
            },
            ScheduleForm::Cron(value) => if words_of(value) != 5 {
                Some(ScheduleError::CronFields)
            } else if !cron_accepted(value) {
                Some(ScheduleError::BadCron)
            } else {
                None
            },
            ScheduleForm::Unknown => Some(ScheduleError::UnknownForm),
        }
    }
}

/// Whether a point in time comes after another.
pub open spec fn comes_after(seconds: i64, nanos: u32, after: i64, after_nanos: u32) -> bool {
    seconds > after || (seconds == after && nanos > after_nanos)
}

/// When a single run is due, by when the clock on the wall shows its reading; it must come after a
/// point in time.
pub open spec fn one_time_run_of(
    moment: WallMoment,
    nanos: u32,
    after: i64,
    after_nanos: u32,
) -> Result<i64, ScheduleError> {
    match moment {
        WallMoment::Once(t) => if comes_after(t, nanos, after, after_nanos) {
            Ok(t)
        } else {
            Err(ScheduleError::PastTime)
        },
        WallMoment::Twice(_) => Err(ScheduleError::AmbiguousTime),
        WallMoment::Never => Err(ScheduleError::MissingTime),
    }
}

/// When a single run is due, by when the clock on the wall shows its reading.
pub fn one_time_run(moment: WallMoment, nanos: u32, after: i64, after_nanos: u32) -> (r: Result<
    i64,
    ScheduleError,
>)
    ensures
        r == one_time_run_of(moment, nanos, after, after_nanos),
{
    match moment {
        WallMoment::Once(t) => {
            if t > after || (t == after && nanos > after_nanos) {
                Ok(t)
            } else {
                Err(ScheduleError::PastTime)
            }
        },
        WallMoment::Twice(_) => Err(ScheduleError::AmbiguousTime),
        WallMoment::Never => Err(ScheduleError::MissingTime),
    }
}

/// When a repeated run is due, by what the search for it found: it must come after a point in time.
pub open spec fn repeated_run_of(next: Option<i64>, after: i64) -> Result<i64, ScheduleError> {
    match next {
        Some(t) => if t > after {
            Ok(t)
        } else {
            Err(ScheduleError::NoOccurrence)
        },
        None => Err(ScheduleError::NoOccurrence),
    }
}

/// When a repeated run is due, by what the search for it found.
pub fn repeated_run(next: Option<i64>, after: i64) -> (r: Result<i64, ScheduleError>)
    ensures
        r == repeated_run_of(next, after),
{
    match next {
        Some(t) => {
            if t > after {
                Ok(t)
            } else {
                Err(ScheduleError::NoOccurrence)
            }
        },
        None => Err(ScheduleError::NoOccurrence),
    }
}

/// Whether the result of a run fits the form of its expression: a single run is the one that the
/// clock on the wall decides, and each lies ahead.
pub open spec fn run_fits(
    form: ScheduleForm,
    r: Result<i64, ScheduleError>,
    after: i64,
    after_nanos: u32,
) -> bool {
    match form {
        ScheduleForm::At(value) => {
            let reading = reading_parsed(value, LOCAL_DATETIME_FORMAT@).unwrap();
            exists|moment: WallMoment|
                #[trigger]
                moment_fits(moment, reading.0) && r == one_time_run_of(
                    moment,
                    reading.1,
                    after,
                    after_nanos,
                )
        },
        ScheduleForm::Cron(_) => if searchable(after) {
            exists|next: Option<i64>| r == repeated_run_of(next, after)
        } else {
            r == repeated_run_of(None, after)
        },
        ScheduleForm::Unknown => false,
    }
}

/// When a task runs next after a point in time, in seconds since the start of 1970.
pub fn calculate_next_run(schedule: &str, after: i64, after_nanos: u32) -> (r: Result<
    i64,
    ScheduleError,
>)
    requires
        showable(after),
        after_nanos < 1_000_000_000,
    ensures
        match schedule_fault(schedule@) {
            Some(e) => r == Err::<i64, ScheduleError>(e),
            None => run_fits(form_of(trim_of(schedule@)), r, after, after_nanos),
        },
{
    let schedule = trim(schedule);
    if !validate_text_length(&schedule, SCHEDULE_MAX_CHARS) {
        return Err(ScheduleError::Length(TaskText::Schedule));
    }
    if let Some(value) = strip_prefix(&schedule, AT_PREFIX) {
        return match parse_reading(&trim(&value), LOCAL_DATETIME_FORMAT) {
            Some((seconds, nanos)) => {
                let moment = moment_of(seconds, nanos);
                one_time_run(moment, nanos, after, after_nanos)
            },
            None => Err(ScheduleError::BadTime),
        };
    }
    if let Some(value) = strip_prefix(&schedule, CRON_PREFIX) {
        let query = cron_query(&value, after, after_nanos);
        if count_words(&query.text) != 5 {
            return Err(ScheduleError::CronFields);
        }
        if !accepts_cron(&query.text) {
            return Err(ScheduleError::BadCron);
        }
        if after < EARLIEST_TIMESTAMP + 86_400 || after > LATEST_TIMESTAMP - 86_400 {
            return repeated_run(None, after);
        }
        return repeated_run(next_occurrence(&query), after);
    }
    Err(ScheduleError::UnknownForm)
}

/// A run lies after the point in time that it was asked from: a repeated one in a later second, a
/// single one by its nanoseconds at least.
pub proof fn law_runs_lie_ahead(
    form: ScheduleForm,
    run: i64,
    after: i64,
    after_nanos: u32,
)
    requires
        run_fits(form, Ok(run), after, after_nanos),
    ensures
        match form {
            ScheduleForm::At(value) => comes_after(
                run,
                reading_parsed(value, LOCAL_DATETIME_FORMAT@).unwrap().1,
                after,
                after_nanos,
            ),
            _ => run > after,
        },
{
}

} // verus!
