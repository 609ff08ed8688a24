//! Summaries of days that are over.

use vstd::prelude::*;

use crate::ai_provider::{
    messages_view, MessageView, PartView, ResponseView, ToolChatMessage, ToolChatResponse,
    ToolChatUserContent,
};
use crate::config::{render_prompt_template, rendered_template};
use crate::conversation_trigger::{ConversationTrigger, RoutedConversationTrigger};
use crate::json::{is_text, option_text};
use crate::local_time::{
    date_text, day_parsed, local_time, moment_of, parse_day, readable, second_text, showable,
    shown_at, CalendarDay, LocalTime, WallMoment, FIRST_DAY, LAST_DAY,
};
use crate::pipeline::chat_processor::{history_line, history_message_line, text_or_empty};
use crate::repository::db_manager::{ChatMessage, ConversationRecord};
use crate::scheduler::service::{kind_of, parse_kind};
use crate::text::{
    blank, decimal, decimal_of, is_blank, lemma_occurs_at_end, lemma_occurs_in_front,
    lemma_stand_in_longer, lemma_stand_one_more, occurs_at, same_text, signed_decimal,
    signed_decimal_of, stand_in_order, trim, trim_of,
};
use crate::transport::{Conversation, MessageTarget};

verus! {

/// The hour at which days that are over are summed up.
pub const COMPRESSION_RUN_HOUR: u32 = 3;

/// A day that has no summary yet.
#[derive(Debug, PartialEq, Eq)]
pub struct PendingDailySummary {
    pub conversation_id: i64,
    pub source: String,
    pub source_conversation_id: String,
    pub summary_date: String,
}

/// A summary to store.
#[derive(Debug, PartialEq, Eq)]
pub struct NewConversationDailySummary {
    pub conversation_id: i64,
    pub summary_date: String,
    pub period_start: i64,
    pub period_end: i64,
    pub summary_text: String,
    pub source_message_count: i64,
    pub source_first_message_id: i64,
    pub source_last_message_id: i64,
}

/// How many days were summed up.
#[derive(Debug, Clone, Copy, PartialEq, Eq, Structural)]
pub struct CompressionStats {
    pub pending: usize,
    pub inserted: usize,
    pub failed: usize,
}

/// Why a day cannot be summed up.
#[derive(Debug, Clone, Copy, PartialEq, Eq, Structural)]
pub enum SummaryError {
    BadTimestamp,
    BadDate,
    /// The calendar ends with the day.
    NoNextDay,
    NoPreviousDay,
    /// The clock on the wall never shows the hour on that day.
    MissingHour,
    /// The model did not come to an end.
    Unfinished,
    /// The model called tools.
    ToolCalls,
    EmptyContent,
    UnknownKind,
    NoBot,
}

impl CompressionStats {
    /// No day of so many has been summed up yet.
    pub fn new(pending: usize) -> (r: CompressionStats)
        ensures
            r == (CompressionStats { pending, inserted: 0, failed: 0 }),
    {
        CompressionStats { pending, inserted: 0, failed: 0 }
    }

    /// Counts a day: `Ok(true)` where its summary was stored, `Ok(false)` where there was nothing
    /// to do.
    pub fn record(&mut self, outcome: &Result<bool, SummaryError>)
        requires
            old(self).inserted < usize::MAX,
            old(self).failed < usize::MAX,
        ensures
            *final(self) == (match *outcome {
                Ok(true) => CompressionStats {
                    inserted: (old(self).inserted + 1) as usize,
                    ..*old(self)
                },
                Ok(false) => *old(self),
                Err(_) => CompressionStats { failed: (old(self).failed + 1) as usize, ..*old(self) },
            }),
    {
        match outcome {
            Ok(true) => {
                self.inserted += 1;
            },
            Ok(false) => {},
            Err(_) => {
                self.failed += 1;
            },
        }
    }
}

/// The day in which a point in time lies, as a text.
pub fn summary_date_for_timestamp(timestamp: i64) -> (r: Result<String, SummaryError>)
    ensures
        showable(timestamp) ==> r is Ok && exists|t: LocalTime|
            shown_at(t, timestamp) && r->Ok_0@ == #[trigger] date_text(t),
        !showable(timestamp) ==> r == Err::<String, SummaryError>(SummaryError::BadTimestamp),
{
    match local_time(timestamp) {
        Some(t) => {
            let date = t.date();
            assert(date@ == date_text(t));
            Ok(date)
        },
        None => Err(SummaryError::BadTimestamp),
    }
}

/// The word for a day of the week; the first day of the year 1 was a Monday.
pub open spec fn weekday_word(day_number: int) -> Seq<char> {
    let n = (day_number - 1) % 7;
    if n == 0 {
        "一"@
    } else if n == 1 {
        "二"@
    } else if n == 2 {
        "三"@
    } else if n == 3 {
        "四"@
    } else if n == 4 {
        "五"@
    } else if n == 5 {
        "六"@
    } else {
        "日"@
    }
}

/// The heading for a day.
pub open spec fn day_heading(day: CalendarDay) -> Seq<char> {
    signed_decimal_of(day.year as int) + "年"@ + decimal_of(day.month as nat) + "月"@ + decimal_of(
        day.day as nat,
    ) + "日 星期"@ + weekday_word(day.number as int)
}

/// The heading for a day.
pub fn render_day_heading(day: &CalendarDay) -> (r: String)
    ensures
        r@ == day_heading(*day),
{
    let shifted: i64 = day.number as i64 - 1 + 7 * 1_000_000_000;
    assert(shifted % 7 == (day.number - 1) % 7) by (nonlinear_arith)
        requires
            shifted == day.number - 1 + 7 * 1_000_000_000,
    ;
    let n: i64 = shifted % 7;
    let weekday = if n == 0 {
        "一"
    } else if n == 1 {
        "二"
    } else if n == 2 {
        "三"
    } else if n == 3 {
        "四"
    } else if n == 4 {
        "五"
    } else if n == 5 {
        "六"
    } else {
        "日"
    };
    let mut r = signed_decimal(day.year as i64);
    r.push_str("年");
    r.push_str(&decimal(day.month as u64));
    r.push_str("月");
    r.push_str(&decimal(day.day as u64));
    r.push_str("日 星期");
    r.push_str(weekday);
    r
}

/// The day that a text names.
pub open spec fn summary_day(date: Seq<char>) -> Option<CalendarDay> {
    day_parsed(date, "%Y-%m-%d"@)
}

/// The heading for the day that a text names.
pub fn render_summary_date_heading(summary_date: &str) -> (r: Result<String, SummaryError>)
    ensures
        match summary_day(summary_date@) {
            Some(day) => r is Ok && r->Ok_0@ == day_heading(day),
            None => r == Err::<String, SummaryError>(SummaryError::BadDate),
        },
{
    match parse_day(summary_date, "%Y-%m-%d") {
        Some(day) => Ok(render_day_heading(&day)),
        None => Err(SummaryError::BadDate),
    }
}

/// The point in time at which the clock on the wall shows a reading; of two, the one that `chrono`
/// names first.
pub open spec fn settled_moment(moment: WallMoment) -> Result<i64, SummaryError> {
    match moment {
        WallMoment::Once(t) => Ok(t),
        WallMoment::Twice(first) => Ok(first),
        WallMoment::Never => Err(SummaryError::MissingHour),
    }
}

/// The point in time at which the clock on the wall shows a reading; of two, the one that `chrono`
/// names first.
pub fn settle_moment(moment: WallMoment) -> (r: Result<i64, SummaryError>)
    ensures
        r == settled_moment(moment),
{
    match moment {
        WallMoment::Once(t) => Ok(t),
        WallMoment::Twice(first) => Ok(first),
        WallMoment::Never => Err(SummaryError::MissingHour),
    }
}

/// Whether a result is the point in time at which a day has an hour: less than a day from the
/// reading, or missing.
pub open spec fn is_hour_of(r: Result<i64, SummaryError>, day: int, hour: u32) -> bool {
    match r {
        Ok(t) => -86400 < t - ((day - 719163) * 86400 + hour * 3600) < 86400,
        Err(e) => e == SummaryError::MissingHour,
    }
}

/// The point in time at which a day has an hour.
pub fn hour_of_day(day: i32, hour: u32) -> (r: Result<i64, SummaryError>)
    requires
        FIRST_DAY <= day <= LAST_DAY,
        hour < 24,
    ensures
        is_hour_of(r, day as int, hour),
{
    let reading: i64 = (day as i64 - 719163) * 86400 + hour as i64 * 3600;
    assert(readable(reading, 0));
    settle_moment(moment_of(reading, 0))
}

/// Where a day begins and ends.
pub fn summary_period(summary_date: &str) -> (r: Result<(i64, i64), SummaryError>)
    ensures
        match summary_day(summary_date@) {
            None => r == Err::<(i64, i64), SummaryError>(SummaryError::BadDate),
            Some(day) => if day.number == LAST_DAY {
                r == Err::<(i64, i64), SummaryError>(SummaryError::NoNextDay)
            } else {
                match r {
                    Ok((start, end)) => is_hour_of(Ok(start), day.number as int, 0) && is_hour_of(
                        Ok(end),
                        day.number + 1,
                        0,
                    ),
                    Err(e) => e == SummaryError::MissingHour,
                }
            },
        },
{
    let day = match parse_day(summary_date, "%Y-%m-%d") {
        Some(day) => day,
        None => {
            return Err(SummaryError::BadDate);
        },
    };
    if day.number >= LAST_DAY {
        return Err(SummaryError::NoNextDay);
    }
    match (hour_of_day(day.number, 0), hour_of_day(day.number + 1, 0)) {
        (Ok(start), Ok(end)) => Ok((start, end)),
        (Err(e), _) => Err(e),
        (_, Err(e)) => Err(e),
    }
}

/// The day whose beginning closes the last day that can be summed up: today once the hour has
/// come, yesterday before.
pub open spec fn boundary_day(now: i64, today: int, today_run: i64) -> int {
    if now >= today_run {
        today
    } else {
        today - 1
    }
}

/// The day on which days are summed up next: today where the hour is still to come, tomorrow
/// otherwise.
pub open spec fn next_run_day(now: i64, today: int, today_run: i64) -> int {
    if now < today_run {
        today
    } else {
        today + 1
    }
}

/// The end of the last day that can be summed up, for a day `today` on which the hour comes at
/// `today_run`.
pub fn closed_boundary(now: i64, today: i32, today_run: i64) -> (r: Result<i64, SummaryError>)
    requires
        FIRST_DAY <= today <= LAST_DAY,
    ensures
        boundary_day(now, today as int, today_run) < FIRST_DAY ==> r == Err::<i64, SummaryError>(
            SummaryError::NoPreviousDay,
        ),
        boundary_day(now, today as int, today_run) >= FIRST_DAY ==> is_hour_of(
            r,
            boundary_day(now, today as int, today_run),
            0,
        ),
{
    if now >= today_run {
        hour_of_day(today, 0)
    } else if today <= FIRST_DAY {
        Err(SummaryError::NoPreviousDay)
    } else {
        hour_of_day(today - 1, 0)
    }
}

/// When days are summed up next, for a day `today` on which the hour comes at `today_run`.
pub fn run_after(now: i64, today: i32, today_run: i64) -> (r: Result<i64, SummaryError>)
    requires
        FIRST_DAY <= today <= LAST_DAY,
    ensures
        now < today_run ==> r == Ok::<i64, SummaryError>(today_run),
        now >= today_run && today == LAST_DAY ==> r == Err::<i64, SummaryError>(
            SummaryError::NoNextDay,
        ),
        now >= today_run && today < LAST_DAY ==> is_hour_of(
            r,
            next_run_day(now, today as int, today_run),
            COMPRESSION_RUN_HOUR,
        ),
{
    if now < today_run {
        Ok(today_run)
    } else if today >= LAST_DAY {
        Err(SummaryError::NoNextDay)
    } else {
        hour_of_day(today + 1, COMPRESSION_RUN_HOUR)
    }
}

/// Whether a result is the number of the day in which a point in time lies, where the clock on the
/// wall shows `shown` then.
pub open spec fn is_today(r: Result<i32, SummaryError>, now: i64, shown: Option<LocalTime>) -> bool {
    match shown {
        Some(t) => shown_at(t, now) && r == (if FIRST_DAY <= t.day_number <= LAST_DAY {
            Ok::<i32, SummaryError>(t.day_number)
        } else {
            Err(SummaryError::BadTimestamp)
        }),
        None => !showable(now) && r == Err::<i32, SummaryError>(SummaryError::BadTimestamp),
    }
}

/// The number of the day in which a point in time lies.
fn today_at(now: i64) -> (r: Result<i32, SummaryError>)
    ensures
        exists|shown: Option<LocalTime>| #[trigger] is_today(r, now, shown),
{
    let shown = local_time(now);
    let r = match shown {
        Some(t) => {
            if t.day_number < FIRST_DAY || t.day_number > LAST_DAY {
                Err(SummaryError::BadTimestamp)
            } else {
                Ok(t.day_number)
            }
        },
        None => Err(SummaryError::BadTimestamp),
    };
    assert(is_today(r, now, shown));
    r
}

/// Whether a result is the end of the last day that can be summed up: `today` is the day, or why
/// there is none, and `run` the hour at which days are summed up on it.
pub open spec fn is_last_boundary(
    r: Result<i64, SummaryError>,
    now: i64,
    today: Result<i32, SummaryError>,
    run: Result<i64, SummaryError>,
) -> bool {
    match today {
        Err(e) => r == Err::<i64, SummaryError>(e),
        Ok(day) => is_hour_of(run, day as int, COMPRESSION_RUN_HOUR) && match run {
            Err(e) => r == Err::<i64, SummaryError>(e),
            Ok(today_run) => if boundary_day(now, day as int, today_run) < FIRST_DAY {
                r == Err::<i64, SummaryError>(SummaryError::NoPreviousDay)
            } else {
                is_hour_of(r, boundary_day(now, day as int, today_run), 0)
            },
        },
    }
}

/// Whether a result is the point in time at which days are summed up next.
pub open spec fn is_next_run(
    r: Result<i64, SummaryError>,
    now: i64,
    today: Result<i32, SummaryError>,
    run: Result<i64, SummaryError>,
) -> bool {
    match today {
        Err(e) => r == Err::<i64, SummaryError>(e),
        Ok(day) => is_hour_of(run, day as int, COMPRESSION_RUN_HOUR) && match run {
            Err(e) => r == Err::<i64, SummaryError>(e),
            Ok(today_run) => if now < today_run {
                r == run
            } else if day == LAST_DAY {
                r == Err::<i64, SummaryError>(SummaryError::NoNextDay)
            } else {
                is_hour_of(r, day + 1, COMPRESSION_RUN_HOUR)
            },
        },
    }
}

/// The end of the last day that can be summed up.
pub fn last_closed_boundary(now: i64) -> (r: Result<i64, SummaryError>)
    ensures
        exists|shown: Option<LocalTime>, today: Result<i32, SummaryError>, run: Result<i64, SummaryError>|
            #[trigger]
            is_today(today, now, shown) && #[trigger] is_last_boundary(r, now, today, run),
{
    let today = today_at(now);
    let day: i32 = match today {
        Ok(day) => day,
        Err(e) => {
            let r = Err(e);
            assert(is_last_boundary(r, now, today, r));
            return r;
        },
    };
    let run = hour_of_day(day, COMPRESSION_RUN_HOUR);
    let today_run: i64 = match run {
        Ok(t) => t,
        Err(e) => {
            let r = Err(e);
            assert(is_last_boundary(r, now, today, run));
            return r;
        },
    };
    let r = closed_boundary(now, day, today_run);
    assert(is_last_boundary(r, now, today, run));
    r
}

/// When days are summed up next.
pub fn next_compression_run(now: i64) -> (r: Result<i64, SummaryError>)
    ensures
        exists|shown: Option<LocalTime>, today: Result<i32, SummaryError>, run: Result<i64, SummaryError>|
            #[trigger]
            is_today(today, now, shown) && #[trigger] is_next_run(r, now, today, run),
{
    let today = today_at(now);
    let day: i32 = match today {
        Ok(day) => day,
        Err(e) => {
            let r = Err(e);
            assert(is_next_run(r, now, today, r));
            return r;
        },
    };
    let run = hour_of_day(day, COMPRESSION_RUN_HOUR);
    let today_run: i64 = match run {
        Ok(t) => t,
        Err(e) => {
            let r = Err(e);
            assert(is_next_run(r, now, today, run));
            return r;
        },
    };
    let r = run_after(now, day, today_run);
    assert(is_next_run(r, now, today, run));
    r
}

/// The beginning of the day in which a point in time lies, which closes the days before it.
pub fn start_of_today(now: i64) -> (r: Result<i64, SummaryError>)
    ensures
        exists|shown: Option<LocalTime>, today: Result<i32, SummaryError>|
            #[trigger]
            is_today(today, now, shown) && match today {
                Ok(day) => is_hour_of(r, day as int, 0),
                Err(e) => r == Err::<i64, SummaryError>(e),
            },
{
    let today = today_at(now);
    match today {
        Ok(day) => hour_of_day(day, 0),
        Err(e) => Err(e),
    }
}

/// The next run lies ahead, and the day that a run closes has begun: a day is summed up only once
/// it is over and the hour after it has come.
pub proof fn law_days_are_summed_up_late(now: i64, today: int, today_run: i64)
    ensures
        boundary_day(now, today, today_run) <= today,
        boundary_day(now, today, today_run) == today <==> now >= today_run,
        next_run_day(now, today, today_run) == boundary_day(now, today, today_run) + 1,
{
}

/// A message with the date and the time of day at which it came.
#[derive(Debug, PartialEq, Eq)]
pub struct DatedMessage {
    pub message: ChatMessage,
    pub time: LocalTime,
}

/// Whether all messages came at points in time that a calendar holds.
pub open spec fn all_showable(messages: Seq<ChatMessage>) -> bool {
    forall|i: int| 0 <= i < messages.len() ==> showable((#[trigger] messages[i]).event_timestamp)
}

/// Looks up when messages came.
pub fn dated_messages(messages: Vec<ChatMessage>) -> (r: Result<Vec<DatedMessage>, SummaryError>)
    ensures
        r is Ok == all_showable(messages@),
        match r {
            Ok(dated) => dated@.len() == messages@.len() && forall|i: int|
                0 <= i < dated@.len() ==> (#[trigger] dated@[i]).message == messages@[i]
                    && shown_at(dated@[i].time, messages@[i].event_timestamp),
            Err(e) => e == SummaryError::BadTimestamp,
        },
{
    let ghost all = messages@;
    let mut rest = messages;
    let mut dated: Vec<DatedMessage> = Vec::new();
    while rest.len() > 0
        invariant
            all == messages@,
            dated@.len() <= all.len(),
            rest@ =~= all.skip(dated@.len() as int),
            forall|i: int|
                0 <= i < dated@.len() ==> (#[trigger] dated@[i]).message == all[i]
                    && shown_at(dated@[i].time, all[i].event_timestamp),
            forall|i: int|
                0 <= i < dated@.len() ==> showable((#[trigger] all[i]).event_timestamp),
        decreases rest@.len(),
    {
        let ghost at = dated@.len() as int;
        let message = rest.remove(0);
        assert(at < all.len() && message == all[at]);
        match local_time(message.event_timestamp) {
            Some(time) => {
                dated.push(DatedMessage { message, time });
            },
            None => {
                assert(!showable(all[at].event_timestamp));
                return Err(SummaryError::BadTimestamp);
            },
        }
    }
    Ok(dated)
}

/// A message as a line of a day's record; one of the assistant is shown under its name.
pub open spec fn day_line(
    entry: DatedMessage,
    bot_id: Option<Seq<char>>,
    bot_name: Option<Seq<char>>,
) -> Seq<char> {
    if bot_id == Some(entry.message.sender_id@) && (bot_name matches Some(name) && !is_blank(name)) {
        trim_of(bot_name.unwrap()) + "（"@ + second_text(entry.time) + "）:"@ + text_or_empty(
            entry.message.content_text,
        )
    } else {
        history_line(entry.message, second_text(entry.time))
    }
}

fn render_day_line(entry: &DatedMessage, bot_id: &Option<String>, bot_name: &Option<String>) -> (r:
    String)
    ensures
        r@ == day_line(*entry, option_text(*bot_id), option_text(*bot_name)),
{
    let time = entry.time.hour_minute_second();
    if is_text(bot_id, &entry.message.sender_id) {
        if let Some(name) = bot_name {
            if !blank(name) {
                let mut r = trim(name);
                r.push_str("（");
                r.push_str(&time);
                r.push_str("）:");
                if let Some(text) = &entry.message.content_text {
                    r.push_str(text);
                }
                assert(r@ =~= day_line(*entry, option_text(*bot_id), option_text(*bot_name)));
                return r;
            }
        }
    }
    history_message_line(&entry.message, &time)
}

/// The record of messages: a date wherever it changes, and a line for each message.
pub open spec fn day_record(
    entries: Seq<DatedMessage>,
    bot_id: Option<Seq<char>>,
    bot_name: Option<Seq<char>>,
) -> Seq<char>
    decreases entries.len(),
{
    if entries.len() == 0 {
        Seq::empty()
    } else {
        let before = day_record(entries.drop_last(), bot_id, bot_name);
        let date = date_text(entries.last().time);
        let dated = if entries.len() > 1 && date_text(entries[entries.len() - 2].time) == date {
            before
        } else if before.len() == 0 {
            date
        } else {
            before + "\n"@ + date
        };
        dated + "\n"@ + day_line(entries.last(), bot_id, bot_name)
    }
}

proof fn lemma_day_record_nonempty(
    entries: Seq<DatedMessage>,
    bot_id: Option<Seq<char>>,
    bot_name: Option<Seq<char>>,
)
    requires
        entries.len() > 0,
    ensures
        day_record(entries, bot_id, bot_name).len() > 0,
{
    reveal_strlit("\n");
}

/// The record of messages.
pub fn render_daily_messages(
    entries: &Vec<DatedMessage>,
    bot_id: &Option<String>,
    bot_name: &Option<String>,
) -> (r: String)
    requires
        forall|i: int| 0 <= i < entries@.len() ==> (#[trigger] entries@[i]).time.valid(),
    ensures
        r@ == day_record(entries@, option_text(*bot_id), option_text(*bot_name)),
{
    let ghost id = option_text(*bot_id);
    let ghost name = option_text(*bot_name);
    let mut rendered = String::new();
    let mut last_date: Option<String> = None;
    let mut i: usize = 0;
    assert(entries@.take(0) =~= Seq::empty());
    assert(rendered@ =~= Seq::empty());
    while i < entries.len()
        invariant
            i <= entries@.len(),
            id == option_text(*bot_id),
            name == option_text(*bot_name),
            forall|j: int| 0 <= j < entries@.len() ==> (#[trigger] entries@[j]).time.valid(),
            rendered@ == day_record(entries@.take(i as int), id, name),
            i == 0 ==> last_date is None,
            i > 0 ==> option_text(last_date) == Some(date_text(entries@[i - 1].time)),
        decreases entries@.len() - i,
    {
        let entry = &entries[i];
        let ghost shown = entries@.take(i + 1);
        assert(shown.drop_last() =~= entries@.take(i as int));
        proof {
            if i > 0 {
                lemma_day_record_nonempty(entries@.take(i as int), id, name);
            }
        }
        let date = entry.time.date();
        let same = match &last_date {
            Some(last) => same_text(last, &date),
            None => false,
        };
        if !same {
            if i > 0 {
                rendered.push_str("\n");
            }
            rendered.push_str(&date);
            last_date = Some(date);
        }
        rendered.push_str("\n");
        rendered.push_str(&render_day_line(entry, bot_id, bot_name));
        assert(rendered@ =~= day_record(shown, id, name));
        i += 1;
    }
    assert(entries@.take(i as int) =~= entries@);
    rendered
}

/// The text that asks for the summary of a day.
pub open spec fn summary_question(
    summary_date: Seq<char>,
    record: Seq<char>,
    previous: Option<Seq<char>>,
    following: Option<Seq<char>>,
) -> Seq<char> {
    let head = "本次总结日期："@ + summary_date
        + "（本地时间 00:00:00 至次日 00:00:00，不含终点）。只总结此日期内的内容。\n"@;
    let before = match previous {
        Some(summary) => head + "\n# 前一天摘要（仅供连贯性参考，不纳入本次摘要）\n"@ + summary + "\n"@,
        None => head,
    };
    let day = before + "\n# 当天聊天记录（本次总结对象）\n"@ + record + "\n"@;
    match following {
        Some(messages) => day
            + "\n# 次日 00:00～03:00 聊天记录（不含 03:00，仅供连贯性参考，不纳入本次摘要）\n"@ + messages + "\n"@,
        None => day,
    }
}

/// The record of the messages that follow a day, where there are any.
pub open spec fn following_record(
    following: Seq<DatedMessage>,
    bot_id: Option<Seq<char>>,
    bot_name: Option<Seq<char>>,
) -> Option<Seq<char>> {
    if following.len() == 0 {
        None
    } else {
        Some(day_record(following, bot_id, bot_name))
    }
}

/// The request for the summary of a day.
pub fn build_summary_request(
    system_prompt: &str,
    summary_date: &str,
    messages: &Vec<DatedMessage>,
    previous_summary: &Option<String>,
    following_messages: &Vec<DatedMessage>,
    bot_id: &Option<String>,
    bot_name: &Option<String>,
) -> (r: Vec<ToolChatMessage>)
    requires
        forall|i: int| 0 <= i < messages@.len() ==> (#[trigger] messages@[i]).time.valid(),
        forall|i: int|
            0 <= i < following_messages@.len() ==> (
            #[trigger] following_messages@[i]).time.valid(),
    ensures
        messages_view(r@) =~= Seq::empty().push(
            MessageView::System { content: system_prompt@ },
        ).push(
            MessageView::User {
                content: seq![
                    PartView::Text(
                        summary_question(
                            summary_date@,
                            day_record(messages@, option_text(*bot_id), option_text(*bot_name)),
                            option_text(*previous_summary),
                            following_record(
                                following_messages@,
                                option_text(*bot_id),
                                option_text(*bot_name),
                            ),
                        ),
                    ),
                ],
            },
        ),
{
    let history = render_daily_messages(messages, bot_id, bot_name);
    let mut content = "本次总结日期：".to_owned();
    content.push_str(summary_date);
    content.push_str("（本地时间 00:00:00 至次日 00:00:00，不含终点）。只总结此日期内的内容。\n");
    if let Some(summary) = previous_summary {
        content.push_str("\n# 前一天摘要（仅供连贯性参考，不纳入本次摘要）\n");
        content.push_str(summary);
        content.push_str("\n");
    }
    content.push_str("\n# 当天聊天记录（本次总结对象）\n");
    content.push_str(&history);
    content.push_str("\n");
    if following_messages.len() > 0 {
        content.push_str("\n# 次日 00:00～03:00 聊天记录（不含 03:00，仅供连贯性参考，不纳入本次摘要）\n");
        content.push_str(&render_daily_messages(following_messages, bot_id, bot_name));
        content.push_str("\n");
    }
    let mut r: Vec<ToolChatMessage> = Vec::new();
    r.push(ToolChatMessage::System { content: system_prompt.to_owned() });
    r.push(ToolChatMessage::User { content: ToolChatUserContent::text(&content) });
    r
}

/// The summary in a reply: only one that came to an end, calls no tools and is not blank.
pub open spec fn summary_in(response: ResponseView) -> Result<Seq<char>, SummaryError> {
    if response.finish_reason != Some("stop"@) && response.finish_reason != Some("STOP"@) {
        Err(SummaryError::Unfinished)
    } else if response.tool_calls.len() > 0 {
        Err(SummaryError::ToolCalls)
    } else {
        match response.content {
            Some(content) => if is_blank(content) {
                Err(SummaryError::EmptyContent)
            } else {
                Ok(trim_of(content))
            },
            None => Err(SummaryError::EmptyContent),
        }
    }
}

/// The summary in a reply.
pub fn completed_summary_text(response: &ToolChatResponse) -> (r: Result<String, SummaryError>)
    ensures
        match r {
            Ok(text) => summary_in(response@) == Ok::<Seq<char>, SummaryError>(text@),
            Err(e) => summary_in(response@) == Err::<Seq<char>, SummaryError>(e),
        },
{
    if !is_text(&response.finish_reason, "stop") && !is_text(&response.finish_reason, "STOP") {
        return Err(SummaryError::Unfinished);
    }
    if response.tool_calls.len() > 0 {
        return Err(SummaryError::ToolCalls);
    }
    match &response.content {
        Some(content) => {
            if blank(content) {
                Err(SummaryError::EmptyContent)
            } else {
                Ok(trim(content))
            }
        },
        None => Err(SummaryError::EmptyContent),
    }
}

/// The summary of a day to store; its messages are in order, so the first and the last of them
/// bound it.
pub fn new_daily_summary(
    task: &PendingDailySummary,
    period_start: i64,
    period_end: i64,
    summary_text: String,
    messages: &Vec<DatedMessage>,
) -> (r: NewConversationDailySummary)
    requires
        0 < messages@.len() <= i64::MAX,
    ensures
        r.conversation_id == task.conversation_id,
        r.summary_date@ == task.summary_date@,
        r.period_start == period_start,
        r.period_end == period_end,
        r.summary_text@ == summary_text@,
        r.source_message_count == messages@.len(),
        r.source_first_message_id == messages@[0].message.id,
        r.source_last_message_id == messages@.last().message.id,
{
    NewConversationDailySummary {
        conversation_id: task.conversation_id,
        summary_date: task.summary_date.clone(),
        period_start,
        period_end,
        summary_text,
        source_message_count: messages.len() as i64,
        source_first_message_id: messages[0].message.id,
        source_last_message_id: messages[messages.len() - 1].message.id,
    }
}

/// What wakes a conversation to look through what it remembers once a day was summed up.
pub fn memory_review_trigger(
    task: &PendingDailySummary,
    conversation: &ConversationRecord,
    bot_id: &Option<String>,
    memory_review_prompt: &str,
    summary: &str,
) -> (r: Result<RoutedConversationTrigger, SummaryError>)
    ensures
        match kind_of(conversation.kind@) {
            None => r == Err::<RoutedConversationTrigger, SummaryError>(SummaryError::UnknownKind),
            Some(kind) => match *bot_id {
                None => r == Err::<RoutedConversationTrigger, SummaryError>(SummaryError::NoBot),
                Some(bot) => r is Ok && r->Ok_0.target == (MessageTarget {
                    source: task.source,
                    bot_id: bot,
                    conversation: Conversation {
                        id: task.source_conversation_id,
                        kind,
                        title: conversation.title,
                    },
                }) && r->Ok_0.trigger.memory_review && r->Ok_0.trigger.user_prompt@
                    == rendered_template(
                    memory_review_prompt@,
                    Seq::empty().push(("summary_date"@, task.summary_date@)).push(
                        ("daily_summary"@, summary@),
                    ),
                ),
            },
        },
{
    let kind = match parse_kind(&conversation.kind) {
        Some(kind) => kind,
        None => {
            return Err(SummaryError::UnknownKind);
        },
    };
    let bot = match bot_id {
        Some(bot) => bot.clone(),
        None => {
            return Err(SummaryError::NoBot);
        },
    };
    let mut values: Vec<(String, String)> = Vec::new();
    values.push(("summary_date".to_owned(), task.summary_date.clone()));
    values.push(("daily_summary".to_owned(), summary.to_owned()));
    let user_prompt = render_prompt_template(memory_review_prompt, &values);
    assert(crate::config::pairs_view(values@) =~= Seq::empty().push(
        ("summary_date"@, task.summary_date@),
    ).push(("daily_summary"@, summary@)));
    Ok(
        RoutedConversationTrigger {
            target: MessageTarget {
                source: task.source.clone(),
                bot_id: bot,
                conversation: Conversation {
                    id: task.source_conversation_id.clone(),
                    kind,
                    title: conversation.title.clone(),
                },
            },
            trigger: ConversationTrigger { user_prompt, memory_review: true },
        },
    )
}

/// What the record of a day says of one of its messages: the name of who wrote it, the time and the
/// text, behind the date where that is not the date of the message before. The assistant goes by the
/// given name, where there is one.
pub open spec fn told_of(
    entries: Seq<DatedMessage>,
    i: int,
    bot_id: Option<Seq<char>>,
    bot_name: Option<Seq<char>>,
) -> Seq<char> {
    let message = entries[i].message;
    let own_name = match message.sender_nickname {
        Some(nickname) => nickname@,
        None => message.sender_display_name@,
    };
    let name = match bot_name {
        Some(given) => if bot_id == Some(message.sender_id@) && !is_blank(given) {
            trim_of(given)
        } else {
            own_name
        },
        None => own_name,
    };
    let text = match message.content_text {
        Some(content) => content@,
        None => Seq::empty(),
    };
    let line = name + "（"@ + second_text(entries[i].time) + "）:"@ + text;
    if i > 0 && date_text(entries[i - 1].time) == date_text(entries[i].time) {
        line
    } else {
        date_text(entries[i].time) + "\n"@ + line
    }
}

/// What the record of a day says of its messages.
pub open spec fn told_of_all(
    entries: Seq<DatedMessage>,
    bot_id: Option<Seq<char>>,
    bot_name: Option<Seq<char>>,
) -> Seq<Seq<char>> {
    Seq::new(entries.len(), |i: int| told_of(entries, i, bot_id, bot_name))
}

proof fn lemma_day_record(
    entries: Seq<DatedMessage>,
    bot_id: Option<Seq<char>>,
    bot_name: Option<Seq<char>>,
) -> (starts: Seq<int>)
    ensures
        stand_in_order(
            day_record(entries, bot_id, bot_name),
            told_of_all(entries, bot_id, bot_name),
            starts,
            0,
            day_record(entries, bot_id, bot_name).len() as int,
        ),
    decreases entries.len(),
{
    if entries.len() == 0 {
        Seq::empty()
    } else {
        let front = entries.drop_last();
        let n = entries.len() - 1;
        let starts = lemma_day_record(front, bot_id, bot_name);
        let before = day_record(front, bot_id, bot_name);
        let piece = told_of(entries, n, bot_id, bot_name);
        let told = told_of_all(front, bot_id, bot_name);
        assert(told_of_all(entries, bot_id, bot_name) =~= told.push(piece)) by {
            assert forall|i: int| 0 <= i < n implies told_of(front, i, bot_id, bot_name) == told_of(
                entries,
                i,
                bot_id,
                bot_name,
            ) by {
                assert(front[i] == entries[i]);
                if i > 0 {
                    assert(front[i - 1] == entries[i - 1]);
                }
            }
        }
        let gap = if n == 0 {
            Seq::<char>::empty()
        } else {
            "\n"@
        };
        if n > 0 {
            lemma_day_record_nonempty(front, bot_id, bot_name);
        } else {
            assert(before =~= Seq::empty());
        }
        assert(day_record(entries, bot_id, bot_name) =~= before + gap + piece);
        lemma_stand_one_more(before, told, starts, gap, piece);
        starts.push((before.len() + gap.len()) as int)
    }
}

/// The heading above the messages of the day.
pub const DAY_HEADING: &'static str = "\n# 当天聊天记录（本次总结对象）\n";

/// The heading above the messages that follow the day.
pub const FOLLOWING_HEADING: &'static str =
    "\n# 次日 00:00～03:00 聊天记录（不含 03:00，仅供连贯性参考，不纳入本次摘要）\n";

/// The heading above the summary of the day before.
pub const PREVIOUS_HEADING: &'static str = "\n# 前一天摘要（仅供连贯性参考，不纳入本次摘要）\n";

/// The request for a summary names the day and holds every message of it, with name, time and text,
/// in order, below the heading of the day and above the one of what follows. The summary of the day
/// before stands above it, and every message that follows the day stands below, in order.
pub proof fn law_every_message_is_summed_up(
    summary_date: Seq<char>,
    messages: Seq<DatedMessage>,
    previous: Option<Seq<char>>,
    following: Seq<DatedMessage>,
    bot_id: Option<Seq<char>>,
    bot_name: Option<Seq<char>>,
)
    ensures
        ({
            let asked = summary_question(
                summary_date,
                day_record(messages, bot_id, bot_name),
                previous,
                following_record(following, bot_id, bot_name),
            );
            let told = told_of_all(messages, bot_id, bot_name);
            let next = told_of_all(following, bot_id, bot_name);
            exists|at: int, starts: Seq<int>, end: int, behind: Seq<int>|
                #![trigger stand_in_order(asked, told, starts, at + DAY_HEADING@.len(), end), stand_in_order(asked, next, behind, end, asked.len() as int)]
                {
                    &&& occurs_at(asked, "本次总结日期："@ + summary_date + "（"@, 0)
                    &&& occurs_at(asked, DAY_HEADING@, at)
                    &&& previous matches Some(summary) ==> at >= (PREVIOUS_HEADING@
                        + summary).len() + 1 && occurs_at(
                        asked,
                        PREVIOUS_HEADING@ + summary + "\n"@,
                        at - (PREVIOUS_HEADING@ + summary + "\n"@).len(),
                    )
                    &&& stand_in_order(asked, told, starts, at + DAY_HEADING@.len(), end)
                    &&& following.len() > 0 ==> occurs_at(asked, FOLLOWING_HEADING@, end + 1)
                    &&& following.len() == 0 ==> end + 1 == asked.len()
                    &&& stand_in_order(asked, next, behind, end, asked.len() as int)
                }
        }),
{
    let record = day_record(messages, bot_id, bot_name);
    let asked = summary_question(
        summary_date,
        record,
        previous,
        following_record(following, bot_id, bot_name),
    );
    let told = told_of_all(messages, bot_id, bot_name);
    let next = told_of_all(following, bot_id, bot_name);
    let head = "本次总结日期："@ + summary_date
        + "（本地时间 00:00:00 至次日 00:00:00，不含终点）。只总结此日期内的内容。\n"@;
    let before = match previous {
        Some(summary) => head + PREVIOUS_HEADING@ + summary + "\n"@,
        None => head,
    };
    let at = before.len() as int;
    let above = before + DAY_HEADING@;
    let record_starts = lemma_day_record(messages, bot_id, bot_name);
    let later = day_record(following, bot_id, bot_name);
    let tail = if following.len() > 0 {
        "\n"@ + FOLLOWING_HEADING@ + later + "\n"@
    } else {
        "\n"@
    };
    assert(asked =~= above + record + tail);
    let starts = lemma_stand_in_longer(
        above,
        record,
        tail,
        told,
        record_starts,
        0,
        record.len() as int,
    );
    let end = (above.len() + record.len()) as int;
    reveal_strlit("\n");
    reveal_strlit("（");
    reveal_strlit("（本地时间 00:00:00 至次日 00:00:00，不含终点）。只总结此日期内的内容。\n");
    assert(asked.subrange(0, ("本次总结日期："@ + summary_date + "（"@).len() as int) =~= "本次总结日期："@
        + summary_date + "（"@);
    lemma_occurs_at_end(before, DAY_HEADING@);
    lemma_occurs_in_front(above, record + tail, DAY_HEADING@, at);
    assert(above + (record + tail) =~= asked);
    if let Some(summary) = previous {
        let shown = PREVIOUS_HEADING@ + summary + "\n"@;
        lemma_occurs_at_end(head, shown);
        assert(head + shown =~= before);
        lemma_occurs_in_front(before, DAY_HEADING@ + record + tail, shown, head.len() as int);
        assert(before + (DAY_HEADING@ + record + tail) =~= asked);
    }
    let behind = if following.len() > 0 {
        let front = above + record + "\n"@;
        lemma_occurs_at_end(front, FOLLOWING_HEADING@);
        lemma_occurs_in_front(
            front + FOLLOWING_HEADING@,
            later + "\n"@,
            FOLLOWING_HEADING@,
            front.len() as int,
        );
        assert(front + FOLLOWING_HEADING@ + (later + "\n"@) =~= asked);
        let inner = lemma_day_record(following, bot_id, bot_name);
        let r = lemma_stand_in_longer(
            front + FOLLOWING_HEADING@,
            later,
            "\n"@,
            next,
            inner,
            0,
            later.len() as int,
        );
        assert(front + FOLLOWING_HEADING@ + later + "\n"@ =~= asked);
        r
    } else {
        Seq::empty()
    };
    assert(stand_in_order(asked, told, starts, at + DAY_HEADING@.len(), end));
    assert(stand_in_order(asked, next, behind, end, asked.len() as int));
}

} // verus!
