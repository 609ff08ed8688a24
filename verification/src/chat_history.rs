//! The part of a conversation's history that requests and pages show.

use vstd::prelude::*;

use crate::history_compression::SummaryError;
use crate::local_time::{
    date_text, days_before, is_calendar_day, local_time, showable, shown_at, LocalTime,
    EARLIEST_TIMESTAMP, LATEST_TIMESTAMP,
};
use crate::pipeline::chat_processor::{history_line, history_message_line};
use crate::repository::db_manager::{ChatMessage, ConversationHistoryWindow};

verus! {

/// How many days back summaries are shown.
pub const SUMMARY_DAYS: u32 = 30;

/// The summary of a day.
#[derive(Debug, PartialEq, Eq)]
pub struct ConversationDailySummary {
    pub summary_date: String,
    pub summary_text: String,
}

/// The messages of a conversation that are shown, and the summaries of the days before.
#[derive(Debug, PartialEq, Eq)]
pub struct ChatHistoryContext {
    pub window: ConversationHistoryWindow,
    pub summaries: Vec<ConversationDailySummary>,
}

/// The days whose summaries are shown.
#[derive(Debug, PartialEq, Eq)]
pub struct SummaryRange {
    pub conversation_id: i64,
    pub from_date: String,
    pub through_date: String,
}

/// Whether a text is the date of the day so many days before a point in time, by the clock on the
/// wall.
pub open spec fn is_date_before(date: Seq<char>, now: i64, days: int) -> bool {
    exists|today: LocalTime, day: LocalTime|
        #![trigger shown_at(today, now), date_text(day)]
        shown_at(today, now) && is_calendar_day(
            day.year as int,
            day.month as int,
            day.day as int,
            day.day_number as int,
        ) && day.day_number == today.day_number - days && date == date_text(day)
}

/// The days whose summaries are shown with a window of messages: those from the day thirty days
/// before `now` through the day of the oldest message. None are shown where summaries are off or
/// the window is empty.
pub fn summary_range(
    window: &ConversationHistoryWindow,
    now: i64,
    summary_enabled: bool,
) -> (r: Result<Option<SummaryRange>, SummaryError>)
    requires
        EARLIEST_TIMESTAMP + (SUMMARY_DAYS + 2) * 86400 <= now <= LATEST_TIMESTAMP,
    ensures
        ({
            let shown = summary_enabled && window.messages@.len() > 0;
            let oldest = window.messages@[0];
            if !shown {
                r == Ok::<Option<SummaryRange>, SummaryError>(None)
            } else if !showable(oldest.event_timestamp) {
                r == Err::<Option<SummaryRange>, SummaryError>(SummaryError::BadTimestamp)
            } else {
                match r {
                    Ok(Some(range)) => range.conversation_id == oldest.conversation_id
                        && is_date_before(range.from_date@, now, SUMMARY_DAYS as int)
                        && is_date_before(range.through_date@, oldest.event_timestamp, 0),
                    _ => false,
                }
            }
        }),
{
    if !summary_enabled || window.messages.len() == 0 {
        return Ok(None);
    }
    let oldest = &window.messages[0];
    let last = match local_time(oldest.event_timestamp) {
        Some(time) => time,
        None => {
            return Err(SummaryError::BadTimestamp);
        },
    };
    let today = match local_time(now) {
        Some(time) => time,
        None => {
            return Err(SummaryError::BadTimestamp);
        },
    };
    let first = days_before(&today, SUMMARY_DAYS);
    let range = SummaryRange {
        conversation_id: oldest.conversation_id,
        from_date: first.date(),
        through_date: last.date(),
    };
    proof {
        assert(shown_at(today, now) && range.from_date@ == date_text(first));
        assert(shown_at(last, oldest.event_timestamp) && range.through_date@ == date_text(last));
    }
    Ok(Some(range))
}

/// A message as a line of the history, with its time of day down to the second.
pub fn render_history_message_line(message: &ChatMessage, local_time: &LocalTime) -> (r: String)
    ensures
        r@ == history_line(*message, crate::local_time::second_text(*local_time)),
{
    history_message_line(message, &local_time.hour_minute_second())
}

} // verus!
