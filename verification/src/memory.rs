//! What the assistant remembers of groups and of people.

pub mod group_memory;
pub mod member_profile;
pub mod user_memory;

use vstd::prelude::*;

use crate::local_time::{date_text, local_time, showable, shown_at, LocalTime};

verus! {

/// The day on which something was last changed, as a text.
pub fn format_memory_time(timestamp: i64) -> (r: Option<String>)
    ensures
        r is Some == showable(timestamp),
        r matches Some(text) ==> exists|t: LocalTime|
            shown_at(t, timestamp) && text@ == #[trigger] date_text(t),
{
    match local_time(timestamp) {
        Some(t) => {
            let text = t.date();
            assert(text@ == date_text(t));
            Some(text)
        },
        None => None,
    }
}

} // verus!
