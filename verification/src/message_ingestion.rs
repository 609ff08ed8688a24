//! How a message that came in gets into the store.

use vstd::prelude::*;

use crate::repository::db_manager::StoredMessage;
use crate::transport::IncomingMessage;

verus! {

/// A message that is complete and stored.
#[derive(Debug, PartialEq)]
pub struct IngestedMessage {
    pub message: IncomingMessage,
    pub stored: StoredMessage,
}

/// How far a message has got on its way into the store.
#[derive(Debug, PartialEq)]
pub enum Ingestion {
    /// It was there already; nothing is done.
    Known,
    /// It is new: its images and files are looked at, and it is written, unless it is there by
    /// then.
    Enrich { message: IncomingMessage },
}

/// The first step: a message that is there already is passed over, so that its images are not
/// fetched again.
pub fn begin_ingestion(message: IncomingMessage, exists: bool) -> (r: Ingestion)
    ensures
        r == (if exists {
            Ingestion::Known
        } else {
            Ingestion::Enrich { message }
        }),
{
    if exists {
        Ingestion::Known
    } else {
        Ingestion::Enrich { message }
    }
}

/// The last step: the message counts as new only where writing it made a row.
pub fn finish_ingestion(message: IncomingMessage, stored: Option<StoredMessage>) -> (r: Option<
    IngestedMessage,
>)
    ensures
        r == (match stored {
            Some(stored) => Some(IngestedMessage { message, stored }),
            None => None,
        }),
{
    match stored {
        Some(stored) => Some(IngestedMessage { message, stored }),
        None => None,
    }
}

} // verus!
