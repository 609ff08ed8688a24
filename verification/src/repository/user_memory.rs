//! What is stored of people.

use vstd::prelude::*;

verus! {

/// Something that is remembered of a person.
#[derive(Debug, PartialEq, Eq)]
pub struct UserMemoryRecord {
    /// The number under which a model knows it.
    pub memory_id: String,
    pub content: String,
}

/// Something that is remembered of a person, with the person.
#[derive(Debug, PartialEq, Eq)]
pub struct OwnedUserMemoryRecord {
    pub user_id: String,
    pub memory_id: String,
    pub content: String,
}

} // verus!
