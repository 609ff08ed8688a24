//! What is known of a skill.

use vstd::prelude::*;

verus! {

/// What a skill says of itself.
#[derive(Debug, PartialEq, Eq)]
pub struct SkillMetadata {
    pub name: String,
    pub description: String,
}

impl Clone for SkillMetadata {
    fn clone(&self) -> (r: SkillMetadata)
        ensures
            r == *self,
    {
        SkillMetadata { name: self.name.clone(), description: self.description.clone() }
    }
}

/// A skill with where it lies.
#[derive(Debug, PartialEq, Eq)]
pub struct SkillEntry {
    pub metadata: SkillMetadata,
    /// The path under which the assistant knows it.
    pub virtual_path: String,
    /// The path of its file.
    pub path: String,
}

impl Clone for SkillEntry {
    fn clone(&self) -> (r: SkillEntry)
        ensures
            r == *self,
    {
        SkillEntry {
            metadata: self.metadata.clone(),
            virtual_path: self.virtual_path.clone(),
            path: self.path.clone(),
        }
    }
}

} // verus!
