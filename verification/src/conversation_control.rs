//! What the parts of one conversation share.

use vstd::prelude::*;

verus! {

/// The switches of a conversation.
#[derive(Debug, Clone, Copy, PartialEq, Eq, Structural)]
pub struct ConversationControl {
    bypass_ai_filter: bool,
}

impl View for ConversationControl {
    /// Whether messages pass the filter unasked.
    type V = bool;

    closed spec fn view(&self) -> bool {
        self.bypass_ai_filter
    }
}

impl Default for ConversationControl {
    fn default() -> (r: ConversationControl)
        ensures
            r@ == false,
    {
        ConversationControl { bypass_ai_filter: false }
    }
}

impl ConversationControl {
    /// Whether messages pass the filter unasked.
    pub fn ai_filter_bypassed(&self) -> (r: bool)
        ensures
            r == self@,
    {
        self.bypass_ai_filter
    }

    /// Sets whether messages pass the filter unasked.
    pub fn set_ai_filter_bypassed(&mut self, enabled: bool)
        ensures
            final(self)@ == enabled,
    {
        self.bypass_ai_filter = enabled;
    }
}

} // verus!
