//! A provider that is named but cannot be asked yet.

use vstd::prelude::*;

verus! {

/// How a provider of this kind would be asked.
#[derive(Debug, PartialEq, Eq)]
pub struct AnthropicProvider {
    pub api_key: String,
    pub base_url: String,
    pub model: String,
    pub max_tokens: i32,
}

impl AnthropicProvider {
    /// A provider with the usual limit of its replies.
    pub fn new(api_key: String, base_url: String, model: String) -> (r: AnthropicProvider)
        ensures
            r == (AnthropicProvider { api_key, base_url, model, max_tokens: 10240 }),
    {
        AnthropicProvider { api_key, base_url, model, max_tokens: 10240 }
    }

    /// What every request is answered.
    pub fn chat_completions(&self) -> (r: &'static str)
        ensures
            r@ == "Anthropic provider is not implemented yet"@,
    {
        "Anthropic provider is not implemented yet"
    }
}

} // verus!
