//! The command that resets a conversation.

use vstd::prelude::*;

use crate::commands::{CommandOutput, CommandRuntimeAction};
use crate::json::option_text;
use crate::repository::db_manager::ResetConversationResult;
use crate::text::{decimal, decimal_of};

verus! {

/// The command that resets a conversation.
#[derive(Debug, Clone, Copy, PartialEq, Eq, Structural)]
pub struct ResetCommand;

impl ResetCommand {
    /// The name of the command.
    pub fn name(&self) -> (r: &'static str)
        ensures
            r@ == "reset"@,
    {
        "reset"
    }

    /// What the command does.
    pub fn description(&self) -> (r: &'static str)
        ensures
            r@ == "删除当前会话聊天记录并重置临时会话状态"@,
    {
        "删除当前会话聊天记录并重置临时会话状态"
    }

    /// Why the command does not run with what stands behind it: it takes nothing.
    pub fn refusal(&self, arguments: &str) -> (r: Option<&'static str>)
        ensures
            arguments@.len() == 0 ==> r is None,
            arguments@.len() > 0 ==> r is Some && r.unwrap()@ == "/reset 不接受参数"@,
    {
        if arguments.to_owned().is_empty() {
            None
        } else {
            Some("/reset 不接受参数")
        }
    }

    /// What comes of the command, by how much was deleted.
    pub fn output(&self, result: &ResetConversationResult) -> (r: CommandOutput)
        ensures
            r.runtime_action == CommandRuntimeAction::ResetConversation,
            option_text(r.reply) == Some(
                "当前会话已重置，已删除 "@ + decimal_of(result.deleted_messages as nat) + " 条聊天记录和 "@
                    + decimal_of(result.deleted_daily_summaries as nat) + " 条历史摘要。"@,
            ),
    {
        let mut text = "当前会话已重置，已删除 ".to_owned();
        text.push_str(&decimal(result.deleted_messages as u64));
        text.push_str(" 条聊天记录和 ");
        text.push_str(&decimal(result.deleted_daily_summaries as u64));
        text.push_str(" 条历史摘要。");
        CommandOutput::conversation_reset(text)
    }
}

} // verus!
