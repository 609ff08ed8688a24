//! Commands that messages give: texts that begin with a slash.

pub mod registry;
pub mod reset;

use vstd::prelude::*;

use crate::commands::registry::CommandRegistry;
use crate::json::option_text;
use crate::text::{
    begins_with, blank, is_blank, is_listed, is_space, lemma_listed, listed, split_first_word,
    strip_prefix, texts, trim, trim_end_of, trim_of, trim_start, trim_start_of, without_prefix,
    word_end,
};
use crate::transport::IncomingMessage;

verus! {

/// What only the conversation itself can do once a command has run.
#[derive(Debug, Clone, Copy, PartialEq, Eq, Structural)]
pub enum CommandRuntimeAction {
    Nothing,
    ResetConversation,
}

impl Default for CommandRuntimeAction {
    fn default() -> (r: CommandRuntimeAction)
        ensures
            r == CommandRuntimeAction::Nothing,
    {
        CommandRuntimeAction::Nothing
    }
}

/// What came of a command.
#[derive(Debug, PartialEq, Eq)]
pub struct CommandOutput {
    pub reply: Option<String>,
    pub runtime_action: CommandRuntimeAction,
}

impl CommandOutput {
    /// An answer, and nothing else to do.
    pub fn reply(text: String) -> (r: CommandOutput)
        ensures
            option_text(r.reply) == Some(text@),
            r.runtime_action == CommandRuntimeAction::Nothing,
    {
        CommandOutput { reply: Some(text), runtime_action: CommandRuntimeAction::Nothing }
    }

    /// An answer, and a conversation to reset.
    pub fn conversation_reset(text: String) -> (r: CommandOutput)
        ensures
            option_text(r.reply) == Some(text@),
            r.runtime_action == CommandRuntimeAction::ResetConversation,
    {
        CommandOutput {
            reply: Some(text),
            runtime_action: CommandRuntimeAction::ResetConversation,
        }
    }
}

/// A command with what stands behind it.
#[derive(Debug, PartialEq, Eq)]
pub struct CommandInvocation {
    pub name: String,
    pub arguments: String,
}

/// The name and the arguments of a command: the first word behind the slash and what follows.
pub open spec fn invocation_of(text: Seq<char>) -> Option<(Seq<char>, Seq<char>)> {
    match without_prefix(trim_of(text), "/"@) {
        Some(rest) => {
            let command = trim_start_of(rest);
            if command.len() == 0 {
                None
            } else {
                Some((command.take(word_end(command)), trim_of(command.skip(word_end(command)))))
            }
        },
        None => None,
    }
}

/// Reads a command.
pub fn parse_invocation(text: &str) -> (r: Option<CommandInvocation>)
    ensures
        match r {
            Some(i) => invocation_of(text@) == Some((i.name@, i.arguments@)),
            None => invocation_of(text@) is None,
        },
{
    match strip_prefix(&trim(text), "/") {
        Some(rest) => {
            let command = trim_start(&rest);
            if command.is_empty() {
                return None;
            }
            let (name, rest) = split_first_word(&command);
            Some(CommandInvocation { name, arguments: trim(&rest) })
        },
        None => None,
    }
}

/// Accounts, trimmed, without blank ones and each of them once.
pub open spec fn whitelist_of(accounts: Seq<Seq<char>>) -> Seq<Seq<char>>
    decreases accounts.len(),
{
    if accounts.len() == 0 {
        Seq::empty()
    } else {
        let before = whitelist_of(accounts.drop_last());
        let account = trim_of(accounts.last());
        if account.len() == 0 || before.contains(account) {
            before
        } else {
            before.push(account)
        }
    }
}

/// Accounts, trimmed, without blank ones and each of them once.
pub fn normalize_whitelist(accounts: &Vec<String>) -> (r: Vec<String>)
    ensures
        texts(r@) == whitelist_of(texts(accounts@)),
{
    let ghost all = texts(accounts@);
    let mut list: Vec<String> = Vec::new();
    let mut i: usize = 0;
    assert(all.take(0) =~= Seq::empty());
    assert(texts(list@) =~= Seq::empty());
    while i < accounts.len()
        invariant
            i <= accounts@.len(),
            all == texts(accounts@),
            texts(list@) == whitelist_of(all.take(i as int)),
        decreases accounts@.len() - i,
    {
        assert(all.take(i + 1).drop_last() =~= all.take(i as int));
        let account = trim(&accounts[i]);
        proof {
            lemma_listed(list@, account@);
        }
        if !account.is_empty() && !is_listed(&list, &account) {
            let ghost before = texts(list@);
            let ghost added = account@;
            list.push(account);
            assert(texts(list@) =~= before.push(added));
        }
        i += 1;
    }
    assert(all.take(i as int) =~= all);
    list
}

proof fn lemma_whitelist(accounts: Seq<Seq<char>>)
    ensures
        whitelist_of(accounts).no_duplicates(),
        forall|account: Seq<char>|
            #![trigger whitelist_of(accounts).contains(account)]
            whitelist_of(accounts).contains(account) <==> account.len() > 0 && exists|i: int|
                0 <= i < accounts.len() && trim_of(#[trigger] accounts[i]) == account,
    decreases accounts.len(),
{
    if accounts.len() > 0 {
        let front = accounts.drop_last();
        lemma_whitelist(front);
        let before = whitelist_of(front);
        let after = whitelist_of(accounts);
        let last = trim_of(accounts.last());
        assert forall|account: Seq<char>| #![trigger after.contains(account)] after.contains(
            account,
        ) <==> account.len() > 0 && exists|i: int|
            0 <= i < accounts.len() && trim_of(#[trigger] accounts[i]) == account by {
            if after.contains(account) {
                if before.contains(account) {
                    let i = choose|i: int|
                        0 <= i < front.len() && trim_of(#[trigger] front[i]) == account;
                    assert(trim_of(accounts[i]) == account);
                } else {
                    let k = after.index_of(account);
                    assert(k == before.len() as int);
                    assert(trim_of(accounts[accounts.len() - 1]) == account);
                }
            }
            if account.len() > 0 && exists|i: int|
                0 <= i < accounts.len() && trim_of(#[trigger] accounts[i]) == account {
                let i = choose|i: int|
                    0 <= i < accounts.len() && trim_of(#[trigger] accounts[i]) == account;
                if i < front.len() {
                    assert(trim_of(front[i]) == account);
                    assert(before.contains(account));
                    let k = before.index_of(account);
                    assert(after[k] == account);
                } else {
                    if before.contains(account) {
                        let k = before.index_of(account);
                        assert(after[k] == account);
                    } else {
                        assert(after[before.len() as int] == account);
                    }
                }
            }
        }
    }
}

/// An account may give commands just when it was listed, white space aside; none is listed twice,
/// and none at all by an empty text.
pub proof fn law_whitelist(accounts: Seq<Seq<char>>, account: Seq<char>)
    ensures
        whitelist_of(accounts).no_duplicates(),
        whitelist_of(accounts).contains(account) <==> account.len() > 0 && exists|i: int|
            0 <= i < accounts.len() && trim_of(#[trigger] accounts[i]) == account,
{
    lemma_whitelist(accounts);
}

/// What a message is to the commands.
#[derive(Debug, PartialEq, Eq)]
pub enum CommandRoute {
    /// No command: it goes on as an ordinary message.
    Ordinary,
    /// A command that is not known, with the answer to it.
    Unknown(CommandOutput),
    /// The command at this position is to be run.
    Run { command: usize, arguments: String },
}

/// The commands, and who may give them.
#[derive(Debug, PartialEq, Eq)]
pub struct CommandSystem {
    pub registry: CommandRegistry,
    pub command_whitelist: Vec<String>,
}

impl CommandSystem {
    /// Commands that the accounts of a list may give.
    pub fn new(registry: CommandRegistry, accounts: &Vec<String>) -> (r: CommandSystem)
        ensures
            r.registry == registry,
            texts(r.command_whitelist@) == whitelist_of(texts(accounts@)),
    {
        CommandSystem { registry, command_whitelist: normalize_whitelist(accounts) }
    }

    /// Whether a message gives a command: somebody who may wrote a text with a slash.
    pub fn is_command_message(&self, message: &IncomingMessage) -> (r: bool)
        ensures
            r == (listed(self.command_whitelist@, message.sender.id@) && invocation_of(
                message.content.text@,
            ) is Some),
    {
        is_listed(&self.command_whitelist, &message.sender.id) && parse_invocation(
            &message.content.text,
        ).is_some()
    }

    /// What a message is to the commands.
    pub fn route(&self, message: &IncomingMessage) -> (r: CommandRoute)
        ensures
            ({
                let invocation = invocation_of(message.content.text@);
                if !listed(self.command_whitelist@, message.sender.id@) || invocation is None {
                    r == CommandRoute::Ordinary
                } else {
                    let (name, arguments) = invocation.unwrap();
                    match self.registry.position_of(name) {
                        Some(i) => r matches CommandRoute::Run { command, arguments: a } && command
                            == i && a@ == arguments,
                        None => r matches CommandRoute::Unknown(output) && option_text(
                            output.reply,
                        ) == Some("未知命令：/"@ + name) && output.runtime_action
                            == CommandRuntimeAction::Nothing,
                    }
                }
            }),
    {
        if !is_listed(&self.command_whitelist, &message.sender.id) {
            return CommandRoute::Ordinary;
        }
        match parse_invocation(&message.content.text) {
            Some(invocation) => match self.registry.get(&invocation.name) {
                Some(command) => CommandRoute::Run { command, arguments: invocation.arguments },
                None => {
                    let mut text = "未知命令：/".to_owned();
                    text.push_str(&invocation.name);
                    CommandRoute::Unknown(CommandOutput::reply(text))
                },
            },
            None => CommandRoute::Ordinary,
        }
    }
}

/// What came of a command that failed.
pub fn failed_command(error: &str) -> (r: CommandOutput)
    ensures
        option_text(r.reply) == Some("命令执行失败："@ + error@),
        r.runtime_action == CommandRuntimeAction::Nothing,
{
    let mut text = "命令执行失败：".to_owned();
    text.push_str(error);
    CommandOutput::reply(text)
}

/// The answer to send, unless it is blank.
pub fn reply_to_send(output: &CommandOutput) -> (r: Option<String>)
    ensures
        option_text(r) == (match output.reply {
            Some(text) => if is_blank(text@) {
                None
            } else {
                Some(text@)
            },
            None => None,
        }),
{
    match &output.reply {
        Some(text) => {
            if blank(text) {
                None
            } else {
                Some(text.clone())
            }
        },
        None => None,
    }
}

/// Whether a text is white space alone.
pub open spec fn only_space(s: Seq<char>) -> bool {
    forall|i: int| 0 <= i < s.len() ==> is_space(#[trigger] s[i])
}

proof fn lemma_front_goes(front: Seq<char>, s: Seq<char>)
    requires
        only_space(front),
        s.len() == 0 || !is_space(s[0]),
    ensures
        trim_start_of(front + s) == s,
    decreases front.len(),
{
    if front.len() == 0 {
        assert(front + s =~= s);
    } else {
        assert((front + s)[0] == front[0]);
        assert((front + s).drop_first() =~= front.drop_first() + s);
        lemma_front_goes(front.drop_first(), s);
    }
}

proof fn lemma_back_goes(s: Seq<char>, back: Seq<char>)
    requires
        only_space(back),
        s.len() == 0 || !is_space(s.last()),
    ensures
        trim_end_of(s + back) == s,
    decreases back.len(),
{
    if back.len() == 0 {
        assert(s + back =~= s);
    } else {
        assert((s + back).last() == back.last());
        assert((s + back).drop_last() =~= s + back.drop_last());
        lemma_back_goes(s, back.drop_last());
    }
}

proof fn lemma_word(word: Seq<char>, rest: Seq<char>)
    requires
        forall|i: int| 0 <= i < word.len() ==> !is_space(#[trigger] word[i]),
        rest.len() == 0 || is_space(rest[0]),
    ensures
        word_end(word + rest) == word.len(),
    decreases word.len(),
{
    if word.len() == 0 {
        assert(word + rest =~= rest);
    } else {
        assert((word + rest)[0] == word[0]);
        assert((word + rest).skip(1) =~= word.skip(1) + rest);
        lemma_word(word.skip(1), rest);
    }
}

/// However a command is spaced, its name is the word behind the slash, and its arguments are what
/// follows the name, without white space around them but with all that stands between.
pub proof fn law_commands_are_read(
    front: Seq<char>,
    before: Seq<char>,
    name: Seq<char>,
    gap: Seq<char>,
    arguments: Seq<char>,
    back: Seq<char>,
)
    requires
        only_space(front),
        only_space(before),
        only_space(gap),
        only_space(back),
        name.len() > 0,
        forall|i: int| 0 <= i < name.len() ==> !is_space(#[trigger] name[i]),
        arguments.len() > 0 ==> gap.len() > 0 && !is_space(arguments[0]) && !is_space(
            arguments.last(),
        ),
        arguments.len() == 0 ==> gap.len() == 0,
    ensures
        invocation_of(front + "/"@ + before + name + gap + arguments + back) == Some(
            (name, arguments),
        ),
{
    reveal_strlit("/");
    let command = name + (gap + arguments);
    let rest = before + command;
    let core = "/"@ + rest;
    let text = front + "/"@ + before + name + gap + arguments + back;
    assert("/"@.len() == 1 && "/"@[0] == '/');
    assert(text =~= front + (core + back));
    assert((core + back)[0] == '/');
    lemma_front_goes(front, core + back);
    assert(command[0] == name[0]);
    if arguments.len() > 0 {
        assert(core.last() == arguments.last());
    } else {
        assert(core.last() == name.last());
        assert(name.last() == name[name.len() - 1]);
    }
    lemma_back_goes(core, back);
    assert(trim_of(text) == core);
    assert(core.take(1) =~= "/"@);
    assert(core.subrange(0, 1) =~= "/"@);
    assert(core.skip(1) =~= rest);
    lemma_front_goes(before, command);
    if gap.len() > 0 {
        assert((gap + arguments)[0] == gap[0]);
    }
    lemma_word(name, gap + arguments);
    assert(command.take(name.len() as int) =~= name);
    assert(command.skip(name.len() as int) =~= gap + arguments);
    lemma_front_goes(gap, arguments);
    assert(arguments + Seq::empty() =~= arguments);
    lemma_back_goes(arguments, Seq::empty());
}

/// A text that begins with anything but a slash, white space aside, is no command.
pub proof fn law_other_texts_are_no_commands(front: Seq<char>, text: Seq<char>)
    requires
        only_space(front),
        text.len() > 0,
        !is_space(text[0]),
        text[0] != '/',
    ensures
        invocation_of(front + text) is None,
{
    reveal_strlit("/");
    assert("/"@.len() == 1 && "/"@[0] == '/');
    lemma_front_goes(front, text);
    lemma_kept_front(text);
    let core = trim_of(front + text);
    if begins_with(core, "/"@) {
        assert(core.subrange(0, 1)[0] == core[0]);
        assert(core.take(1)[0] == core[0]);
        assert(core[0] == text[0]);
    }
}

proof fn lemma_kept_front(s: Seq<char>)
    ensures
        trim_end_of(s).len() <= s.len(),
        trim_end_of(s) == s.take(trim_end_of(s).len() as int),
    decreases s.len(),
{
    if s.len() > 0 && is_space(s.last()) {
        lemma_kept_front(s.drop_last());
        assert(s.drop_last().take(trim_end_of(s).len() as int) =~= s.take(
            trim_end_of(s).len() as int,
        ));
    } else {
        assert(s.take(s.len() as int) =~= s);
    }
}

} // verus!
