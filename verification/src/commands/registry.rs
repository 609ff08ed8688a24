//! The commands that are known.

use vstd::prelude::*;

use crate::text::{blank, contains_char, contains_space, has_space, is_blank, same_text};

verus! {

/// A command that is known.
#[derive(Debug, PartialEq, Eq)]
pub struct CommandInfo {
    pub name: String,
    pub description: String,
}

/// The commands that are known.
#[derive(Debug, PartialEq, Eq)]
pub struct CommandRegistry {
    pub commands: Vec<CommandInfo>,
}

/// Why a command cannot be registered.
#[derive(Debug, PartialEq, Eq)]
pub enum RegistryError {
    InvalidName { name: String },
    MissingDescription { name: String },
    Duplicate { name: String },
}

/// What an error says.
pub open spec fn registry_error_text(error: RegistryError) -> Seq<char> {
    match error {
        RegistryError::InvalidName { name } => "命令名称无效："@ + name@,
        RegistryError::MissingDescription { name } => "命令 "@ + name@ + " 缺少说明"@,
        RegistryError::Duplicate { name } => "命令 "@ + name@ + " 重复注册"@,
    }
}

impl RegistryError {
    /// What the error says.
    pub fn message(&self) -> (r: String)
        ensures
            r@ == registry_error_text(*self),
    {
        match self {
            RegistryError::InvalidName { name } => {
                let mut r = "命令名称无效：".to_owned();
                r.push_str(name);
                r
            },
            RegistryError::MissingDescription { name } => {
                let mut r = "命令 ".to_owned();
                r.push_str(name);
                r.push_str(" 缺少说明");
                r
            },
            RegistryError::Duplicate { name } => {
                let mut r = "命令 ".to_owned();
                r.push_str(name);
                r.push_str(" 重复注册");
                r
            },
        }
    }
}

/// Whether a name can be that of a command: one word without slashes.
pub open spec fn is_command_name(name: Seq<char>) -> bool {
    name.len() > 0 && !has_space(name) && !name.contains('/')
}

/// Where a command stands.
pub open spec fn command_position(commands: Seq<CommandInfo>, name: Seq<char>) -> Option<int>
    decreases commands.len(),
{
    if commands.len() == 0 {
        None
    } else {
        match command_position(commands.drop_last(), name) {
            Some(i) => Some(i),
            None => if commands.last().name@ == name {
                Some(commands.len() - 1)
            } else {
                None
            },
        }
    }
}

proof fn lemma_command_position(commands: Seq<CommandInfo>, name: Seq<char>)
    ensures
        match command_position(commands, name) {
            Some(i) => 0 <= i < commands.len() && commands[i].name@ == name && forall|j: int|
                0 <= j < i ==> (#[trigger] commands[j]).name@ != name,
            None => forall|j: int|
                0 <= j < commands.len() ==> (#[trigger] commands[j]).name@ != name,
        },
    decreases commands.len(),
{
    if commands.len() > 0 {
        let front = commands.drop_last();
        lemma_command_position(front, name);
        assert forall|j: int| 0 <= j < front.len() implies front[j] == #[trigger] commands[j] by {}
    }
}

impl CommandRegistry {
    /// Where a command stands.
    pub open spec fn position_of(self, name: Seq<char>) -> Option<int> {
        command_position(self.commands@, name)
    }

    /// No command is known.
    pub fn new() -> (r: CommandRegistry)
        ensures
            r.commands@ == Seq::<CommandInfo>::empty(),
    {
        CommandRegistry { commands: Vec::new() }
    }

    /// Registers a command: its name is one word without slashes that is not taken, and it has a
    /// description.
    pub fn register(&mut self, name: &str, description: &str) -> (r: Result<(), RegistryError>)
        ensures
            if !is_command_name(name@) {
                r is Err && (r->Err_0 matches RegistryError::InvalidName { name: n } && n@ == name@)
                    && final(self).commands@ == old(self).commands@
            } else if is_blank(description@) {
                r is Err && (r->Err_0 matches RegistryError::MissingDescription { name: n } && n@
                    == name@) && final(self).commands@ == old(self).commands@
            } else if old(self).position_of(name@) is Some {
                r is Err && (r->Err_0 matches RegistryError::Duplicate { name: n } && n@ == name@)
                    && final(self).commands@ == old(self).commands@
            } else {
                r is Ok && final(self).commands@.drop_last() == old(self).commands@
                    && final(self).commands@.len() == old(self).commands@.len() + 1
                    && final(self).commands@.last().name@ == name@
                    && final(self).commands@.last().description@ == description@
            },
    {
        if name.to_owned().is_empty() || contains_space(name) || contains_char(name, '/') {
            return Err(RegistryError::InvalidName { name: name.to_owned() });
        }
        if blank(description) {
            return Err(RegistryError::MissingDescription { name: name.to_owned() });
        }
        if self.get(name).is_some() {
            return Err(RegistryError::Duplicate { name: name.to_owned() });
        }
        let ghost before = self.commands@;
        self.commands.push(
            CommandInfo { name: name.to_owned(), description: description.to_owned() },
        );
        assert(self.commands@.drop_last() =~= before);
        Ok(())
    }

    /// Where a command stands.
    pub fn get(&self, name: &str) -> (r: Option<usize>)
        ensures
            match r {
                Some(i) => i < self.commands@.len() && self.position_of(name@) == Some(i as int),
                None => self.position_of(name@) is None,
            },
    {
        let mut i: usize = 0;
        while i < self.commands.len()
            invariant
                i <= self.commands@.len(),
                forall|j: int| 0 <= j < i ==> (#[trigger] self.commands@[j]).name@ != name@,
            decreases self.commands@.len() - i,
        {
            if same_text(&self.commands[i].name, name) {
                proof {
                    lemma_command_position(self.commands@, name@);
                }
                return Some(i);
            }
            i += 1;
        }
        proof {
            lemma_command_position(self.commands@, name@);
        }
        None
    }
}

} // verus!
