//! Reading what skills say of themselves, and the catalogue of skills.

use vstd::prelude::*;

use crate::json::option_text;
use crate::skills::model::{SkillEntry, SkillMetadata};
use crate::text::{
    chars_of, is_before, is_listed, join, join_of, listed, replace, replace_of, same_text,
    split_words, text_before, text_between, texts, trim, trim_of, word_list,
};

verus! {

/// How many bytes of a file are read for what it says of itself.
pub const MAX_METADATA_BYTES: u64 = 65536;

/// How deep directories of skills may lie in one another.
pub const MAX_DIRECTORY_DEPTH: usize = 16;

/// The name of the directory of skills.
pub const DIRECTORY_NAME: &'static str = "skills";

/// The name of the file of a skill.
pub const SKILL_FILE_NAME: &'static str = "SKILL.md";

/// The line around what a skill says of itself.
pub const METADATA_FENCE: &'static str = "---";

/// Why a skill cannot be read.
#[derive(Debug, Clone, Copy, PartialEq, Eq, Structural)]
pub enum MetadataError {
    /// It does not begin with the line around what it says of itself.
    MissingStart,
    /// It does not end what it says of itself.
    MissingEnd,
    BadName,
    EmptyDescription,
}

impl MetadataError {
    /// What the error says.
    pub fn message(&self) -> (r: &'static str)
        ensures
            r@ == (match *self {
                MetadataError::MissingStart => "SKILL.md 必须以 YAML 元数据分隔符 --- 开始"@,
                MetadataError::MissingEnd => "元数据缺少结束分隔符 ---，或超过 64 KiB"@,
                MetadataError::BadName =>
                "Skill name 仅允许小写英文字母、数字、连字符和下划线，且不能为空"@,
                MetadataError::EmptyDescription => "Skill description 不能为空"@,
            }),
    {
        match self {
            MetadataError::MissingStart => "SKILL.md 必须以 YAML 元数据分隔符 --- 开始",
            MetadataError::MissingEnd => "元数据缺少结束分隔符 ---，或超过 64 KiB",
            MetadataError::BadName => "Skill name 仅允许小写英文字母、数字、连字符和下划线，且不能为空",
            MetadataError::EmptyDescription => "Skill description 不能为空",
        }
    }
}

/// A text without the signs for the order of bytes at its front.
pub open spec fn without_marks(s: Seq<char>) -> Seq<char>
    decreases s.len(),
{
    if s.len() > 0 && s[0] == '\u{feff}' {
        without_marks(s.skip(1))
    } else {
        s
    }
}

fn strip_marks(s: &str) -> (r: String)
    ensures
        r@ == without_marks(s@),
{
    let chars = chars_of(s);
    let mut i: usize = 0;
    assert(s@.skip(0) =~= s@);
    while i < chars.len() && chars[i] == '\u{feff}'
        invariant
            i <= chars@.len(),
            chars@ == s@,
            without_marks(s@) == without_marks(s@.skip(i as int)),
        decreases chars@.len() - i,
    {
        assert(s@.skip(i as int).skip(1) =~= s@.skip(i + 1));
        i += 1;
    }
    let r = text_between(&chars, i, chars.len());
    assert(r@ =~= s@.skip(i as int));
    r
}

/// Whether the first line of a file begins what it says of itself.
pub open spec fn begins_metadata(line: Seq<char>) -> bool {
    trim_of(without_marks(line)) == METADATA_FENCE@
}

/// Reads a file line by line, up to the end of what it says of itself.
#[derive(Debug, PartialEq, Eq)]
pub struct MetadataReader {
    /// What was read so far, once the first line was seen.
    yaml: Option<String>,
}

impl View for MetadataReader {
    /// What was read so far, once the first line was seen.
    type V = Option<Seq<char>>;

    closed spec fn view(&self) -> Option<Seq<char>> {
        option_text(self.yaml)
    }
}

/// What a reader does next.
#[derive(Debug, PartialEq, Eq)]
pub enum MetadataStep {
    /// It reads one more line.
    NextLine,
    /// It has read all, which is this.
    Done(String),
    Failed(MetadataError),
}

impl MetadataReader {
    /// A reader that has read nothing.
    pub fn new() -> (r: MetadataReader)
        ensures
            r@ is None,
    {
        MetadataReader { yaml: None }
    }

    /// Takes in a line with its end, or nothing where the file has no more.
    pub fn receive(&mut self, line: Option<&str>) -> (r: MetadataStep)
        ensures
            match old(self)@ {
                None => if line matches Some(text) && begins_metadata(text@) {
                    final(self)@ == Some(Seq::<char>::empty()) && r == MetadataStep::NextLine
                } else {
                    r == MetadataStep::Failed(MetadataError::MissingStart)
                },
                Some(yaml) => match line {
                    None => r == MetadataStep::Failed(MetadataError::MissingEnd),
                    Some(text) => if trim_of(text@) == METADATA_FENCE@ {
                        r matches MetadataStep::Done(all) && all@ == yaml
                    } else {
                        final(self)@ == Some(yaml + text@) && r == MetadataStep::NextLine
                    },
                },
            },
    {
        let taken = self.yaml.take();
        match taken {
            None => match line {
                Some(text) => {
                    if same_text(&trim(&strip_marks(text)), METADATA_FENCE) {
                        self.yaml = Some(String::new());
                        assert(self@.unwrap() =~= Seq::<char>::empty());
                        MetadataStep::NextLine
                    } else {
                        MetadataStep::Failed(MetadataError::MissingStart)
                    }
                },
                None => MetadataStep::Failed(MetadataError::MissingStart),
            },
            Some(yaml) => match line {
                Some(text) => {
                    if same_text(&trim(text), METADATA_FENCE) {
                        MetadataStep::Done(yaml)
                    } else {
                        let mut more = yaml;
                        more.push_str(text);
                        self.yaml = Some(more);
                        MetadataStep::NextLine
                    }
                },
                None => MetadataStep::Failed(MetadataError::MissingEnd),
            },
        }
    }
}

/// Whether a character may stand in the name of a skill.
pub open spec fn is_name_char(c: char) -> bool {
    ('a' <= c && c <= 'z') || ('0' <= c && c <= '9') || c == '-' || c == '_'
}

/// Whether a text can be the name of a skill.
pub open spec fn is_skill_name(name: Seq<char>) -> bool {
    name.len() > 0 && forall|i: int| 0 <= i < name.len() ==> is_name_char(#[trigger] name[i])
}

/// Whether a text can be the name of a skill.
pub fn valid_skill_name(name: &str) -> (r: bool)
    ensures
        r == is_skill_name(name@),
{
    let chars = chars_of(name);
    if chars.len() == 0 {
        return false;
    }
    let mut i: usize = 0;
    while i < chars.len()
        invariant
            i <= chars@.len(),
            chars@ == name@,
            forall|j: int| 0 <= j < i ==> is_name_char(#[trigger] name@[j]),
        decreases chars@.len() - i,
    {
        let c = chars[i];
        if !(('a' <= c && c <= 'z') || ('0' <= c && c <= '9') || c == '-' || c == '_') {
            assert(!is_name_char(name@[i as int]));
            return false;
        }
        i += 1;
    }
    true
}

/// What a skill says of itself, by the texts under its two keys.
pub open spec fn metadata_of(name: Seq<char>, description: Seq<char>) -> Result<
    (Seq<char>, Seq<char>),
    MetadataError,
> {
    if !is_skill_name(trim_of(name)) {
        Err(MetadataError::BadName)
    } else if trim_of(description).len() == 0 {
        Err(MetadataError::EmptyDescription)
    } else {
        Ok((trim_of(name), trim_of(description)))
    }
}

/// Whether a result is what a skill says of itself.
pub open spec fn is_metadata(
    r: Result<SkillMetadata, MetadataError>,
    wanted: Result<(Seq<char>, Seq<char>), MetadataError>,
) -> bool {
    match wanted {
        Ok((name, description)) => r is Ok && r->Ok_0.name@ == name && r->Ok_0.description@
            == description,
        Err(e) => r == Err::<SkillMetadata, MetadataError>(e),
    }
}

/// What a skill says of itself, by the texts under its two keys.
pub fn check_metadata(name: &str, description: &str) -> (r: Result<SkillMetadata, MetadataError>)
    ensures
        is_metadata(r, metadata_of(name@, description@)),
{
    let name = trim(name);
    let description = trim(description);
    if !valid_skill_name(&name) {
        return Err(MetadataError::BadName);
    }
    if description.is_empty() {
        return Err(MetadataError::EmptyDescription);
    }
    Ok(SkillMetadata { name, description })
}

/// What is done with something in a directory of skills.
#[derive(Debug, Clone, Copy, PartialEq, Eq, Structural)]
pub enum DiscoveryStep {
    /// It is passed over.
    Skip,
    /// It is a directory to go into.
    Descend,
    /// It is the file of a skill.
    Load,
    /// It is a directory that lies too deep.
    TooDeep,
}

/// What is done with something in a directory of skills that lies `depth` directories deep: links
/// are passed over, and so are files that are not the file of a skill.
pub fn discovery_step(
    name: &str,
    is_symlink: bool,
    is_directory: bool,
    is_file: bool,
    depth: usize,
) -> (r: DiscoveryStep)
    ensures
        r == (if is_symlink {
            DiscoveryStep::Skip
        } else if is_directory {
            if depth < MAX_DIRECTORY_DEPTH {
                DiscoveryStep::Descend
            } else {
                DiscoveryStep::TooDeep
            }
        } else if is_file && name@ == SKILL_FILE_NAME@ {
            DiscoveryStep::Load
        } else {
            DiscoveryStep::Skip
        }),
{
    if is_symlink {
        DiscoveryStep::Skip
    } else if is_directory {
        if depth < MAX_DIRECTORY_DEPTH {
            DiscoveryStep::Descend
        } else {
            DiscoveryStep::TooDeep
        }
    } else if is_file && same_text(name, SKILL_FILE_NAME) {
        DiscoveryStep::Load
    } else {
        DiscoveryStep::Skip
    }
}

/// The path under which the assistant knows a file of a skill.
pub fn virtual_path(relative_path: &str) -> (r: String)
    ensures
        r@ == "/"@ + DIRECTORY_NAME@ + "/"@ + replace_of(relative_path@, "\\"@, "/"@),
{
    let mut r = "/".to_owned();
    r.push_str(DIRECTORY_NAME);
    r.push_str("/");
    r.push_str(&replace(relative_path, "\\", "/"));
    r
}

/// Whether skills are ordered by their names, each name once.
pub open spec fn in_name_order(entries: Seq<SkillEntry>) -> bool {
    forall|i: int, j: int|
        0 <= i < j < entries.len() ==> text_before(
            (#[trigger] entries[i]).metadata.name@,
            (#[trigger] entries[j]).metadata.name@,
        )
}

/// The skills that were found, ordered by their names.
#[derive(Debug, PartialEq, Eq)]
pub struct SkillCatalog {
    entries: Vec<SkillEntry>,
}

impl View for SkillCatalog {
    /// The skills, ordered by their names.
    type V = Seq<SkillEntry>;

    closed spec fn view(&self) -> Seq<SkillEntry> {
        self.entries@
    }
}

/// Whether a skill with a name is in a catalogue.
pub open spec fn has_skill(entries: Seq<SkillEntry>, name: Seq<char>) -> bool {
    exists|i: int| 0 <= i < entries.len() && (#[trigger] entries[i]).metadata.name@ == name
}

proof fn lemma_before_total(a: Seq<char>, b: Seq<char>)
    ensures
        a != b ==> text_before(a, b) || text_before(b, a),
        !text_before(a, a),
    decreases a.len(),
{
    if a.len() > 0 {
        lemma_before_total(a.skip(1), b.skip(1));
        lemma_before_total(a.skip(1), a.skip(1));
        if b.len() > 0 && a[0] == b[0] && a.skip(1) == b.skip(1) {
            assert(a =~= seq![a[0]] + a.skip(1));
            assert(b =~= seq![b[0]] + b.skip(1));
        }
    } else if b.len() == 0 {
        assert(a =~= b);
    }
}

proof fn lemma_before_transitive(a: Seq<char>, b: Seq<char>, c: Seq<char>)
    ensures
        text_before(a, b) && text_before(b, c) ==> text_before(a, c),
    decreases a.len(),
{
    if a.len() > 0 && b.len() > 0 && c.len() > 0 && a[0] == b[0] && b[0] == c[0] {
        lemma_before_transitive(a.skip(1), b.skip(1), c.skip(1));
    }
}

/// A name that is in the catalogue already.
#[derive(Debug, PartialEq, Eq)]
pub struct DuplicateSkill {
    pub name: String,
    /// The path of the skill that has the name.
    pub path: String,
}

impl SkillCatalog {
    #[verifier::type_invariant]
    closed spec fn ordered(self) -> bool {
        in_name_order(self.entries@)
    }

    /// No skills.
    pub fn new() -> (r: SkillCatalog)
        ensures
            r@ == Seq::<SkillEntry>::empty(),
    {
        SkillCatalog { entries: Vec::new() }
    }

    /// Adds a skill, unless there is one with its name. The catalogue stays ordered.
    pub fn insert(&mut self, entry: SkillEntry) -> (r: Result<(), DuplicateSkill>)
        ensures
            r is Err == has_skill(old(self)@, entry.metadata.name@),
            match r {
                Ok(()) => in_name_order(final(self)@) && exists|at: int|
                    0 <= at <= old(self)@.len() && final(self)@ == #[trigger] old(self)@.insert(
                        at,
                        entry,
                    ),
                Err(e) => final(self)@ == old(self)@ && e.name@ == entry.metadata.name@ && exists|
                    i: int,
                |
                    0 <= i < old(self)@.len() && (#[trigger] old(self)@[i]).metadata.name@
                        == entry.metadata.name@ && old(self)@[i].path@ == e.path@,
            },
    {
        proof {
            use_type_invariant(&*self);
        }
        let ghost name = entry.metadata.name@;
        let mut entries: Vec<SkillEntry> = Vec::new();
        std::mem::swap(&mut entries, &mut self.entries);
        let ghost before = entries@;
        let mut at: usize = entries.len();
        while at > 0 && is_before(&entry.metadata.name, &entries[at - 1].metadata.name)
            invariant
                at <= entries@.len(),
                name == entry.metadata.name@,
                forall|i: int|
                    at <= i < entries@.len() ==> text_before(
                        name,
                        (#[trigger] entries@[i]).metadata.name@,
                    ),
            decreases at,
        {
            at -= 1;
        }
        if at > 0 && same_text(&entries[at - 1].metadata.name, &entry.metadata.name) {
            let path = entries[at - 1].path.clone();
            assert(before[at - 1].metadata.name@ == name && before[at - 1].path@ == path@);
            self.entries = entries;
            return Err(DuplicateSkill { name: entry.metadata.name, path });
        }
        proof {
            assert forall|i: int| 0 <= i < at implies text_before(
                (#[trigger] before[i]).metadata.name@,
                name,
            ) by {
                let last = before[at - 1].metadata.name@;
                lemma_before_total(last, name);
                if i < at - 1 {
                    lemma_before_transitive(before[i].metadata.name@, last, name);
                }
            }
            assert forall|i: int| 0 <= i < before.len() implies (
            #[trigger] before[i]).metadata.name@ != name by {
                lemma_before_total(name, name);
            }
        }
        entries.insert(at, entry);
        proof {
            assert(entries@ == before.insert(at as int, entry));
            assert(in_name_order(entries@)) by {
                assert forall|i: int, j: int| 0 <= i < j < entries@.len() implies text_before(
                    (#[trigger] entries@[i]).metadata.name@,
                    (#[trigger] entries@[j]).metadata.name@,
                ) by {
                    let a = if i < at {
                        i
                    } else {
                        i - 1
                    };
                    let b = if j < at {
                        j
                    } else {
                        j - 1
                    };
                    if i != at {
                        assert(entries@[i] == before[a]);
                    }
                    if j != at {
                        assert(entries@[j] == before[b]);
                    }
                }
            }
        }
        self.entries = entries;
        Ok(())
    }

    /// How many skills there are.
    pub fn len(&self) -> (r: usize)
        ensures
            r == self@.len(),
    {
        self.entries.len()
    }

    /// Whether there are none.
    pub fn is_empty(&self) -> (r: bool)
        ensures
            r == (self@.len() == 0),
    {
        self.entries.len() == 0
    }

    /// The skill with a name.
    pub fn get(&self, name: &str) -> (r: Option<&SkillEntry>)
        ensures
            match r {
                Some(entry) => entry.metadata.name@ == name@ && self@.contains(*entry),
                None => !has_skill(self@, name@),
            },
    {
        let mut i: usize = 0;
        while i < self.entries.len()
            invariant
                i <= self.entries@.len(),
                forall|j: int|
                    0 <= j < i ==> (#[trigger] self.entries@[j]).metadata.name@ != name@,
            decreases self.entries@.len() - i,
        {
            if same_text(&self.entries[i].metadata.name, name) {
                assert(self@[i as int] == self.entries@[i as int]);
                return Some(&self.entries[i]);
            }
            i += 1;
        }
        None
    }

    /// The skills, ordered by their names.
    pub fn iter(&self) -> (r: &Vec<SkillEntry>)
        ensures
            r@ == self@,
            in_name_order(r@),
    {
        proof {
            use_type_invariant(self);
        }
        &self.entries
    }

    /// Leaves out the skills whose names are not listed.
    pub fn retain_enabled(&mut self, enabled_names: &Vec<String>)
        ensures
            final(self)@ == enabled_skills(old(self)@, enabled_names@),
    {
        proof {
            use_type_invariant(&*self);
        }
        let ghost all = self.entries@;
        let mut rest: Vec<SkillEntry> = Vec::new();
        std::mem::swap(&mut rest, &mut self.entries);
        let mut kept: Vec<SkillEntry> = Vec::new();
        let ghost mut done: int = 0;
        assert(all.take(0) =~= Seq::empty());
        while rest.len() > 0
            invariant
                0 <= done <= all.len(),
                rest@ =~= all.skip(done),
                kept@ == enabled_skills(all.take(done), enabled_names@),
            decreases rest@.len(),
        {
            let entry = rest.remove(0);
            assert(entry == all[done]);
            assert(all.take(done + 1).drop_last() =~= all.take(done));
            if is_listed(enabled_names, &entry.metadata.name) {
                kept.push(entry);
            }
            proof {
                done = done + 1;
            }
        }
        proof {
            assert(all.take(done) =~= all);
            lemma_enabled_ordered(all, enabled_names@);
        }
        self.entries = kept;
    }

    /// What a prompt shows of the skills.
    pub fn render_prompt_list(&self) -> (r: String)
        ensures
            r@ == prompt_list(self@),
    {
        if self.entries.len() == 0 {
            return "- 暂无已启用的 Skill".to_owned();
        }
        let ghost listed_lines = Seq::new(self@.len(), |i: int| skill_line(self@[i]));
        let mut lines: Vec<String> = Vec::new();
        let mut i: usize = 0;
        while i < self.entries.len()
            invariant
                i <= self.entries@.len(),
                self.entries@ == self@,
                listed_lines == Seq::new(self@.len(), |i: int| skill_line(self@[i])),
                texts(lines@) =~= listed_lines.take(i as int),
            decreases self.entries@.len() - i,
        {
            let entry = &self.entries[i];
            let mut line = "- 名称：".to_owned();
            line.push_str(&entry.metadata.name);
            line.push_str("；说明：");
            line.push_str(&join(&split_words(&entry.metadata.description), " "));
            line.push_str("；入口：");
            line.push_str(&entry.virtual_path);
            let ghost before = texts(lines@);
            lines.push(line);
            assert(texts(lines@) =~= before.push(line@));
            assert(listed_lines.take(i + 1) =~= listed_lines.take(i as int).push(
                listed_lines[i as int],
            ));
            i += 1;
        }
        assert(listed_lines.take(i as int) =~= listed_lines);
        join(&lines, "\n")
    }
}

/// The skills whose names are listed.
pub open spec fn enabled_skills(entries: Seq<SkillEntry>, names: Seq<String>) -> Seq<SkillEntry>
    decreases entries.len(),
{
    if entries.len() == 0 {
        Seq::empty()
    } else if listed(names, entries.last().metadata.name@) {
        enabled_skills(entries.drop_last(), names).push(entries.last())
    } else {
        enabled_skills(entries.drop_last(), names)
    }
}

proof fn lemma_enabled_from(entries: Seq<SkillEntry>, names: Seq<String>, i: int)
    requires
        0 <= i < enabled_skills(entries, names).len(),
    ensures
        entries.contains(enabled_skills(entries, names)[i]),
    decreases entries.len(),
{
    let kept = enabled_skills(entries, names);
    let front = entries.drop_last();
    if listed(names, entries.last().metadata.name@) && i == kept.len() - 1 {
        assert(entries[entries.len() - 1] == kept[i]);
    } else {
        lemma_enabled_from(front, names, i);
        let k = front.index_of(kept[i]);
        assert(entries[k] == kept[i]);
    }
}

proof fn lemma_enabled_ordered(entries: Seq<SkillEntry>, names: Seq<String>)
    requires
        in_name_order(entries),
    ensures
        in_name_order(enabled_skills(entries, names)),
    decreases entries.len(),
{
    if entries.len() > 0 {
        let front = entries.drop_last();
        assert(in_name_order(front)) by {
            assert forall|i: int, j: int| 0 <= i < j < front.len() implies text_before(
                (#[trigger] front[i]).metadata.name@,
                (#[trigger] front[j]).metadata.name@,
            ) by {
                assert(front[i] == entries[i] && front[j] == entries[j]);
            }
        }
        lemma_enabled_ordered(front, names);
        let before = enabled_skills(front, names);
        let kept = enabled_skills(entries, names);
        assert forall|i: int, j: int| 0 <= i < j < kept.len() implies text_before(
            (#[trigger] kept[i]).metadata.name@,
            (#[trigger] kept[j]).metadata.name@,
        ) by {
            if j < before.len() {
                assert(kept[i] == before[i] && kept[j] == before[j]);
            } else {
                assert(kept[i] == before[i]);
                lemma_enabled_from(front, names, i);
                let k = front.index_of(before[i]);
                assert(entries[k] == before[i]);
                assert(entries[entries.len() - 1] == kept[j]);
            }
        }
    }
}

/// A skill as a line of a prompt.
pub open spec fn skill_line(entry: SkillEntry) -> Seq<char> {
    "- 名称："@ + entry.metadata.name@ + "；说明："@ + join_of(
        word_list(entry.metadata.description@),
        " "@,
    ) + "；入口："@ + entry.virtual_path@
}

/// What a prompt shows of skills.
pub open spec fn prompt_list(entries: Seq<SkillEntry>) -> Seq<char> {
    if entries.len() == 0 {
        "- 暂无已启用的 Skill"@
    } else {
        join_of(Seq::new(entries.len(), |i: int| skill_line(entries[i])), "\n"@)
    }
}

/// The skills that stay are exactly the listed ones, each as often as before and in the same order:
/// one skill stays where its name is listed, and the skills of two lists are those of the first and
/// then those of the second.
pub proof fn law_listed_skills_stay(
    a: Seq<SkillEntry>,
    b: Seq<SkillEntry>,
    entry: SkillEntry,
    names: Seq<String>,
)
    ensures
        (exists|i: int| 0 <= i < names.len() && (#[trigger] names[i])@ == entry.metadata.name@)
            ==> enabled_skills(seq![entry], names) == seq![entry],
        (forall|i: int| 0 <= i < names.len() ==> (#[trigger] names[i])@ != entry.metadata.name@)
            ==> enabled_skills(seq![entry], names).len() == 0,
        enabled_skills(a + b, names) == enabled_skills(a, names) + enabled_skills(b, names),
    decreases b.len(),
{
    let one = seq![entry];
    assert(one.drop_last() =~= Seq::empty());
    assert(enabled_skills(one.drop_last(), names) =~= Seq::empty());
    assert(one.last() == entry);
    if listed(names, entry.metadata.name@) {
        assert(enabled_skills(one, names) =~= one);
    }
    if b.len() == 0 {
        assert(a + b =~= a);
        assert(enabled_skills(a + b, names) =~= enabled_skills(a, names) + enabled_skills(b, names));
    } else {
        law_listed_skills_stay(a, b.drop_last(), entry, names);
        assert((a + b).drop_last() =~= a + b.drop_last());
        assert((a + b).last() == b.last());
        assert(enabled_skills(a + b, names) =~= enabled_skills(a, names) + enabled_skills(b, names));
    }
}

} // verus!
