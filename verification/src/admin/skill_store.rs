//! Skills and their files, as the pages show them.

use vstd::prelude::*;

use crate::skills::loader::{has_skill, SkillCatalog, SKILL_FILE_NAME};
use crate::skills::model::SkillEntry;
use crate::text::{
    contains_char, is_before, is_listed, lemma_listed, lemma_text_before_strict,
    lemma_text_not_before_transitive, listed, replace, replace_of, same_text, split, split_of,
    starts_with, text_before, texts, trim, trim_of,
};

verus! {

/// How many bytes a file of a skill may take on a page.
pub const MAX_SKILL_FILE_BYTES: u64 = 1048576;

/// How many files of a skill a page shows at most.
pub const MAX_SKILL_FILES: usize = 2000;

/// How deep directories of files may lie in one another.
pub const MAX_DIRECTORY_DEPTH: usize = 24;

/// A skill as a page lists it.
#[derive(Debug, PartialEq, Eq)]
pub struct AdminSkillSummary {
    pub name: String,
    pub description: String,
    pub entry_path: String,
    pub enabled: bool,
}

/// A file of a skill.
#[derive(Debug, PartialEq, Eq)]
pub struct AdminSkillFile {
    pub path: String,
    pub size: u64,
}

/// Whether a page lists a skill as it is.
pub open spec fn is_summary_of(
    summary: AdminSkillSummary,
    entry: SkillEntry,
    enabled_names: Seq<String>,
) -> bool {
    summary.name@ == entry.metadata.name@ && summary.description@ == entry.metadata.description@
        && summary.entry_path@ == entry.virtual_path@ && summary.enabled == listed(
        enabled_names,
        entry.metadata.name@,
    )
}

/// The skills of a catalogue, as a page lists them.
pub fn list_skills(catalog: &SkillCatalog, enabled_names: &Vec<String>) -> (r: Vec<
    AdminSkillSummary,
>)
    ensures
        r@.len() == catalog@.len(),
        forall|i: int|
            0 <= i < r@.len() ==> is_summary_of(#[trigger] r@[i], catalog@[i], enabled_names@),
{
    let entries = catalog.iter();
    let mut r: Vec<AdminSkillSummary> = Vec::new();
    let mut i: usize = 0;
    while i < entries.len()
        invariant
            i <= entries@.len(),
            entries@ == catalog@,
            r@.len() == i,
            forall|j: int|
                0 <= j < i ==> is_summary_of(#[trigger] r@[j], catalog@[j], enabled_names@),
        decreases entries@.len() - i,
    {
        let entry = &entries[i];
        r.push(
            AdminSkillSummary {
                name: entry.metadata.name.clone(),
                description: entry.metadata.description.clone(),
                entry_path: entry.virtual_path.clone(),
                enabled: is_listed(enabled_names, &entry.metadata.name),
            },
        );
        i += 1;
    }
    r
}

/// The names of a list that a catalogue knows, trimmed, each of them once.
pub open spec fn known_names(entries: Seq<SkillEntry>, requested: Seq<Seq<char>>) -> Seq<Seq<char>>
    decreases requested.len(),
{
    if requested.len() == 0 {
        Seq::empty()
    } else {
        let before = known_names(entries, requested.drop_last());
        let name = trim_of(requested.last());
        if name.len() > 0 && has_skill(entries, name) && !before.contains(name) {
            before.push(name)
        } else {
            before
        }
    }
}

/// The names of a list that a catalogue knows, trimmed, each of them once.
pub fn normalize_enabled_names(catalog: &SkillCatalog, requested: &Vec<String>) -> (r: Vec<String>)
    ensures
        texts(r@) == known_names(catalog@, texts(requested@)),
{
    let ghost all = texts(requested@);
    let mut names: Vec<String> = Vec::new();
    let mut i: usize = 0;
    assert(all.take(0) =~= Seq::empty());
    assert(texts(names@) =~= Seq::empty());
    while i < requested.len()
        invariant
            i <= requested@.len(),
            all == texts(requested@),
            texts(names@) == known_names(catalog@, all.take(i as int)),
        decreases requested@.len() - i,
    {
        assert(all.take(i + 1).drop_last() =~= all.take(i as int));
        let name = trim(&requested[i]);
        proof {
            lemma_listed(names@, name@);
        }
        let known = match catalog.get(&name) {
            Some(entry) => {
                proof {
                    let k = catalog@.index_of(*entry);
                    assert(catalog@[k].metadata.name@ == name@);
                }
                true
            },
            None => false,
        };
        if !name.is_empty() && known && !is_listed(&names, &name) {
            let ghost before = texts(names@);
            let ghost added = name@;
            names.push(name);
            assert(texts(names@) =~= before.push(added));
        }
        i += 1;
    }
    assert(all.take(i as int) =~= all);
    names
}

/// Ordered files with one more, behind those that do not come after it.
pub open spec fn file_inserted(sorted: Seq<AdminSkillFile>, file: AdminSkillFile) -> Seq<
    AdminSkillFile,
>
    decreases sorted.len(),
{
    if sorted.len() == 0 || !text_before(file.path@, sorted.last().path@) {
        sorted.push(file)
    } else {
        file_inserted(sorted.drop_last(), file).push(sorted.last())
    }
}

/// Files in the order of their paths.
pub open spec fn files_in_order(files: Seq<AdminSkillFile>) -> Seq<AdminSkillFile>
    decreases files.len(),
{
    if files.len() == 0 {
        Seq::empty()
    } else {
        file_inserted(files_in_order(files.drop_last()), files.last())
    }
}

proof fn lemma_file_inserted_at(sorted: Seq<AdminSkillFile>, file: AdminSkillFile, at: int)
    requires
        0 <= at <= sorted.len(),
        at > 0 ==> !text_before(file.path@, sorted[at - 1].path@),
        forall|i: int|
            at <= i < sorted.len() ==> text_before(file.path@, (#[trigger] sorted[i]).path@),
    ensures
        file_inserted(sorted, file) =~= sorted.insert(at, file),
    decreases sorted.len(),
{
    if at < sorted.len() {
        let front = sorted.drop_last();
        assert forall|i: int| at <= i < front.len() implies text_before(
            file.path@,
            (#[trigger] front[i]).path@,
        ) by {
            assert(front[i] == sorted[i]);
        }
        lemma_file_inserted_at(front, file, at);
        assert(file_inserted(sorted, file) =~= sorted.insert(at, file));
    } else {
        assert(sorted.insert(at, file) =~= sorted.push(file));
    }
}

/// Whether no path comes before one that stands ahead of it.
pub open spec fn files_ordered(list: Seq<AdminSkillFile>) -> bool {
    forall|i: int, j: int|
        0 <= i < j < list.len() ==> !text_before(
            (#[trigger] list[j]).path@,
            (#[trigger] list[i]).path@,
        )
}

proof fn lemma_file_inserted_ordered(sorted: Seq<AdminSkillFile>, file: AdminSkillFile)
    requires
        files_ordered(sorted),
    ensures
        files_ordered(file_inserted(sorted, file)),
        file_inserted(sorted, file).to_multiset() =~= sorted.to_multiset().insert(file),
        forall|i: int|
            0 <= i < file_inserted(sorted, file).len() ==> #[trigger] file_inserted(sorted, file)[i]
                == file || sorted.contains(file_inserted(sorted, file)[i]),
    decreases sorted.len(),
{
    broadcast use vstd::seq_lib::group_to_multiset_ensures;

    let r = file_inserted(sorted, file);
    if sorted.len() == 0 || !text_before(file.path@, sorted.last().path@) {
        assert forall|i: int, j: int| 0 <= i < j < r.len() implies !text_before(
            (#[trigger] r[j]).path@,
            (#[trigger] r[i]).path@,
        ) by {
            if j == sorted.len() && i < sorted.len() - 1 {
                assert(!text_before(sorted[sorted.len() - 1].path@, sorted[i].path@));
                lemma_text_not_before_transitive(sorted[i].path@, sorted.last().path@, file.path@);
            }
        }
        assert forall|i: int| 0 <= i < r.len() implies #[trigger] r[i] == file
            || sorted.contains(r[i]) by {
            if i < sorted.len() {
                assert(sorted[i] == r[i]);
            }
        }
    } else {
        let front = sorted.drop_last();
        let last = sorted.last();
        assert(files_ordered(front)) by {
            assert forall|i: int, j: int| 0 <= i < j < front.len() implies !text_before(
                (#[trigger] front[j]).path@,
                (#[trigger] front[i]).path@,
            ) by {
                assert(front[j] == sorted[j] && front[i] == sorted[i]);
            }
        }
        lemma_file_inserted_ordered(front, file);
        let part = file_inserted(front, file);
        assert(sorted =~= front.push(last));
        assert forall|i: int, j: int| 0 <= i < j < r.len() implies !text_before(
            (#[trigger] r[j]).path@,
            (#[trigger] r[i]).path@,
        ) by {
            if j == part.len() {
                assert(r[i] == part[i]);
                if part[i] == file {
                    lemma_text_before_strict(file.path@, last.path@);
                } else {
                    let k = choose|k: int| 0 <= k < front.len() && front[k] == part[i];
                    assert(sorted[k] == part[i]);
                    assert(!text_before(sorted[sorted.len() - 1].path@, sorted[k].path@));
                }
            } else {
                assert(r[j] == part[j] && r[i] == part[i]);
            }
        }
        assert forall|i: int| 0 <= i < r.len() implies #[trigger] r[i] == file
            || sorted.contains(r[i]) by {
            if i < part.len() {
                assert(r[i] == part[i]);
                if part[i] != file {
                    let k = choose|k: int| 0 <= k < front.len() && front[k] == part[i];
                    assert(sorted[k] == r[i]);
                }
            } else {
                assert(sorted[sorted.len() - 1] == r[i]);
            }
        }
        assert(r.to_multiset() =~= part.to_multiset().insert(last));
    }
}

/// Files that are put in order are the same files, and no path comes before one ahead of it.
pub proof fn law_sorted_files_are_ordered(list: Seq<AdminSkillFile>)
    ensures
        files_ordered(files_in_order(list)),
        files_in_order(list).to_multiset() =~= list.to_multiset(),
    decreases list.len(),
{
    broadcast use vstd::seq_lib::group_to_multiset_ensures;

    if list.len() > 0 {
        law_sorted_files_are_ordered(list.drop_last());
        lemma_file_inserted_ordered(files_in_order(list.drop_last()), list.last());
        assert(list =~= list.drop_last().push(list.last()));
    } else {
        assert(list =~= Seq::empty());
    }
}

/// The files of a skill in the order of their paths.
pub fn list_skill_files(files: Vec<AdminSkillFile>) -> (r: Vec<AdminSkillFile>)
    ensures
        r@ == files_in_order(files@),
{
    let ghost all = files@;
    let mut rest = files;
    let mut sorted: Vec<AdminSkillFile> = Vec::new();
    let ghost mut done: int = 0;
    assert(all.take(0) =~= Seq::empty());
    while rest.len() > 0
        invariant
            0 <= done <= all.len(),
            rest@ =~= all.skip(done),
            sorted@ == files_in_order(all.take(done)),
        decreases rest@.len(),
    {
        let file = rest.remove(0);
        assert(file == all[done]);
        let mut at: usize = sorted.len();
        while at > 0 && is_before(&file.path, &sorted[at - 1].path)
            invariant
                at <= sorted@.len(),
                forall|i: int|
                    at <= i < sorted@.len() ==> text_before(
                        file.path@,
                        (#[trigger] sorted@[i]).path@,
                    ),
            decreases at,
        {
            at -= 1;
        }
        proof {
            lemma_file_inserted_at(sorted@, file, at as int);
            assert(all.take(done + 1).drop_last() =~= all.take(done));
        }
        sorted.insert(at, file);
        proof {
            done = done + 1;
        }
    }
    assert(all.take(done) =~= all);
    sorted
}

/// What is done with something in a directory of a skill.
#[derive(Debug, Clone, Copy, PartialEq, Eq, Structural)]
pub enum ScanStep {
    /// It is passed over.
    Skip,
    /// It is a directory to go into.
    Descend,
    /// It is a file to list.
    List,
    /// There are too many files.
    TooMany,
    /// It is a directory that lies too deep.
    TooDeep,
}

/// What is done with something in a directory of a skill that lies `depth` directories deep: links
/// are passed over, and so are directories that hold what others made.
pub fn scan_step(
    name: &str,
    is_symlink: bool,
    is_directory: bool,
    is_file: bool,
    listed_files: usize,
    depth: usize,
) -> (r: ScanStep)
    ensures
        r == (if is_symlink {
            ScanStep::Skip
        } else if is_directory {
            if name@ == "node_modules"@ || name@ == ".git"@ {
                ScanStep::Skip
            } else if depth < MAX_DIRECTORY_DEPTH {
                ScanStep::Descend
            } else {
                ScanStep::TooDeep
            }
        } else if is_file {
            if listed_files >= MAX_SKILL_FILES {
                ScanStep::TooMany
            } else {
                ScanStep::List
            }
        } else {
            ScanStep::Skip
        }),
{
    if is_symlink {
        return ScanStep::Skip;
    }
    if is_directory {
        if same_text(name, "node_modules") || same_text(name, ".git") {
            return ScanStep::Skip;
        }
        if depth < MAX_DIRECTORY_DEPTH {
            return ScanStep::Descend;
        }
        return ScanStep::TooDeep;
    }
    if !is_file {
        return ScanStep::Skip;
    }
    if listed_files >= MAX_SKILL_FILES {
        ScanStep::TooMany
    } else {
        ScanStep::List
    }
}

/// The path of a file as a page shows it.
pub fn shown_path(relative: &str) -> (r: String)
    ensures
        r@ == replace_of(relative@, "\\"@, "/"@),
{
    replace(relative, "\\", "/")
}

/// Why a path of a file is refused.
#[derive(Debug, Clone, Copy, PartialEq, Eq, Structural)]
pub enum PathError {
    EmptyOrBackslash,
    Escapes,
}

impl PathError {
    /// What the error says.
    pub fn message(&self) -> (r: &'static str)
        ensures
            r@ == (match *self {
                PathError::EmptyOrBackslash => "文件路径必须是使用正斜杠的非空相对路径"@,
                PathError::Escapes => "文件路径不能包含根目录、盘符或路径跳转"@,
            }),
    {
        match self {
            PathError::EmptyOrBackslash => "文件路径必须是使用正斜杠的非空相对路径",
            PathError::Escapes => "文件路径不能包含根目录、盘符或路径跳转",
        }
    }
}

/// Whether a path leads out of the directory that it starts from: it begins at the root or with
/// the directory itself, or goes up.
pub open spec fn leads_out(path: Seq<char>) -> bool {
    let parts = split_of(path, '/');
    crate::text::begins_with(path, "/"@) || parts[0] == "."@ || parts.contains(".."@)
}

/// What is wrong with the path of a file.
pub open spec fn path_fault(raw_path: Seq<char>) -> Option<PathError> {
    let path = trim_of(raw_path);
    if path.len() == 0 || path.contains('\\') {
        Some(PathError::EmptyOrBackslash)
    } else if leads_out(path) {
        Some(PathError::Escapes)
    } else {
        None
    }
}

fn has_part(parts: &Vec<String>, part: &str) -> (r: bool)
    ensures
        r == texts(parts@).contains(part@),
{
    proof {
        lemma_listed(parts@, part@);
    }
    is_listed(parts, part)
}

/// Checks the path of a file, and gives it trimmed.
pub fn validate_relative_file_path(raw_path: &str) -> (r: Result<String, PathError>)
    ensures
        match path_fault(raw_path@) {
            Some(e) => r == Err::<String, PathError>(e),
            None => r is Ok && r->Ok_0@ == trim_of(raw_path@),
        },
{
    let path = trim(raw_path);
    if path.is_empty() || contains_char(&path, '\\') {
        return Err(PathError::EmptyOrBackslash);
    }
    let parts = split(&path, '/');
    proof {
        crate::text::lemma_split_nonempty(path@, '/');
        assert(texts(parts@)[0] == parts@[0]@);
    }
    if starts_with(&path, "/") || same_text(&parts[0], ".") || has_part(&parts, "..") {
        return Err(PathError::Escapes);
    }
    Ok(path)
}

/// The parts of a path that name something.
pub open spec fn naming_parts(parts: Seq<Seq<char>>) -> Seq<Seq<char>>
    decreases parts.len(),
{
    if parts.len() == 0 {
        Seq::empty()
    } else if parts.last().len() == 0 || parts.last() == "."@ {
        naming_parts(parts.drop_last())
    } else {
        naming_parts(parts.drop_last()).push(parts.last())
    }
}

/// Whether a path that was checked leads to the file of the skill itself.
pub fn is_entry_file(path: &str) -> (r: bool)
    ensures
        r == (naming_parts(split_of(path@, '/')) == seq![SKILL_FILE_NAME@]),
{
    let parts = split(path, '/');
    let ghost all = texts(parts@);
    let mut named: Vec<String> = Vec::new();
    let mut i: usize = 0;
    assert(all.take(0) =~= Seq::empty());
    assert(texts(named@) =~= Seq::empty());
    while i < parts.len()
        invariant
            i <= parts@.len(),
            all == texts(parts@),
            texts(named@) == naming_parts(all.take(i as int)),
        decreases parts@.len() - i,
    {
        assert(all.take(i + 1).drop_last() =~= all.take(i as int));
        if !parts[i].is_empty() && !same_text(&parts[i], ".") {
            let ghost before = texts(named@);
            named.push(parts[i].clone());
            assert(texts(named@) =~= before.push(all[i as int]));
        }
        i += 1;
    }
    assert(all.take(i as int) =~= all);
    assert(texts(named@).len() == named@.len());
    if named.len() != 1 {
        return false;
    }
    let same = same_text(&named[0], SKILL_FILE_NAME);
    proof {
        assert(texts(named@)[0] == named@[0]@);
        if same {
            assert(texts(named@) =~= seq![SKILL_FILE_NAME@]);
        } else {
            assert(seq![SKILL_FILE_NAME@][0] == SKILL_FILE_NAME@);
        }
    }
    same
}

/// Checks the name of a skill that is asked for, and gives it trimmed.
pub fn requested_skill_name(skill_name: &str) -> (r: Option<String>)
    ensures
        match r {
            Some(name) => name@ == trim_of(skill_name@) && name@.len() > 0,
            None => trim_of(skill_name@).len() == 0,
        },
{
    let name = trim(skill_name);
    if name.is_empty() {
        None
    } else {
        Some(name)
    }
}

/// Whether a file of a skill may be saved under a name: it is free, or that of the skill itself.
pub fn name_is_free(catalog: &SkillCatalog, name: &str, own_path: &str) -> (r: bool)
    ensures
        r == !(exists|i: int|
            0 <= i < catalog@.len() && (#[trigger] catalog@[i]).metadata.name@ == name@
                && catalog@[i].path@ != own_path@),
{
    let entries = catalog.iter();
    let mut i: usize = 0;
    while i < entries.len()
        invariant
            i <= entries@.len(),
            entries@ == catalog@,
            forall|j: int|
                0 <= j < i ==> !((#[trigger] catalog@[j]).metadata.name@ == name@
                    && catalog@[j].path@ != own_path@),
        decreases entries@.len() - i,
    {
        if same_text(&entries[i].metadata.name, name) && !same_text(&entries[i].path, own_path) {
            assert(catalog@[i as int] == entries@[i as int]);
            return false;
        }
        i += 1;
    }
    true
}

/// The skills that are switched on are there, and none of them stands twice.
pub proof fn law_enabled_skills_exist(entries: Seq<SkillEntry>, requested: Seq<Seq<char>>)
    ensures
        forall|i: int|
            0 <= i < known_names(entries, requested).len() ==> has_skill(
                entries,
                #[trigger] known_names(entries, requested)[i],
            ),
        known_names(entries, requested).no_duplicates(),
    decreases requested.len(),
{
    if requested.len() > 0 {
        law_enabled_skills_exist(entries, requested.drop_last());
    }
}

} // verus!
