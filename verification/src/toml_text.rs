//! The text of a TOML document: what it holds, and changes that leave the rest of it as it is.

use vstd::prelude::*;

use crate::json::option_text;
use crate::text::{chars_of, texts};

verus! {

/// `toml_edit::Item`, what stands under a key of a document.
#[verifier::external_type_specification]
#[verifier::external_body]
pub struct ExItem(toml_edit::Item);

/// What is written under a key.
#[derive(Debug, PartialEq, Eq)]
pub enum TomlEntry {
    Text(String),
    Number(i64),
    Texts(Vec<String>),
}

/// What an entry holds.
pub enum TomlEntryView {
    Text(Seq<char>),
    Number(i64),
    Texts(Seq<Seq<char>>),
}

impl View for TomlEntry {
    type V = TomlEntryView;

    open spec fn view(&self) -> TomlEntryView {
        match self {
            TomlEntry::Text(text) => TomlEntryView::Text(text@),
            TomlEntry::Number(n) => TomlEntryView::Number(*n),
            TomlEntry::Texts(list) => TomlEntryView::Texts(texts(list@)),
        }
    }
}

/// An entry with its key.
#[derive(Debug, PartialEq, Eq)]
pub struct TomlField {
    pub key: &'static str,
    pub entry: TomlEntry,
}

/// What a field holds.
pub struct TomlFieldView {
    pub key: Seq<char>,
    pub entry: TomlEntryView,
}

impl View for TomlField {
    type V = TomlFieldView;

    open spec fn view(&self) -> TomlFieldView {
        TomlFieldView { key: self.key@, entry: self.entry@ }
    }
}

/// What the fields of a row hold.
pub open spec fn row_view(row: Seq<TomlField>) -> Seq<TomlFieldView> {
    Seq::new(row.len(), |i: int| row[i]@)
}

/// What the rows of a list hold.
pub open spec fn rows_view(rows: Seq<Vec<TomlField>>) -> Seq<Seq<TomlFieldView>> {
    Seq::new(rows.len(), |i: int| row_view(rows[i]@))
}

/// Whether `toml_edit` reads a text as a document.
pub uninterp spec fn toml_reads(source: Seq<char>) -> bool;

/// The text that `toml_edit` finds under a key of a table, be it written with a heading or in braces.
pub uninterp spec fn toml_entry(source: Seq<char>, table: Seq<char>, key: Seq<char>) -> Option<
    Seq<char>,
>;

/// The rows that `toml_edit` finds in a list of tables with headings: the keys of each in their
/// order, each with the text under it, where it is one. No rows where the list is missing; nothing
/// where something else stands under its name.
pub uninterp spec fn toml_rows(source: Seq<char>, list: Seq<char>) -> Option<
    Seq<Seq<(Seq<char>, Option<Seq<char>>)>>,
>;

/// The document with an entry under a key of a table, as `toml_edit` writes it; nothing where no
/// table stands under the name.
pub uninterp spec fn toml_with_entry(
    source: Seq<char>,
    table: Seq<char>,
    key: Seq<char>,
    entry: TomlEntryView,
) -> Option<Seq<char>>;

/// The document without a key of a table with a heading, as `toml_edit` writes it.
pub uninterp spec fn toml_without_entry(
    source: Seq<char>,
    table: Seq<char>,
    key: Seq<char>,
) -> Option<Seq<char>>;

/// The document with rows in a list of tables, as `toml_edit` writes it.
pub uninterp spec fn toml_with_rows(
    source: Seq<char>,
    list: Seq<char>,
    rows: Seq<Seq<TomlFieldView>>,
) -> Option<Seq<char>>;

/// How many characters `c` a text ends with.
pub open spec fn ending_run(s: Seq<char>, c: char) -> nat
    decreases s.len(),
{
    if s.len() > 0 && s.last() == c {
        ending_run(s.drop_last(), c) + 1
    } else {
        0
    }
}

/// Whether no more than 255 characters `c` follow one another in a text.
pub open spec fn runs_fit(s: Seq<char>, c: char) -> bool
    decreases s.len(),
{
    s.len() == 0 || (runs_fit(s.drop_last(), c) && ending_run(s, c) <= 255)
}

/// Whether `toml_edit` can write a text: it counts quotation marks that follow one another, up to
/// 255 of them.
pub open spec fn text_fits(s: Seq<char>) -> bool {
    runs_fit(s, '"') && runs_fit(s, '\'')
}

/// Whether `toml_edit` can write texts.
pub open spec fn texts_fit(list: Seq<Seq<char>>) -> bool {
    forall|i: int| 0 <= i < list.len() ==> text_fits(#[trigger] list[i])
}

/// Whether `toml_edit` can write an entry.
pub open spec fn entry_fits(entry: TomlEntryView) -> bool {
    match entry {
        TomlEntryView::Text(text) => text_fits(text),
        TomlEntryView::Number(_) => true,
        TomlEntryView::Texts(list) => texts_fit(list),
    }
}

/// Whether `toml_edit` can write a row.
pub open spec fn row_fits(row: Seq<TomlFieldView>) -> bool {
    forall|i: int| 0 <= i < row.len() ==> entry_fits((#[trigger] row[i]).entry)
}

/// Whether `toml_edit` can write rows.
pub open spec fn rows_fit(rows: Seq<Seq<TomlFieldView>>) -> bool {
    forall|i: int| 0 <= i < rows.len() ==> row_fits(#[trigger] rows[i])
}

/// Whether every table but one is the same in two documents.
pub open spec fn spares_others(before: Seq<char>, after: Seq<char>, table: Seq<char>) -> bool {
    &&& forall|t: Seq<char>, k: Seq<char>|
        t != table ==> #[trigger] toml_entry(after, t, k) == toml_entry(before, t, k)
    &&& forall|list: Seq<char>|
        list != table ==> #[trigger] toml_rows(after, list) == toml_rows(before, list)
}

/// Whether every key of a table but one holds the same text in two documents.
pub open spec fn spares_other_keys(
    before: Seq<char>,
    after: Seq<char>,
    table: Seq<char>,
    key: Seq<char>,
) -> bool {
    forall|k: Seq<char>|
        k != key ==> #[trigger] toml_entry(after, table, k) == toml_entry(before, table, k)
}

/// The text of an entry, where it is one.
pub open spec fn entry_text(entry: TomlEntryView) -> Option<Seq<char>> {
    match entry {
        TomlEntryView::Text(text) => Some(text),
        _ => None,
    }
}

/// Rows as they are found once they are written.
pub open spec fn found_rows(rows: Seq<Seq<TomlFieldView>>) -> Seq<
    Seq<(Seq<char>, Option<Seq<char>>)>,
> {
    Seq::new(
        rows.len(),
        |i: int|
            Seq::new(rows[i].len(), |j: int| (rows[i][j].key, entry_text(rows[i][j].entry))),
    )
}

/// Whether no key stands twice in a row.
pub open spec fn keys_differ(row: Seq<TomlFieldView>) -> bool {
    forall|i: int, j: int|
        0 <= i < j < row.len() ==> (#[trigger] row[i]).key != (#[trigger] row[j]).key
}

/// What the fields of rows that were found hold.
pub open spec fn found_view(rows: Seq<Vec<(String, Option<String>)>>) -> Seq<
    Seq<(Seq<char>, Option<Seq<char>>)>,
> {
    Seq::new(
        rows.len(),
        |i: int| Seq::new(rows[i]@.len(), |j: int| (rows[i]@[j].0@, option_text(rows[i]@[j].1))),
    )
}

/// `str::parse` into a `toml_edit::DocumentMut`. Whether it succeeds is named.
#[verifier::external_body]
pub(crate) fn reads_toml(source: &str) -> (r: bool)
    ensures
        r == toml_reads(source@),
{
    source.parse::<toml_edit::DocumentMut>().is_ok()
}

/// `toml_edit::Table::get` on a document, and `toml_edit::TableLike::get` on what stands there. The
/// text that is found is named.
#[verifier::external_body]
pub(crate) fn read_toml_entry(source: &str, table: &str, key: &str) -> (r: Option<String>)
    ensures
        option_text(r) == toml_entry(source@, table@, key@),
{
    let document = source.parse::<toml_edit::DocumentMut>().ok()?;
    let text = document.get(table)?.as_table_like()?.get(key)?.as_str()?;
    Some(text.to_string())
}

/// `toml_edit::Table::get` on a document, and the rows of the `toml_edit::ArrayOfTables` that stands
/// there. What is found is named.
#[verifier::external_body]
pub(crate) fn read_toml_rows(source: &str, list: &str) -> (r: Option<
    Vec<Vec<(String, Option<String>)>>,
>)
    ensures
        match r {
            Some(rows) => toml_rows(source@, list@) == Some(found_view(rows@)),
            None => toml_rows(source@, list@) is None,
        },
{
    let document = source.parse::<toml_edit::DocumentMut>().ok()?;
    let field = |(key, item): (&str, &toml_edit::Item)| {
        (key.to_string(), item.as_str().map(str::to_string))
    };
    match document.get(list) {
        None => Some(Vec::new()),
        Some(toml_edit::Item::ArrayOfTables(tables)) => Some(
            tables.iter().map(|table| table.iter().map(field).collect()).collect()),
        Some(_) => None,
    }
}

/// The `toml_edit::Item` that stands for an entry, variant by variant. Nothing is claimed of the
/// result here: what is written for an entry is named where a text is made.
#[verifier::external_body]
fn item_of(entry: &TomlEntry) -> toml_edit::Item {
    match entry {
        TomlEntry::Text(text) => toml_edit::value(text),
        TomlEntry::Number(n) => toml_edit::value(*n),
        TomlEntry::Texts(list) => toml_edit::value(list.iter().collect::<toml_edit::Array>()),
    }
}

/// `toml_edit::Table::entry` on a document and on the table that stands there, which is made where
/// it is missing, and the text of the document then. The text is named; claimed of it is that it
/// can be read again, that the entry is found in it, and that nothing else in it has changed.
#[verifier::external_body]
pub(crate) fn set_toml_entry(source: &str, table: &str, key: &str, entry: &TomlEntry) -> (r: Option<
    String,
>)
    requires
        entry_fits(entry@),
    ensures
        option_text(r) == toml_with_entry(source@, table@, key@, entry@),
        r matches Some(text) ==> {
            &&& toml_reads(text@)
            &&& toml_entry(text@, table@, key@) == entry_text(entry@)
            &&& spares_other_keys(source@, text@, table@, key@)
            &&& spares_others(source@, text@, table@)
        },
{
    let mut document = source.parse::<toml_edit::DocumentMut>().ok()?;
    let empty = toml_edit::value(toml_edit::InlineTable::new());
    let found = document.entry(table).or_insert(empty).as_table_like_mut()?;
    *found.entry(key).or_insert(toml_edit::Item::None) = item_of(entry);
    Some(document.to_string())
}

/// `toml_edit::Table::remove` on a table with a heading in a document, and the text of the document
/// then. The text is named; claimed of it is that it can be read again, and that no other key has
/// changed.
#[verifier::external_body]
pub(crate) fn drop_toml_entry(source: &str, table: &str, key: &str) -> (r: Option<String>)
    ensures
        option_text(r) == toml_without_entry(source@, table@, key@),
        r is Some == toml_reads(source@),
        r matches Some(text) ==> {
            &&& toml_reads(text@)
            &&& spares_other_keys(source@, text@, table@, key@)
            &&& spares_others(source@, text@, table@)
        },
{
    let mut document = source.parse::<toml_edit::DocumentMut>().ok()?;
    if let Some(toml_edit::Item::Table(found)) = document.get_mut(table) {
        found.remove(key);
    }
    Some(document.to_string())
}

/// A `toml_edit::ArrayOfTables` under a name of a document, and the text of the document then. The
/// text is named. Where no other kind of thing stood under the name, claimed of it is that it can be
/// read again, that the rows are found in it, and that nothing else in it has changed.
#[verifier::external_body]
pub(crate) fn set_toml_rows(source: &str, list: &str, rows: &Vec<Vec<TomlField>>) -> (r: Option<
    String,
>)
    requires
        rows_fit(rows_view(rows@)),
        forall|i: int| 0 <= i < rows@.len() ==> keys_differ(#[trigger] rows_view(rows@)[i]),
    ensures
        option_text(r) == toml_with_rows(source@, list@, rows_view(rows@)),
        r is Some == toml_reads(source@),
        r matches Some(text) ==> toml_rows(source@, list@) is Some ==> {
            &&& toml_reads(text@)
            &&& toml_rows(text@, list@) == Some(found_rows(rows_view(rows@)))
            &&& spares_others(source@, text@, list@)
        },
{
    let mut document = source.parse::<toml_edit::DocumentMut>().ok()?;
    let field = |field: &TomlField| (field.key, item_of(&field.entry));
    let tables = rows.iter().map(|row| row.iter().map(field).collect::<toml_edit::Table>());
    document[list] = toml_edit::Item::ArrayOfTables(tables.collect());
    Some(document.to_string())
}

proof fn lemma_runs_fit_front(s: Seq<char>, c: char, n: int)
    requires
        0 <= n <= s.len(),
        !runs_fit(s.take(n), c),
    ensures
        !runs_fit(s, c),
    decreases s.len() - n,
{
    if n < s.len() {
        assert(s.take(n + 1).drop_last() =~= s.take(n));
        lemma_runs_fit_front(s, c, n + 1);
    } else {
        assert(s.take(n) =~= s);
    }
}

fn check_runs(chars: &Vec<char>, c: char) -> (r: bool)
    ensures
        r == runs_fit(chars@, c),
{
    let mut run: usize = 0;
    let mut i: usize = 0;
    while i < chars.len()
        invariant
            i <= chars@.len(),
            run <= 255,
            run == ending_run(chars@.take(i as int), c),
            runs_fit(chars@.take(i as int), c),
        decreases chars@.len() - i,
    {
        assert(chars@.take(i + 1).drop_last() =~= chars@.take(i as int));
        assert(chars@.take(i + 1).last() == chars@[i as int]);
        if chars[i] == c {
            run += 1;
        } else {
            run = 0;
        }
        if run > 255 {
            proof {
                lemma_runs_fit_front(chars@, c, i + 1);
            }
            return false;
        }
        i += 1;
    }
    assert(chars@.take(i as int) =~= chars@);
    true
}

/// Whether `toml_edit` can write a text.
pub fn text_can_be_written(text: &str) -> (r: bool)
    ensures
        r == text_fits(text@),
{
    let chars = chars_of(text);
    check_runs(&chars, '"') && check_runs(&chars, '\'')
}

fn texts_can_be_written(list: &Vec<String>) -> (r: bool)
    ensures
        r == texts_fit(texts(list@)),
{
    let ghost all = texts(list@);
    let mut i: usize = 0;
    while i < list.len()
        invariant
            i <= list@.len(),
            all == texts(list@),
            forall|j: int| 0 <= j < i ==> text_fits(#[trigger] all[j]),
        decreases list@.len() - i,
    {
        if !text_can_be_written(&list[i]) {
            assert(!text_fits(all[i as int]));
            return false;
        }
        i += 1;
    }
    true
}

/// Whether `toml_edit` can write an entry.
pub fn entry_can_be_written(entry: &TomlEntry) -> (r: bool)
    ensures
        r == entry_fits(entry@),
{
    match entry {
        TomlEntry::Text(text) => text_can_be_written(text),
        TomlEntry::Number(_) => true,
        TomlEntry::Texts(list) => texts_can_be_written(list),
    }
}

/// Whether `toml_edit` can write rows.
pub fn rows_can_be_written(rows: &Vec<Vec<TomlField>>) -> (r: bool)
    ensures
        r == rows_fit(rows_view(rows@)),
{
    let ghost all = rows_view(rows@);
    let mut i: usize = 0;
    while i < rows.len()
        invariant
            i <= rows@.len(),
            all == rows_view(rows@),
            forall|j: int| 0 <= j < i ==> row_fits(#[trigger] all[j]),
        decreases rows@.len() - i,
    {
        let row = &rows[i];
        let ghost shown = row_view(row@);
        assert(all[i as int] == shown);
        let mut j: usize = 0;
        while j < row.len()
            invariant
                i < rows@.len(),
                j <= row@.len(),
                all == rows_view(rows@),
                all[i as int] == shown,
                shown == row_view(row@),
                forall|n: int| 0 <= n < j ==> entry_fits((#[trigger] shown[n]).entry),
            decreases row@.len() - j,
        {
            if !entry_can_be_written(&row[j].entry) {
                assert(!entry_fits(shown[j as int].entry));
                assert(!row_fits(all[i as int]));
                return false;
            }
            j += 1;
        }
        i += 1;
    }
    true
}

/// A text without quotation marks can be written.
pub proof fn lemma_unquoted_fits(s: Seq<char>)
    requires
        forall|i: int| 0 <= i < s.len() ==> #[trigger] s[i] != '"' && s[i] != '\'',
    ensures
        text_fits(s),
    decreases s.len(),
{
    if s.len() > 0 {
        assert forall|i: int| 0 <= i < s.drop_last().len() implies #[trigger] s.drop_last()[i] != '"'
            && s.drop_last()[i] != '\'' by {
            assert(s.drop_last()[i] == s[i]);
        }
        lemma_unquoted_fits(s.drop_last());
        assert(s.last() == s[s.len() - 1]);
    }
}

} // verus!
