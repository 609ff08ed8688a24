//! The text of the configuration, and how the pages change it.

use vstd::prelude::*;

use crate::admin::config_store::{
    admin_token, copy_texts, filled, is_url_char, law_token_is_found_again, model_row, opens_pages,
    pairs_view, provider_key_of, provider_names, provider_row, saved_key, server_row, update_error_text,
    update_fault, validate_update, AdminAppConfig, AdminConfigUpdate, AdminModelConfig,
    AdminProviderConfig, AdminServerConfig, AdminToken, UpdateError,
};
use crate::config::feature_word;
use crate::json::option_text;
use crate::text::{same_text, texts, trim_end_char_of, trim_of};
use crate::toml_text::{
    drop_toml_entry, entry_can_be_written, entry_fits, entry_text, found_rows, found_view,
    keys_differ, lemma_unquoted_fits, read_toml_entry, read_toml_rows, reads_toml, row_view,
    rows_can_be_written, rows_fit, rows_view, set_toml_entry, set_toml_rows, spares_other_keys,
    spares_others, toml_entry, toml_reads, toml_rows, toml_with_entry, toml_with_rows,
    toml_without_entry, TomlEntry, TomlEntryView, TomlField, TomlFieldView,
};

verus! {

/// A change of one key of a table: its new entry, or none where it goes.
#[derive(Debug, PartialEq, Eq)]
pub struct TomlEdit {
    pub table: &'static str,
    pub key: &'static str,
    pub entry: Option<TomlEntry>,
}

/// What a change of a key holds.
pub struct TomlEditView {
    pub table: Seq<char>,
    pub key: Seq<char>,
    pub entry: Option<TomlEntryView>,
}

impl View for TomlEdit {
    type V = TomlEditView;

    open spec fn view(&self) -> TomlEditView {
        TomlEditView {
            table: self.table@,
            key: self.key@,
            entry: match self.entry {
                Some(entry) => Some(entry@),
                None => None,
            },
        }
    }
}

/// What changes hold.
pub open spec fn edits_view(edits: Seq<TomlEdit>) -> Seq<TomlEditView> {
    Seq::new(edits.len(), |i: int| edits[i]@)
}

/// A document after one change.
pub open spec fn edited_once(source: Seq<char>, edit: TomlEditView) -> Option<Seq<char>> {
    match edit.entry {
        Some(entry) => toml_with_entry(source, edit.table, edit.key, entry),
        None => toml_without_entry(source, edit.table, edit.key),
    }
}

/// A document after changes, one behind the other.
pub open spec fn edited(source: Seq<char>, edits: Seq<TomlEditView>) -> Option<Seq<char>>
    decreases edits.len(),
{
    if edits.len() == 0 {
        Some(source)
    } else {
        match edited(source, edits.drop_last()) {
            Some(text) => edited_once(text, edits.last()),
            None => None,
        }
    }
}

/// Whether a change can be written.
pub open spec fn edit_fits(edit: TomlEditView) -> bool {
    edit.entry matches Some(entry) ==> entry_fits(entry)
}

/// Whether no change is one of a table.
pub open spec fn untouched(edits: Seq<TomlEditView>, table: Seq<char>) -> bool {
    forall|i: int| 0 <= i < edits.len() ==> (#[trigger] edits[i]).table != table
}

/// Whether no two changes are of the same key.
pub open spec fn edits_differ(edits: Seq<TomlEditView>) -> bool {
    forall|i: int, j: int|
        0 <= i < j < edits.len() ==> (#[trigger] edits[i]).table != (#[trigger] edits[j]).table
            || edits[i].key != edits[j].key
}

/// Whether a table is the same in two documents.
pub open spec fn same_table(before: Seq<char>, after: Seq<char>, table: Seq<char>) -> bool {
    &&& forall|key: Seq<char>|
        #[trigger] toml_entry(after, table, key) == toml_entry(before, table, key)
    &&& toml_rows(after, table) == toml_rows(before, table)
}

/// Whether the new entries of changes are found in a document.
pub open spec fn edits_found(text: Seq<char>, edits: Seq<TomlEditView>) -> bool {
    forall|i: int|
        0 <= i < edits.len() ==> ((#[trigger] edits[i]).entry matches Some(entry) ==> toml_entry(
            text,
            edits[i].table,
            edits[i].key,
        ) == entry_text(entry))
}

/// Whether a document comes from another by changes: they are found in it, and no other table has
/// changed.
pub open spec fn edits_hold(
    source: Seq<char>,
    text: Seq<char>,
    edits: Seq<TomlEditView>,
) -> bool {
    &&& edits.len() > 0 ==> toml_reads(text)
    &&& forall|table: Seq<char>| #[trigger]
        untouched(edits, table) ==> same_table(source, text, table)
    &&& edits_differ(edits) ==> edits_found(text, edits)
}

proof fn lemma_edits_hold(
    source: Seq<char>,
    before: Seq<char>,
    after: Seq<char>,
    edits: Seq<TomlEditView>,
    edit: TomlEditView,
)
    requires
        edits_hold(source, before, edits),
        toml_reads(after),
        edit.entry matches Some(entry) ==> toml_entry(after, edit.table, edit.key) == entry_text(
            entry,
        ),
        spares_other_keys(before, after, edit.table, edit.key),
        spares_others(before, after, edit.table),
    ensures
        edits_hold(source, after, edits.push(edit)),
{
    let all = edits.push(edit);
    assert forall|table: Seq<char>| #[trigger] untouched(all, table) implies same_table(
        source,
        after,
        table,
    ) by {
        assert(all[edits.len() as int].table != table);
        assert forall|i: int| 0 <= i < edits.len() implies (#[trigger] edits[i]).table != table by {
            assert(all[i] == edits[i]);
        }
        assert(untouched(edits, table));
    }
    if edits_differ(all) {
        assert forall|i: int, j: int|
            0 <= i < j < edits.len() implies (#[trigger] edits[i]).table != (
        #[trigger] edits[j]).table || edits[i].key != edits[j].key by {
            assert(all[i] == edits[i] && all[j] == edits[j]);
        }
        assert(edits_found(before, edits));
        assert forall|i: int| 0 <= i < all.len() && (#[trigger] all[i]).entry is Some implies
            toml_entry(after, all[i].table, all[i].key) == entry_text(all[i].entry.unwrap()) by {
            if i < edits.len() {
                assert(all[i] == edits[i]);
                assert(all[edits.len() as int] == edit);
            }
        }
    }
}

/// Changes a document.
pub fn apply_edits(source: &str, edits: &Vec<TomlEdit>) -> (r: Option<String>)
    requires
        forall|i: int| 0 <= i < edits@.len() ==> edit_fits(#[trigger] edits@[i]@),
    ensures
        option_text(r) == edited(source@, edits_view(edits@)),
        r matches Some(text) ==> edits_hold(source@, text@, edits_view(edits@)),
{
    let ghost all = edits_view(edits@);
    let mut text = source.to_owned();
    let mut i: usize = 0;
    assert(all.take(0) =~= Seq::empty());
    while i < edits.len()
        invariant
            i <= edits@.len(),
            all == edits_view(edits@),
            forall|j: int| 0 <= j < edits@.len() ==> edit_fits(#[trigger] edits@[j]@),
            edited(source@, all.take(i as int)) == Some(text@),
            edits_hold(source@, text@, all.take(i as int)),
        decreases edits@.len() - i,
    {
        let edit = &edits[i];
        let ghost before = text@;
        proof {
            assert(edit_fits(edits@[i as int]@));
            assert(all.take(i + 1).drop_last() =~= all.take(i as int));
            assert(all.take(i + 1) =~= all.take(i as int).push(edit@));
        }
        let changed = match &edit.entry {
            Some(entry) => set_toml_entry(&text, edit.table, edit.key, entry),
            None => drop_toml_entry(&text, edit.table, edit.key),
        };
        match changed {
            Some(next) => {
                text = next;
                proof {
                    lemma_edits_hold(source@, before, text@, all.take(i as int), edit@);
                }
            },
            None => {
                proof {
                    lemma_edited_none(source@, all, i + 1);
                }
                return None;
            },
        }
        i += 1;
    }
    assert(all.take(i as int) =~= all);
    Some(text)
}

proof fn lemma_edited_none(source: Seq<char>, edits: Seq<TomlEditView>, n: int)
    requires
        0 <= n <= edits.len(),
        edited(source, edits.take(n)) is None,
    ensures
        edited(source, edits) is None,
    decreases edits.len() - n,
{
    if n < edits.len() {
        assert(edits.take(n + 1).drop_last() =~= edits.take(n));
        lemma_edited_none(source, edits, n + 1);
    } else {
        assert(edits.take(n) =~= edits);
    }
}

/// The change of a key to a text.
pub open spec fn text_edit(table: Seq<char>, key: Seq<char>, text: Seq<char>) -> TomlEditView {
    TomlEditView { table, key, entry: Some(TomlEntryView::Text(text)) }
}

/// The change of a key to a number.
pub open spec fn number_edit(table: Seq<char>, key: Seq<char>, n: i64) -> TomlEditView {
    TomlEditView { table, key, entry: Some(TomlEntryView::Number(n)) }
}

/// The change of a key to texts.
pub open spec fn texts_edit(table: Seq<char>, key: Seq<char>, list: Seq<Seq<char>>) -> TomlEditView {
    TomlEditView { table, key, entry: Some(TomlEntryView::Texts(list)) }
}

/// The change of a key that goes.
pub open spec fn drop_edit(table: Seq<char>, key: Seq<char>) -> TomlEditView {
    TomlEditView { table, key, entry: None }
}

fn push_text(edits: &mut Vec<TomlEdit>, table: &'static str, key: &'static str, text: &str)
    ensures
        edits_view(final(edits)@) == edits_view(old(edits)@).push(text_edit(table@, key@, text@)),
{
    edits.push(TomlEdit { table, key, entry: Some(TomlEntry::Text(text.to_owned())) });
    assert(edits_view(edits@) =~= edits_view(old(edits)@).push(text_edit(table@, key@, text@)));
}

fn push_number(edits: &mut Vec<TomlEdit>, table: &'static str, key: &'static str, n: i64)
    ensures
        edits_view(final(edits)@) == edits_view(old(edits)@).push(number_edit(table@, key@, n)),
{
    edits.push(TomlEdit { table, key, entry: Some(TomlEntry::Number(n)) });
    assert(edits_view(edits@) =~= edits_view(old(edits)@).push(number_edit(table@, key@, n)));
}

fn push_texts(edits: &mut Vec<TomlEdit>, table: &'static str, key: &'static str, list: &Vec<String>)
    ensures
        edits_view(final(edits)@) == edits_view(old(edits)@).push(
            texts_edit(table@, key@, texts(list@)),
        ),
{
    edits.push(TomlEdit { table, key, entry: Some(TomlEntry::Texts(copy_texts(list))) });
    assert(edits_view(edits@) =~= edits_view(old(edits)@).push(
        texts_edit(table@, key@, texts(list@)),
    ));
}

fn push_drop(edits: &mut Vec<TomlEdit>, table: &'static str, key: &'static str)
    ensures
        edits_view(final(edits)@) == edits_view(old(edits)@).push(drop_edit(table@, key@)),
{
    edits.push(TomlEdit { table, key, entry: None });
    assert(edits_view(edits@) =~= edits_view(old(edits)@).push(drop_edit(table@, key@)));
}

/// The changes of how the program behaves. Two keys that are no longer used go.
pub open spec fn app_edits(app: AdminAppConfig) -> Seq<TomlEditView> {
    seq![
        text_edit("app"@, "chat_model_name"@, app.chat_model_name@),
        text_edit("app"@, "filter_model_name"@, app.filter_model_name@),
        text_edit("app"@, "web_search_model_name"@, app.web_search_model_name@),
        text_edit("app"@, "visual_model_name"@, app.visual_model_name@),
        number_edit("app"@, "max_history_messages"@, app.max_history_messages as i64),
        number_edit("app"@, "vision_image_message_window"@, app.vision_image_message_window as i64),
        number_edit("app"@, "ai_request_retry_count"@, app.ai_request_retry_count as i64),
        number_edit("app"@, "ai_request_timeout_seconds"@, app.ai_request_timeout_seconds as i64),
        texts_edit("app"@, "enabled_actions"@, texts(app.enabled_actions@)),
        texts_edit("app"@, "direct_whitelist"@, texts(app.direct_whitelist@)),
        texts_edit("app"@, "group_whitelist"@, texts(app.group_whitelist@)),
        texts_edit("app"@, "command_whitelist"@, texts(app.command_whitelist@)),
        drop_edit("app"@, "split_reply_on_newlines"@),
        drop_edit("app"@, "enable_ai_filter"@),
    ]
}

/// The change of a token, where a new one is given.
pub open spec fn token_edits(key: Seq<char>, token: Option<Seq<char>>) -> Seq<TomlEditView> {
    match filled(token) {
        Some(text) => seq![text_edit("server"@, key, text)],
        None => Seq::empty(),
    }
}

/// The changes of where the program listens and where the platform is.
pub open spec fn server_edits(server: AdminServerConfig) -> Seq<TomlEditView> {
    seq![
        text_edit("server"@, "server_host"@, trim_of(server.server_host@)),
        number_edit("server"@, "server_port"@, server.server_port as i64),
        text_edit("server"@, "onebot_api"@, trim_end_char_of(trim_of(server.onebot_api@), '/')),
    ] + token_edits("server_token"@, option_text(server.server_token)) + token_edits(
        "onebot_token"@,
        option_text(server.onebot_token),
    )
}

/// The changes of the two tables of a configuration.
pub open spec fn table_edits(update: AdminConfigUpdate) -> Seq<TomlEditView> {
    app_edits(update.app) + server_edits(update.server)
}

/// The changes of the two tables of a configuration.
pub fn list_edits(update: &AdminConfigUpdate) -> (r: Vec<TomlEdit>)
    ensures
        edits_view(r@) == table_edits(*update),
{
    let app = &update.app;
    let mut edits: Vec<TomlEdit> = Vec::new();
    assert(edits_view(edits@) =~= Seq::empty());
    push_text(&mut edits, "app", "chat_model_name", &app.chat_model_name);
    push_text(&mut edits, "app", "filter_model_name", &app.filter_model_name);
    push_text(&mut edits, "app", "web_search_model_name", &app.web_search_model_name);
    push_text(&mut edits, "app", "visual_model_name", &app.visual_model_name);
    push_number(&mut edits, "app", "max_history_messages", app.max_history_messages as i64);
    push_number(&mut edits, "app", "vision_image_message_window", app.vision_image_message_window as i64);
    push_number(&mut edits, "app", "ai_request_retry_count", app.ai_request_retry_count as i64);
    push_number(&mut edits, "app", "ai_request_timeout_seconds", app.ai_request_timeout_seconds as i64);
    push_texts(&mut edits, "app", "enabled_actions", &app.enabled_actions);
    push_texts(&mut edits, "app", "direct_whitelist", &app.direct_whitelist);
    push_texts(&mut edits, "app", "group_whitelist", &app.group_whitelist);
    push_texts(&mut edits, "app", "command_whitelist", &app.command_whitelist);
    push_drop(&mut edits, "app", "split_reply_on_newlines");
    push_drop(&mut edits, "app", "enable_ai_filter");
    assert(edits_view(edits@) =~= app_edits(update.app));
    let row = server_row(&update.server);
    push_text(&mut edits, "server", "server_host", &row.server_host);
    push_number(&mut edits, "server", "server_port", update.server.server_port as i64);
    push_text(&mut edits, "server", "onebot_api", &row.onebot_api);
    if let Some(token) = &row.server_token {
        push_text(&mut edits, "server", "server_token", token);
    }
    if let Some(token) = &row.onebot_token {
        push_text(&mut edits, "server", "onebot_token", token);
    }
    assert(edits_view(edits@) =~= table_edits(*update));
    edits
}

proof fn lemma_app_keys_differ(app: AdminAppConfig)
    ensures
        edits_differ(app_edits(app)),
        forall|i: int| 0 <= i < app_edits(app).len() ==> (#[trigger] app_edits(app)[i]).table == "app"@,
{
    reveal_strlit("chat_model_name");
    reveal_strlit("filter_model_name");
    reveal_strlit("web_search_model_name");
    reveal_strlit("visual_model_name");
    reveal_strlit("max_history_messages");
    reveal_strlit("vision_image_message_window");
    reveal_strlit("ai_request_retry_count");
    reveal_strlit("ai_request_timeout_seconds");
    reveal_strlit("enabled_actions");
    reveal_strlit("direct_whitelist");
    reveal_strlit("group_whitelist");
    reveal_strlit("command_whitelist");
    reveal_strlit("split_reply_on_newlines");
    reveal_strlit("enable_ai_filter");
    let all = app_edits(app);
    assert forall|i: int, j: int| 0 <= i < j < all.len() implies (#[trigger] all[i]).table != (
    #[trigger] all[j]).table || all[i].key != all[j].key by {
        assert(all[i].key.len() != all[j].key.len() || all[i].key[0] != all[j].key[0]);
    }
}

proof fn lemma_server_keys_differ(server: AdminServerConfig)
    ensures
        edits_differ(server_edits(server)),
        forall|i: int|
            0 <= i < server_edits(server).len() ==> (#[trigger] server_edits(server)[i]).table
                == "server"@,
{
    reveal_strlit("server_host");
    reveal_strlit("server_port");
    reveal_strlit("onebot_api");
    reveal_strlit("server_token");
    reveal_strlit("onebot_token");
    let all = server_edits(server);
    assert forall|i: int, j: int| 0 <= i < j < all.len() implies (#[trigger] all[i]).table != (
    #[trigger] all[j]).table || all[i].key != all[j].key by {
        assert(all[i].key.len() != all[j].key.len() || all[i].key[0] != all[j].key[0]
            || all[i].key[7] != all[j].key[7]);
    }
}

/// No two changes of the tables are of the same key, and all are of these two tables.
proof fn lemma_table_edits(update: AdminConfigUpdate)
    ensures
        edits_differ(table_edits(update)),
        table_edits(update).len() > 0,
        forall|table: Seq<char>|
            table != "app"@ && table != "server"@ ==> #[trigger] untouched(
                table_edits(update),
                table,
            ),
{
    lemma_app_keys_differ(update.app);
    lemma_server_keys_differ(update.server);
    reveal_strlit("app");
    reveal_strlit("server");
    let front = app_edits(update.app);
    let back = server_edits(update.server);
    let all = table_edits(update);
    assert forall|i: int| 0 <= i < all.len() implies (#[trigger] all[i]) == (if i < front.len() {
        front[i]
    } else {
        back[i - front.len()]
    }) by {}
    assert forall|i: int, j: int| 0 <= i < j < all.len() implies (#[trigger] all[i]).table != (
    #[trigger] all[j]).table || all[i].key != all[j].key by {
        if i < front.len() && j >= front.len() {
            assert("app"@.len() != "server"@.len());
        }
    }
}

/// A field with a text.
pub open spec fn text_field(key: Seq<char>, text: Seq<char>) -> TomlFieldView {
    TomlFieldView { key, entry: TomlEntryView::Text(text) }
}

/// The row of a provider.
pub open spec fn provider_fields(
    provider: AdminProviderConfig,
    saved: Seq<(Seq<char>, Seq<char>)>,
) -> Seq<TomlFieldView> {
    seq![
        text_field("name"@, trim_of(provider.name@)),
        text_field("type"@, trim_of(provider.kind@)),
        text_field("key"@, provider_key_of(provider, saved)),
        text_field("base_url"@, trim_end_char_of(trim_of(provider.base_url@), '/')),
    ]
}

/// The rows of providers.
pub open spec fn provider_rows(
    providers: Seq<AdminProviderConfig>,
    saved: Seq<(Seq<char>, Seq<char>)>,
) -> Seq<Seq<TomlFieldView>> {
    Seq::new(providers.len(), |i: int| provider_fields(providers[i], saved))
}

/// The row of a model.
pub open spec fn model_fields(model: AdminModelConfig) -> Seq<TomlFieldView> {
    let limit = match model.max_tokens {
        Some(n) => seq![
            TomlFieldView { key: "max_tokens"@, entry: TomlEntryView::Number(n as i64) },
        ],
        None => Seq::empty(),
    };
    seq![
        text_field("name"@, trim_of(model.name@)),
        text_field("provider"@, trim_of(model.provider@)),
        text_field("model"@, trim_of(model.model@)),
    ] + limit + seq![
        text_field("reasoning_effort"@, trim_of(model.reasoning_effort@)),
        text_field("vision"@, feature_word(model.vision)),
    ]
}

/// The rows of models.
pub open spec fn model_rows(models: Seq<AdminModelConfig>) -> Seq<Seq<TomlFieldView>> {
    Seq::new(models.len(), |i: int| model_fields(models[i]))
}

fn push_field(row: &mut Vec<TomlField>, key: &'static str, text: String)
    ensures
        row_view(final(row)@) == row_view(old(row)@).push(text_field(key@, text@)),
{
    row.push(TomlField { key, entry: TomlEntry::Text(text) });
    assert(row_view(row@) =~= row_view(old(row)@).push(text_field(key@, text@)));
}

fn list_provider_rows(providers: &Vec<AdminProviderConfig>, saved: &Vec<(String, String)>) -> (r: Vec<
    Vec<TomlField>,
>)
    ensures
        rows_view(r@) == provider_rows(providers@, pairs_view(saved@)),
{
    let ghost wanted = provider_rows(providers@, pairs_view(saved@));
    let mut rows: Vec<Vec<TomlField>> = Vec::new();
    let mut i: usize = 0;
    while i < providers.len()
        invariant
            i <= providers@.len(),
            wanted == provider_rows(providers@, pairs_view(saved@)),
            rows_view(rows@) =~= wanted.take(i as int),
        decreases providers@.len() - i,
    {
        let stored = provider_row(&providers[i], saved);
        let mut row: Vec<TomlField> = Vec::new();
        assert(row_view(row@) =~= Seq::empty());
        push_field(&mut row, "name", stored.name);
        push_field(&mut row, "type", stored.kind);
        push_field(&mut row, "key", stored.key);
        push_field(&mut row, "base_url", stored.base_url);
        assert(row_view(row@) =~= wanted[i as int]);
        let ghost before = rows_view(rows@);
        rows.push(row);
        assert(rows_view(rows@) =~= before.push(wanted[i as int]));
        i += 1;
    }
    assert(wanted.take(i as int) =~= wanted);
    rows
}

fn list_model_rows(models: &Vec<AdminModelConfig>) -> (r: Vec<Vec<TomlField>>)
    ensures
        rows_view(r@) == model_rows(models@),
{
    let ghost wanted = model_rows(models@);
    let mut rows: Vec<Vec<TomlField>> = Vec::new();
    let mut i: usize = 0;
    while i < models.len()
        invariant
            i <= models@.len(),
            wanted == model_rows(models@),
            rows_view(rows@) =~= wanted.take(i as int),
        decreases models@.len() - i,
    {
        let stored = model_row(&models[i]);
        let mut row: Vec<TomlField> = Vec::new();
        assert(row_view(row@) =~= Seq::empty());
        push_field(&mut row, "name", stored.name);
        push_field(&mut row, "provider", stored.provider);
        push_field(&mut row, "model", stored.model);
        if let Some(limit) = stored.max_tokens {
            let ghost before = row_view(row@);
            let field = TomlField { key: "max_tokens", entry: TomlEntry::Number(limit as i64) };
            row.push(field);
            assert(row_view(row@) =~= before.push(field@));
        }
        push_field(&mut row, "reasoning_effort", stored.reasoning_effort);
        push_field(&mut row, "vision", stored.vision.as_str().to_owned());
        assert(row_view(row@) =~= wanted[i as int]);
        let ghost before = rows_view(rows@);
        rows.push(row);
        assert(rows_view(rows@) =~= before.push(wanted[i as int]));
        i += 1;
    }
    assert(wanted.take(i as int) =~= wanted);
    rows
}

proof fn lemma_row_keys_differ(
    provider: AdminProviderConfig,
    saved: Seq<(Seq<char>, Seq<char>)>,
    model: AdminModelConfig,
)
    ensures
        keys_differ(provider_fields(provider, saved)),
        keys_differ(model_fields(model)),
{
    reveal_strlit("name");
    reveal_strlit("type");
    reveal_strlit("key");
    reveal_strlit("base_url");
    reveal_strlit("provider");
    reveal_strlit("model");
    reveal_strlit("max_tokens");
    reveal_strlit("reasoning_effort");
    reveal_strlit("vision");
    let row = provider_fields(provider, saved);
    assert forall|i: int, j: int| 0 <= i < j < row.len() implies (#[trigger] row[i]).key != (
    #[trigger] row[j]).key by {
        assert(row[i].key.len() != row[j].key.len() || row[i].key[0] != row[j].key[0]);
    }
    let row = model_fields(model);
    assert forall|i: int, j: int| 0 <= i < j < row.len() implies (#[trigger] row[i]).key != (
    #[trigger] row[j]).key by {
        assert(row[i].key.len() != row[j].key.len() || row[i].key[0] != row[j].key[0]);
    }
}

/// The text under a key of a row, where there is one.
pub open spec fn field_of(row: Seq<(Seq<char>, Option<Seq<char>>)>, key: Seq<char>) -> Option<
    Seq<char>,
>
    decreases row.len(),
{
    if row.len() == 0 {
        None
    } else if row[0].0 == key {
        row[0].1
    } else {
        field_of(row.drop_first(), key)
    }
}

/// The names and keys of the rows that have both.
pub open spec fn named_keys(rows: Seq<Seq<(Seq<char>, Option<Seq<char>>)>>) -> Seq<
    (Seq<char>, Seq<char>),
>
    decreases rows.len(),
{
    if rows.len() == 0 {
        Seq::empty()
    } else {
        let front = named_keys(rows.drop_last());
        match (field_of(rows.last(), "name"@), field_of(rows.last(), "key"@)) {
            (Some(name), Some(key)) => front.push((name, key)),
            _ => front,
        }
    }
}

/// The names and keys of the providers in a configuration.
pub open spec fn saved_keys(source: Seq<char>) -> Seq<(Seq<char>, Seq<char>)> {
    match toml_rows(source, "providers"@) {
        Some(rows) => named_keys(rows),
        None => Seq::empty(),
    }
}

fn find_field(row: &Vec<(String, Option<String>)>, key: &str) -> (r: Option<String>)
    ensures
        option_text(r) == field_of(
            Seq::new(row@.len(), |j: int| (row@[j].0@, option_text(row@[j].1))),
            key@,
        ),
{
    let ghost all = Seq::new(row@.len(), |j: int| (row@[j].0@, option_text(row@[j].1)));
    let mut i: usize = 0;
    assert(all.skip(0) =~= all);
    while i < row.len()
        invariant
            i <= row@.len(),
            all == Seq::new(row@.len(), |j: int| (row@[j].0@, option_text(row@[j].1))),
            field_of(all, key@) == field_of(all.skip(i as int), key@),
        decreases row@.len() - i,
    {
        assert(all.skip(i as int)[0] == all[i as int]);
        if same_text(&row[i].0, key) {
            return match &row[i].1 {
                Some(text) => Some(text.clone()),
                None => None,
            };
        }
        assert(all.skip(i as int).drop_first() =~= all.skip(i + 1));
        i += 1;
    }
    None
}

/// The names and keys of the providers in a configuration.
fn read_saved_keys(source: &str) -> (r: Vec<(String, String)>)
    ensures
        pairs_view(r@) == saved_keys(source@),
{
    let mut pairs: Vec<(String, String)> = Vec::new();
    assert(pairs_view(pairs@) =~= Seq::empty());
    let rows = match read_toml_rows(source, "providers") {
        Some(rows) => rows,
        None => {
            return pairs;
        },
    };
    let ghost all = found_view(rows@);
    let mut i: usize = 0;
    assert(all.take(0) =~= Seq::empty());
    while i < rows.len()
        invariant
            i <= rows@.len(),
            all == found_view(rows@),
            pairs_view(pairs@) == named_keys(all.take(i as int)),
        decreases rows@.len() - i,
    {
        proof {
            assert(all.take(i + 1).drop_last() =~= all.take(i as int));
            assert(all.take(i + 1).last() == all[i as int]);
        }
        let name = find_field(&rows[i], "name");
        let key = find_field(&rows[i], "key");
        if let (Some(name), Some(key)) = (name, key) {
            let ghost before = pairs_view(pairs@);
            let ghost added = (name@, key@);
            pairs.push((name, key));
            assert(pairs_view(pairs@) =~= before.push(added));
        }
        i += 1;
    }
    assert(all.take(i as int) =~= all);
    pairs
}

/// Why the text of a configuration is not changed.
#[derive(Debug, PartialEq, Eq)]
pub enum ConfigTextError {
    /// The change is refused.
    Refused(UpdateError),
    /// The text is no TOML.
    NotToml,
    /// Something else stands where a table is to be.
    NoTable,
    /// A text holds too many quotation marks in a row.
    Unwritable,
}

impl ConfigTextError {
    /// What the error says.
    pub fn message(&self) -> (r: String)
        ensures
            r@ == (match *self {
                ConfigTextError::Refused(error) => update_error_text(error@),
                ConfigTextError::NotToml => "解析配置 TOML 失败"@,
                ConfigTextError::NoTable => "配置中需要表的位置不是表"@,
                ConfigTextError::Unwritable => "文本包含过多连续引号"@,
            }),
    {
        match self {
            ConfigTextError::Refused(error) => error.message(),
            ConfigTextError::NotToml => "解析配置 TOML 失败".to_owned(),
            ConfigTextError::NoTable => "配置中需要表的位置不是表".to_owned(),
            ConfigTextError::Unwritable => "文本包含过多连续引号".to_owned(),
        }
    }
}

/// What comes of making sure that a configuration holds a token: the token in it, or a new one
/// together with the text that holds it.
pub open spec fn token_ensured(
    source: Seq<char>,
    r: Result<(AdminToken, Option<String>), ConfigTextError>,
) -> bool {
    let found = toml_entry(source, "admin"@, "token"@);
    match r {
        Err(e) => if !toml_reads(source) {
            e == ConfigTextError::NotToml
        } else {
            e == ConfigTextError::NoTable && exists|token: AdminToken|
                #![trigger opens_pages(token, found)]
                opens_pages(token, found) && token.generated && toml_with_entry(
                    source,
                    "admin"@,
                    "token"@,
                    TomlEntryView::Text(token.token@),
                ) is None
        },
        Ok((token, text)) => {
            &&& toml_reads(source)
            &&& opens_pages(token, found)
            &&& text is Some == token.generated
            &&& text matches Some(text) ==> {
                &&& toml_with_entry(
                    source,
                    "admin"@,
                    "token"@,
                    TomlEntryView::Text(token.token@),
                ) == Some(text@)
                &&& toml_reads(text@)
                &&& toml_entry(text@, "admin"@, "token"@) == Some(token.token@)
                &&& forall|table: Seq<char>|
                    table != "admin"@ ==> #[trigger] same_table(source, text@, table)
            }
        },
    }
}

/// Makes sure that a configuration holds a token: the token, and the new text where one was made.
pub fn ensure_admin_token(source: &str) -> (r: Result<
    (AdminToken, Option<String>),
    ConfigTextError,
>)
    ensures
        token_ensured(source@, r),
{
    if !reads_toml(source) {
        return Err(ConfigTextError::NotToml);
    }
    let found = read_toml_entry(source, "admin", "token");
    let token = match &found {
        Some(text) => admin_token(Some(text)),
        None => admin_token(None),
    };
    if !token.generated {
        return Ok((token, None));
    }
    let entry = TomlEntry::Text(token.token.clone());
    proof {
        assert forall|i: int| 0 <= i < token.token@.len() implies #[trigger] token.token@[i] != '"'
            && token.token@[i] != '\'' by {
            assert(is_url_char(token.token@[i]));
        }
        lemma_unquoted_fits(token.token@);
    }
    match set_toml_entry(source, "admin", "token", &entry) {
        Some(text) => {
            assert forall|table: Seq<char>| table != "admin"@ implies #[trigger] same_table(
                source@,
                text@,
                table,
            ) by {}
            Ok((token, Some(text)))
        },
        None => {
            assert(opens_pages(token, toml_entry(source@, "admin"@, "token"@)));
            Err(ConfigTextError::NoTable)
        },
    }
}

/// The token of a configuration is made once: in the text that then stands, the same one is found,
/// and that text is not changed again.
pub proof fn law_token_is_made_once(
    source: Seq<char>,
    token: AdminToken,
    text: Option<String>,
    later: AdminToken,
    later_text: Option<String>,
)
    requires
        token_ensured(source, Ok((token, text))),
        token_ensured(
            match text {
                Some(t) => t@,
                None => source,
            },
            Ok((later, later_text)),
        ),
    ensures
        later.token@ == token.token@,
        later_text is None,
{
    match text {
        Some(t) => {
            law_token_is_found_again(token, toml_entry(source, "admin"@, "token"@), later);
        },
        None => {},
    }
}

/// Whether the two lists of a configuration can be replaced: nothing but lists of tables stands
/// under their names.
pub open spec fn lists_are_free(source: Seq<char>) -> bool {
    toml_rows(source, "providers"@) is Some && toml_rows(source, "models"@) is Some
}

/// Whether a change of the configuration can be written.
pub open spec fn update_fits(source: Seq<char>, update: AdminConfigUpdate) -> bool {
    &&& forall|i: int|
        0 <= i < table_edits(update).len() ==> edit_fits(#[trigger] table_edits(update)[i])
    &&& rows_fit(provider_rows(update.providers@, saved_keys(source)))
    &&& rows_fit(model_rows(update.models@))
}

/// The text of a configuration after a change: the tables first, then the providers, which keep the
/// keys that are not given, and the models.
pub open spec fn updated_text(source: Seq<char>, update: AdminConfigUpdate) -> Option<Seq<char>> {
    match edited(source, table_edits(update)) {
        Some(text) => match toml_with_rows(
            text,
            "providers"@,
            provider_rows(update.providers@, saved_keys(source)),
        ) {
            Some(text) => toml_with_rows(text, "models"@, model_rows(update.models@)),
            None => None,
        },
        None => None,
    }
}

/// Whether a configuration holds a change, and nothing else of it has changed.
pub open spec fn holds_update(
    source: Seq<char>,
    text: Seq<char>,
    update: AdminConfigUpdate,
) -> bool {
    &&& toml_reads(text)
    &&& edits_found(text, table_edits(update))
    &&& toml_rows(text, "providers"@) == Some(
        found_rows(provider_rows(update.providers@, saved_keys(source))),
    )
    &&& toml_rows(text, "models"@) == Some(found_rows(model_rows(update.models@)))
    &&& forall|table: Seq<char>|
        table != "app"@ && table != "server"@ && table != "providers"@ && table != "models"@
            ==> #[trigger] same_table(source, text, table)
}

fn edits_can_be_written(edits: &Vec<TomlEdit>) -> (r: bool)
    ensures
        r == forall|i: int| 0 <= i < edits@.len() ==> edit_fits(#[trigger] edits_view(edits@)[i]),
{
    let mut i: usize = 0;
    while i < edits.len()
        invariant
            i <= edits@.len(),
            forall|j: int| 0 <= j < i ==> edit_fits(#[trigger] edits_view(edits@)[j]),
        decreases edits@.len() - i,
    {
        let fits = match &edits[i].entry {
            Some(entry) => entry_can_be_written(entry),
            None => true,
        };
        if !fits {
            assert(!edit_fits(edits_view(edits@)[i as int]));
            return false;
        }
        i += 1;
    }
    true
}

/// The text of a configuration after a change that is checked first. `delay_fits` tells whether the
/// delay of answers is a number that is not negative, and `tools` lists the tools that can be
/// switched on.
pub fn write_admin_config(
    source: &str,
    update: &AdminConfigUpdate,
    delay_fits: bool,
    tools: &Vec<String>,
) -> (r: Result<String, ConfigTextError>)
    ensures
        match update_fault(*update, delay_fits, tools@) {
            Some(fault) => r matches Err(ConfigTextError::Refused(e)) && e@ == fault,
            None => if !toml_reads(source@) {
                r == Err::<String, ConfigTextError>(ConfigTextError::NotToml)
            } else if !update_fits(source@, *update) {
                r == Err::<String, ConfigTextError>(ConfigTextError::Unwritable)
            } else {
                match updated_text(source@, *update) {
                    Some(text) => r is Ok && r->Ok_0@ == text && (lists_are_free(source@)
                        ==> holds_update(source@, text, *update)),
                    None => r == Err::<String, ConfigTextError>(ConfigTextError::NoTable),
                }
            },
        },
{
    if let Err(e) = validate_update(update, delay_fits, tools) {
        return Err(ConfigTextError::Refused(e));
    }
    if !reads_toml(source) {
        return Err(ConfigTextError::NotToml);
    }
    let saved = read_saved_keys(source);
    let edits = list_edits(update);
    let providers = list_provider_rows(&update.providers, &saved);
    let models = list_model_rows(&update.models);
    if !edits_can_be_written(&edits) || !rows_can_be_written(&providers) || !rows_can_be_written(
        &models,
    ) {
        return Err(ConfigTextError::Unwritable);
    }
    proof {
        lemma_table_edits(*update);
        assert forall|i: int| 0 <= i < edits@.len() implies edit_fits(#[trigger] edits@[i]@) by {
            assert(edits_view(edits@)[i] == edits@[i]@);
        }
        assert forall|i: int| 0 <= i < providers@.len() implies keys_differ(
            #[trigger] rows_view(providers@)[i],
        ) by {
            lemma_row_keys_differ(update.providers@[i], saved_keys(source@), arbitrary());
        }
        assert forall|i: int| 0 <= i < models@.len() implies keys_differ(
            #[trigger] rows_view(models@)[i],
        ) by {
            lemma_row_keys_differ(arbitrary(), saved_keys(source@), update.models@[i]);
        }
    }
    let changed = match apply_edits(source, &edits) {
        Some(text) => text,
        None => {
            return Err(ConfigTextError::NoTable);
        },
    };
    let with_providers = match set_toml_rows(&changed, "providers", &providers) {
        Some(text) => text,
        None => {
            return Err(ConfigTextError::NoTable);
        },
    };
    match set_toml_rows(&with_providers, "models", &models) {
        Some(text) => {
            proof {
                if lists_are_free(source@) {
                    lemma_update_holds(source@, changed@, with_providers@, text@, *update);
                }
            }
            Ok(text)
        },
        None => Err(ConfigTextError::NoTable),
    }
}

proof fn lemma_update_holds(
    source: Seq<char>,
    changed: Seq<char>,
    with_providers: Seq<char>,
    text: Seq<char>,
    update: AdminConfigUpdate,
)
    requires
        lists_are_free(source),
        edits_hold(source, changed, table_edits(update)),
        toml_rows(changed, "providers"@) is Some ==> {
            &&& toml_rows(with_providers, "providers"@) == Some(
                found_rows(provider_rows(update.providers@, saved_keys(source))),
            )
            &&& spares_others(changed, with_providers, "providers"@)
        },
        toml_rows(with_providers, "models"@) is Some ==> {
            &&& toml_reads(text)
            &&& toml_rows(text, "models"@) == Some(found_rows(model_rows(update.models@)))
            &&& spares_others(with_providers, text, "models"@)
        },
    ensures
        holds_update(source, text, update),
{
    reveal_strlit("app");
    reveal_strlit("server");
    reveal_strlit("providers");
    reveal_strlit("models");
    let edits = table_edits(update);
    lemma_table_edits(update);
    lemma_app_keys_differ(update.app);
    lemma_server_keys_differ(update.server);
    assert("providers"@.len() == 9 && "models"@.len() == 6 && "server"@.len() == 6 && "app"@.len()
        == 3);
    assert("models"@[0] != "server"@[0]);
    assert(untouched(edits, "providers"@));
    assert(untouched(edits, "models"@));
    assert(same_table(source, changed, "providers"@));
    assert(same_table(source, changed, "models"@));
    assert forall|i: int| 0 <= i < edits.len() && (#[trigger] edits[i]).entry is Some implies
        toml_entry(text, edits[i].table, edits[i].key) == entry_text(edits[i].entry.unwrap()) by {
        let front = app_edits(update.app);
        if i < front.len() {
            assert(edits[i] == front[i]);
        } else {
            assert(edits[i] == server_edits(update.server)[i - front.len()]);
        }
        let table = edits[i].table;
        assert(table == "app"@ || table == "server"@);
        assert(toml_entry(changed, table, edits[i].key) == entry_text(edits[i].entry.unwrap()));
    }
    assert forall|table: Seq<char>|
        table != "app"@ && table != "server"@ && table != "providers"@ && table
            != "models"@ implies #[trigger] same_table(source, text, table) by {
        assert(untouched(edits, table));
        assert(same_table(source, changed, table));
    }
}

proof fn lemma_provider_row_is_found(
    provider: AdminProviderConfig,
    saved: Seq<(Seq<char>, Seq<char>)>,
)
    ensures
        ({
            let fields = provider_fields(provider, saved);
            let row = Seq::new(
                fields.len(),
                |j: int| (fields[j].key, entry_text(fields[j].entry)),
            );
            &&& field_of(row, "name"@) == Some(trim_of(provider.name@))
            &&& field_of(row, "key"@) == Some(provider_key_of(provider, saved))
        }),
{
    reveal_strlit("name");
    reveal_strlit("type");
    reveal_strlit("key");
    let fields = provider_fields(provider, saved);
    let row = Seq::new(fields.len(), |j: int| (fields[j].key, entry_text(fields[j].entry)));
    assert(row[0].0 == "name"@);
    let second = row.drop_first();
    let third = second.drop_first();
    assert(second[0] == row[1] && third[0] == row[2]);
    assert("name"@.len() == 4 && "type"@.len() == 4 && "key"@.len() == 3);
    assert(field_of(row, "key"@) == field_of(second, "key"@));
    assert(field_of(second, "key"@) == field_of(third, "key"@));
}

/// The keys that are saved once providers are written are theirs, in order.
proof fn lemma_saved_providers(
    providers: Seq<AdminProviderConfig>,
    saved: Seq<(Seq<char>, Seq<char>)>,
    n: int,
)
    requires
        0 <= n <= providers.len(),
    ensures
        named_keys(found_rows(provider_rows(providers, saved)).take(n)) =~= Seq::new(
            n as nat,
            |i: int| (trim_of(providers[i].name@), provider_key_of(providers[i], saved)),
        ),
    decreases n,
{
    let all = found_rows(provider_rows(providers, saved));
    if n > 0 {
        lemma_saved_providers(providers, saved, n - 1);
        lemma_provider_row_is_found(providers[n - 1], saved);
        assert(all.take(n).drop_last() =~= all.take(n - 1));
        let fields = provider_fields(providers[n - 1], saved);
        assert(all.take(n).last() =~= Seq::new(
            fields.len(),
            |j: int| (fields[j].key, entry_text(fields[j].entry)),
        ));
    }
}

proof fn lemma_saved_key_at(
    saved: Seq<(Seq<char>, Seq<char>)>,
    i: int,
    n: nat,
)
    requires
        0 <= i < n <= saved.len(),
        forall|j: int| i < j < n ==> (#[trigger] saved[j]).0 != saved[i].0,
    ensures
        saved_key(saved, saved[i].0, n) == Some(saved[i].1),
    decreases n,
{
    if i < n - 1 {
        assert(saved[n - 1].0 != saved[i].0);
        lemma_saved_key_at(saved, i, (n - 1) as nat);
    }
}

/// A provider keeps its key over changes of the configuration that give no new one: what one change
/// wrote is what the next one finds, under the name that the provider has then.
pub proof fn law_keys_survive_changes(
    source: Seq<char>,
    text: Seq<char>,
    update: AdminConfigUpdate,
    i: int,
    later: AdminProviderConfig,
)
    requires
        holds_update(source, text, update),
        provider_names(update.providers@).no_duplicates(),
        0 <= i < update.providers@.len(),
        trim_of(later.name@) == trim_of(update.providers@[i].name@),
        later.key is None || later.key.unwrap()@.len() == 0,
    ensures
        provider_key_of(later, saved_keys(text)) == provider_key_of(
            update.providers@[i],
            saved_keys(source),
        ),
{
    let providers = update.providers@;
    let saved = saved_keys(source);
    let rows = found_rows(provider_rows(providers, saved));
    lemma_saved_providers(providers, saved, providers.len() as int);
    assert(rows.take(providers.len() as int) =~= rows);
    let kept = saved_keys(text);
    let names = provider_names(providers);
    assert forall|j: int| i < j < kept.len() implies (#[trigger] kept[j]).0 != kept[i].0 by {
        assert(names[j] != names[i]);
    }
    lemma_saved_key_at(kept, i, kept.len());
}

/// A change of the configuration leaves the token that opens the pages as it is.
pub proof fn law_changes_spare_the_token(
    source: Seq<char>,
    text: Seq<char>,
    update: AdminConfigUpdate,
)
    requires
        holds_update(source, text, update),
    ensures
        toml_entry(text, "admin"@, "token"@) == toml_entry(source, "admin"@, "token"@),
{
    reveal_strlit("admin");
    reveal_strlit("app");
    reveal_strlit("server");
    reveal_strlit("providers");
    reveal_strlit("models");
    assert("admin"@.len() == 5);
    assert(same_table(source, text, "admin"@));
}

} // verus!
