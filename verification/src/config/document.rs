//! Format-preserving, validated editing for the canonical nobox configuration.
//!
//! A document is held as its text. An edit makes a candidate text, and the candidate takes the
//! document's place only if the complete configuration in it is valid.

use toml_edit::{ArrayOfTables, DocumentMut, Item, Table, TomlError, Value};
use vstd::prelude::*;

use crate::config::agent;
use crate::config::agent::{
    is_desktop_entry_id, AgentLaunchConfig, LaunchPolicy, MAX_LAUNCH_ENTRIES,
};
use crate::config::error::{ConfigError, Fault};
use crate::config::setting_key::{SettingKey, SettingModel, SettingValue};
use crate::config::settings::{WorkspaceConfig, MAX_WORKSPACES};
use crate::config::Config;
use crate::path;
use crate::path::is_absolute;
use crate::text;
use crate::text::{byte_size, decimal_text, same};

verus! {

/// Maximum source size accepted by the graphical editor.
pub const MAX_SETTINGS_SOURCE_BYTES: usize = 1_048_576;

/// `toml_edit::TomlError`, the error of malformed TOML.
#[verifier::external_type_specification]
#[verifier::external_body]
pub struct ExTomlError(TomlError);

/// The text that a TOML document prints as, or nothing for text that is not TOML.
pub uninterp spec fn reprinted(source: Seq<char>) -> Option<Seq<char>>;

/// The text of a document in which a value stands in a field of a section, or nothing where the
/// text is not TOML or the section holds something else than fields.
pub uninterp spec fn assigned(
    source: Seq<char>,
    section: Seq<char>,
    field: Seq<char>,
    value: SettingModel,
) -> Option<Seq<char>>;

/// The text of a document in which a value stands in a field of a table of a section, or nothing
/// where the text is not TOML or the section or the table holds something else than fields.
pub uninterp spec fn assigned_within(
    source: Seq<char>,
    section: Seq<char>,
    table: Seq<char>,
    field: Seq<char>,
    value: SettingModel,
) -> Option<Seq<char>>;

/// The text of a document in which a list and then two counts stand in fields of a section, or
/// nothing where the text is not TOML or the section holds something else than fields.
pub uninterp spec fn list_and_counts_assigned(
    source: Seq<char>,
    section: Seq<char>,
    list: (Seq<char>, Seq<Seq<char>>),
    first: (Seq<char>, u32),
    second: (Seq<char>, u32),
) -> Option<Seq<char>>;

/// The text of a document that has a section, or nothing where the text is not TOML or the name
/// is that of something else than a table.
pub uninterp spec fn opened(source: Seq<char>, section: Seq<char>) -> Option<Seq<char>>;

/// The text of a document in which a section has a table, or nothing where the text is not TOML
/// or there is no such section.
pub uninterp spec fn opened_within(
    source: Seq<char>,
    section: Seq<char>,
    table: Seq<char>,
) -> Option<Seq<char>>;

/// The text of a document with one more table in a list of tables, or nothing where the text is
/// not TOML, there is no such section, or the list is something else.
pub uninterp spec fn row_appended(
    source: Seq<char>,
    section: Seq<char>,
    list: Seq<char>,
    row: Seq<(Seq<char>, SettingModel)>,
) -> Option<Seq<char>>;

/// The number of tables in a list of tables, none where there is no such list.
pub uninterp spec fn row_count(source: Seq<char>, section: Seq<char>, list: Seq<char>) -> nat;

/// The text of a document without one table of a list of tables.
pub uninterp spec fn row_removed(
    source: Seq<char>,
    section: Seq<char>,
    list: Seq<char>,
    index: nat,
) -> Option<Seq<char>>;

/// `str::parse::<toml_edit::DocumentMut>` and `DocumentMut::to_string`: the text that a document
/// prints as, which keeps comments and layout.
///
/// The contract names the result; what it leaves unsaid is which layout details printing evens
/// out.
#[verifier::external_body]
fn reprint(source: &str) -> (printed: Result<String, TomlError>)
    ensures
        match printed {
            Ok(printed) => reprinted(source@) == Some(printed@),
            Err(_) => reprinted(source@) is None,
        },
{
    source.parse::<DocumentMut>().map(|document| document.to_string())
}

/// `toml_edit::Item::get_mut` for a section and for a field in it, and an assignment to the item
/// that it gives: the value takes the item's place, and a missing item is made.
///
/// The contract names the result, because it is the printed text of the whole document.
#[verifier::external_body]
fn assign(source: &str, section: &str, field: &str, value: &SettingValue) -> (changed: Option<
    String,
>)
    ensures
        text::maybe(changed) == assigned(source@, section@, field@, value@),
{
    let mut document: DocumentMut = source.parse().ok()?;
    *document.as_item_mut().get_mut(section)?.get_mut(field)? = match value {
        SettingValue::Boolean(value) => toml_edit::value(*value),
        SettingValue::Integer(value) => toml_edit::value(i64::from(*value)),
        SettingValue::Text(value) => toml_edit::value(value.as_str()),
        SettingValue::TextList(values) => {
            Item::Value(Value::Array(values.iter().map(String::as_str).collect()))
        },
    };
    Some(document.to_string())
}

/// `toml_edit::Item::get_mut` for a section, for a table in it, and for a field in that, and an
/// assignment to the item that it gives: the value takes the item's place, and a missing item is
/// made.
///
/// The contract names the result, because it is the printed text of the whole document.
#[verifier::external_body]
fn assign_within(
    source: &str,
    section: &str,
    table: &str,
    field: &str,
    value: &SettingValue,
) -> (changed: Option<String>)
    ensures
        text::maybe(changed) == assigned_within(source@, section@, table@, field@, value@),
{
    let mut document: DocumentMut = source.parse().ok()?;
    *document.as_item_mut().get_mut(section)?.get_mut(table)?.get_mut(field)? = match value {
        SettingValue::Boolean(value) => toml_edit::value(*value),
        SettingValue::Integer(value) => toml_edit::value(i64::from(*value)),
        SettingValue::Text(value) => toml_edit::value(value.as_str()),
        SettingValue::TextList(values) => {
            Item::Value(Value::Array(values.iter().map(String::as_str).collect()))
        },
    };
    Some(document.to_string())
}

/// `toml_edit::Item::get_mut` for a section and, one after the other, for three fields in it, and
/// an assignment to each item that it gives: the value takes the item's place, and a missing item
/// is made.
///
/// The contract names the result, because it is the printed text of the whole document.
#[verifier::external_body]
fn assign_list_and_counts(
    source: &str,
    section: &str,
    list: (&str, &Vec<String>),
    first: (&str, u32),
    second: (&str, u32),
) -> (changed: Option<String>)
    ensures
        text::maybe(changed) == list_and_counts_assigned(
            source@,
            section@,
            (list.0@, text::lines_of(list.1@)),
            (first.0@, first.1),
            (second.0@, second.1),
        ),
{
    let mut document: DocumentMut = source.parse().ok()?;
    let place = document.as_item_mut().get_mut(section)?;
    let entries = list.1.iter().map(String::as_str).collect();
    *place.get_mut(list.0)? = Item::Value(Value::Array(entries));
    *place.get_mut(first.0)? = toml_edit::value(i64::from(first.1));
    *place.get_mut(second.0)? = toml_edit::value(i64::from(second.1));
    Some(document.to_string())
}

/// `toml_edit::Table::entry` and `Entry::or_insert` on a document: a missing table is made, and
/// one that is there is left alone.
///
/// The contract names the result, because it is the printed text of the whole document.
#[verifier::external_body]
fn open(source: &str, section: &str) -> (changed: Option<String>)
    ensures
        text::maybe(changed) == opened(source@, section@),
{
    let mut document: DocumentMut = source.parse().ok()?;
    document.entry(section).or_insert(Item::Table(Table::new())).as_table_mut()?;
    Some(document.to_string())
}

/// `toml_edit::Table::entry` and `Entry::or_insert` on a section: a missing table is made, and
/// whatever is there is left alone.
///
/// The contract names the result, because it is the printed text of the whole document.
#[verifier::external_body]
fn open_within(source: &str, section: &str, table: &str) -> (changed: Option<String>)
    ensures
        text::maybe(changed) == opened_within(source@, section@, table@),
{
    let mut document: DocumentMut = source.parse().ok()?;
    let place = document.get_mut(section)?.as_table_mut()?;
    place.entry(table).or_insert(Item::Table(Table::new()));
    Some(document.to_string())
}

/// `toml_edit::ArrayOfTables::push` on the list that a section holds under a key: the table
/// becomes the list's last one, and a missing list is made.
///
/// The contract names the result, because it is the printed text of the whole document.
#[verifier::external_body]
fn append_row(
    source: &str,
    section: &str,
    list: &str,
    row: &Vec<(&'static str, SettingValue)>,
) -> (changed: Option<String>)
    ensures
        text::maybe(changed) == row_appended(source@, section@, list@, row_model(row@)),
{
    let mut document: DocumentMut = source.parse().ok()?;
    let table = document.get_mut(section)?.as_table_mut()?;
    let rows = table.entry(list).or_insert(Item::ArrayOfTables(ArrayOfTables::new()));
    rows.as_array_of_tables_mut()?.push(row.iter().map(|(key, value)| (*key, match value {
        SettingValue::Boolean(value) => toml_edit::value(*value),
        SettingValue::Integer(value) => toml_edit::value(i64::from(*value)),
        SettingValue::Text(value) => toml_edit::value(value.as_str()),
        SettingValue::TextList(values) => {
            Item::Value(Value::Array(values.iter().map(String::as_str).collect()))
        },
    })).collect());
    Some(document.to_string())
}

/// `toml_edit::ArrayOfTables::len` of the list that a section holds under a key; there are no
/// tables where there is no such list.
#[verifier::external_body]
fn count_rows(source: &str, section: &str, list: &str) -> (count: usize)
    ensures
        count == row_count(source@, section@, list@),
{
    let document = source.parse::<DocumentMut>().ok();
    let table = document.as_ref().and_then(|document| document.get(section)?.as_table());
    let rows = table.and_then(|table| table.get(list)?.as_array_of_tables());
    rows.map_or(0, ArrayOfTables::len)
}

/// `toml_edit::ArrayOfTables::remove` on the list that a section holds under a key: the table at
/// that position leaves the list.
///
/// The contract names the result, because it is the printed text of the whole document.
#[verifier::external_body]
fn remove_row(source: &str, section: &str, list: &str, index: usize) -> (changed: Option<String>)
    requires
        index < row_count(source@, section@, list@),
    ensures
        text::maybe(changed) == row_removed(source@, section@, list@, index as nat),
{
    let mut document: DocumentMut = source.parse().ok()?;
    let table = document.get_mut(section)?.as_table_mut()?;
    table.get_mut(list)?.as_array_of_tables_mut()?.remove(index);
    Some(document.to_string())
}

/// What the fields of a table are.
pub open spec fn row_model(row: Seq<(&'static str, SettingValue)>) -> Seq<
    (Seq<char>, SettingModel),
> {
    Seq::new(row.len(), |i: int| (row[i].0@, row[i].1@))
}

/// The text of a document that has a launch table in its agent section, unchanged where that
/// section is no table to make one in.
pub open spec fn launch_opened(source: Seq<char>) -> Seq<char> {
    match opened(source, "agent"@) {
        Some(prepared) => opened_within(prepared, "agent"@, "launch"@).unwrap_or(prepared),
        None => source,
    }
}

/// The text of a document with a value in a field of the agent's launch table.
pub open spec fn launch_assigned(
    source: Seq<char>,
    field: Seq<char>,
    value: SettingModel,
) -> Option<Seq<char>> {
    assigned_within(launch_opened(source), "agent"@, "launch"@, field, value)
}

/// The fields of a stored grant.
pub open spec fn grant_row(
    label: Seq<char>,
    executable: Seq<char>,
    uid: Option<u32>,
    capabilities: Seq<Seq<char>>,
) -> Seq<(Seq<char>, SettingModel)> {
    let named = seq![
        ("label"@, SettingModel::Text(label)),
        ("executable"@, SettingModel::Text(executable)),
    ];
    let bound = match uid {
        Some(uid) => named.push(("uid"@, SettingModel::Integer(uid))),
        None => named,
    };
    bound.push(("capabilities"@, SettingModel::TextList(capabilities)))
}

/// The text of a document with one more stored grant.
pub open spec fn grant_appended(source: Seq<char>, row: Seq<(Seq<char>, SettingModel)>) -> Option<
    Seq<char>,
> {
    match opened(source, "agent"@) {
        Some(prepared) => match assigned(
            prepared,
            "agent"@,
            "enabled"@,
            SettingModel::Boolean(true),
        ) {
            Some(enabled) => row_appended(enabled, "agent"@, "grants"@, row),
            None => None,
        },
        None => None,
    }
}

/// The names of a number of workspaces: those there are, then one-based numbers.
pub open spec fn resized_names(names: Seq<Seq<char>>, count: nat) -> Seq<Seq<char>> {
    Seq::new(
        count,
        |i: int|
            if i < names.len() {
                names[i]
            } else {
                text::decimal((i + 1) as nat)
            },
    )
}

/// The smaller of two numbers.
pub open spec fn smaller(left: u32, right: u32) -> u32 {
    if left <= right {
        left
    } else {
        right
    }
}

/// The text of a document whose workspace section is for another number of workspaces.
pub open spec fn workspaces_resized(
    source: Seq<char>,
    workspaces: WorkspaceConfig,
    count: u32,
) -> Option<Seq<char>> {
    list_and_counts_assigned(
        source,
        "workspaces"@,
        ("names"@, resized_names(text::lines_of(workspaces.names@), count as nat)),
        ("columns"@, smaller(workspaces.columns, count)),
        ("initial"@, smaller(workspaces.initial, count)),
    )
}

/// A list without an entry.
pub open spec fn without(entries: Seq<Seq<char>>, entry: Seq<char>) -> Seq<Seq<char>>
    decreases entries.len(),
{
    if entries.len() == 0 {
        Seq::empty()
    } else {
        let before = without(entries.drop_last(), entry);
        if entries.last() == entry {
            before
        } else {
            before.push(entries.last())
        }
    }
}

/// A list in which an entry is selected or not; nothing where the list is full.
pub open spec fn reselected(entries: Seq<Seq<char>>, entry: Seq<char>, selected: bool) -> Option<
    Seq<Seq<char>>,
> {
    if !selected {
        Some(without(entries, entry))
    } else if entries.contains(entry) {
        Some(entries)
    } else if entries.len() >= MAX_LAUNCH_ENTRIES {
        None
    } else {
        Some(entries.push(entry))
    }
}

/// One more than a count, as far as a number goes.
pub open spec fn one_more(count: nat) -> usize {
    if count < usize::MAX {
        (count + 1) as usize
    } else {
        usize::MAX
    }
}

/// The field and the entries of the launch list that is in force.
pub open spec fn active_list(launch: AgentLaunchConfig) -> Option<(Seq<char>, Seq<Seq<char>>)> {
    match launch.policy {
        LaunchPolicy::Deny => None,
        LaunchPolicy::AllowListed => Some(("allow"@, text::lines_of(launch.allow@))),
        LaunchPolicy::AllowInstalled => Some(("deny"@, text::lines_of(launch.deny@))),
    }
}

/// Settings-document failure with actionable context.
#[derive(Debug)]
pub enum SettingsError {
    /// The source exceeds the editor's explicit resource bound.
    TooLarge(usize),
    /// The source is not format-preserving TOML.
    Toml(TomlError),
    /// The canonical configuration rejected the source.
    Config(ConfigError),
    /// A friendly control supplied an impossible value kind.
    WrongValueType(SettingKey),
    /// A section that an edit needs holds something else than fields.
    NotATable(&'static str),
    /// Application membership has no meaning while launch policy is deny.
    LaunchSelectionWhileDenied,
    /// The target does not have a usable parent directory.
    NoParent(String),
}

/// Failure while reading, editing, validating, or saving a configuration document.
pub type ConfigDocumentError = SettingsError;

/// Whether an error is a problem of the configuration.
pub open spec fn faulted(error: SettingsError, fault: Fault) -> bool {
    match error {
        SettingsError::Config(error) => error@ == fault,
        _ => false,
    }
}

/// Whether a decoder takes any text.
pub open spec fn takes_any<F: Fn(&str) -> Result<Config, ConfigError>>(decode: F) -> bool {
    forall|source: &str| #[trigger] call_requires(decode, (source,))
}

/// Whether reading text with a decoder can come to an outcome.
pub open spec fn reads<F: Fn(&str) -> Result<Config, ConfigError>>(
    decode: F,
    source: Seq<char>,
    outcome: Result<Config, ConfigError>,
) -> bool {
    exists|given: &str, decoded: Result<Config, ConfigError>|
        given@ == source && #[trigger] call_ensures(decode, (given,), decoded)
            && Config::parsed_from(decoded, outcome)
}

/// Whether text is short enough and a valid configuration.
pub open spec fn accepted<F: Fn(&str) -> Result<Config, ConfigError>>(
    decode: F,
    source: Seq<char>,
) -> bool {
    &&& text::size(source) <= MAX_SETTINGS_SOURCE_BYTES
    &&& exists|config: Config| #[trigger]
        reads(decode, source, Ok::<Config, ConfigError>(config))
}

/// Whether an error is what text is refused with.
pub open spec fn refused<F: Fn(&str) -> Result<Config, ConfigError>>(
    decode: F,
    source: Seq<char>,
    error: SettingsError,
) -> bool {
    if text::size(source) > MAX_SETTINGS_SOURCE_BYTES {
        error == SettingsError::TooLarge(text::size(source) as usize)
    } else {
        match error {
            SettingsError::Config(error) => reads(
                decode,
                source,
                Err::<Config, ConfigError>(error),
            ),
            _ => false,
        }
    }
}

/// Whether a candidate takes a document's place, or is refused and the document stays.
pub open spec fn settled<F: Fn(&str) -> Result<Config, ConfigError>>(
    decode: F,
    candidate: Seq<char>,
    before: Seq<char>,
    after: Seq<char>,
    outcome: Result<(), SettingsError>,
) -> bool {
    match outcome {
        Ok(_) => after == candidate && accepted(decode, candidate),
        Err(error) => after == before && refused(decode, candidate, error),
    }
}

/// A format-preserving editable configuration document.
#[derive(Clone, Debug)]
pub struct SettingsDocument {
    source: String,
}

/// Canonical format-preserving configuration document used by nobox tools.
pub type ConfigDocument = SettingsDocument;

impl View for SettingsDocument {
    type V = Seq<char>;

    closed spec fn view(&self) -> Seq<char> {
        self.source@
    }
}

/// Checks text through the canonical configuration model.
///
/// # Errors
///
/// Returns an error for oversized, malformed, or invalid input.
pub fn check_source<F: Fn(&str) -> Result<Config, ConfigError>>(
    source: &str,
    decode: &F,
) -> (outcome: Result<(), SettingsError>)
    requires
        call_requires(*decode, (source,)),
    ensures
        match outcome {
            Ok(_) => accepted(*decode, source@),
            Err(error) => refused(*decode, source@, error),
        },
{
    let size = byte_size(source);
    if size > MAX_SETTINGS_SOURCE_BYTES {
        return Err(SettingsError::TooLarge(size));
    }
    match Config::parse(source, decode) {
        Ok(config) => {
            assert(reads(*decode, source@, Ok::<Config, ConfigError>(config)));
            Ok(())
        },
        Err(error) => Err(SettingsError::Config(error)),
    }
}

/// Puts a value in a field of the agent's launch table.
fn assign_launch(source: &str, field: &'static str, value: &SettingValue) -> (changed: Option<
    String,
>)
    ensures
        text::maybe(changed) == launch_assigned(source@, field@, value@),
{
    let prepared = match open(source, "agent") {
        Some(opened) => match open_within(opened.as_str(), "agent", "launch") {
            Some(prepared) => prepared,
            None => opened,
        },
        None => source.to_owned(),
    };
    assign_within(prepared.as_str(), "agent", "launch", field, value)
}

/// Makes the text of a document with one more stored grant.
fn append_grant(source: &str, row: &Vec<(&'static str, SettingValue)>) -> (changed: Option<String>)
    ensures
        text::maybe(changed) == grant_appended(source@, row_model(row@)),
{
    let prepared = match open(source, "agent") {
        Some(prepared) => prepared,
        None => return None,
    };
    match assign(prepared.as_str(), "agent", "enabled", &SettingValue::Boolean(true)) {
        Some(enabled) => append_row(enabled.as_str(), "agent", "grants", row),
        None => None,
    }
}

/// The names of a number of workspaces, kept in order and completed by numbers.
#[must_use]
pub fn resize_names(names: &Vec<String>, count: u32) -> (resized: Vec<String>)
    ensures
        text::lines_of(resized@) == resized_names(text::lines_of(names@), count as nat),
{
    let mut resized: Vec<String> = Vec::new();
    let mut made: u32 = 0;
    while made < count
        invariant
            made <= count,
            resized.len() == made,
            forall|i: int|
                0 <= i < made ==> (#[trigger] resized@[i])@ == resized_names(
                    text::lines_of(names@),
                    count as nat,
                )[i],
        decreases count - made,
    {
        if (made as usize) < names.len() {
            resized.push(names[made as usize].clone());
        } else {
            resized.push(decimal_text(made as u64 + 1));
        }
        made = made + 1;
    }
    assert(text::lines_of(resized@) =~= resized_names(text::lines_of(names@), count as nat));
    resized
}

/// Makes the text of a document whose workspace section is for another number of workspaces.
fn resize(source: &str, workspaces: &WorkspaceConfig, count: u32) -> (changed: Option<String>)
    ensures
        text::maybe(changed) == workspaces_resized(source@, *workspaces, count),
{
    let columns: u32 = if workspaces.columns <= count {
        workspaces.columns
    } else {
        count
    };
    let initial: u32 = if workspaces.initial <= count {
        workspaces.initial
    } else {
        count
    };
    let names = resize_names(&workspaces.names, count);
    assign_list_and_counts(
        source,
        "workspaces",
        ("names", &names),
        ("columns", columns),
        ("initial", initial),
    )
}

/// Selects or deselects one entry in a launch list.
///
/// # Errors
///
/// Returns an error when the list is full.
pub fn reselect(entries: &Vec<String>, entry: &str, selected: bool) -> (changed: Result<
    Vec<String>,
    ConfigError,
>)
    ensures
        ({
            let texts = text::lines_of(entries@);
            match changed {
                Ok(changed) => reselected(texts, entry@, selected) == Some(
                    text::lines_of(changed@),
                ),
                Err(error) => reselected(texts, entry@, selected) is None && error@
                    == Fault::TooManyLaunchEntries(one_more(texts.len())),
            }
        }),
{
    let ghost texts = text::lines_of(entries@);
    let mut kept: Vec<String> = Vec::new();
    let mut found = false;
    let mut index: usize = 0;
    assert(text::lines_of(kept@) =~= without(texts.take(0), entry@));
    while index < entries.len()
        invariant
            index <= entries.len(),
            texts == text::lines_of(entries@),
            found == texts.take(index as int).contains(entry@),
            text::lines_of(kept@) == (if selected {
                texts.take(index as int)
            } else {
                without(texts.take(index as int), entry@)
            }),
        decreases entries.len() - index,
    {
        let ghost so_far = texts.take(index as int);
        let ghost next = texts.take(index + 1);
        assert(next.drop_last() =~= so_far);
        assert(next =~= so_far.push(entries@[index as int]@));
        let ghost before = kept@;
        let hit = same(entries[index].as_str(), entry);
        proof {
            if hit {
                assert(next[index as int] == entry@);
            }
            if so_far.contains(entry@) {
                let i = choose|i: int| 0 <= i < so_far.len() && so_far[i] == entry@;
                assert(next[i] == entry@);
            }
        }
        if hit {
            found = true;
        }
        if selected || !hit {
            kept.push(entries[index].clone());
            assert(text::lines_of(kept@) =~= text::lines_of(before).push(entries@[index as int]@));
        }
        index = index + 1;
    }
    assert(texts.take(index as int) =~= texts);
    if selected && !found {
        if entries.len() >= MAX_LAUNCH_ENTRIES {
            return Err(ConfigError::TooManyLaunchEntries(entries.len().saturating_add(1)));
        }
        let ghost before = kept@;
        kept.push(entry.to_owned());
        assert(text::lines_of(kept@) =~= text::lines_of(before).push(entry@));
    }
    Ok(kept)
}

/// The directory that a document is saved in.
///
/// # Errors
///
/// Returns an error where the path has no parent directory to name.
pub fn parent_directory(path: &str) -> (parent: Result<String, SettingsError>)
    ensures
        match parent {
            Ok(parent) => parent@.len() > 0 && path::parent_of(path@) == Some(parent@),
            Err(error) => path::parent_of(path@).unwrap_or(Seq::empty()).len() == 0 && (
            error matches SettingsError::NoParent(given) && given@ == path@),
        },
{
    match path::parent(path) {
        Some(parent) if !parent.as_str().is_empty() => Ok(parent),
        _ => Err(SettingsError::NoParent(path.to_owned())),
    }
}

/// The name of the file that a document is written to before it takes its place.
#[must_use]
pub fn temporary_name(name: Option<&str>, process: u32) -> (temporary: String)
    ensures
        temporary@ == "."@ + (match name {
            Some(name) => name@,
            None => "config.toml"@,
        }) + ".nobox-settings-"@ + text::decimal(process as nat) + ".tmp"@,
{
    let mut temporary = ".".to_owned();
    temporary.append(
        match name {
            Some(name) => name,
            None => "config.toml",
        },
    );
    temporary.append(".nobox-settings-");
    temporary.append(decimal_text(process as u64).as_str());
    temporary.append(".tmp");
    temporary
}

impl SettingsDocument {
    /// Parses an editable source document through the canonical config model.
    ///
    /// # Errors
    ///
    /// Returns an error for oversized, malformed, or invalid input.
    pub fn parse<F: Fn(&str) -> Result<Config, ConfigError>>(
        source: &str,
        decode: &F,
    ) -> (document: Result<Self, SettingsError>)
        requires
            takes_any(*decode),
        ensures
            match document {
                Ok(document) => accepted(*decode, source@) && reprinted(source@) == Some(
                    document@,
                ),
                Err(error) => refused(*decode, source@, error) || (accepted(*decode, source@)
                    && reprinted(source@) is None && error is Toml),
            },
    {
        if let Err(error) = check_source(source, decode) {
            return Err(error);
        }
        match reprint(source) {
            Ok(source) => Ok(SettingsDocument { source }),
            Err(error) => Err(SettingsError::Toml(error)),
        }
    }

    fn read<F: Fn(&str) -> Result<Config, ConfigError>>(&self, decode: &F) -> (read: Result<
        Config,
        ConfigError,
    >)
        requires
            takes_any(*decode),
        ensures
            reads(*decode, self@, read),
    {
        Config::parse(self.source.as_str(), decode)
    }

    /// Returns the canonical typed view of the current document.
    ///
    /// # Errors
    ///
    /// Returns an error if advanced edits left the document invalid.
    pub fn config<F: Fn(&str) -> Result<Config, ConfigError>>(&self, decode: &F) -> (config: Result<
        Config,
        SettingsError,
    >)
        requires
            takes_any(*decode),
        ensures
            match config {
                Ok(config) => reads(*decode, self@, Ok::<Config, ConfigError>(config)),
                Err(error) => error matches SettingsError::Config(error) && reads(
                    *decode,
                    self@,
                    Err::<Config, ConfigError>(error),
                ),
            },
    {
        match self.read(decode) {
            Ok(config) => Ok(config),
            Err(error) => Err(SettingsError::Config(error)),
        }
    }

    /// Returns the complete format-preserved TOML source.
    #[must_use]
    pub fn source(&self) -> (source: String)
        ensures
            source@ == self@,
    {
        self.source.clone()
    }

    /// Replaces the document after full canonical validation.
    ///
    /// # Errors
    ///
    /// Returns an error without changing the document when input is invalid.
    pub fn replace_source<F: Fn(&str) -> Result<Config, ConfigError>>(
        &mut self,
        source: &str,
        decode: &F,
    ) -> (outcome: Result<(), SettingsError>)
        requires
            takes_any(*decode),
        ensures
            match outcome {
                Ok(_) => accepted(*decode, source@) && reprinted(source@) == Some(final(self)@),
                Err(error) => final(self)@ == old(self)@ && (refused(*decode, source@, error) || (
                accepted(*decode, source@) && reprinted(source@) is None && error is Toml)),
            },
    {
        match Self::parse(source, decode) {
            Ok(replacement) => {
                *self = replacement;
                Ok(())
            },
            Err(error) => Err(error),
        }
    }

    /// Takes a candidate over if it is valid.
    fn settle<F: Fn(&str) -> Result<Config, ConfigError>>(
        &mut self,
        candidate: String,
        decode: &F,
    ) -> (outcome: Result<(), SettingsError>)
        requires
            takes_any(*decode),
        ensures
            settled(*decode, candidate@, old(self)@, final(self)@, outcome),
    {
        match check_source(candidate.as_str(), decode) {
            Ok(_) => {
                self.source = candidate;
                Ok(())
            },
            Err(error) => Err(error),
        }
    }

    /// Applies one friendly control while retaining comments and unrelated data.
    ///
    /// # Errors
    ///
    /// Returns an error without changing the document when the value has the
    /// wrong type or violates the canonical config model.
    pub fn set<F: Fn(&str) -> Result<Config, ConfigError>>(
        &mut self,
        key: SettingKey,
        setting: SettingValue,
        decode: &F,
    ) -> (outcome: Result<(), SettingsError>)
        requires
            takes_any(*decode),
        ensures
            outcome is Err ==> final(self)@ == old(self)@,
            outcome is Ok ==> accepted(*decode, final(self)@),
            if key.takes() != setting@.kind() {
                final(self)@ == old(self)@ && outcome == Err::<(), SettingsError>(
                    SettingsError::WrongValueType(key),
                )
            } else {
                match assigned(old(self)@, key.place().0, key.place().1, setting@) {
                    Some(candidate) => settled(
                        *decode,
                        candidate,
                        old(self)@,
                        final(self)@,
                        outcome,
                    ),
                    None => final(self)@ == old(self)@ && outcome is Err
                        && outcome->Err_0 is NotATable,
                }
            },
    {
        if key.kind() != setting.kind() {
            return Err(SettingsError::WrongValueType(key));
        }
        let (section, field) = key.path();
        match assign(self.source.as_str(), section, field, &setting) {
            Some(candidate) => self.settle(candidate, decode),
            None => Err(SettingsError::NotATable(section)),
        }
    }

    /// Stores one agent grant, keeping every comment and unrelated setting.
    ///
    /// The grant binds to the verified executable behind the socket. Nothing
    /// a companion declares about itself is written, because nothing it
    /// declares is an authorization input: a stored grant must not be
    /// reusable by whatever else can claim the same name.
    ///
    /// # Errors
    ///
    /// Returns an error without changing the document when the executable is
    /// not absolute, no capability is named, or the result would be invalid.
    pub fn append_agent_grant<F: Fn(&str) -> Result<Config, ConfigError>>(
        &mut self,
        label: &str,
        executable: &str,
        uid: Option<u32>,
        capabilities: &Vec<String>,
        decode: &F,
    ) -> (outcome: Result<(), SettingsError>)
        requires
            takes_any(*decode),
        ensures
            outcome is Err ==> final(self)@ == old(self)@,
            outcome is Ok ==> accepted(*decode, final(self)@),
            ({
                let row = grant_row(label@, executable@, uid, text::lines_of(capabilities@));
                if !path::absolute(executable@) {
                    final(self)@ == old(self)@ && outcome is Err && faulted(
                        outcome->Err_0,
                        Fault::AgentGrantExecutable(0),
                    )
                } else if capabilities@.len() == 0 {
                    final(self)@ == old(self)@ && outcome is Err && faulted(
                        outcome->Err_0,
                        Fault::AgentGrantWithoutCapabilities(0),
                    )
                } else {
                    match grant_appended(old(self)@, row) {
                        Some(candidate) => settled(
                            *decode,
                            candidate,
                            old(self)@,
                            final(self)@,
                            outcome,
                        ),
                        None => final(self)@ == old(self)@ && outcome is Err && faulted(
                            outcome->Err_0,
                            Fault::AgentGrantExecutable(0),
                        ),
                    }
                }
            }),
    {
        if !is_absolute(executable) {
            return Err(SettingsError::Config(ConfigError::AgentGrantExecutable(0)));
        }
        if capabilities.len() == 0 {
            return Err(SettingsError::Config(ConfigError::AgentGrantWithoutCapabilities(0)));
        }
        let atoms = copy_list(capabilities);
        let mut row: Vec<(&'static str, SettingValue)> = vec![
            ("label", SettingValue::Text(label.to_owned())),
            ("executable", SettingValue::Text(executable.to_owned())),
        ];
        if let Some(uid) = uid {
            row.push(("uid", SettingValue::Integer(uid)));
        }
        row.push(("capabilities", SettingValue::TextList(atoms)));
        assert(row_model(row@) =~= grant_row(
            label@,
            executable@,
            uid,
            text::lines_of(capabilities@),
        ));
        match append_grant(self.source.as_str(), &row) {
            Some(candidate) => self.settle(candidate, decode),
            None => Err(SettingsError::Config(ConfigError::AgentGrantExecutable(0))),
        }
    }

    /// Removes one stored agent grant by position.
    ///
    /// # Errors
    ///
    /// Returns an error without changing the document when no grant occupies
    /// that position, or when the result would be invalid.
    pub fn remove_agent_grant<F: Fn(&str) -> Result<Config, ConfigError>>(
        &mut self,
        index: usize,
        decode: &F,
    ) -> (outcome: Result<(), SettingsError>)
        requires
            takes_any(*decode),
            index < usize::MAX,
        ensures
            outcome is Err ==> final(self)@ == old(self)@,
            outcome is Ok ==> accepted(*decode, final(self)@),
            ({
                let candidate = if index < row_count(old(self)@, "agent"@, "grants"@) {
                    row_removed(old(self)@, "agent"@, "grants"@, index as nat)
                } else {
                    None
                };
                match candidate {
                    Some(candidate) => settled(
                        *decode,
                        candidate,
                        old(self)@,
                        final(self)@,
                        outcome,
                    ),
                    None => final(self)@ == old(self)@ && outcome is Err && faulted(
                        outcome->Err_0,
                        Fault::AgentGrantExecutable((index + 1) as usize),
                    ),
                }
            }),
    {
        if index < count_rows(self.source.as_str(), "agent", "grants") {
            if let Some(candidate) = remove_row(self.source.as_str(), "agent", "grants", index) {
                return self.settle(candidate, decode);
            }
        }
        Err(SettingsError::Config(ConfigError::AgentGrantExecutable(index + 1)))
    }

    /// Takes over a value in a field of the agent's launch table.
    fn set_launch<F: Fn(&str) -> Result<Config, ConfigError>>(
        &mut self,
        field: &'static str,
        value: SettingValue,
        decode: &F,
    ) -> (outcome: Result<(), SettingsError>)
        requires
            takes_any(*decode),
        ensures
            match launch_assigned(old(self)@, field@, value@) {
                Some(candidate) => settled(
                    *decode,
                    candidate,
                    old(self)@,
                    final(self)@,
                    outcome,
                ),
                None => final(self)@ == old(self)@ && outcome is Err
                    && outcome->Err_0 is NotATable,
            },
    {
        match assign_launch(self.source.as_str(), field, &value) {
            Some(candidate) => self.settle(candidate, decode),
            None => Err(SettingsError::NotATable("agent")),
        }
    }

    /// Changes which installed applications agents may launch without
    /// discarding either policy's configured list.
    ///
    /// # Errors
    ///
    /// Returns an error without changing the document when the complete
    /// configuration would be invalid.
    pub fn set_agent_launch_policy<F: Fn(&str) -> Result<Config, ConfigError>>(
        &mut self,
        policy: LaunchPolicy,
        decode: &F,
    ) -> (outcome: Result<(), SettingsError>)
        requires
            takes_any(*decode),
        ensures
            outcome is Err ==> final(self)@ == old(self)@,
            outcome is Ok ==> accepted(*decode, final(self)@),
            match launch_assigned(old(self)@, "policy"@, SettingModel::Text(policy.name())) {
                Some(candidate) => settled(
                    *decode,
                    candidate,
                    old(self)@,
                    final(self)@,
                    outcome,
                ),
                None => final(self)@ == old(self)@ && outcome is Err
                    && outcome->Err_0 is NotATable,
            },
    {
        self.set_launch("policy", SettingValue::Text(policy.as_str().to_owned()), decode)
    }

    /// Enables or disables launches through user-writable desktop entries.
    ///
    /// Existing selections are retained while this is disabled so a
    /// temporarily unavailable or deliberately blocked entry is not erased.
    ///
    /// # Errors
    ///
    /// Returns an error without changing the document when the complete
    /// configuration would be invalid.
    pub fn set_agent_launch_user_entries<F: Fn(&str) -> Result<Config, ConfigError>>(
        &mut self,
        enabled: bool,
        decode: &F,
    ) -> (outcome: Result<(), SettingsError>)
        requires
            takes_any(*decode),
        ensures
            outcome is Err ==> final(self)@ == old(self)@,
            outcome is Ok ==> accepted(*decode, final(self)@),
            match launch_assigned(old(self)@, "user_entries"@, SettingModel::Boolean(enabled)) {
                Some(candidate) => settled(
                    *decode,
                    candidate,
                    old(self)@,
                    final(self)@,
                    outcome,
                ),
                None => final(self)@ == old(self)@ && outcome is Err
                    && outcome->Err_0 is NotATable,
            },
    {
        self.set_launch("user_entries", SettingValue::Boolean(enabled), decode)
    }

    /// Whether selecting an entry, with the launch settings that are in force, comes to an
    /// outcome.
    pub open spec fn selects<F: Fn(&str) -> Result<Config, ConfigError>>(
        decode: F,
        launch: AgentLaunchConfig,
        entry: Seq<char>,
        selected: bool,
        before: Seq<char>,
        after: Seq<char>,
        outcome: Result<(), SettingsError>,
    ) -> bool {
        match active_list(launch) {
            None => after == before && outcome == Err::<(), SettingsError>(
                SettingsError::LaunchSelectionWhileDenied,
            ),
            Some(list) => match reselected(list.1, entry, selected) {
                None => after == before && outcome is Err && faulted(
                    outcome->Err_0,
                    Fault::TooManyLaunchEntries(one_more(list.1.len())),
                ),
                Some(entries) => match launch_assigned(
                    before,
                    list.0,
                    SettingModel::TextList(entries),
                ) {
                    Some(candidate) => settled(decode, candidate, before, after, outcome),
                    None => after == before && outcome is Err && outcome->Err_0 is NotATable,
                },
            },
        }
    }

    /// Selects or deselects one desktop entry under the active launch policy.
    ///
    /// A selection is an allowed entry under [`LaunchPolicy::AllowListed`]
    /// and a blocked entry under [`LaunchPolicy::AllowInstalled`]. Unknown
    /// identifiers already in either list are preserved.
    ///
    /// # Errors
    ///
    /// Returns an error without changing the document when launch policy is
    /// deny, the identifier is invalid, the active list is full, or the
    /// complete configuration would be invalid.
    pub fn set_agent_launch_selection<F: Fn(&str) -> Result<Config, ConfigError>>(
        &mut self,
        desktop_id: &str,
        selected: bool,
        decode: &F,
    ) -> (outcome: Result<(), SettingsError>)
        requires
            takes_any(*decode),
        ensures
            outcome is Err ==> final(self)@ == old(self)@,
            outcome is Ok ==> accepted(*decode, final(self)@),
            if !agent::entry_id(desktop_id@) {
                final(self)@ == old(self)@ && outcome is Err && faulted(
                    outcome->Err_0,
                    Fault::InvalidLaunchEntry(desktop_id@),
                )
            } else {
                exists|read: Result<Config, ConfigError>| #[trigger]
                    reads(*decode, old(self)@, read) && match read {
                        Ok(config) => Self::selects(
                            *decode,
                            config.agent.launch,
                            desktop_id@,
                            selected,
                            old(self)@,
                            final(self)@,
                            outcome,
                        ),
                        Err(error) => final(self)@ == old(self)@ && outcome == Err::<
                            (),
                            SettingsError,
                        >(SettingsError::Config(error)),
                    }
            },
    {
        if !is_desktop_entry_id(desktop_id) {
            return Err(
                SettingsError::Config(ConfigError::InvalidLaunchEntry(desktop_id.to_owned())),
            );
        }
        let config = match self.read(decode) {
            Ok(config) => config,
            Err(error) => return Err(SettingsError::Config(error)),
        };
        let (field, changed) = match config.agent.launch.policy {
            LaunchPolicy::Deny => {
                return Err(SettingsError::LaunchSelectionWhileDenied);
            },
            LaunchPolicy::AllowListed => (
                "allow",
                reselect(&config.agent.launch.allow, desktop_id, selected),
            ),
            LaunchPolicy::AllowInstalled => (
                "deny",
                reselect(&config.agent.launch.deny, desktop_id, selected),
            ),
        };
        match changed {
            Ok(entries) => self.set_launch(field, SettingValue::TextList(entries), decode),
            Err(error) => Err(SettingsError::Config(error)),
        }
    }

    /// Changes the workspace count while preserving existing names in order.
    ///
    /// New workspaces receive their one-based number as a name. Grid columns
    /// and the initial workspace are clamped when the count shrinks.
    ///
    /// # Errors
    ///
    /// Returns an error without changing the document when the count or the
    /// resulting complete configuration is invalid.
    pub fn set_workspace_count<F: Fn(&str) -> Result<Config, ConfigError>>(
        &mut self,
        count: u32,
        decode: &F,
    ) -> (outcome: Result<(), SettingsError>)
        requires
            takes_any(*decode),
        ensures
            outcome is Err ==> final(self)@ == old(self)@,
            outcome is Ok ==> accepted(*decode, final(self)@),
            if count == 0 {
                final(self)@ == old(self)@ && outcome is Err && faulted(
                    outcome->Err_0,
                    Fault::NoWorkspaces,
                )
            } else if count > MAX_WORKSPACES {
                final(self)@ == old(self)@ && outcome is Err && faulted(
                    outcome->Err_0,
                    Fault::TooManyWorkspaces(count as usize),
                )
            } else {
                exists|read: Result<Config, ConfigError>| #[trigger]
                    reads(*decode, old(self)@, read) && match read {
                        Ok(config) => match workspaces_resized(
                            old(self)@,
                            config.workspaces,
                            count,
                        ) {
                            Some(candidate) => settled(
                                *decode,
                                candidate,
                                old(self)@,
                                final(self)@,
                                outcome,
                            ),
                            None => final(self)@ == old(self)@ && outcome is Err
                                && outcome->Err_0 is NotATable,
                        },
                        Err(error) => final(self)@ == old(self)@ && outcome == Err::<
                            (),
                            SettingsError,
                        >(SettingsError::Config(error)),
                    }
            },
    {
        if count == 0 {
            return Err(SettingsError::Config(ConfigError::NoWorkspaces));
        }
        if count as usize > MAX_WORKSPACES {
            return Err(SettingsError::Config(ConfigError::TooManyWorkspaces(count as usize)));
        }
        let config = match self.read(decode) {
            Ok(config) => config,
            Err(error) => return Err(SettingsError::Config(error)),
        };
        match resize(self.source.as_str(), &config.workspaces, count) {
            Some(candidate) => self.settle(candidate, decode),
            None => Err(SettingsError::NotATable("workspaces")),
        }
    }
}

/// A copy of a list of strings.
fn copy_list(list: &Vec<String>) -> (copy: Vec<String>)
    ensures
        text::lines_of(copy@) == text::lines_of(list@),
{
    let mut copy: Vec<String> = Vec::new();
    while copy.len() < list.len()
        invariant
            copy.len() <= list.len(),
            forall|i: int| 0 <= i < copy@.len() ==> (#[trigger] copy@[i])@ == list@[i]@,
        decreases list.len() - copy.len(),
    {
        copy.push(list[copy.len()].clone());
    }
    assert(text::lines_of(copy@) =~= text::lines_of(list@));
    copy
}

/// What a list holds without an entry: everything else.
proof fn lemma_without(entries: Seq<Seq<char>>, entry: Seq<char>, other: Seq<char>)
    ensures
        without(entries, entry).contains(other) == (entries.contains(other) && other != entry),
    decreases entries.len(),
{
    if entries.len() > 0 {
        let rest = entries.drop_last();
        lemma_without(rest, entry, other);
        let before = without(rest, entry);
        if rest.contains(other) {
            let i = choose|i: int| 0 <= i < rest.len() && rest[i] == other;
            assert(entries[i] == other);
        }
        if before.contains(other) {
            let i = choose|i: int| 0 <= i < before.len() && before[i] == other;
            assert(before.push(entries.last())[i] == other);
        }
        if entries.last() == other {
            assert(entries[entries.len() - 1] == other);
            assert(before.push(other)[before.len() as int] == other);
        }
        if entries.contains(other) && !rest.contains(other) {
            let i = choose|i: int| 0 <= i < entries.len() && entries[i] == other;
            if i < rest.len() {
                assert(rest[i] == other);
            }
        }
        if without(entries, entry).contains(other) && !before.contains(other) {
            let after = without(entries, entry);
            let i = choose|i: int| 0 <= i < after.len() && after[i] == other;
            if i < before.len() {
                assert(before[i] == other);
            }
        }
    }
}

/// After a selection the entry is in the list exactly if it was selected, and every other entry
/// is in the list exactly if it was before.
pub proof fn law_selecting_touches_one_entry(
    entries: Seq<Seq<char>>,
    entry: Seq<char>,
    selected: bool,
    other: Seq<char>,
)
    requires
        reselected(entries, entry, selected) is Some,
    ensures
        ({
            let changed = reselected(entries, entry, selected)->Some_0;
            &&& changed.contains(entry) == selected
            &&& other != entry ==> changed.contains(other) == entries.contains(other)
        }),
{
    lemma_without(entries, entry, entry);
    lemma_without(entries, entry, other);
    let changed = entries.push(entry);
    assert(changed[entries.len() as int] == entry);
    if entries.contains(other) {
        let i = choose|i: int| 0 <= i < entries.len() && entries[i] == other;
        assert(changed[i] == other);
    }
    if changed.contains(other) && other != entry {
        let i = choose|i: int| 0 <= i < changed.len() && changed[i] == other;
        assert(entries[i] == other);
    }
}

/// A change of the workspace count keeps the names that remain in order, and as many names as
/// workspaces come out.
pub proof fn law_resizing_keeps_names(names: Seq<Seq<char>>, count: nat, index: int)
    requires
        0 <= index < count,
    ensures
        resized_names(names, count).len() == count,
        index < names.len() ==> resized_names(names, count)[index] == names[index],
        index >= names.len() ==> text::number(resized_names(names, count)[index]) == index + 1,
{
    text::law_decimal_spells_the_number((index + 1) as nat);
}

} // verus!
