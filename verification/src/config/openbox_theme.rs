//! Themes taken over from Openbox.

use vstd::prelude::*;

use crate::config::openbox_color;
use crate::config::openbox_color::parse_openbox_color;
use crate::config::color;
use crate::config::color::RgbColor;
use crate::config::theme::{ThemeConfig, ThemeModel, TitleAlignment};
use crate::config::theme_document;
use crate::text;
use crate::text::{
    byte_size, characters, collected, cut_lines, decimal_text, ends_with, find, lower_chars,
    parse_unsigned, same, spells, starts_with, stretch, trim_chars,
};
use crate::text_map::TextMap;

verus! {

/// Maximum number of bytes in an Openbox theme.
pub const MAX_SOURCE_BYTES: usize = 1_048_576;

/// Maximum number of lines in an Openbox theme.
pub const MAX_SOURCE_LINES: usize = 10_000;

/// Maximum number of bytes in a property's name or value.
pub const MAX_PROPERTY_BYTES: usize = 512;

/// The value of each property by its lower-case name.
pub type Properties = Map<Seq<char>, Seq<char>>;

/// What one line of a theme is.
pub ghost enum Line {
    /// An empty line or a comment.
    Skipped,
    /// A line that defines nothing.
    Malformed,
    /// A definition of a property.
    Definition(Seq<char>, Seq<char>),
}

/// What a line of a theme is.
///
/// A definition has a colon between a name and a value, neither of which is empty or longer
/// than the limit once the white space around it is taken off.
pub open spec fn line_of(line: Seq<char>) -> Line {
    let trimmed = text::trim(line);
    if trimmed.len() == 0 || trimmed[0] == '!' || trimmed[0] == '#' {
        Line::Skipped
    } else {
        match text::position(trimmed, ':') {
            Some(colon) => {
                let key = text::lower(text::trim(trimmed.take(colon)));
                let value = text::trim(trimmed.skip(colon + 1));
                if key.len() == 0 || value.len() == 0 || text::size(key) > MAX_PROPERTY_BYTES
                    || text::size(value) > MAX_PROPERTY_BYTES {
                    Line::Malformed
                } else {
                    Line::Definition(key, value)
                }
            },
            None => Line::Malformed,
        }
    }
}

/// What the lines of a theme hold together.
pub ghost struct Reading {
    /// The last value of each property.
    pub properties: Properties,
    /// The number of lines that define nothing.
    pub malformed: nat,
    /// The number of definitions of a property that was defined before.
    pub duplicates: nat,
}

/// What the lines of a theme hold together.
pub open spec fn reading(lines: Seq<Seq<char>>) -> Reading
    decreases lines.len(),
{
    if lines.len() == 0 {
        Reading { properties: Map::empty(), malformed: 0, duplicates: 0 }
    } else {
        let before = reading(lines.drop_last());
        match line_of(lines.last()) {
            Line::Skipped => before,
            Line::Malformed => Reading { malformed: before.malformed + 1, ..before },
            Line::Definition(key, value) => Reading {
                properties: before.properties.insert(key, value),
                duplicates: if before.properties.contains_key(key) {
                    before.duplicates + 1
                } else {
                    before.duplicates
                },
                ..before
            },
        }
    }
}

/// The first of the candidates that is defined.
pub open spec fn chosen(properties: Properties, candidates: Seq<Seq<char>>) -> Option<Seq<char>>
    decreases candidates.len(),
{
    if candidates.len() == 0 {
        None
    } else if properties.contains_key(candidates[0]) {
        Some(candidates[0])
    } else {
        chosen(properties, candidates.skip(1))
    }
}

/// The color that the first defined candidate gives.
pub open spec fn chosen_color(properties: Properties, candidates: Seq<Seq<char>>) -> Option<u32> {
    match chosen(properties, candidates) {
        Some(key) => openbox_color::openbox_color(properties[key]),
        None => None,
    }
}

/// The number that the first defined candidate gives, up to a limit.
pub open spec fn chosen_number(
    properties: Properties,
    candidates: Seq<Seq<char>>,
    limit: u32,
) -> Option<u32> {
    match chosen(properties, candidates) {
        Some(key) => match text::unsigned(properties[key]) {
            Some(number) => if number <= limit {
                Some(number)
            } else {
                None
            },
            None => None,
        },
        None => None,
    }
}

/// The alignment that a value names.
pub open spec fn alignment_of(value: Seq<char>) -> Option<TitleAlignment> {
    let name = text::lower(value);
    if name == "left"@ {
        Some(TitleAlignment::Left)
    } else if name == "center"@ {
        Some(TitleAlignment::Center)
    } else if name == "right"@ {
        Some(TitleAlignment::Right)
    } else {
        None
    }
}

/// The property that gives the border width.
pub open spec fn border_width_keys() -> Seq<Seq<char>> {
    seq!["border.width"@]
}

/// The property that gives the title padding.
pub open spec fn title_padding_keys() -> Seq<Seq<char>> {
    seq!["padding.width"@]
}

/// The properties that give the title alignment, the preferred one first.
pub open spec fn title_alignment_keys() -> Seq<Seq<char>> {
    seq![
        "window.label.text.justify"@,
        "window.*.label.text.justify"@,
        "*.text.justify"@,
        "*.justify"@,
    ]
}

/// The properties that give the focused border color, the preferred one first.
pub open spec fn active_border_keys() -> Seq<Seq<char>> {
    seq![
        "window.active.border.color"@,
        "window.*.border.color"@,
        "border.color"@,
    ]
}

/// The properties that give the unfocused border color, the preferred one first.
pub open spec fn inactive_border_keys() -> Seq<Seq<char>> {
    seq![
        "window.inactive.border.color"@,
        "window.*.border.color"@,
        "border.color"@,
    ]
}

/// The properties that give the focused titlebar color, the preferred one first.
pub open spec fn active_titlebar_keys() -> Seq<Seq<char>> {
    seq![
        "window.active.title.bg.color"@,
        "window.*.title.bg.color"@,
        "*.title.bg.color"@,
    ]
}

/// The properties that give the unfocused titlebar color, the preferred one first.
pub open spec fn inactive_titlebar_keys() -> Seq<Seq<char>> {
    seq![
        "window.inactive.title.bg.color"@,
        "window.*.title.bg.color"@,
        "*.title.bg.color"@,
    ]
}

/// The properties that give the title text color, the preferred one first.
pub open spec fn title_text_keys() -> Seq<Seq<char>> {
    seq!["window.active.label.text.color"@]
}

/// The properties that give the button color, the preferred one first.
pub open spec fn buttons_keys() -> Seq<Seq<char>> {
    seq![
        "window.active.button.unpressed.bg.color"@,
        "window.active.button.*.bg.color"@,
    ]
}

/// The properties that give the glyph color, the preferred one first.
pub open spec fn button_glyph_keys() -> Seq<Seq<char>> {
    seq![
        "window.active.button.unpressed.image.color"@,
        "window.active.button.*.image.color"@,
    ]
}

/// The property that gives the unfocused title text color.
pub open spec fn inactive_text_keys() -> Seq<Seq<char>> {
    seq!["window.inactive.label.text.color"@]
}

/// Whether a property describes a gradient of a title.
pub open spec fn gradient_key(key: Seq<char>) -> bool {
    ||| "window.active.title.bg.colorto"@.is_prefix_of(key)
    ||| "window.inactive.title.bg.colorto"@.is_prefix_of(key)
    ||| ".color.splitto"@.is_suffix_of(key)
}

/// Whether a property describes a gradient of a title.
pub open spec fn has_gradient(properties: Properties) -> bool {
    exists|key: Seq<char>| #[trigger] properties.contains_key(key) && gradient_key(key)
}

/// Text as Rust's debug formatting quotes it.
pub uninterp spec fn quoted(value: Seq<char>) -> Seq<char>;

/// The debug formatting of `str`, `format!("{value:?}")`: the text in double quotes, with the
/// escapes that Rust's documentation of `str::escape_debug` describes.
///
/// The contract claims only that the result depends on the text alone; it gives the result a
/// name, because which characters are escaped rests on Unicode's tables.
#[verifier::external_body]
fn quote(value: &str) -> (text: String)
    ensures
        text@ == quoted(value@),
{
    format!("{value:?}")
}

/// The note on a property whose value is not understood.
pub open spec fn invalid_value(key: Seq<char>, value: Seq<char>) -> Seq<char> {
    "ignored invalid "@ + key + " value "@ + value
}

/// The note on a property whose color is not understood.
pub open spec fn unsupported_color(key: Seq<char>, value: Seq<char>) -> Seq<char> {
    "ignored unsupported "@ + key + " color "@ + value
}

/// Writes the note on a property whose quoted value is not understood.
#[must_use]
pub fn invalid_value_note(key: &str, value: &str) -> (note: String)
    ensures
        note@ == invalid_value(key@, value@),
{
    let mut note = "ignored invalid ".to_owned();
    note.append(key);
    note.append(" value ");
    note.append(value);
    note
}

/// Writes the note on a property whose quoted color is not understood.
#[must_use]
pub fn unsupported_color_note(key: &str, value: &str) -> (note: String)
    ensures
        note@ == unsupported_color(key@, value@),
{
    let mut note = "ignored unsupported ".to_owned();
    note.append(key);
    note.append(" color ");
    note.append(value);
    note
}

/// What has been taken from a theme so far.
pub ghost struct Progress {
    /// The theme as it stands.
    pub theme: ThemeModel,
    /// The properties that were looked up.
    pub known: Set<Seq<char>>,
    /// The properties whose values went into the theme.
    pub used: Set<Seq<char>>,
    /// The notes that were made.
    pub warnings: Seq<Seq<char>>,
}

impl Progress {
    /// Before anything is taken, with nobox's own theme.
    pub open spec fn start() -> Progress {
        Progress {
            theme: ThemeModel::standard(),
            known: Set::empty(),
            used: Set::empty(),
            warnings: Seq::empty(),
        }
    }

    /// Makes a note.
    pub open spec fn noted(self, note: Seq<char>) -> Progress {
        Progress { warnings: self.warnings.push(note), ..self }
    }

    /// Makes a note where there is reason to.
    pub open spec fn noted_if(self, condition: bool, note: Seq<char>) -> Progress {
        if condition {
            self.noted(note)
        } else {
            self
        }
    }

    /// Looks up the first defined candidate.
    pub open spec fn looked(self, properties: Properties, candidates: Seq<Seq<char>>) -> Progress {
        match chosen(properties, candidates) {
            Some(key) => Progress { known: self.known.insert(key), ..self },
            None => self,
        }
    }

    /// Counts a property among those whose values went into the theme.
    pub open spec fn using(self, key: Seq<char>) -> Progress {
        Progress { used: self.used.insert(key), ..self }
    }

    /// Looks for a color: one that is understood is used, and a note is made of another.
    pub open spec fn after_color(
        self,
        properties: Properties,
        candidates: Seq<Seq<char>>,
    ) -> Progress {
        let looked = self.looked(properties, candidates);
        match chosen(properties, candidates) {
            Some(key) => if chosen_color(properties, candidates) is Some {
                looked.using(key)
            } else {
                looked.noted(unsupported_color(key, quoted(properties[key])))
            },
            None => looked,
        }
    }

    /// Looks for a number up to a limit: such a number is used, and a note is made of another
    /// value.
    pub open spec fn after_number(
        self,
        properties: Properties,
        candidates: Seq<Seq<char>>,
        limit: u32,
    ) -> Progress {
        let looked = self.looked(properties, candidates);
        match chosen(properties, candidates) {
            Some(key) => if chosen_number(properties, candidates, limit) is Some {
                looked.using(key)
            } else {
                looked.noted(invalid_value(key, quoted(properties[key])))
            },
            None => looked,
        }
    }

    /// Takes the border width.
    pub open spec fn with_border_width(self, properties: Properties) -> Progress {
        let width = chosen_number(properties, border_width_keys(), 64);
        Progress {
            theme: ThemeModel {
                border_width: width.unwrap_or(self.theme.border_width),
                ..self.theme
            },
            ..self.after_number(properties, border_width_keys(), 64)
        }
    }

    /// Takes the title padding.
    pub open spec fn with_title_padding(self, properties: Properties) -> Progress {
        let padding = chosen_number(properties, title_padding_keys(), 64);
        Progress {
            theme: ThemeModel {
                title_padding: padding.unwrap_or(self.theme.title_padding),
                ..self.theme
            },
            ..self.after_number(properties, title_padding_keys(), 64)
        }
    }

    /// Takes the title alignment.
    pub open spec fn with_title_alignment(self, properties: Properties) -> Progress {
        let looked = self.looked(properties, title_alignment_keys());
        match chosen(properties, title_alignment_keys()) {
            Some(key) => match alignment_of(properties[key]) {
                Some(alignment) => Progress {
                    theme: ThemeModel { title_alignment: alignment, ..self.theme },
                    ..looked.using(key)
                },
                None => looked.noted(invalid_value(key, quoted(properties[key]))),
            },
            None => looked,
        }
    }

    /// Takes the focused border color.
    pub open spec fn with_active_border(self, properties: Properties) -> Progress {
        let color = chosen_color(properties, active_border_keys());
        Progress {
            theme: ThemeModel {
                active_border: color.unwrap_or(self.theme.active_border),
                ..self.theme
            },
            ..self.after_color(properties, active_border_keys())
        }
    }

    /// Takes the unfocused border color.
    pub open spec fn with_inactive_border(self, properties: Properties) -> Progress {
        let color = chosen_color(properties, inactive_border_keys());
        Progress {
            theme: ThemeModel {
                inactive_border: color.unwrap_or(self.theme.inactive_border),
                ..self.theme
            },
            ..self.after_color(properties, inactive_border_keys())
        }
    }

    /// Takes the focused titlebar color.
    pub open spec fn with_active_titlebar(self, properties: Properties) -> Progress {
        let color = chosen_color(properties, active_titlebar_keys());
        Progress {
            theme: ThemeModel {
                active_titlebar: color.unwrap_or(self.theme.active_titlebar),
                ..self.theme
            },
            ..self.after_color(properties, active_titlebar_keys())
        }
    }

    /// Takes the unfocused titlebar color.
    pub open spec fn with_inactive_titlebar(self, properties: Properties) -> Progress {
        let color = chosen_color(properties, inactive_titlebar_keys());
        Progress {
            theme: ThemeModel {
                inactive_titlebar: color.unwrap_or(self.theme.inactive_titlebar),
                ..self.theme
            },
            ..self.after_color(properties, inactive_titlebar_keys())
        }
    }

    /// Takes the title text color.
    pub open spec fn with_title_text(self, properties: Properties) -> Progress {
        let color = chosen_color(properties, title_text_keys());
        Progress {
            theme: ThemeModel {
                title_text: color.unwrap_or(self.theme.title_text),
                ..self.theme
            },
            ..self.after_color(properties, title_text_keys())
        }
    }

    /// Takes the color that the three buttons share.
    pub open spec fn with_buttons(self, properties: Properties) -> Progress {
        let color = chosen_color(properties, buttons_keys());
        Progress {
            theme: ThemeModel {
                minimize_button: color.unwrap_or(self.theme.minimize_button),
                maximize_button: color.unwrap_or(self.theme.maximize_button),
                close_button: color.unwrap_or(self.theme.close_button),
                ..self.theme
            },
            ..self.after_color(properties, buttons_keys())
        }
    }

    /// Takes the glyph color.
    pub open spec fn with_button_glyph(self, properties: Properties) -> Progress {
        let color = chosen_color(properties, button_glyph_keys());
        Progress {
            theme: ThemeModel {
                button_glyph: color.unwrap_or(self.theme.button_glyph),
                ..self.theme
            },
            ..self.after_color(properties, button_glyph_keys())
        }
    }

    /// Makes a note of a title gradient.
    pub open spec fn with_gradient_note(self, properties: Properties) -> Progress {
        self.noted_if(
            has_gradient(properties),
            "collapsed Openbox title gradients to their first color stop"@,
        )
    }

    /// Makes a note of an unfocused title text color other than the focused one.
    pub open spec fn with_inactive_text_note(self, properties: Properties) -> Progress {
        let looked = self.looked(properties, inactive_text_keys());
        match (chosen(properties, inactive_text_keys()), chosen_color(
            properties,
            inactive_text_keys(),
        )) {
            (Some(key), Some(color)) => looked.noted_if(
                color != self.theme.title_text,
                key
                    + " differs from the active label color; nobox currently uses one title-text color"@,
            ),
            _ => looked,
        }
    }

    /// Makes the notes on what was not taken.
    pub open spec fn with_closing_notes(self, reading: Reading) -> Progress {
        let ignored = reading.properties.dom().len() - self.known.len();
        self.noted_if(
            reading.malformed > 0,
            "ignored "@ + text::decimal(reading.malformed) + " malformed property line(s)"@,
        ).noted_if(
            reading.duplicates > 0,
            "resolved "@ + text::decimal(reading.duplicates)
                + " duplicate property definition(s) using the last value"@,
        ).noted_if(
            ignored > 0,
            "ignored "@ + text::decimal(ignored as nat)
                + " Openbox property/properties without a nobox equivalent"@,
        ).noted(
            "kept nobox defaults for fonts, titlebar height, and urgent colors; Openbox stores fonts outside themerc"@,
        )
    }

    /// Everything that is taken from the properties, one step after the other.
    pub open spec fn with_properties(self, properties: Properties) -> Progress {
        self.with_border_width(properties).with_title_padding(properties).with_title_alignment(
            properties,
        ).with_active_border(properties).with_inactive_border(properties).with_active_titlebar(
            properties,
        ).with_inactive_titlebar(properties).with_title_text(properties).with_buttons(
            properties,
        ).with_button_glyph(properties).with_gradient_note(properties).with_inactive_text_note(
            properties,
        )
    }
}

/// What an import comes to.
pub ghost struct ImportModel {
    pub theme: ThemeModel,
    pub mapped_properties: nat,
    pub warnings: Seq<Seq<char>>,
}

/// What becomes of an Openbox theme.
pub open spec fn import_of(source: Seq<char>) -> Result<ImportModel, OpenboxThemeImportError> {
    let lines = text::lines(source);
    let reading = reading(lines);
    if text::size(source) > MAX_SOURCE_BYTES {
        Err(OpenboxThemeImportError::SourceTooLarge(text::size(source) as usize))
    } else if lines.len() > MAX_SOURCE_LINES {
        Err(OpenboxThemeImportError::TooManyLines(lines.len() as usize))
    } else if reading.properties.dom().len() == 0 {
        Err(OpenboxThemeImportError::NoProperties)
    } else {
        let taken = Progress::start().with_properties(reading.properties).with_closing_notes(
            reading,
        );
        Ok(
            ImportModel {
                theme: taken.theme,
                mapped_properties: taken.used.len(),
                warnings: taken.warnings,
            },
        )
    }
}

/// Result of translating representable Openbox `themerc` properties.
#[derive(Clone, Debug, PartialEq, Eq)]
pub struct OpenboxThemeImport {
    /// Valid nobox theme produced from the source.
    pub theme: ThemeConfig,
    /// Number of Openbox properties that contributed to the result.
    pub mapped_properties: usize,
    /// Explicit compatibility notes for lossy or ignored source features.
    pub warnings: Vec<String>,
}

impl View for OpenboxThemeImport {
    type V = ImportModel;

    open spec fn view(&self) -> ImportModel {
        ImportModel {
            theme: self.theme@,
            mapped_properties: self.mapped_properties as nat,
            warnings: text::lines_of(self.warnings@),
        }
    }
}

/// Bounded Openbox theme import failures.
#[derive(Clone, Copy, Debug, PartialEq, Eq, Structural)]
pub enum OpenboxThemeImportError {
    /// Protect startup tools from unexpectedly large input.
    SourceTooLarge(usize),
    /// Bound line-oriented parsing work.
    TooManyLines(usize),
    /// An empty or comment-only source cannot be imported.
    NoProperties,
}

/// Whether a property describes a gradient of a title.
fn find_gradient(properties: &TextMap) -> (found: bool)
    requires
        properties.wf(),
    ensures
        found == has_gradient(properties@),
{
    proof {
        properties.lemma_names();
    }
    let mut index: usize = 0;
    while index < properties.len()
        invariant
            index <= properties.names().len(),
            properties.wf(),
            forall|key: Seq<char>| #[trigger]
                properties@.contains_key(key) == properties.names().contains(key),
            forall|i: int| 0 <= i < index ==> !gradient_key(#[trigger] properties.names()[i]),
        decreases properties.names().len() - index,
    {
        let key = characters(properties.name(index));
        if starts_with(key.as_slice(), "window.active.title.bg.colorto") || starts_with(
            key.as_slice(),
            "window.inactive.title.bg.colorto",
        ) || ends_with(key.as_slice(), ".color.splitto") {
            assert(properties.names().contains(properties.names()[index as int]));
            assert(properties@.contains_key(properties.names()[index as int]));
            return true;
        }
        index = index + 1;
    }
    false
}

/// What has been read of a theme's lines.
struct SourceReading {
    properties: TextMap,
    malformed: usize,
    duplicates: usize,
}

impl View for SourceReading {
    type V = Reading;

    closed spec fn view(&self) -> Reading {
        Reading {
            properties: self.properties@,
            malformed: self.malformed as nat,
            duplicates: self.duplicates as nat,
        }
    }
}

/// Reads one line.
fn read_line(line: &[char]) -> (read: Option<Option<(String, String)>>)
    ensures
        match read {
            None => line_of(line@) is Skipped,
            Some(None) => line_of(line@) is Malformed,
            Some(Some(definition)) => line_of(line@) == Line::Definition(
                definition.0@,
                definition.1@,
            ),
        },
{
    let trimmed = trim_chars(line);
    if trimmed.len() == 0 || trimmed[0] == '!' || trimmed[0] == '#' {
        return None;
    }
    match find(trimmed.as_slice(), ':') {
        Some(colon) => {
            let name = stretch(trimmed.as_slice(), 0, colon);
            assert(name@ =~= trimmed@.take(colon as int));
            let rest = stretch(trimmed.as_slice(), colon + 1, trimmed.len());
            assert(rest@ =~= trimmed@.skip(colon + 1));
            let name = trim_chars(name.as_slice());
            let key = collected(lower_chars(name.as_slice()).as_slice());
            let value = collected(trim_chars(rest.as_slice()).as_slice());
            if key.as_str().is_empty() || value.as_str().is_empty() || byte_size(key.as_str())
                > MAX_PROPERTY_BYTES || byte_size(value.as_str()) > MAX_PROPERTY_BYTES {
                Some(None)
            } else {
                Some(Some((key, value)))
            }
        },
        None => Some(None),
    }
}

/// Reads the lines of a theme.
fn read_lines(lines: &Vec<Vec<char>>) -> (read: SourceReading)
    ensures
        read.properties.wf(),
        read@ == reading(text::texts(lines@)),
        read.malformed <= lines@.len(),
        read.duplicates <= lines@.len(),
{
    let mut properties = TextMap::new();
    let mut malformed: usize = 0;
    let mut duplicates: usize = 0;
    let ghost all = text::texts(lines@);
    let mut index: usize = 0;
    assert(reading(all.take(0)).properties =~= Properties::empty());
    while index < lines.len()
        invariant
            index <= lines.len(),
            all == text::texts(lines@),
            properties.wf(),
            malformed <= index,
            duplicates <= index,
            reading(all.take(index as int)) == (Reading {
                properties: properties@,
                malformed: malformed as nat,
                duplicates: duplicates as nat,
            }),
        decreases lines.len() - index,
    {
        assert(all.take(index + 1).drop_last() =~= all.take(index as int));
        assert(all.take(index + 1).last() == lines@[index as int]@);
        match read_line(lines[index].as_slice()) {
            None => {},
            Some(None) => {
                malformed = malformed + 1;
            },
            Some(Some((key, value))) => {
                if properties.insert(key, value) {
                    duplicates = duplicates + 1;
                }
            },
        }
        index = index + 1;
    }
    assert(all.take(index as int) =~= all);
    SourceReading { properties, malformed, duplicates }
}

/// Adds a name to a list unless it is there.
fn add_name(list: &mut Vec<String>, key: &str)
    requires
        text::lines_of(old(list)@).no_duplicates(),
    ensures
        text::lines_of(final(list)@).no_duplicates(),
        text::lines_of(final(list)@).to_set() == text::lines_of(old(list)@).to_set().insert(key@),
{
    let ghost before = text::lines_of(list@);
    let mut index: usize = 0;
    while index < list.len()
        invariant
            index <= list.len(),
            *list == *old(list),
            before == text::lines_of(list@),
            before.no_duplicates(),
            forall|i: int| 0 <= i < index ==> before[i] != key@,
        decreases list.len() - index,
    {
        assert(before[index as int] == list@[index as int]@);
        if same(list[index].as_str(), key) {
            assert(before.to_set().contains(key@));
            assert(before.to_set().insert(key@) =~= before.to_set());
            return ;
        }
        index = index + 1;
    }
    list.push(key.to_owned());
    let ghost after = text::lines_of(list@);
    assert(after =~= before.push(key@));
    proof {
        assert forall|wanted: Seq<char>|
            after.to_set().contains(wanted) == before.to_set().insert(key@).contains(wanted) by {
            if before.contains(wanted) {
                let i = choose|i: int| 0 <= i < before.len() && before[i] == wanted;
                assert(after[i] == wanted);
            }
            if wanted == key@ {
                assert(after[before.len() as int] == wanted);
            }
        }
        assert(after.to_set() =~= before.to_set().insert(key@));
    }
}

/// A theme that is being taken over.
struct Importer {
    properties: TextMap,
    theme: ThemeConfig,
    known: Vec<String>,
    used: Vec<String>,
    warnings: Vec<String>,
}

impl View for Importer {
    type V = Progress;

    closed spec fn view(&self) -> Progress {
        Progress {
            theme: self.theme@,
            known: text::lines_of(self.known@).to_set(),
            used: text::lines_of(self.used@).to_set(),
            warnings: text::lines_of(self.warnings@),
        }
    }
}

impl Importer {
    spec fn wf(self) -> bool {
        &&& self.properties.wf()
        &&& text::lines_of(self.known@).no_duplicates()
        &&& text::lines_of(self.used@).no_duplicates()
    }

    /// Makes a note.
    fn note(&mut self, note: String)
        requires
            old(self).wf(),
        ensures
            final(self).wf(),
            final(self).properties == old(self).properties,
            final(self)@ == old(self)@.noted(note@),
            final(self).theme == old(self).theme,
    {
        let ghost before = self.warnings@;
        self.warnings.push(note);
        assert(text::lines_of(self.warnings@) =~= text::lines_of(before).push(note@));
    }

    /// Remembers that the value of a property went into the theme.
    fn mark(&mut self, key: &str)
        requires
            old(self).wf(),
        ensures
            final(self).wf(),
            final(self).properties == old(self).properties,
            final(self)@ == old(self)@.using(key@),
            final(self).theme == old(self).theme,
    {
        add_name(&mut self.used, key);
    }

    /// Looks up the first defined candidate, and gives its name and value.
    fn look(&mut self, candidates: &Vec<&'static str>) -> (found: Option<(&'static str, String)>)
        requires
            old(self).wf(),
        ensures
            final(self).wf(),
            final(self).properties == old(self).properties,
            final(self)@ == old(self)@.looked(old(self).properties@, text::names(candidates@)),
            final(self).theme == old(self).theme,
            match found {
                Some(found) => chosen(old(self).properties@, text::names(candidates@)) == Some(
                    found.0@,
                ) && found.1@ == old(self).properties@[found.0@],
                None => chosen(old(self).properties@, text::names(candidates@)) is None,
            },
    {
        let ghost properties = self.properties@;
        let ghost all = text::names(candidates@);
        let mut index: usize = 0;
        assert(all.skip(0) =~= all);
        while index < candidates.len()
            invariant
                index <= candidates.len(),
                *self == *old(self),
                self.wf(),
                properties == self.properties@,
                all == text::names(candidates@),
                chosen(properties, all) == chosen(properties, all.skip(index as int)),
            decreases candidates.len() - index,
        {
            assert(all.skip(index as int)[0] == candidates@[index as int]@);
            assert(all.skip(index as int).skip(1) =~= all.skip(index + 1));
            let key = candidates[index];
            if let Some(value) = self.properties.get(key) {
                let value = value.to_owned();
                add_name(&mut self.known, key);
                return Some((key, value));
            }
            index = index + 1;
        }
        None
    }

    /// Looks for a number up to a limit.
    fn number(&mut self, candidates: &Vec<&'static str>, limit: u32) -> (number: Option<u32>)
        requires
            old(self).wf(),
        ensures
            final(self).wf(),
            final(self).properties == old(self).properties,
            final(self)@ == old(self)@.after_number(
                old(self).properties@,
                text::names(candidates@),
                limit,
            ),
            final(self).theme == old(self).theme,
            number == chosen_number(old(self).properties@, text::names(candidates@), limit),
    {
        if let Some((key, value)) = self.look(candidates) {
            let chars = characters(value.as_str());
            match parse_unsigned(chars.as_slice()) {
                Some(number) if number <= limit => {
                    self.mark(key);
                    return Some(number);
                },
                _ => {
                    self.note(invalid_value_note(key, quote(value.as_str()).as_str()));
                },
            }
        }
        None
    }

    /// Looks for a color.
    fn color(&mut self, candidates: &Vec<&'static str>) -> (color: Option<RgbColor>)
        requires
            old(self).wf(),
        ensures
            final(self).wf(),
            final(self).properties == old(self).properties,
            final(self)@ == old(self)@.after_color(old(self).properties@, text::names(candidates@)),
            final(self).theme == old(self).theme,
            openbox_color::packed_color(color) == chosen_color(
                old(self).properties@,
                text::names(candidates@),
            ),
    {
        if let Some((key, value)) = self.look(candidates) {
            match parse_openbox_color(value.as_str()) {
                Some(color) => {
                    self.mark(key);
                    return Some(color);
                },
                None => {
                    self.note(unsupported_color_note(key, quote(value.as_str()).as_str()));
                },
            }
        }
        None
    }

    fn take_border_width(&mut self)
        requires
            old(self).wf(),
        ensures
            final(self).wf(),
            final(self).properties == old(self).properties,
            final(self)@ == old(self)@.with_border_width(old(self).properties@),
    {
        let candidates: Vec<&'static str> = vec!["border.width"];
        assert(text::names(candidates@) =~= border_width_keys());
        if let Some(width) = self.number(&candidates, 64) {
            self.theme.border_width = width;
        }
    }

    fn take_title_padding(&mut self)
        requires
            old(self).wf(),
        ensures
            final(self).wf(),
            final(self).properties == old(self).properties,
            final(self)@ == old(self)@.with_title_padding(old(self).properties@),
    {
        let candidates: Vec<&'static str> = vec!["padding.width"];
        assert(text::names(candidates@) =~= title_padding_keys());
        if let Some(padding) = self.number(&candidates, 64) {
            self.theme.title_padding = padding;
        }
    }

    fn take_title_alignment(&mut self)
        requires
            old(self).wf(),
        ensures
            final(self).wf(),
            final(self).properties == old(self).properties,
            final(self)@ == old(self)@.with_title_alignment(old(self).properties@),
    {
        let candidates: Vec<&'static str> = vec![
            "window.label.text.justify",
            "window.*.label.text.justify",
            "*.text.justify",
            "*.justify",
        ];
        assert(text::names(candidates@) =~= title_alignment_keys());
        if let Some((key, value)) = self.look(&candidates) {
            let chars = characters(value.as_str());
            let name = lower_chars(chars.as_slice());
            if spells(name.as_slice(), "left") {
                self.mark(key);
                self.theme.title_alignment = TitleAlignment::Left;
            } else if spells(name.as_slice(), "center") {
                self.mark(key);
                self.theme.title_alignment = TitleAlignment::Center;
            } else if spells(name.as_slice(), "right") {
                self.mark(key);
                self.theme.title_alignment = TitleAlignment::Right;
            } else {
                self.note(invalid_value_note(key, quote(value.as_str()).as_str()));
            }
        }
    }

    fn take_active_border(&mut self)
        requires
            old(self).wf(),
        ensures
            final(self).wf(),
            final(self).properties == old(self).properties,
            final(self)@ == old(self)@.with_active_border(old(self).properties@),
    {
        let candidates: Vec<&'static str> = vec![
                "window.active.border.color",
                "window.*.border.color",
                "border.color",
            ];
        assert(text::names(candidates@) =~= active_border_keys());
        if let Some(color) = self.color(&candidates) {
            self.theme.active_border = color;
        }
    }

    fn take_inactive_border(&mut self)
        requires
            old(self).wf(),
        ensures
            final(self).wf(),
            final(self).properties == old(self).properties,
            final(self)@ == old(self)@.with_inactive_border(old(self).properties@),
    {
        let candidates: Vec<&'static str> = vec![
                "window.inactive.border.color",
                "window.*.border.color",
                "border.color",
            ];
        assert(text::names(candidates@) =~= inactive_border_keys());
        if let Some(color) = self.color(&candidates) {
            self.theme.inactive_border = color;
        }
    }

    fn take_active_titlebar(&mut self)
        requires
            old(self).wf(),
        ensures
            final(self).wf(),
            final(self).properties == old(self).properties,
            final(self)@ == old(self)@.with_active_titlebar(old(self).properties@),
    {
        let candidates: Vec<&'static str> = vec![
                "window.active.title.bg.color",
                "window.*.title.bg.color",
                "*.title.bg.color",
            ];
        assert(text::names(candidates@) =~= active_titlebar_keys());
        if let Some(color) = self.color(&candidates) {
            self.theme.active_titlebar = color;
        }
    }

    fn take_inactive_titlebar(&mut self)
        requires
            old(self).wf(),
        ensures
            final(self).wf(),
            final(self).properties == old(self).properties,
            final(self)@ == old(self)@.with_inactive_titlebar(old(self).properties@),
    {
        let candidates: Vec<&'static str> = vec![
                "window.inactive.title.bg.color",
                "window.*.title.bg.color",
                "*.title.bg.color",
            ];
        assert(text::names(candidates@) =~= inactive_titlebar_keys());
        if let Some(color) = self.color(&candidates) {
            self.theme.inactive_titlebar = color;
        }
    }

    fn take_title_text(&mut self)
        requires
            old(self).wf(),
        ensures
            final(self).wf(),
            final(self).properties == old(self).properties,
            final(self)@ == old(self)@.with_title_text(old(self).properties@),
    {
        let candidates: Vec<&'static str> = vec!["window.active.label.text.color"];
        assert(text::names(candidates@) =~= title_text_keys());
        if let Some(color) = self.color(&candidates) {
            self.theme.title_text = color;
        }
    }

    fn take_buttons(&mut self)
        requires
            old(self).wf(),
        ensures
            final(self).wf(),
            final(self).properties == old(self).properties,
            final(self)@ == old(self)@.with_buttons(old(self).properties@),
    {
        let candidates: Vec<&'static str> = vec![
                "window.active.button.unpressed.bg.color",
                "window.active.button.*.bg.color",
            ];
        assert(text::names(candidates@) =~= buttons_keys());
        if let Some(color) = self.color(&candidates) {
            self.theme.minimize_button = color;
            self.theme.maximize_button = color;
            self.theme.close_button = color;
        }
    }

    fn take_button_glyph(&mut self)
        requires
            old(self).wf(),
        ensures
            final(self).wf(),
            final(self).properties == old(self).properties,
            final(self)@ == old(self)@.with_button_glyph(old(self).properties@),
    {
        let candidates: Vec<&'static str> = vec![
                "window.active.button.unpressed.image.color",
                "window.active.button.*.image.color",
            ];
        assert(text::names(candidates@) =~= button_glyph_keys());
        if let Some(color) = self.color(&candidates) {
            self.theme.button_glyph = color;
        }
    }

    fn note_gradient(&mut self)
        requires
            old(self).wf(),
        ensures
            final(self).wf(),
            final(self).properties == old(self).properties,
            final(self)@ == old(self)@.with_gradient_note(old(self).properties@),
    {
        if find_gradient(&self.properties) {
            self.note("collapsed Openbox title gradients to their first color stop".to_owned());
        }
    }

    fn note_inactive_text(&mut self)
        requires
            old(self).wf(),
        ensures
            final(self).wf(),
            final(self).properties == old(self).properties,
            final(self)@ == old(self)@.with_inactive_text_note(old(self).properties@),
    {
        let candidates: Vec<&'static str> = vec!["window.inactive.label.text.color"];
        assert(text::names(candidates@) =~= inactive_text_keys());
        if let Some((key, value)) = self.look(&candidates) {
            if let Some(color) = parse_openbox_color(value.as_str()) {
                if color.pixel() != self.theme.title_text.pixel() {
                    let mut note = key.to_owned();
                    note.append(
                        " differs from the active label color; nobox currently uses one title-text color",
                    );
                    self.note(note);
                }
            }
        }
    }

    fn note_rest(&mut self, malformed: usize, duplicates: usize)
        requires
            old(self).wf(),
        ensures
            final(self).wf(),
            final(self).properties == old(self).properties,
            final(self)@ == old(self)@.with_closing_notes(
                Reading {
                    properties: old(self).properties@,
                    malformed: malformed as nat,
                    duplicates: duplicates as nat,
                },
            ),
    {
        proof {
            text::lines_of(self.known@).unique_seq_to_set();
        }
        let defined = self.properties.len();
        let known = self.known.len();
        if malformed > 0 {
            self.note(counted("ignored ", malformed, " malformed property line(s)"));
        }
        if duplicates > 0 {
            self.note(
                counted(
                    "resolved ",
                    duplicates,
                    " duplicate property definition(s) using the last value",
                ),
            );
        }
        if defined > known {
            self.note(
                counted(
                    "ignored ",
                    defined - known,
                    " Openbox property/properties without a nobox equivalent",
                ),
            );
        }
        self.note(
            "kept nobox defaults for fonts, titlebar height, and urgent colors; Openbox stores fonts outside themerc".to_owned(),
        );
    }
}

/// Text with a number in it.
fn counted(before: &str, count: usize, after: &str) -> (text: String)
    ensures
        text@ == before@ + text::decimal(count as nat) + after@,
{
    let mut text = before.to_owned();
    text.append(decimal_text(count as u64).as_str());
    text.append(after);
    text
}

/// Puts a backslash before each backslash and quotation mark.
fn escape_toml_basic_string(value: &str) -> (text: String)
    ensures
        text@ == theme_document::escaped(value@),
{
    let chars = characters(value);
    let mut text = String::new();
    let mut index: usize = 0;
    assert(text@ =~= theme_document::escaped(chars@.take(0)));
    while index < chars.len()
        invariant
            index <= chars.len(),
            text@ == theme_document::escaped(chars@.take(index as int)),
        decreases chars.len() - index,
    {
        assert(chars@.take(index + 1).drop_last() =~= chars@.take(index as int));
        let c = chars[index];
        if c == '\\' || c == '"' {
            text.push('\\');
        }
        text.push(c);
        index = index + 1;
    }
    assert(chars@.take(index as int) =~= chars@);
    text
}

/// Appends a `name = number` line.
fn push_number(text: &mut String, name: &str, value: u32)
    ensures
        final(text)@ == old(text)@ + theme_document::number_line(name@, value),
{
    let ghost before = text@;
    text.append(name);
    text.append(" = ");
    text.append(decimal_text(value as u64).as_str());
    text.append("\n");
    assert(text@ =~= before + theme_document::number_line(name@, value));
}

/// Appends a `name = "text"` line.
fn push_text(text: &mut String, name: &str, value: &str)
    ensures
        final(text)@ == old(text)@ + theme_document::text_line(name@, value@),
{
    let ghost before = text@;
    text.append(name);
    text.append(" = \"");
    text.append(value);
    text.append("\"\n");
    assert(text@ =~= before + theme_document::text_line(name@, value@));
}

/// Appends a `name = "#rrggbb"` line.
fn push_color(text: &mut String, name: &str, value: RgbColor)
    ensures
        final(text)@ == old(text)@ + theme_document::color_line(name@, value.packed()),
{
    push_text(text, name, value.text().as_str());
}

impl OpenboxThemeImport {
    /// Parses an Openbox 3 `themerc` and maps the subset nobox represents.
    ///
    /// Property names are case-insensitive and later duplicate definitions win,
    /// matching the practical behavior of existing Openbox themes.
    ///
    /// # Errors
    ///
    /// Returns an error when the input is empty or exceeds importer bounds.
    pub fn parse(source: &str) -> (parsed: Result<Self, OpenboxThemeImportError>)
        ensures
            match parsed {
                Ok(import) => import_of(source@) == Ok::<ImportModel, OpenboxThemeImportError>(
                    import@,
                ),
                Err(error) => import_of(source@) == Err::<ImportModel, OpenboxThemeImportError>(
                    error,
                ),
            },
    {
        let size = byte_size(source);
        if size > MAX_SOURCE_BYTES {
            return Err(OpenboxThemeImportError::SourceTooLarge(size));
        }
        let chars = characters(source);
        let lines = cut_lines(chars.as_slice());
        assert(text::texts(lines@).len() == lines@.len());
        if lines.len() > MAX_SOURCE_LINES {
            return Err(OpenboxThemeImportError::TooManyLines(lines.len()));
        }
        let read = read_lines(&lines);
        let ghost reading = read@;
        if read.properties.len() == 0 {
            return Err(OpenboxThemeImportError::NoProperties);
        }
        let mut importer = Importer {
            properties: read.properties,
            theme: ThemeConfig::default(),
            known: Vec::new(),
            used: Vec::new(),
            warnings: Vec::new(),
        };
        let ghost properties = reading.properties;
        assert(importer@.known =~= Set::empty());
        assert(importer@.used =~= Set::empty());
        assert(importer@.warnings =~= Seq::empty());
        assert(importer@ == Progress::start());
        importer.take_border_width();
        importer.take_title_padding();
        importer.take_title_alignment();
        importer.take_active_border();
        importer.take_inactive_border();
        importer.take_active_titlebar();
        importer.take_inactive_titlebar();
        importer.take_title_text();
        importer.take_buttons();
        importer.take_button_glyph();
        importer.note_gradient();
        importer.note_inactive_text();
        assert(importer@ == Progress::start().with_properties(properties));
        importer.note_rest(read.malformed, read.duplicates);
        proof {
            text::lines_of(importer.used@).unique_seq_to_set();
        }
        Ok(
            OpenboxThemeImport {
                theme: importer.theme,
                mapped_properties: importer.used.len(),
                warnings: importer.warnings,
            },
        )
    }

    /// Renders a complete, independently valid nobox `[theme]` TOML document.
    #[must_use]
    pub fn to_toml(&self) -> (document: String)
        ensures
            document@ == self@.theme.document(),
    {
        let theme = &self.theme;
        let mut document =
            "# Generated by `nobox import-openbox-theme`.\n# Review compatibility notes printed during import.\n\n[theme]\n".to_owned();
        push_number(&mut document, "border_width", theme.border_width);
        push_number(&mut document, "titlebar_height", theme.titlebar_height);
        push_text(
            &mut document,
            "font",
            escape_toml_basic_string(theme.font.as_str()).as_str(),
        );
        push_text(&mut document, "title_alignment", theme.title_alignment.as_str());
        push_number(&mut document, "title_padding", theme.title_padding);
        push_color(&mut document, "active_border", theme.active_border);
        push_color(&mut document, "inactive_border", theme.inactive_border);
        push_color(&mut document, "urgent_border", theme.urgent_border);
        push_color(&mut document, "active_titlebar", theme.active_titlebar);
        push_color(&mut document, "inactive_titlebar", theme.inactive_titlebar);
        push_color(&mut document, "urgent_titlebar", theme.urgent_titlebar);
        push_color(&mut document, "title_text", theme.title_text);
        push_color(&mut document, "minimize_button", theme.minimize_button);
        push_color(&mut document, "maximize_button", theme.maximize_button);
        push_color(&mut document, "close_button", theme.close_button);
        push_color(&mut document, "button_glyph", theme.button_glyph);
        document
    }
}

/// A later definition of a property takes the place of an earlier one.
pub proof fn law_later_definitions_win(
    lines: Seq<Seq<char>>,
    line: Seq<char>,
    key: Seq<char>,
    value: Seq<char>,
)
    requires
        line_of(line) == Line::Definition(key, value),
    ensures
        reading(lines.push(line)).properties == reading(lines).properties.insert(key, value),
{
    assert(lines.push(line).drop_last() =~= lines);
}

/// Texts with white space in the same places are trimmed to the same range.
proof fn lemma_trim_alike(left: Seq<char>, right: Seq<char>) -> (range: (int, int))
    requires
        left.len() == right.len(),
        forall|i: int|
            0 <= i < left.len() ==> text::white_space(#[trigger] left[i]) == text::white_space(
                right[i],
            ),
    ensures
        0 <= range.0 <= range.1 <= left.len(),
        text::trim(left) == left.subrange(range.0, range.1),
        text::trim(right) == right.subrange(range.0, range.1),
        forall|i: int| 0 <= i < range.0 ==> text::white_space(#[trigger] left[i]),
    decreases left.len(),
{
    if left.len() > 0 && text::white_space(left.first()) {
        assert(text::white_space(left[0]) == text::white_space(right[0]));
        let inner = lemma_trim_alike(left.skip(1), right.skip(1));
        assert(left.skip(1).subrange(inner.0, inner.1) =~= left.subrange(
            inner.0 + 1,
            inner.1 + 1,
        ));
        assert(right.skip(1).subrange(inner.0, inner.1) =~= right.subrange(
            inner.0 + 1,
            inner.1 + 1,
        ));
        assert forall|i: int| 0 <= i < inner.0 + 1 implies text::white_space(
            #[trigger] left[i],
        ) by {
            if i > 0 {
                assert(left.skip(1)[i - 1] == left[i]);
            }
        }
        (inner.0 + 1, inner.1 + 1)
    } else {
        if left.len() > 0 {
            assert(text::white_space(left[0]) == text::white_space(right[0]));
        }
        let end = lemma_trim_end_alike(left, right);
        (0int, end)
    }
}

proof fn lemma_trim_end_alike(left: Seq<char>, right: Seq<char>) -> (end: int)
    requires
        left.len() == right.len(),
        forall|i: int|
            0 <= i < left.len() ==> text::white_space(#[trigger] left[i]) == text::white_space(
                right[i],
            ),
    ensures
        0 <= end <= left.len(),
        text::trim_end(left) == left.subrange(0, end),
        text::trim_end(right) == right.subrange(0, end),
    decreases left.len(),
{
    if left.len() > 0 && text::white_space(left.last()) {
        assert(text::white_space(left[left.len() - 1]) == text::white_space(
            right[left.len() - 1],
        ));
        let end = lemma_trim_end_alike(left.drop_last(), right.drop_last());
        assert(left.drop_last().subrange(0, end) =~= left.subrange(0, end));
        assert(right.drop_last().subrange(0, end) =~= right.subrange(0, end));
        end
    } else {
        if left.len() > 0 {
            assert(text::white_space(left[left.len() - 1]) == text::white_space(
                right[left.len() - 1],
            ));
        }
        assert(left.subrange(0, left.len() as int) =~= left);
        assert(right.subrange(0, left.len() as int) =~= right);
        left.len() as int
    }
}

proof fn lemma_position_alike(left: Seq<char>, right: Seq<char>, wanted: char)
    requires
        left.len() == right.len(),
        forall|i: int|
            0 <= i < left.len() ==> (#[trigger] left[i] == wanted) == (right[i] == wanted),
    ensures
        text::position(left, wanted) == text::position(right, wanted),
    decreases left.len(),
{
    if left.len() > 0 {
        assert((left[left.len() - 1] == wanted) == (right[left.len() - 1] == wanted));
        lemma_position_alike(left.drop_last(), right.drop_last(), wanted);
    }
}

/// Property names ignore case: lines that differ only in the case of letters before the first
/// colon define the same property.
pub proof fn law_property_names_ignore_case(left: Seq<char>, right: Seq<char>, colon: int)
    requires
        left.len() == right.len(),
        text::position(left, ':') == Some(colon),
        forall|i: int| 0 <= i < colon ==> text::lowered(
            #[trigger] left[i],
        ) == text::lowered(right[i]),
        forall|i: int| colon <= i < left.len() ==> #[trigger] left[i] == right[i],
    ensures
        line_of(left) == line_of(right),
{
    text::lemma_position(left, ':');
    assert forall|i: int| 0 <= i < left.len() implies text::white_space(#[trigger] left[i])
        == text::white_space(right[i]) && (left[i] == ':') == (right[i] == ':') && (left[i] == '!')
        == (right[i] == '!') && (left[i] == '#') == (right[i] == '#') by {
        if i < colon {
            assert(text::lowered(left[i]) == text::lowered(right[i]));
        }
    }
    let (from, to) = lemma_trim_alike(left, right);
    let trimmed_left = left.subrange(from, to);
    let trimmed_right = right.subrange(from, to);
    if from > colon {
        assert(text::white_space(left[colon]));
    }
    assert forall|i: int| 0 <= i < trimmed_left.len() implies (#[trigger] trimmed_left[i] == ':')
        == (trimmed_right[i] == ':') by {
        assert((left[from + i] == ':') == (right[from + i] == ':'));
    }
    lemma_position_alike(trimmed_left, trimmed_right, ':');
    text::lemma_position(trimmed_left, ':');
    if trimmed_left.len() > 0 {
        assert(trimmed_left[0] == left[from] && trimmed_right[0] == right[from]);
    }
    if let Some(found) = text::position(trimmed_left, ':') {
        assert(left[from + found] == ':');
        assert(from + found >= colon) by {
            if from + found < colon {
                assert(left.take(colon)[from + found] == ':');
            }
        }
        assert(from + found <= colon) by {
            if from + found > colon {
                assert(trimmed_left.take(found)[colon - from] == ':');
            }
        }
        assert(trimmed_left.skip(found + 1) =~= trimmed_right.skip(found + 1));
        let name_left = trimmed_left.take(found);
        let name_right = trimmed_right.take(found);
        assert forall|i: int| 0 <= i < name_left.len() implies text::white_space(
            #[trigger] name_left[i],
        ) == text::white_space(name_right[i]) by {
            assert(text::white_space(left[from + i]) == text::white_space(right[from + i]));
        }
        let (start, end) = lemma_trim_alike(name_left, name_right);
        let key_left = name_left.subrange(start, end);
        let key_right = name_right.subrange(start, end);
        assert forall|i: int| 0 <= i < key_left.len() implies text::lowered(
            #[trigger] key_left[i],
        ) == text::lowered(key_right[i]) by {
            assert(text::lowered(left[from + start + i]) == text::lowered(
                right[from + start + i],
            ));
        }
        assert(text::lower(key_left) =~= text::lower(key_right));
    }
}

/// The theme that comes out of an import is valid.
pub proof fn law_imported_themes_are_valid(source: Seq<char>)
    requires
        import_of(source) is Ok,
    ensures
        import_of(source)->Ok_0.theme.fault() is None,
{
    let theme = import_of(source)->Ok_0.theme;
    let font = "-*-helvetica-medium-r-normal--12-*-*-*-p-*-iso10646-1"@;
    assert(theme.font == font);
    reveal_strlit("-*-helvetica-medium-r-normal--12-*-*-*-p-*-iso10646-1");
    assert(font.len() == 53);
    assert(text::printable_ascii(font));
    assert(!text::white_space(font[0]));
    assert(vstd::utf8::is_ascii_chars(font)) by {
        assert forall|i: int| 0 <= i < font.len() implies 0 <= #[trigger] font[i] as int <= 127 by {
            assert(text::printable(font[i]));
        }
    }
    vstd::utf8::is_ascii_chars_encode_utf8(font);
}

/// A step that takes a color counts a property where it changes the theme.
proof fn lemma_color_counts(taken: Progress, properties: Properties, candidates: Seq<Seq<char>>)
    ensures
        taken.used.subset_of(taken.after_color(properties, candidates).used),
        chosen_color(properties, candidates) is Some ==> !(taken.after_color(
            properties,
            candidates,
        ).used =~= Set::empty()),
{
    if chosen_color(properties, candidates) is Some {
        let key = chosen(properties, candidates)->Some_0;
        assert(taken.after_color(properties, candidates).used.contains(key));
    }
}

/// A step that takes a number counts a property where it changes the theme.
proof fn lemma_number_counts(
    taken: Progress,
    properties: Properties,
    candidates: Seq<Seq<char>>,
    limit: u32,
)
    ensures
        taken.used.subset_of(taken.after_number(properties, candidates, limit).used),
        chosen_number(properties, candidates, limit) is Some ==> !(taken.after_number(
            properties,
            candidates,
            limit,
        ).used =~= Set::empty()),
{
    if chosen_number(properties, candidates, limit) is Some {
        let key = chosen(properties, candidates)->Some_0;
        assert(taken.after_number(properties, candidates, limit).used.contains(key));
    }
}

/// The step that takes the alignment counts a property where it changes the theme.
proof fn lemma_alignment_counts(taken: Progress, properties: Properties)
    ensures
        taken.used.subset_of(taken.with_title_alignment(properties).used),
        taken.with_title_alignment(properties).used =~= Set::empty()
            ==> taken.with_title_alignment(properties).theme == taken.theme,
{
    if let Some(key) = chosen(properties, title_alignment_keys()) {
        if alignment_of(properties[key]) is Some {
            assert(taken.with_title_alignment(properties).used.contains(key));
        }
    }
}

/// A theme of which no property is mapped changes nothing.
pub proof fn law_an_import_without_mapped_properties_changes_nothing(source: Seq<char>)
    requires
        import_of(source) is Ok,
        import_of(source)->Ok_0.mapped_properties == 0,
    ensures
        import_of(source)->Ok_0.theme == ThemeModel::standard(),
{
    let reading = reading(text::lines(source));
    let properties = reading.properties;
    let start = Progress::start();
    let a = start.with_border_width(properties);
    let b = a.with_title_padding(properties);
    let c = b.with_title_alignment(properties);
    let d = c.with_active_border(properties);
    let e = d.with_inactive_border(properties);
    let f = e.with_active_titlebar(properties);
    let g = f.with_inactive_titlebar(properties);
    let h = g.with_title_text(properties);
    let i = h.with_buttons(properties);
    let j = i.with_button_glyph(properties);
    assert(j.used == start.with_properties(properties).with_closing_notes(reading).used);
    assert(j.theme == import_of(source)->Ok_0.theme);
    law_mapped_properties_are_defined(reading);
    lemma_reading_is_finite(text::lines(source));
    vstd::set_lib::lemma_set_subset_finite(properties.dom(), j.used);
    assert(j.used.len() == 0);
    j.used.lemma_len0_is_empty();
    lemma_color_counts(i, properties, button_glyph_keys());
    lemma_color_counts(h, properties, buttons_keys());
    lemma_color_counts(g, properties, title_text_keys());
    lemma_color_counts(f, properties, inactive_titlebar_keys());
    lemma_color_counts(e, properties, active_titlebar_keys());
    lemma_color_counts(d, properties, inactive_border_keys());
    lemma_color_counts(c, properties, active_border_keys());
    lemma_alignment_counts(b, properties);
    lemma_number_counts(a, properties, title_padding_keys(), 64);
    lemma_number_counts(start, properties, border_width_keys(), 64);
    assert(i.used =~= Set::empty() && j.theme == i.theme);
    assert(h.used =~= Set::empty() && i.theme == h.theme);
    assert(g.used =~= Set::empty() && h.theme == g.theme);
    assert(f.used =~= Set::empty() && g.theme == f.theme);
    assert(e.used =~= Set::empty() && f.theme == e.theme);
    assert(d.used =~= Set::empty() && e.theme == d.theme);
    assert(c.used =~= Set::empty() && d.theme == c.theme);
    assert(b.used =~= Set::empty() && c.theme == b.theme);
    assert(a.used =~= Set::empty() && b.theme == a.theme);
    assert(a.theme == start.theme);
}

/// Only finitely many properties are read.
proof fn lemma_reading_is_finite(lines: Seq<Seq<char>>)
    ensures
        reading(lines).properties.dom().finite(),
    decreases lines.len(),
{
    if lines.len() > 0 {
        lemma_reading_is_finite(lines.drop_last());
    }
}

/// An import leaves the mark of agent windows as it is by default.
pub proof fn law_imports_keep_the_agent_marker(source: Seq<char>)
    requires
        import_of(source) is Ok,
    ensures
        import_of(source)->Ok_0.theme.agent_marker == ThemeModel::standard().agent_marker,
{
}

/// Whether only properties that were looked up count as used, and only defined ones were looked
/// up.
#[verifier::opaque]
pub open spec fn are_sound(
    used: Set<Seq<char>>,
    known: Set<Seq<char>>,
    defined: Set<Seq<char>>,
) -> bool {
    used.subset_of(known) && known.subset_of(defined)
}

impl Progress {
    /// Whether only properties that were looked up count as used, and only defined ones were
    /// looked up.
    pub open spec fn is_sound(self, properties: Properties) -> bool {
        are_sound(self.used, self.known, properties.dom())
    }
}

proof fn lemma_color_is_sound(taken: Progress, properties: Properties, candidates: Seq<Seq<char>>)
    requires
        taken.is_sound(properties),
    ensures
        taken.after_color(properties, candidates).is_sound(properties),
{
    reveal(are_sound);
    lemma_chosen(properties, candidates);
}

proof fn lemma_number_is_sound(
    taken: Progress,
    properties: Properties,
    candidates: Seq<Seq<char>>,
    limit: u32,
)
    requires
        taken.is_sound(properties),
    ensures
        taken.after_number(properties, candidates, limit).is_sound(properties),
{
    reveal(are_sound);
    lemma_chosen(properties, candidates);
}

/// Only properties that were looked up count as mapped, and only defined ones are looked up.
#[verifier::spinoff_prover]
pub proof fn law_mapped_properties_are_defined(reading: Reading)
    ensures
        ({
            let taken = Progress::start().with_properties(reading.properties).with_closing_notes(
                reading,
            );
            &&& taken.used.subset_of(taken.known)
            &&& taken.known.subset_of(reading.properties.dom())
        }),
{
    let properties = reading.properties;
    let start = Progress::start();
    assert(start.is_sound(properties)) by {
        reveal(are_sound);
    }
    lemma_number_is_sound(start, properties, border_width_keys(), 64);
    let a = start.with_border_width(properties);
    assert(a.is_sound(properties));
    lemma_number_is_sound(a, properties, title_padding_keys(), 64);
    let b = a.with_title_padding(properties);
    assert(b.is_sound(properties));
    let c = b.with_title_alignment(properties);
    assert(c.is_sound(properties)) by {
        reveal(are_sound);
        lemma_chosen(properties, title_alignment_keys());
    }
    lemma_color_is_sound(c, properties, active_border_keys());
    let d = c.with_active_border(properties);
    assert(d.is_sound(properties));
    lemma_color_is_sound(d, properties, inactive_border_keys());
    let e = d.with_inactive_border(properties);
    assert(e.is_sound(properties));
    lemma_color_is_sound(e, properties, active_titlebar_keys());
    let f = e.with_active_titlebar(properties);
    assert(f.is_sound(properties));
    lemma_color_is_sound(f, properties, inactive_titlebar_keys());
    let g = f.with_inactive_titlebar(properties);
    assert(g.is_sound(properties));
    lemma_color_is_sound(g, properties, title_text_keys());
    let h = g.with_title_text(properties);
    assert(h.is_sound(properties));
    lemma_color_is_sound(h, properties, buttons_keys());
    let i = h.with_buttons(properties);
    assert(i.is_sound(properties));
    lemma_color_is_sound(i, properties, button_glyph_keys());
    let j = i.with_button_glyph(properties);
    assert(j.is_sound(properties));
    let k = j.with_gradient_note(properties).with_inactive_text_note(properties);
    assert(k.is_sound(properties)) by {
        reveal(are_sound);
        lemma_chosen(properties, inactive_text_keys());
    }
    assert(k.with_closing_notes(reading).is_sound(properties));
    reveal(are_sound);
}

proof fn lemma_chosen(properties: Properties, candidates: Seq<Seq<char>>)
    ensures
        chosen(properties, candidates) matches Some(key) ==> properties.contains_key(key),
    decreases candidates.len(),
{
    if candidates.len() > 0 {
        lemma_chosen(properties, candidates.skip(1));
    }
}

} // verus!
