//! Laws of themes taken over from Openbox: which property of the source gives which part of the
//! theme.

use vstd::prelude::*;

use crate::config::openbox_color;
use crate::config::openbox_theme;
use crate::config::openbox_theme::Line;
use crate::config::theme::{ThemeModel, TitleAlignment};
use crate::text;

verus! {

/// Whether a line defines a property, with whatever value.
pub open spec fn is_definition_of(line: Seq<char>, name: Seq<char>) -> bool {
    openbox_theme::line_of(line) matches Line::Definition(key, _) && key == name
}

/// Whether the last line that defines a property gives it a value.
pub open spec fn is_last_definition(
    lines: Seq<Seq<char>>,
    at: int,
    name: Seq<char>,
    value: Seq<char>,
) -> bool {
    &&& 0 <= at < lines.len()
    &&& openbox_theme::line_of(lines[at]) == Line::Definition(name, value)
    &&& forall|later: int|
        at < later < lines.len() ==> !is_definition_of(#[trigger] lines[later], name)
}

/// Whether the last definition of a property in a source gives it a value.
pub open spec fn defines(source: Seq<char>, name: Seq<char>, value: Seq<char>) -> bool {
    exists|at: int| #[trigger] is_last_definition(text::lines(source), at, name, value)
}

/// Whether no line of a source defines a property.
pub open spec fn lacks(source: Seq<char>, name: Seq<char>) -> bool {
    forall|at: int|
        0 <= at < text::lines(source).len() ==> !is_definition_of(
            #[trigger] text::lines(source)[at],
            name,
        )
}

/// The last definition of a property is the one that is read.
proof fn lemma_last_definition_is_read(
    lines: Seq<Seq<char>>,
    at: int,
    name: Seq<char>,
    value: Seq<char>,
)
    requires
        is_last_definition(lines, at, name, value),
    ensures
        openbox_theme::reading(lines).properties.contains_key(name),
        openbox_theme::reading(lines).properties[name] == value,
    decreases lines.len(),
{
    let shorter = lines.drop_last();
    assert(lines[lines.len() - 1] == lines.last());
    if at < lines.len() - 1 {
        assert(!is_definition_of(lines[lines.len() - 1], name));
        assert forall|later: int| at < later < shorter.len() implies !is_definition_of(
            #[trigger] shorter[later],
            name,
        ) by {
            assert(shorter[later] == lines[later]);
        }
        assert(shorter[at] == lines[at]);
        lemma_last_definition_is_read(shorter, at, name, value);
    }
}

/// A property without a definition is not read.
proof fn lemma_no_definition_is_read(lines: Seq<Seq<char>>, name: Seq<char>)
    requires
        forall|at: int| 0 <= at < lines.len() ==> !is_definition_of(#[trigger] lines[at], name),
    ensures
        !openbox_theme::reading(lines).properties.contains_key(name),
    decreases lines.len(),
{
    if lines.len() > 0 {
        let shorter = lines.drop_last();
        assert(lines[lines.len() - 1] == lines.last());
        assert forall|at: int| 0 <= at < shorter.len() implies !is_definition_of(
            #[trigger] shorter[at],
            name,
        ) by {
            assert(shorter[at] == lines[at]);
        }
        lemma_no_definition_is_read(shorter, name);
    }
}

/// What is read of a source is what its last definitions say.
proof fn lemma_definitions_are_read(source: Seq<char>, name: Seq<char>, value: Seq<char>)
    ensures
        ({
            let properties = openbox_theme::reading(text::lines(source)).properties;
            &&& defines(source, name, value) ==> properties.contains_key(name) && properties[name]
                == value
            &&& lacks(source, name) ==> !properties.contains_key(name)
        }),
{
    let lines = text::lines(source);
    if defines(source, name, value) {
        let at = choose|at: int| #[trigger] is_last_definition(lines, at, name, value);
        lemma_last_definition_is_read(lines, at, name, value);
    }
    if lacks(source, name) {
        lemma_no_definition_is_read(lines, name);
    }
}

/// The first of three candidates that is defined is chosen.
proof fn lemma_first_of_candidates(
    properties: openbox_theme::Properties,
    candidates: Seq<Seq<char>>,
)
    requires
        candidates.len() <= 4,
    ensures
        candidates.len() == 0 ==> openbox_theme::chosen(properties, candidates) is None,
        candidates.len() > 0 && properties.contains_key(candidates[0]) ==> openbox_theme::chosen(
            properties,
            candidates,
        ) == Some(candidates[0]),
        candidates.len() > 1 && !properties.contains_key(candidates[0]) && properties.contains_key(
            candidates[1],
        ) ==> openbox_theme::chosen(properties, candidates) == Some(candidates[1]),
        candidates.len() > 2 && !properties.contains_key(candidates[0]) && !properties.contains_key(
            candidates[1],
        ) && properties.contains_key(candidates[2]) ==> openbox_theme::chosen(
            properties,
            candidates,
        ) == Some(candidates[2]),
        candidates.len() > 3 && !properties.contains_key(candidates[0]) && !properties.contains_key(
            candidates[1],
        ) && !properties.contains_key(candidates[2]) && properties.contains_key(candidates[3])
            ==> openbox_theme::chosen(properties, candidates) == Some(candidates[3]),
        (forall|i: int|
            0 <= i < candidates.len() ==> !properties.contains_key(#[trigger] candidates[i]))
            ==> openbox_theme::chosen(properties, candidates) is None,
    decreases candidates.len(),
{
    if candidates.len() > 0 {
        let rest = candidates.skip(1);
        lemma_first_of_candidates(properties, rest);
        assert forall|i: int| 0 <= i < rest.len() implies #[trigger] rest[i] == candidates[i
            + 1] by {}
        if rest.len() > 0 {
            assert(rest[0] == candidates[1]);
        }
        if rest.len() > 1 {
            assert(rest[1] == candidates[2]);
        }
        if rest.len() > 2 {
            assert(rest[2] == candidates[3]);
        }
        if forall|i: int|
            0 <= i < candidates.len() ==> !properties.contains_key(#[trigger] candidates[i]) {
            assert forall|i: int| 0 <= i < rest.len() implies !properties.contains_key(
                #[trigger] rest[i],
            ) by {
                assert(!properties.contains_key(candidates[i + 1]));
            }
        }
    }
}

/// The theme that an import gives, part by part.
proof fn lemma_imported_parts(source: Seq<char>)
    requires
        openbox_theme::import_of(source) is Ok,
    ensures
        ({
            let p = openbox_theme::reading(text::lines(source)).properties;
            let theme = openbox_theme::import_of(source)->Ok_0.theme;
            let standard = ThemeModel::standard();
            &&& theme.border_width == openbox_theme::chosen_number(
                p,
                openbox_theme::border_width_keys(),
                64,
            ).unwrap_or(standard.border_width)
            &&& theme.title_padding == openbox_theme::chosen_number(
                p,
                openbox_theme::title_padding_keys(),
                64,
            ).unwrap_or(standard.title_padding)
            &&& theme.title_alignment == match openbox_theme::chosen(
                p,
                openbox_theme::title_alignment_keys(),
            ) {
                Some(key) => openbox_theme::alignment_of(p[key]).unwrap_or(
                    standard.title_alignment,
                ),
                None => standard.title_alignment,
            }
            &&& theme.active_border == openbox_theme::chosen_color(
                p,
                openbox_theme::active_border_keys(),
            ).unwrap_or(standard.active_border)
            &&& theme.inactive_border == openbox_theme::chosen_color(
                p,
                openbox_theme::inactive_border_keys(),
            ).unwrap_or(standard.inactive_border)
            &&& theme.active_titlebar == openbox_theme::chosen_color(
                p,
                openbox_theme::active_titlebar_keys(),
            ).unwrap_or(standard.active_titlebar)
            &&& theme.inactive_titlebar == openbox_theme::chosen_color(
                p,
                openbox_theme::inactive_titlebar_keys(),
            ).unwrap_or(standard.inactive_titlebar)
            &&& theme.title_text == openbox_theme::chosen_color(
                p,
                openbox_theme::title_text_keys(),
            ).unwrap_or(standard.title_text)
            &&& theme.minimize_button == openbox_theme::chosen_color(
                p,
                openbox_theme::buttons_keys(),
            ).unwrap_or(standard.minimize_button)
            &&& theme.maximize_button == openbox_theme::chosen_color(
                p,
                openbox_theme::buttons_keys(),
            ).unwrap_or(standard.maximize_button)
            &&& theme.close_button == openbox_theme::chosen_color(
                p,
                openbox_theme::buttons_keys(),
            ).unwrap_or(standard.close_button)
            &&& theme.button_glyph == openbox_theme::chosen_color(
                p,
                openbox_theme::button_glyph_keys(),
            ).unwrap_or(standard.button_glyph)
        }),
{
}

/// The color of the focused border is what the last definition of
/// `window.active.border.color` spells, or where there is none that of
/// `window.*.border.color`, or where there is none that of
/// `border.color`.
/// The color stays as it is by default where the value spells no color, or nothing is defined.
pub proof fn law_active_border_is_taken(source: Seq<char>, value: Seq<char>)
    requires
        openbox_theme::import_of(source) is Ok,
    ensures
        ({
            let theme = openbox_theme::import_of(source)->Ok_0.theme;
            let standard = ThemeModel::standard();
            let taken = openbox_color::openbox_color(value).unwrap_or(standard.active_border);
            &&& defines(source, "window.active.border.color"@, value)
                ==> theme.active_border == taken
            &&& lacks(source, "window.active.border.color"@)
                && defines(source, "window.*.border.color"@, value) ==> theme.active_border == taken
            &&& lacks(source, "window.active.border.color"@)
                && lacks(source, "window.*.border.color"@)
                && defines(source, "border.color"@, value) ==> theme.active_border == taken
            &&& lacks(source, "window.active.border.color"@)
                && lacks(source, "window.*.border.color"@)
                && lacks(source, "border.color"@) ==> theme.active_border == standard.active_border
        }),
{
    lemma_imported_parts(source);
    let properties = openbox_theme::reading(text::lines(source)).properties;
    let candidates = openbox_theme::active_border_keys();
    lemma_first_of_candidates(properties, candidates);
    lemma_definitions_are_read(source, "window.active.border.color"@, value);
    lemma_definitions_are_read(source, "window.*.border.color"@, value);
    lemma_definitions_are_read(source, "border.color"@, value);
    assert(candidates[0] == "window.active.border.color"@);
    assert(candidates[1] == "window.*.border.color"@);
    assert(candidates[2] == "border.color"@);
}

/// The color of the unfocused border is what the last definition of
/// `window.inactive.border.color` spells, or where there is none that of
/// `window.*.border.color`, or where there is none that of
/// `border.color`.
/// The color stays as it is by default where the value spells no color, or nothing is defined.
pub proof fn law_inactive_border_is_taken(source: Seq<char>, value: Seq<char>)
    requires
        openbox_theme::import_of(source) is Ok,
    ensures
        ({
            let theme = openbox_theme::import_of(source)->Ok_0.theme;
            let standard = ThemeModel::standard();
            let taken = openbox_color::openbox_color(value).unwrap_or(standard.inactive_border);
            &&& defines(source, "window.inactive.border.color"@, value)
                ==> theme.inactive_border == taken
            &&& lacks(source, "window.inactive.border.color"@)
                && defines(source, "window.*.border.color"@, value)
                    ==> theme.inactive_border == taken
            &&& lacks(source, "window.inactive.border.color"@)
                && lacks(source, "window.*.border.color"@)
                && defines(source, "border.color"@, value) ==> theme.inactive_border == taken
            &&& lacks(source, "window.inactive.border.color"@)
                && lacks(source, "window.*.border.color"@)
                && lacks(source, "border.color"@)
                    ==> theme.inactive_border == standard.inactive_border
        }),
{
    lemma_imported_parts(source);
    let properties = openbox_theme::reading(text::lines(source)).properties;
    let candidates = openbox_theme::inactive_border_keys();
    lemma_first_of_candidates(properties, candidates);
    lemma_definitions_are_read(source, "window.inactive.border.color"@, value);
    lemma_definitions_are_read(source, "window.*.border.color"@, value);
    lemma_definitions_are_read(source, "border.color"@, value);
    assert(candidates[0] == "window.inactive.border.color"@);
    assert(candidates[1] == "window.*.border.color"@);
    assert(candidates[2] == "border.color"@);
}

/// The color of the focused titlebar is what the last definition of
/// `window.active.title.bg.color` spells, or where there is none that of
/// `window.*.title.bg.color`, or where there is none that of
/// `*.title.bg.color`.
/// The color stays as it is by default where the value spells no color, or nothing is defined.
pub proof fn law_active_titlebar_is_taken(source: Seq<char>, value: Seq<char>)
    requires
        openbox_theme::import_of(source) is Ok,
    ensures
        ({
            let theme = openbox_theme::import_of(source)->Ok_0.theme;
            let standard = ThemeModel::standard();
            let taken = openbox_color::openbox_color(value).unwrap_or(standard.active_titlebar);
            &&& defines(source, "window.active.title.bg.color"@, value)
                ==> theme.active_titlebar == taken
            &&& lacks(source, "window.active.title.bg.color"@)
                && defines(source, "window.*.title.bg.color"@, value)
                    ==> theme.active_titlebar == taken
            &&& lacks(source, "window.active.title.bg.color"@)
                && lacks(source, "window.*.title.bg.color"@)
                && defines(source, "*.title.bg.color"@, value) ==> theme.active_titlebar == taken
            &&& lacks(source, "window.active.title.bg.color"@)
                && lacks(source, "window.*.title.bg.color"@)
                && lacks(source, "*.title.bg.color"@)
                    ==> theme.active_titlebar == standard.active_titlebar
        }),
{
    lemma_imported_parts(source);
    let properties = openbox_theme::reading(text::lines(source)).properties;
    let candidates = openbox_theme::active_titlebar_keys();
    lemma_first_of_candidates(properties, candidates);
    lemma_definitions_are_read(source, "window.active.title.bg.color"@, value);
    lemma_definitions_are_read(source, "window.*.title.bg.color"@, value);
    lemma_definitions_are_read(source, "*.title.bg.color"@, value);
    assert(candidates[0] == "window.active.title.bg.color"@);
    assert(candidates[1] == "window.*.title.bg.color"@);
    assert(candidates[2] == "*.title.bg.color"@);
}

/// The color of the unfocused titlebar is what the last definition of
/// `window.inactive.title.bg.color` spells, or where there is none that of
/// `window.*.title.bg.color`, or where there is none that of
/// `*.title.bg.color`.
/// The color stays as it is by default where the value spells no color, or nothing is defined.
pub proof fn law_inactive_titlebar_is_taken(source: Seq<char>, value: Seq<char>)
    requires
        openbox_theme::import_of(source) is Ok,
    ensures
        ({
            let theme = openbox_theme::import_of(source)->Ok_0.theme;
            let standard = ThemeModel::standard();
            let taken = openbox_color::openbox_color(value).unwrap_or(standard.inactive_titlebar);
            &&& defines(source, "window.inactive.title.bg.color"@, value)
                ==> theme.inactive_titlebar == taken
            &&& lacks(source, "window.inactive.title.bg.color"@)
                && defines(source, "window.*.title.bg.color"@, value)
                    ==> theme.inactive_titlebar == taken
            &&& lacks(source, "window.inactive.title.bg.color"@)
                && lacks(source, "window.*.title.bg.color"@)
                && defines(source, "*.title.bg.color"@, value) ==> theme.inactive_titlebar == taken
            &&& lacks(source, "window.inactive.title.bg.color"@)
                && lacks(source, "window.*.title.bg.color"@)
                && lacks(source, "*.title.bg.color"@)
                    ==> theme.inactive_titlebar == standard.inactive_titlebar
        }),
{
    lemma_imported_parts(source);
    let properties = openbox_theme::reading(text::lines(source)).properties;
    let candidates = openbox_theme::inactive_titlebar_keys();
    lemma_first_of_candidates(properties, candidates);
    lemma_definitions_are_read(source, "window.inactive.title.bg.color"@, value);
    lemma_definitions_are_read(source, "window.*.title.bg.color"@, value);
    lemma_definitions_are_read(source, "*.title.bg.color"@, value);
    assert(candidates[0] == "window.inactive.title.bg.color"@);
    assert(candidates[1] == "window.*.title.bg.color"@);
    assert(candidates[2] == "*.title.bg.color"@);
}

/// The color of the title text is what the last definition of
/// `window.active.label.text.color` spells, where that is a color, and stays as it
/// is by default where it is not, or where there is no definition.
pub proof fn law_title_text_is_taken(source: Seq<char>, value: Seq<char>)
    requires
        openbox_theme::import_of(source) is Ok,
    ensures
        ({
            let theme = openbox_theme::import_of(source)->Ok_0.theme;
            let standard = ThemeModel::standard();
            let taken = openbox_color::openbox_color(value).unwrap_or(standard.title_text);
            &&& defines(source, "window.active.label.text.color"@, value)
                ==> theme.title_text == taken
            &&& lacks(source, "window.active.label.text.color"@)
                ==> theme.title_text == standard.title_text
        }),
{
    lemma_imported_parts(source);
    let properties = openbox_theme::reading(text::lines(source)).properties;
    let candidates = openbox_theme::title_text_keys();
    lemma_first_of_candidates(properties, candidates);
    lemma_definitions_are_read(source, "window.active.label.text.color"@, value);
    assert(candidates[0] == "window.active.label.text.color"@);
}

/// The color of the minimize button is what the last definition of
/// `window.active.button.unpressed.bg.color` spells, or where there is none that of
/// `window.active.button.*.bg.color`.
/// The color stays as it is by default where the value spells no color, or nothing is defined.
pub proof fn law_minimize_button_is_taken(source: Seq<char>, value: Seq<char>)
    requires
        openbox_theme::import_of(source) is Ok,
    ensures
        ({
            let theme = openbox_theme::import_of(source)->Ok_0.theme;
            let standard = ThemeModel::standard();
            let taken = openbox_color::openbox_color(value).unwrap_or(standard.minimize_button);
            &&& defines(source, "window.active.button.unpressed.bg.color"@, value)
                ==> theme.minimize_button == taken
            &&& lacks(source, "window.active.button.unpressed.bg.color"@)
                && defines(source, "window.active.button.*.bg.color"@, value)
                    ==> theme.minimize_button == taken
            &&& lacks(source, "window.active.button.unpressed.bg.color"@)
                && lacks(source, "window.active.button.*.bg.color"@)
                    ==> theme.minimize_button == standard.minimize_button
        }),
{
    lemma_imported_parts(source);
    let properties = openbox_theme::reading(text::lines(source)).properties;
    let candidates = openbox_theme::buttons_keys();
    lemma_first_of_candidates(properties, candidates);
    lemma_definitions_are_read(source, "window.active.button.unpressed.bg.color"@, value);
    lemma_definitions_are_read(source, "window.active.button.*.bg.color"@, value);
    assert(candidates[0] == "window.active.button.unpressed.bg.color"@);
    assert(candidates[1] == "window.active.button.*.bg.color"@);
}

/// The color of the maximize button is what the last definition of
/// `window.active.button.unpressed.bg.color` spells, or where there is none that of
/// `window.active.button.*.bg.color`.
/// The color stays as it is by default where the value spells no color, or nothing is defined.
pub proof fn law_maximize_button_is_taken(source: Seq<char>, value: Seq<char>)
    requires
        openbox_theme::import_of(source) is Ok,
    ensures
        ({
            let theme = openbox_theme::import_of(source)->Ok_0.theme;
            let standard = ThemeModel::standard();
            let taken = openbox_color::openbox_color(value).unwrap_or(standard.maximize_button);
            &&& defines(source, "window.active.button.unpressed.bg.color"@, value)
                ==> theme.maximize_button == taken
            &&& lacks(source, "window.active.button.unpressed.bg.color"@)
                && defines(source, "window.active.button.*.bg.color"@, value)
                    ==> theme.maximize_button == taken
            &&& lacks(source, "window.active.button.unpressed.bg.color"@)
                && lacks(source, "window.active.button.*.bg.color"@)
                    ==> theme.maximize_button == standard.maximize_button
        }),
{
    lemma_imported_parts(source);
    let properties = openbox_theme::reading(text::lines(source)).properties;
    let candidates = openbox_theme::buttons_keys();
    lemma_first_of_candidates(properties, candidates);
    lemma_definitions_are_read(source, "window.active.button.unpressed.bg.color"@, value);
    lemma_definitions_are_read(source, "window.active.button.*.bg.color"@, value);
    assert(candidates[0] == "window.active.button.unpressed.bg.color"@);
    assert(candidates[1] == "window.active.button.*.bg.color"@);
}

/// The color of the close button is what the last definition of
/// `window.active.button.unpressed.bg.color` spells, or where there is none that of
/// `window.active.button.*.bg.color`.
/// The color stays as it is by default where the value spells no color, or nothing is defined.
pub proof fn law_close_button_is_taken(source: Seq<char>, value: Seq<char>)
    requires
        openbox_theme::import_of(source) is Ok,
    ensures
        ({
            let theme = openbox_theme::import_of(source)->Ok_0.theme;
            let standard = ThemeModel::standard();
            let taken = openbox_color::openbox_color(value).unwrap_or(standard.close_button);
            &&& defines(source, "window.active.button.unpressed.bg.color"@, value)
                ==> theme.close_button == taken
            &&& lacks(source, "window.active.button.unpressed.bg.color"@)
                && defines(source, "window.active.button.*.bg.color"@, value)
                    ==> theme.close_button == taken
            &&& lacks(source, "window.active.button.unpressed.bg.color"@)
                && lacks(source, "window.active.button.*.bg.color"@)
                    ==> theme.close_button == standard.close_button
        }),
{
    lemma_imported_parts(source);
    let properties = openbox_theme::reading(text::lines(source)).properties;
    let candidates = openbox_theme::buttons_keys();
    lemma_first_of_candidates(properties, candidates);
    lemma_definitions_are_read(source, "window.active.button.unpressed.bg.color"@, value);
    lemma_definitions_are_read(source, "window.active.button.*.bg.color"@, value);
    assert(candidates[0] == "window.active.button.unpressed.bg.color"@);
    assert(candidates[1] == "window.active.button.*.bg.color"@);
}

/// The color of the button glyphs is what the last definition of
/// `window.active.button.unpressed.image.color` spells, or where there is none that of
/// `window.active.button.*.image.color`.
/// The color stays as it is by default where the value spells no color, or nothing is defined.
pub proof fn law_button_glyph_is_taken(source: Seq<char>, value: Seq<char>)
    requires
        openbox_theme::import_of(source) is Ok,
    ensures
        ({
            let theme = openbox_theme::import_of(source)->Ok_0.theme;
            let standard = ThemeModel::standard();
            let taken = openbox_color::openbox_color(value).unwrap_or(standard.button_glyph);
            &&& defines(source, "window.active.button.unpressed.image.color"@, value)
                ==> theme.button_glyph == taken
            &&& lacks(source, "window.active.button.unpressed.image.color"@)
                && defines(source, "window.active.button.*.image.color"@, value)
                    ==> theme.button_glyph == taken
            &&& lacks(source, "window.active.button.unpressed.image.color"@)
                && lacks(source, "window.active.button.*.image.color"@)
                    ==> theme.button_glyph == standard.button_glyph
        }),
{
    lemma_imported_parts(source);
    let properties = openbox_theme::reading(text::lines(source)).properties;
    let candidates = openbox_theme::button_glyph_keys();
    lemma_first_of_candidates(properties, candidates);
    lemma_definitions_are_read(source, "window.active.button.unpressed.image.color"@, value);
    lemma_definitions_are_read(source, "window.active.button.*.image.color"@, value);
    assert(candidates[0] == "window.active.button.unpressed.image.color"@);
    assert(candidates[1] == "window.active.button.*.image.color"@);
}

/// The border width is the number that the last definition of `border.width` spells, where
/// it is at most 64, and stays as it is by default otherwise.
pub proof fn law_border_width_is_taken(source: Seq<char>, value: Seq<char>)
    requires
        openbox_theme::import_of(source) is Ok,
    ensures
        ({
            let theme = openbox_theme::import_of(source)->Ok_0.theme;
            let standard = ThemeModel::standard();
            let taken = match text::unsigned(value) {
                Some(number) => if number <= 64 {
                    number
                } else {
                    standard.border_width
                },
                None => standard.border_width,
            };
            &&& defines(source, "border.width"@, value) ==> theme.border_width == taken
            &&& lacks(source, "border.width"@) ==> theme.border_width == standard.border_width
        }),
{
    lemma_imported_parts(source);
    let properties = openbox_theme::reading(text::lines(source)).properties;
    let candidates = openbox_theme::border_width_keys();
    lemma_first_of_candidates(properties, candidates);
    lemma_definitions_are_read(source, "border.width"@, value);
    assert(candidates[0] == "border.width"@);
}

/// The title padding is the number that the last definition of `padding.width` spells, where
/// it is at most 64, and stays as it is by default otherwise.
pub proof fn law_title_padding_is_taken(source: Seq<char>, value: Seq<char>)
    requires
        openbox_theme::import_of(source) is Ok,
    ensures
        ({
            let theme = openbox_theme::import_of(source)->Ok_0.theme;
            let standard = ThemeModel::standard();
            let taken = match text::unsigned(value) {
                Some(number) => if number <= 64 {
                    number
                } else {
                    standard.title_padding
                },
                None => standard.title_padding,
            };
            &&& defines(source, "padding.width"@, value) ==> theme.title_padding == taken
            &&& lacks(source, "padding.width"@) ==> theme.title_padding == standard.title_padding
        }),
{
    lemma_imported_parts(source);
    let properties = openbox_theme::reading(text::lines(source)).properties;
    let candidates = openbox_theme::title_padding_keys();
    lemma_first_of_candidates(properties, candidates);
    lemma_definitions_are_read(source, "padding.width"@, value);
    assert(candidates[0] == "padding.width"@);
}

/// The title alignment is the one that the last definition of `window.label.text.justify` names,
/// or where there is none that of `window.*.label.text.justify`, then of `*.text.justify`, then of
/// `*.justify`; it stays as it is by default where the value names none.
pub proof fn law_title_alignment_is_taken(source: Seq<char>, value: Seq<char>)
    requires
        openbox_theme::import_of(source) is Ok,
    ensures
        ({
            let theme = openbox_theme::import_of(source)->Ok_0.theme;
            let standard = ThemeModel::standard();
            let taken = if text::lower(value) == "left"@ {
                TitleAlignment::Left
            } else if text::lower(value) == "center"@ {
                TitleAlignment::Center
            } else if text::lower(value) == "right"@ {
                TitleAlignment::Right
            } else {
                standard.title_alignment
            };
            &&& defines(source, "window.label.text.justify"@, value)
                ==> theme.title_alignment == taken
            &&& lacks(source, "window.label.text.justify"@)
                && defines(source, "window.*.label.text.justify"@, value)
                    ==> theme.title_alignment == taken
            &&& lacks(source, "window.label.text.justify"@)
                && lacks(source, "window.*.label.text.justify"@)
                && defines(source, "*.text.justify"@, value) ==> theme.title_alignment == taken
            &&& lacks(source, "window.label.text.justify"@)
                && lacks(source, "window.*.label.text.justify"@)
                && lacks(source, "*.text.justify"@)
                && defines(source, "*.justify"@, value) ==> theme.title_alignment == taken
            &&& lacks(source, "window.label.text.justify"@)
                && lacks(source, "window.*.label.text.justify"@)
                && lacks(source, "*.text.justify"@)
                && lacks(source, "*.justify"@) ==> theme.title_alignment == standard.title_alignment
        }),
{
    lemma_imported_parts(source);
    let properties = openbox_theme::reading(text::lines(source)).properties;
    let candidates = openbox_theme::title_alignment_keys();
    lemma_first_of_candidates(properties, candidates);
    lemma_definitions_are_read(source, "window.label.text.justify"@, value);
    lemma_definitions_are_read(source, "window.*.label.text.justify"@, value);
    lemma_definitions_are_read(source, "*.text.justify"@, value);
    lemma_definitions_are_read(source, "*.justify"@, value);
    assert(candidates[0] == "window.label.text.justify"@);
    assert(candidates[1] == "window.*.label.text.justify"@);
    assert(candidates[2] == "*.text.justify"@);
    assert(candidates[3] == "*.justify"@);
}

/// No other part of the theme is taken from a source.
pub proof fn law_imports_leave_the_rest(source: Seq<char>)
    requires
        openbox_theme::import_of(source) is Ok,
    ensures
        ({
            let theme = openbox_theme::import_of(source)->Ok_0.theme;
            let standard = ThemeModel::standard();
            &&& theme.titlebar_height == standard.titlebar_height
            &&& theme.font == standard.font
            &&& theme.urgent_border == standard.urgent_border
            &&& theme.urgent_titlebar == standard.urgent_titlebar
        }),
{
}

/// Text that neither begins nor ends with white space is left as it is by trimming.
proof fn lemma_trim_keeps(value: Seq<char>)
    requires
        value.len() > 0,
        !text::white_space(value[0]),
        !text::white_space(value[value.len() - 1]),
    ensures
        text::trim(value) == value,
{
}

/// A line of a name, a colon, and a value defines the property of that name in lower case, if the
/// name has no colon in it and begins with neither an exclamation mark nor a number sign, and
/// neither is empty, longer than 512 bytes, or begins or ends with white space.
pub proof fn law_lines_define_properties(name: Seq<char>, value: Seq<char>)
    requires
        name.len() > 0,
        value.len() > 0,
        !name.contains(':'),
        name[0] != '!',
        name[0] != '#',
        !text::white_space(name[0]),
        !text::white_space(name[name.len() - 1]),
        !text::white_space(value[0]),
        !text::white_space(value[value.len() - 1]),
        text::size(text::lower(name)) <= 512,
        text::size(value) <= 512,
    ensures
        openbox_theme::line_of(name + seq![':'] + value) == Line::Definition(
            text::lower(name),
            value,
        ),
{
    let line = name + seq![':'] + value;
    assert(line[0] == name[0]);
    assert(line[line.len() - 1] == value[value.len() - 1]);
    lemma_trim_keeps(line);
    lemma_trim_keeps(name);
    lemma_trim_keeps(value);
    text::lemma_position(line, ':');
    assert(line[name.len() as int] == ':');
    assert(text::position(line, ':') == Some(name.len() as int)) by {
        let found = text::position(line, ':');
        assert(found is Some) by {
            if found is None {
                assert(line.contains(':'));
            }
        }
        let at = found->Some_0;
        if at < name.len() {
            assert(name[at] == ':');
        }
        if at > name.len() {
            assert(line.take(at)[name.len() as int] == ':');
        }
    }
    assert(line.take(name.len() as int) =~= name);
    assert(line.skip(name.len() as int + 1) =~= value);
}

/// Comments and empty lines are passed over, and a line without a colon defines nothing.
pub proof fn law_comments_define_nothing(line: Seq<char>)
    requires
        line.len() > 0,
        !text::white_space(line[0]),
        !text::white_space(line[line.len() - 1]),
    ensures
        line[0] == '!' || line[0] == '#' ==> openbox_theme::line_of(line) == Line::Skipped,
        line[0] != '!' && line[0] != '#' && !line.contains(':') ==> openbox_theme::line_of(line)
            == Line::Malformed,
{
    lemma_trim_keeps(line);
    text::lemma_position(line, ':');
}

} // verus!
