//! The document that spells a theme, and what it tells of the theme.

use vstd::prelude::*;

use crate::config::color;
use crate::config::openbox_color;
use crate::config::openbox_theme;
use crate::config::openbox_theme::{Progress, Properties};
use crate::config::theme::{ThemeModel, TitleAlignment};
use crate::text;

verus! {

/// Text with a backslash before each backslash and quotation mark.
pub open spec fn escaped(value: Seq<char>) -> Seq<char>
    decreases value.len(),
{
    if value.len() == 0 {
        Seq::empty()
    } else {
        let before = escaped(value.drop_last());
        if value.last() == '\\' || value.last() == '"' {
            before.push('\\').push(value.last())
        } else {
            before.push(value.last())
        }
    }
}

/// A `name = number` line.
pub open spec fn number_line(name: Seq<char>, value: u32) -> Seq<char> {
    name + " = "@ + text::decimal(value as nat) + "\n"@
}

/// A `name = "text"` line.
pub open spec fn text_line(name: Seq<char>, value: Seq<char>) -> Seq<char> {
    name + " = \""@ + value + "\"\n"@
}

/// A `name = "#rrggbb"` line.
pub open spec fn color_line(name: Seq<char>, value: u32) -> Seq<char> {
    text_line(name, color::color_text(value))
}

/// The first lines of a theme's document: comments, and the opening of the section.
pub open spec fn opening() -> Seq<char> {
    "# Generated by `nobox import-openbox-theme`.\n# Review compatibility notes printed during import.\n\n[theme]\n"@
}

impl ThemeModel {
    /// The `[theme]` document that spells the theme.
    pub open spec fn document(self) -> Seq<char> {
        opening() + number_line("border_width"@, self.border_width) + number_line(
            "titlebar_height"@,
            self.titlebar_height,
        ) + text_line("font"@, escaped(self.font)) + text_line(
            "title_alignment"@,
            self.title_alignment.name(),
        ) + number_line("title_padding"@, self.title_padding) + color_line(
            "active_border"@,
            self.active_border,
        ) + color_line("inactive_border"@, self.inactive_border) + color_line(
            "urgent_border"@,
            self.urgent_border,
        ) + color_line("active_titlebar"@, self.active_titlebar) + color_line(
            "inactive_titlebar"@,
            self.inactive_titlebar,
        ) + color_line("urgent_titlebar"@, self.urgent_titlebar) + color_line(
            "title_text"@,
            self.title_text,
        ) + color_line("minimize_button"@, self.minimize_button) + color_line(
            "maximize_button"@,
            self.maximize_button,
        ) + color_line("close_button"@, self.close_button) + color_line(
            "button_glyph"@,
            self.button_glyph,
        )
    }
}

/// Text between quotation marks.
pub open spec fn quoted(value: Seq<char>) -> Seq<char> {
    seq!['"'] + value + seq!['"']
}

/// A color between quotation marks.
pub open spec fn quoted_color(value: u32) -> Seq<char> {
    quoted(color::color_text(value))
}

/// Text whose backslashes and quotation marks are escaped, as it was before.
pub open spec fn unescaped(text: Seq<char>) -> Option<Seq<char>>
    decreases text.len(),
{
    if text.len() == 0 {
        Some(Seq::empty())
    } else if text[0] == '"' {
        None
    } else if text[0] != '\\' {
        match unescaped(text.skip(1)) {
            Some(rest) => Some(seq![text[0]] + rest),
            None => None,
        }
    } else if text.len() > 1 && (text[1] == '\\' || text[1] == '"') {
        match unescaped(text.skip(2)) {
            Some(rest) => Some(seq![text[1]] + rest),
            None => None,
        }
    } else {
        None
    }
}

/// The text that a value between quotation marks stands for.
pub open spec fn text_of(value: Seq<char>) -> Option<Seq<char>> {
    if value.len() >= 2 && value[0] == '"' && value.last() == '"' {
        unescaped(value.subrange(1, value.len() - 1))
    } else {
        None
    }
}

/// The alignment with a name.
pub open spec fn alignment_named(name: Seq<char>) -> Option<TitleAlignment> {
    if name == TitleAlignment::Left.name() {
        Some(TitleAlignment::Left)
    } else if name == TitleAlignment::Center.name() {
        Some(TitleAlignment::Center)
    } else if name == TitleAlignment::Right.name() {
        Some(TitleAlignment::Right)
    } else {
        None
    }
}

/// The section that a line opens: a name between brackets.
pub open spec fn section_of(line: Seq<char>) -> Option<Seq<char>> {
    if line.len() >= 2 && line[0] == '[' && line.last() == ']' {
        Some(line.subrange(1, line.len() - 1))
    } else {
        None
    }
}

/// The field that a line gives: a name and a value with ` = ` between them.
pub open spec fn field_of(line: Seq<char>) -> Option<(Seq<char>, Seq<char>)> {
    match text::position(line, '=') {
        Some(at) => if 1 <= at < line.len() - 1 && line[at - 1] == ' ' && line[at + 1] == ' ' {
            Some((line.take(at - 1), line.skip(at + 2)))
        } else {
            None
        },
        None => None,
    }
}

/// What has been read of a document with a line for each section and for each field.
pub ghost struct Fields {
    /// The section that is open.
    pub section: Seq<char>,
    /// The value of each field, by section and name.
    pub values: Map<(Seq<char>, Seq<char>), Seq<char>>,
}

impl Fields {
    /// Once a line was read. Comments and lines of another form give nothing.
    pub open spec fn with_line(self, line: Seq<char>) -> Fields {
        if line.len() > 0 && line[0] == '#' {
            self
        } else {
            match (section_of(line), field_of(line)) {
                (Some(section), _) => Fields { section, ..self },
                (None, Some(field)) => self.with_field(field.0, field.1),
                (None, None) => self,
            }
        }
    }

    /// Once a field of the open section was read.
    pub open spec fn with_field(self, name: Seq<char>, value: Seq<char>) -> Fields {
        Fields { values: self.values.insert((self.section, name), value), ..self }
    }

    /// The value of a field.
    pub open spec fn value(self, section: Seq<char>, name: Seq<char>) -> Option<Seq<char>> {
        if self.values.contains_key((section, name)) {
            Some(self.values[(section, name)])
        } else {
            None
        }
    }

    /// The number in a field of the theme.
    pub open spec fn number(self, name: Seq<char>) -> Option<u32> {
        match self.value("theme"@, name) {
            Some(value) => text::unsigned(value),
            None => None,
        }
    }

    /// The text in a field of the theme.
    pub open spec fn text(self, name: Seq<char>) -> Option<Seq<char>> {
        match self.value("theme"@, name) {
            Some(value) => text_of(value),
            None => None,
        }
    }

    /// The color in a field of the theme.
    pub open spec fn color(self, name: Seq<char>) -> Option<u32> {
        match self.text(name) {
            Some(text) => color::color_of(text),
            None => None,
        }
    }

    /// The alignment in a field of the theme.
    pub open spec fn alignment(self, name: Seq<char>) -> Option<TitleAlignment> {
        match self.text(name) {
            Some(text) => alignment_named(text),
            None => None,
        }
    }
}

/// What lines hold.
pub open spec fn fields_of(lines: Seq<Seq<char>>) -> Fields
    decreases lines.len(),
{
    if lines.len() == 0 {
        Fields { section: Seq::empty(), values: Map::empty() }
    } else {
        fields_of(lines.drop_last()).with_line(lines.last())
    }
}

/// What a document holds.
#[verifier::opaque]
pub open spec fn read(document: Seq<char>) -> Fields {
    fields_of(text::lines(document))
}

/// Whether the fields of a document spell a theme; they say nothing of the mark of agent windows.
pub open spec fn spells(document: Seq<char>, theme: ThemeModel) -> bool {
    let fields = read(document);
    &&& fields.number("border_width"@) == Some(theme.border_width)
    &&& fields.number("titlebar_height"@) == Some(theme.titlebar_height)
    &&& fields.text("font"@) == Some(theme.font)
    &&& fields.alignment("title_alignment"@) == Some(theme.title_alignment)
    &&& fields.number("title_padding"@) == Some(theme.title_padding)
    &&& fields.color("active_border"@) == Some(theme.active_border)
    &&& fields.color("inactive_border"@) == Some(theme.inactive_border)
    &&& fields.color("urgent_border"@) == Some(theme.urgent_border)
    &&& fields.color("active_titlebar"@) == Some(theme.active_titlebar)
    &&& fields.color("inactive_titlebar"@) == Some(theme.inactive_titlebar)
    &&& fields.color("urgent_titlebar"@) == Some(theme.urgent_titlebar)
    &&& fields.color("title_text"@) == Some(theme.title_text)
    &&& fields.color("minimize_button"@) == Some(theme.minimize_button)
    &&& fields.color("maximize_button"@) == Some(theme.maximize_button)
    &&& fields.color("close_button"@) == Some(theme.close_button)
    &&& fields.color("button_glyph"@) == Some(theme.button_glyph)
}

impl ThemeModel {
    /// Whether each color that the document spells has three channels and nothing above them.
    pub open spec fn colors_fit(self) -> bool {
        &&& self.active_border <= 0xff_ffff
        &&& self.inactive_border <= 0xff_ffff
        &&& self.urgent_border <= 0xff_ffff
        &&& self.active_titlebar <= 0xff_ffff
        &&& self.inactive_titlebar <= 0xff_ffff
        &&& self.urgent_titlebar <= 0xff_ffff
        &&& self.title_text <= 0xff_ffff
        &&& self.minimize_button <= 0xff_ffff
        &&& self.maximize_button <= 0xff_ffff
        &&& self.close_button <= 0xff_ffff
        &&& self.button_glyph <= 0xff_ffff
    }
}

/// Whether text ends in a line break.
#[verifier::opaque]
spec fn ends_line(text: Seq<char>) -> bool {
    text.len() > 0 && text.last() == '\n'
}

/// Whether text can stand at the end of a line: it is not empty, holds no line break, and does not
/// end in a carriage return.
#[verifier::opaque]
spec fn is_value(text: Seq<char>) -> bool {
    &&& text.len() > 0
    &&& text.last() != '\r'
    &&& forall|i: int| 0 <= i < text.len() ==> #[trigger] text[i] != '\n'
}

/// Whether text can name a field.
#[verifier::opaque]
spec fn is_name(text: Seq<char>) -> bool {
    &&& text.len() > 0
    &&& text[0] != '#' && text[0] != '['
    &&& forall|i: int| 0 <= i < text.len() ==> #[trigger] text[i] != '\n' && text[i] != '='
}

/// More text in the same line goes to the last piece.
proof fn lemma_pieces_of_more(before: Seq<char>, more: Seq<char>)
    requires
        forall|i: int| 0 <= i < more.len() ==> #[trigger] more[i] != '\n',
    ensures
        text::pieces(before + more, '\n') == text::pieces(before, '\n').drop_last().push(
            text::pieces(before, '\n').last() + more,
        ),
    decreases more.len(),
{
    let pieces = text::pieces(before, '\n');
    text::lemma_pieces(before, '\n');
    if more.len() == 0 {
        assert(before + more =~= before);
        assert(pieces.last() + more =~= pieces.last());
        assert(pieces =~= pieces.drop_last().push(pieces.last()));
    } else {
        let less = more.drop_last();
        lemma_pieces_of_more(before, less);
        let whole = before + more;
        assert(whole.drop_last() =~= before + less);
        assert(whole.last() == more.last());
        assert(more[more.len() - 1] != '\n');
        let shorter = text::pieces(before + less, '\n');
        assert(shorter.drop_last() =~= pieces.drop_last());
        assert((pieces.last() + less).push(more.last()) =~= pieces.last() + more);
    }
}

/// A line behind others is one more line.
proof fn lemma_lines_of_more(before: Seq<char>, line: Seq<char>)
    requires
        ends_line(before),
        is_value(line),
    ensures
        ends_line(before + line + seq!['\n']),
        text::lines(before + line + seq!['\n']) == text::lines(before).push(line),
{
    reveal(ends_line);
    reveal(is_value);
    let pieces = text::pieces(before, '\n');
    text::lemma_pieces(before.drop_last(), '\n');
    assert(pieces.last() =~= Seq::<char>::empty());
    lemma_pieces_of_more(before, line);
    let whole = before + line + seq!['\n'];
    assert(whole.drop_last() =~= before + line);
    assert(whole.last() == '\n');
    assert(pieces.last() + line =~= line);
    let after = text::pieces(whole, '\n');
    assert(after =~= pieces.drop_last().push(line).push(Seq::<char>::empty()));
    assert(text::lines(whole) =~= text::lines(before).push(line));
}

/// A `name = value` line behind others is read as one more field.
proof fn lemma_field_line(before: Seq<char>, name: Seq<char>, value: Seq<char>)
    requires
        ends_line(before),
        is_name(name),
        is_value(value),
    ensures
        ends_line(before + (name + " = "@ + value + "\n"@)),
        read(before + (name + " = "@ + value + "\n"@)) == read(before).with_field(name, value),
{
    reveal(is_name);
    reveal(is_value);
    reveal(read);
    reveal_strlit(" = ");
    reveal_strlit("\n");
    let line = name + " = "@ + value;
    let at = name.len() as int + 1;
    assert(line.len() == name.len() + 3 + value.len());
    assert(line[at] == '=');
    assert forall|i: int| 0 <= i < line.len() implies #[trigger] line[i] != '\n' by {
        if i < name.len() {
            assert(line[i] == name[i]);
        } else if i >= name.len() + 3 {
            assert(line[i] == value[i - name.len() - 3]);
        }
    }
    assert(line.last() == value.last());
    lemma_lines_of_more(before, line);
    assert(before + (line + "\n"@) =~= before + line + seq!['\n']);
    let lines = text::lines(before);
    assert(lines.push(line).drop_last() =~= lines);
    text::lemma_position(line, '=');
    assert(line.contains('='));
    let found = text::position(line, '=')->0;
    if found < at {
        if found < name.len() {
            assert(line[found] == name[found]);
        }
    } else if found > at {
        assert(line.take(found)[at] == '=');
    }
    assert(line[0] == name[0]);
    assert(line.take(at - 1) =~= name);
    assert(line.skip(at + 2) =~= value);
}

/// Escaping puts a backslash before the first character where it needs one.
proof fn lemma_escaped_from_the_front(value: Seq<char>)
    requires
        value.len() > 0,
    ensures
        escaped(value) == (if value[0] == '\\' || value[0] == '"' {
            seq!['\\', value[0]]
        } else {
            seq![value[0]]
        }) + escaped(value.skip(1)),
    decreases value.len(),
{
    let first = if value[0] == '\\' || value[0] == '"' {
        seq!['\\', value[0]]
    } else {
        seq![value[0]]
    };
    if value.len() == 1 {
        assert(value.drop_last() =~= Seq::<char>::empty());
        assert(value.skip(1) =~= Seq::<char>::empty());
        assert(escaped(value) =~= first + escaped(value.skip(1)));
    } else {
        lemma_escaped_from_the_front(value.drop_last());
        assert(value.drop_last().skip(1) =~= value.skip(1).drop_last());
        assert(escaped(value) =~= first + escaped(value.skip(1)));
    }
}

/// Escaped text is what it was before once it is read.
proof fn lemma_unescaped(value: Seq<char>)
    ensures
        unescaped(escaped(value)) == Some(value),
    decreases value.len(),
{
    if value.len() == 0 {
        assert(value =~= Seq::<char>::empty());
    } else {
        lemma_escaped_from_the_front(value);
        lemma_unescaped(value.skip(1));
        let text = escaped(value);
        let rest = escaped(value.skip(1));
        if value[0] == '\\' || value[0] == '"' {
            assert(text.skip(2) =~= rest);
        } else {
            assert(text.skip(1) =~= rest);
        }
        assert(seq![value[0]] + value.skip(1) =~= value);
    }
}

/// Escaping breaks no line.
proof fn lemma_escaped_stays_in_line(value: Seq<char>)
    requires
        forall|i: int| 0 <= i < value.len() ==> #[trigger] value[i] != '\n',
    ensures
        forall|i: int| 0 <= i < escaped(value).len() ==> #[trigger] escaped(value)[i] != '\n',
    decreases value.len(),
{
    if value.len() > 0 {
        let before = escaped(value.drop_last());
        let after = escaped(value);
        lemma_escaped_stays_in_line(value.drop_last());
        assert(value[value.len() - 1] != '\n');
        assert forall|i: int| 0 <= i < after.len() implies #[trigger] after[i] != '\n' by {
            if i < before.len() {
                assert(after[i] == before[i]);
            }
        }
    }
}

/// Text without characters that need escapes is read as it stands.
proof fn lemma_plain_text(value: Seq<char>)
    requires
        forall|i: int| 0 <= i < value.len() ==> #[trigger] value[i] != '\\' && value[i] != '"',
    ensures
        escaped(value) == value,
    decreases value.len(),
{
    if value.len() > 0 {
        lemma_plain_text(value.drop_last());
        assert(value[value.len() - 1] != '\\');
        assert(escaped(value) =~= value);
    } else {
        assert(escaped(value) =~= value);
    }
}

/// A quoted value without line breaks can stand in a field, and its text can be read.
proof fn lemma_quoted(value: Seq<char>)
    requires
        forall|i: int| 0 <= i < value.len() ==> #[trigger] value[i] != '\n',
    ensures
        is_value(quoted(escaped(value))),
        text_of(quoted(escaped(value))) == Some(value),
{
    reveal(is_value);
    lemma_unescaped(value);
    lemma_escaped_stays_in_line(value);
    let spelled = quoted(escaped(value));
    assert(spelled.subrange(1, spelled.len() - 1) =~= escaped(value));
    assert forall|i: int| 0 <= i < spelled.len() implies #[trigger] spelled[i] != '\n' by {
        if 0 < i < spelled.len() - 1 {
            assert(spelled[i] == escaped(value)[i - 1]);
        }
    }
}

/// A number is read as it was written.
proof fn lemma_number(value: u32)
    ensures
        is_value(text::decimal(value as nat)),
        text::unsigned(text::decimal(value as nat)) == Some(value),
{
    let spelled = text::decimal(value as nat);
    text::law_decimal_spells_the_number(value as nat);
    assert(text::digit(spelled[0]));
    reveal(is_value);
    assert forall|i: int| 0 <= i < spelled.len() implies #[trigger] spelled[i] != '\n' by {
        assert(text::digit(spelled[i]));
    }
    assert(text::digit(spelled[spelled.len() - 1]));
}

/// A color is read as it was written.
proof fn lemma_color(value: u32)
    requires
        value <= 0xff_ffff,
    ensures
        escaped(color::color_text(value)) == color::color_text(value),
        forall|i: int|
            0 <= i < color::color_text(value).len() ==> #[trigger] color::color_text(value)[i]
                != '\n',
        text_of(quoted_color(value)) == Some(color::color_text(value)),
        color::color_of(color::color_text(value)) == Some(value),
{
    color::law_color_text_parses_back(value);
    let spelled = color::color_text(value);
    assert forall|i: int| 0 <= i < spelled.len() implies #[trigger] spelled[i] != '\n'
        && spelled[i] != '\\' && spelled[i] != '"' by {
        if i > 0 {
            assert(color::hex_value(spelled.skip(1)[i - 1]) is Some);
        }
    }
    lemma_plain_text(spelled);
    lemma_quoted(spelled);
}

/// A number line behind others is read as one more field.
proof fn lemma_number_line(before: Seq<char>, name: Seq<char>, value: u32)
    requires
        ends_line(before),
        is_name(name),
    ensures
        ends_line(before + number_line(name, value)),
        read(before + number_line(name, value)) == read(before).with_field(
            name,
            text::decimal(value as nat),
        ),
{
    lemma_number(value);
    lemma_field_line(before, name, text::decimal(value as nat));
}

/// A text line behind others is read as one more field.
proof fn lemma_text_line(before: Seq<char>, name: Seq<char>, value: Seq<char>)
    requires
        ends_line(before),
        is_name(name),
        forall|i: int| 0 <= i < value.len() ==> #[trigger] value[i] != '\n',
    ensures
        ends_line(before + text_line(name, escaped(value))),
        read(before + text_line(name, escaped(value))) == read(before).with_field(
            name,
            quoted(escaped(value)),
        ),
{
    lemma_quoted(value);
    lemma_field_line(before, name, quoted(escaped(value)));
    assert(text_line(name, escaped(value)) =~= name + " = "@ + quoted(escaped(value)) + "\n"@) by {
        reveal_strlit(" = \"");
        reveal_strlit("\"\n");
        reveal_strlit(" = ");
        reveal_strlit("\n");
    }
}

/// A color line behind others is read as one more field.
proof fn lemma_color_line(before: Seq<char>, name: Seq<char>, value: u32)
    requires
        ends_line(before),
        is_name(name),
        value <= 0xff_ffff,
    ensures
        ends_line(before + color_line(name, value)),
        read(before + color_line(name, value)) == read(before).with_field(
            name,
            quoted_color(value),
        ),
{
    lemma_color(value);
    lemma_text_line(before, name, color::color_text(value));
}

/// The names of alignments are plain, and tell them.
proof fn lemma_alignment_names(alignment: TitleAlignment)
    ensures
        escaped(alignment.name()) == alignment.name(),
        forall|i: int| 0 <= i < alignment.name().len() ==> #[trigger] alignment.name()[i] != '\n',
        alignment_named(alignment.name()) == Some(alignment),
{
    reveal_strlit("left");
    reveal_strlit("center");
    reveal_strlit("right");
    let name = alignment.name();
    lemma_plain_text(name);
    assert("left"@.len() == 4 && "center"@.len() == 6 && "right"@.len() == 5);
}

/// What tells the names of a theme's fields apart.
spec fn mark(name: Seq<char>) -> (nat, char, char, char) {
    (name.len(), name[0], name[1], name[5])
}

/// The names of a theme's fields are names, and each is marked by its length and three letters.
proof fn lemma_names()
    ensures
        is_name("border_width"@) && mark("border_width"@) == (12nat, 'b', 'o', 'r'),
        is_name("titlebar_height"@) && mark("titlebar_height"@) == (15nat, 't', 'i', 'b'),
        is_name("font"@) && "font"@.len() == 4,
        is_name("title_alignment"@) && mark("title_alignment"@) == (15nat, 't', 'i', '_'),
        is_name("title_padding"@) && mark("title_padding"@) == (13nat, 't', 'i', '_'),
        is_name("active_border"@) && mark("active_border"@) == (13nat, 'a', 'c', 'e'),
        is_name("inactive_border"@) && mark("inactive_border"@) == (15nat, 'i', 'n', 'i'),
        is_name("urgent_border"@) && mark("urgent_border"@) == (13nat, 'u', 'r', 't'),
        is_name("active_titlebar"@) && mark("active_titlebar"@) == (15nat, 'a', 'c', 'e'),
        is_name("inactive_titlebar"@) && mark("inactive_titlebar"@) == (17nat, 'i', 'n', 'i'),
        is_name("urgent_titlebar"@) && mark("urgent_titlebar"@) == (15nat, 'u', 'r', 't'),
        is_name("title_text"@) && mark("title_text"@) == (10nat, 't', 'i', '_'),
        is_name("minimize_button"@) && mark("minimize_button"@) == (15nat, 'm', 'i', 'i'),
        is_name("maximize_button"@) && mark("maximize_button"@) == (15nat, 'm', 'a', 'i'),
        is_name("close_button"@) && mark("close_button"@) == (12nat, 'c', 'l', '_'),
        is_name("button_glyph"@) && mark("button_glyph"@) == (12nat, 'b', 'u', 'n'),
{
    assert(is_name("border_width"@)) by {
        reveal(is_name);
        reveal_strlit("border_width");
    }
    assert(mark("border_width"@) == (12nat, 'b', 'o', 'r')) by {
        reveal_strlit("border_width");
    }
    assert(is_name("titlebar_height"@)) by {
        reveal(is_name);
        reveal_strlit("titlebar_height");
    }
    assert(mark("titlebar_height"@) == (15nat, 't', 'i', 'b')) by {
        reveal_strlit("titlebar_height");
    }
    assert(is_name("font"@)) by {
        reveal(is_name);
        reveal_strlit("font");
    }
    assert("font"@.len() == 4) by {
        reveal_strlit("font");
    }
    assert(is_name("title_alignment"@)) by {
        reveal(is_name);
        reveal_strlit("title_alignment");
    }
    assert(mark("title_alignment"@) == (15nat, 't', 'i', '_')) by {
        reveal_strlit("title_alignment");
    }
    assert(is_name("title_padding"@)) by {
        reveal(is_name);
        reveal_strlit("title_padding");
    }
    assert(mark("title_padding"@) == (13nat, 't', 'i', '_')) by {
        reveal_strlit("title_padding");
    }
    assert(is_name("active_border"@)) by {
        reveal(is_name);
        reveal_strlit("active_border");
    }
    assert(mark("active_border"@) == (13nat, 'a', 'c', 'e')) by {
        reveal_strlit("active_border");
    }
    assert(is_name("inactive_border"@)) by {
        reveal(is_name);
        reveal_strlit("inactive_border");
    }
    assert(mark("inactive_border"@) == (15nat, 'i', 'n', 'i')) by {
        reveal_strlit("inactive_border");
    }
    assert(is_name("urgent_border"@)) by {
        reveal(is_name);
        reveal_strlit("urgent_border");
    }
    assert(mark("urgent_border"@) == (13nat, 'u', 'r', 't')) by {
        reveal_strlit("urgent_border");
    }
    assert(is_name("active_titlebar"@)) by {
        reveal(is_name);
        reveal_strlit("active_titlebar");
    }
    assert(mark("active_titlebar"@) == (15nat, 'a', 'c', 'e')) by {
        reveal_strlit("active_titlebar");
    }
    assert(is_name("inactive_titlebar"@)) by {
        reveal(is_name);
        reveal_strlit("inactive_titlebar");
    }
    assert(mark("inactive_titlebar"@) == (17nat, 'i', 'n', 'i')) by {
        reveal_strlit("inactive_titlebar");
    }
    assert(is_name("urgent_titlebar"@)) by {
        reveal(is_name);
        reveal_strlit("urgent_titlebar");
    }
    assert(mark("urgent_titlebar"@) == (15nat, 'u', 'r', 't')) by {
        reveal_strlit("urgent_titlebar");
    }
    assert(is_name("title_text"@)) by {
        reveal(is_name);
        reveal_strlit("title_text");
    }
    assert(mark("title_text"@) == (10nat, 't', 'i', '_')) by {
        reveal_strlit("title_text");
    }
    assert(is_name("minimize_button"@)) by {
        reveal(is_name);
        reveal_strlit("minimize_button");
    }
    assert(mark("minimize_button"@) == (15nat, 'm', 'i', 'i')) by {
        reveal_strlit("minimize_button");
    }
    assert(is_name("maximize_button"@)) by {
        reveal(is_name);
        reveal_strlit("maximize_button");
    }
    assert(mark("maximize_button"@) == (15nat, 'm', 'a', 'i')) by {
        reveal_strlit("maximize_button");
    }
    assert(is_name("close_button"@)) by {
        reveal(is_name);
        reveal_strlit("close_button");
    }
    assert(mark("close_button"@) == (12nat, 'c', 'l', '_')) by {
        reveal_strlit("close_button");
    }
    assert(is_name("button_glyph"@)) by {
        reveal(is_name);
        reveal_strlit("button_glyph");
    }
    assert(mark("button_glyph"@) == (12nat, 'b', 'u', 'n')) by {
        reveal_strlit("button_glyph");
    }
}

/// Pieces hold only what the text holds.
proof fn lemma_pieces_hold_text(text: Seq<char>, unwanted: char)
    requires
        forall|i: int| 0 <= i < text.len() ==> #[trigger] text[i] != unwanted,
    ensures
        forall|i: int, j: int|
            0 <= i < text::pieces(text, '\n').len() && 0 <= j < text::pieces(text, '\n')[i].len()
                ==> #[trigger] text::pieces(text, '\n')[i][j] != unwanted,
    decreases text.len(),
{
    if text.len() > 0 {
        lemma_pieces_hold_text(text.drop_last(), unwanted);
        text::lemma_pieces(text.drop_last(), '\n');
        let before = text::pieces(text.drop_last(), '\n');
        let after = text::pieces(text, '\n');
        assert forall|i: int, j: int| 0 <= i < after.len() && 0 <= j < after[i].len() implies
            #[trigger] after[i][j] != unwanted by {
            if i < before.len() && j < before[i].len() {
                assert(after[i][j] == before[i][j]);
            } else {
                assert(after[i][j] == text[text.len() - 1]);
            }
        }
    }
}

/// Lines without brackets and equals signs give nothing.
proof fn lemma_lines_that_give_nothing(lines: Seq<Seq<char>>)
    requires
        forall|i: int, j: int|
            0 <= i < lines.len() && 0 <= j < lines[i].len() ==> #[trigger] lines[i][j] != '['
                && lines[i][j] != '=',
    ensures
        fields_of(lines) == (Fields { section: Seq::empty(), values: Map::empty() }),
    decreases lines.len(),
{
    if lines.len() > 0 {
        let rest = lines.drop_last();
        assert forall|i: int, j: int| 0 <= i < rest.len() && 0 <= j < rest[i].len() implies
            #[trigger] rest[i][j] != '[' && rest[i][j] != '=' by {
            assert(rest[i][j] == lines[i][j]);
        }
        lemma_lines_that_give_nothing(rest);
        let line = lines.last();
        let last = lines.len() - 1;
        text::lemma_position(line, '=');
        if let Some(at) = text::position(line, '=') {
            assert(lines[last][at] == '=');
        }
        if line.len() > 0 {
            assert(lines[last][0] != '[');
        }
    }
}

/// The start of a document opens the theme's section.
proof fn lemma_head()
    ensures
        ends_line(opening()),
        read(opening()) == (Fields { section: "theme"@, values: Map::empty() }),
{
    let start =
        "# Generated by `nobox import-openbox-theme`.\n# Review compatibility notes printed during import.\n\n"@;
    let head = opening();
    reveal_strlit(
        "# Generated by `nobox import-openbox-theme`.\n# Review compatibility notes printed during import.\n\n",
    );
    assert(ends_line(start)) by {
        reveal(ends_line);
    }
    assert forall|i: int| 0 <= i < start.len() implies #[trigger] start[i] != '[' && start[i]
        != '=' by {}
    lemma_pieces_hold_text(start, '[');
    lemma_pieces_hold_text(start, '=');
    let lines = text::lines(start);
    let parts = text::pieces(start, '\n');
    text::lemma_pieces(start.drop_last(), '\n');
    assert forall|i: int, j: int| 0 <= i < lines.len() && 0 <= j < lines[i].len() implies
        #[trigger] lines[i][j] != '[' && lines[i][j] != '=' by {
        reveal(ends_line);
        assert(parts.last().len() == 0);
        assert(lines[i][j] == parts[i][j]);
    }
    lemma_lines_that_give_nothing(lines);
    let line = seq!['[', 't', 'h', 'e', 'm', 'e', ']'];
    assert(is_value(line)) by {
        reveal(is_value);
    }
    lemma_lines_of_more(start, line);
    assert(head =~= start + line + seq!['\n']) by {
        reveal_strlit(
            "# Generated by `nobox import-openbox-theme`.\n# Review compatibility notes printed during import.\n\n[theme]\n",
        );
    }
    assert(lines.push(line).drop_last() =~= lines);
    assert(line.subrange(1, 6) =~= "theme"@) by {
        reveal_strlit("theme");
    }
    reveal(read);
}

impl ThemeModel {
    /// The fields of the document that spells the theme.
    spec fn spelled_fields(self) -> Fields {
        let none = Fields { section: "theme"@, values: Map::empty() };
        let border_width = none.with_field(
            "border_width"@,
            text::decimal(self.border_width as nat),
        );
        let titlebar_height = border_width.with_field(
            "titlebar_height"@,
            text::decimal(self.titlebar_height as nat),
        );
        let font = titlebar_height.with_field("font"@, quoted(escaped(self.font)));
        let title_alignment = font.with_field(
            "title_alignment"@,
            quoted(self.title_alignment.name()),
        );
        let title_padding = title_alignment.with_field(
            "title_padding"@,
            text::decimal(self.title_padding as nat),
        );
        let active_border = title_padding.with_field(
            "active_border"@,
            quoted_color(self.active_border),
        );
        let inactive_border = active_border.with_field(
            "inactive_border"@,
            quoted_color(self.inactive_border),
        );
        let urgent_border = inactive_border.with_field(
            "urgent_border"@,
            quoted_color(self.urgent_border),
        );
        let active_titlebar = urgent_border.with_field(
            "active_titlebar"@,
            quoted_color(self.active_titlebar),
        );
        let inactive_titlebar = active_titlebar.with_field(
            "inactive_titlebar"@,
            quoted_color(self.inactive_titlebar),
        );
        let urgent_titlebar = inactive_titlebar.with_field(
            "urgent_titlebar"@,
            quoted_color(self.urgent_titlebar),
        );
        let title_text = urgent_titlebar.with_field("title_text"@, quoted_color(self.title_text));
        let minimize_button = title_text.with_field(
            "minimize_button"@,
            quoted_color(self.minimize_button),
        );
        let maximize_button = minimize_button.with_field(
            "maximize_button"@,
            quoted_color(self.maximize_button),
        );
        let close_button = maximize_button.with_field(
            "close_button"@,
            quoted_color(self.close_button),
        );
        close_button.with_field("button_glyph"@, quoted_color(self.button_glyph))
    }
}

/// The document of a valid theme holds the fields that spell it.
#[verifier::spinoff_prover]
proof fn lemma_document_fields(theme: ThemeModel)
    requires
        theme.fault() is None,
        theme.colors_fit(),
    ensures
        read(theme.document()) == theme.spelled_fields(),
{
    lemma_names();
    lemma_head();
    lemma_alignment_names(theme.title_alignment);
    assert forall|i: int| 0 <= i < theme.font.len() implies #[trigger] theme.font[i] != '\n' by {
        assert(text::printable(theme.font[i]));
    }
    let head = opening();
    lemma_number_line(head, "border_width"@, theme.border_width);
    let border_width = head + number_line("border_width"@, theme.border_width);
    lemma_number_line(border_width, "titlebar_height"@, theme.titlebar_height);
    let titlebar_height = border_width + number_line("titlebar_height"@, theme.titlebar_height);
    lemma_text_line(titlebar_height, "font"@, theme.font);
    let font = titlebar_height + text_line("font"@, escaped(theme.font));
    lemma_text_line(font, "title_alignment"@, theme.title_alignment.name());
    let title_alignment = font + text_line("title_alignment"@, theme.title_alignment.name());
    lemma_number_line(title_alignment, "title_padding"@, theme.title_padding);
    let title_padding = title_alignment + number_line("title_padding"@, theme.title_padding);
    lemma_color_line(title_padding, "active_border"@, theme.active_border);
    let active_border = title_padding + color_line("active_border"@, theme.active_border);
    lemma_color_line(active_border, "inactive_border"@, theme.inactive_border);
    let inactive_border = active_border + color_line("inactive_border"@, theme.inactive_border);
    lemma_color_line(inactive_border, "urgent_border"@, theme.urgent_border);
    let urgent_border = inactive_border + color_line("urgent_border"@, theme.urgent_border);
    lemma_color_line(urgent_border, "active_titlebar"@, theme.active_titlebar);
    let active_titlebar = urgent_border + color_line("active_titlebar"@, theme.active_titlebar);
    lemma_color_line(active_titlebar, "inactive_titlebar"@, theme.inactive_titlebar);
    let inactive_titlebar = active_titlebar + color_line(
        "inactive_titlebar"@,
        theme.inactive_titlebar,
    );
    lemma_color_line(inactive_titlebar, "urgent_titlebar"@, theme.urgent_titlebar);
    let urgent_titlebar = inactive_titlebar + color_line("urgent_titlebar"@, theme.urgent_titlebar);
    lemma_color_line(urgent_titlebar, "title_text"@, theme.title_text);
    let title_text = urgent_titlebar + color_line("title_text"@, theme.title_text);
    lemma_color_line(title_text, "minimize_button"@, theme.minimize_button);
    let minimize_button = title_text + color_line("minimize_button"@, theme.minimize_button);
    lemma_color_line(minimize_button, "maximize_button"@, theme.maximize_button);
    let maximize_button = minimize_button + color_line("maximize_button"@, theme.maximize_button);
    lemma_color_line(maximize_button, "close_button"@, theme.close_button);
    let close_button = maximize_button + color_line("close_button"@, theme.close_button);
    lemma_color_line(close_button, "button_glyph"@, theme.button_glyph);
}

/// The fields that spell a theme are read as the theme.
#[verifier::spinoff_prover]
proof fn lemma_fields_are_read(theme: ThemeModel, fields: Fields)
    requires
        fields == theme.spelled_fields(),
    ensures
        fields.value("theme"@, "border_width"@) == Some(text::decimal(theme.border_width as nat)),
        fields.value("theme"@, "titlebar_height"@) == Some(
            text::decimal(theme.titlebar_height as nat),
        ),
        fields.value("theme"@, "font"@) == Some(quoted(escaped(theme.font))),
        fields.value("theme"@, "title_alignment"@) == Some(quoted(theme.title_alignment.name())),
        fields.value("theme"@, "title_padding"@) == Some(text::decimal(theme.title_padding as nat)),
        fields.value("theme"@, "active_border"@) == Some(quoted_color(theme.active_border)),
        fields.value("theme"@, "inactive_border"@) == Some(quoted_color(theme.inactive_border)),
        fields.value("theme"@, "urgent_border"@) == Some(quoted_color(theme.urgent_border)),
        fields.value("theme"@, "active_titlebar"@) == Some(quoted_color(theme.active_titlebar)),
        fields.value("theme"@, "inactive_titlebar"@) == Some(quoted_color(theme.inactive_titlebar)),
        fields.value("theme"@, "urgent_titlebar"@) == Some(quoted_color(theme.urgent_titlebar)),
        fields.value("theme"@, "title_text"@) == Some(quoted_color(theme.title_text)),
        fields.value("theme"@, "minimize_button"@) == Some(quoted_color(theme.minimize_button)),
        fields.value("theme"@, "maximize_button"@) == Some(quoted_color(theme.maximize_button)),
        fields.value("theme"@, "close_button"@) == Some(quoted_color(theme.close_button)),
        fields.value("theme"@, "button_glyph"@) == Some(quoted_color(theme.button_glyph)),
{
    lemma_names();
}

/// The document of a valid theme reads back: its fields spell the theme, the mark of agent windows
/// aside.
pub proof fn law_documents_spell_their_themes(theme: ThemeModel)
    requires
        theme.fault() is None,
        theme.colors_fit(),
    ensures
        spells(theme.document(), theme),
{
    lemma_document_fields(theme);
    lemma_fields_are_read(theme, read(theme.document()));
    lemma_alignment_names(theme.title_alignment);
    lemma_quoted(theme.title_alignment.name());
    assert forall|i: int| 0 <= i < theme.font.len() implies #[trigger] theme.font[i] != '\n' by {
        assert(text::printable(theme.font[i]));
    }
    lemma_quoted(theme.font);
    lemma_number(theme.border_width);
    lemma_number(theme.titlebar_height);
    lemma_number(theme.title_padding);
    lemma_color(theme.active_border);
    lemma_color(theme.inactive_border);
    lemma_color(theme.urgent_border);
    lemma_color(theme.active_titlebar);
    lemma_color(theme.inactive_titlebar);
    lemma_color(theme.urgent_titlebar);
    lemma_color(theme.title_text);
    lemma_color(theme.minimize_button);
    lemma_color(theme.maximize_button);
    lemma_color(theme.close_button);
    lemma_color(theme.button_glyph);
}

/// The document of a valid theme loses nothing but the mark of agent windows: themes with the
/// same document are otherwise the same.
pub proof fn law_documents_tell_themes_apart(left: ThemeModel, right: ThemeModel)
    requires
        left.fault() is None,
        right.fault() is None,
        left.colors_fit(),
        right.colors_fit(),
        left.document() == right.document(),
    ensures
        right == (ThemeModel { agent_marker: right.agent_marker, ..left }),
{
    law_documents_spell_their_themes(left);
    law_documents_spell_their_themes(right);
    lemma_spelled_once(left.document(), left, right);
}

/// The document of an imported theme reads back: its fields spell the theme.
pub proof fn law_rendered_imports_read_back(source: Seq<char>)
    requires
        openbox_theme::import_of(source) is Ok,
    ensures
        spells(
            openbox_theme::import_of(source)->Ok_0.theme.document(),
            openbox_theme::import_of(source)->Ok_0.theme,
        ),
{
    openbox_theme::law_imported_themes_are_valid(source);
    lemma_imported_colors_fit(source);
    law_documents_spell_their_themes(openbox_theme::import_of(source)->Ok_0.theme);
}

/// What the document of an imported theme spells is that theme, where it has the mark of agent
/// windows that imports keep.
pub(crate) proof fn lemma_spelled_imports(source: Seq<char>, theme: ThemeModel)
    requires
        openbox_theme::import_of(source) is Ok,
        spells(openbox_theme::import_of(source)->Ok_0.theme.document(), theme),
        theme.agent_marker == ThemeModel::standard().agent_marker,
    ensures
        theme == openbox_theme::import_of(source)->Ok_0.theme,
        theme.fault() is None,
{
    law_rendered_imports_read_back(source);
    openbox_theme::law_imports_keep_the_agent_marker(source);
    openbox_theme::law_imported_themes_are_valid(source);
    let import = openbox_theme::import_of(source)->Ok_0.theme;
    lemma_spelled_once(import.document(), import, theme);
}

/// A document spells at most one theme.
proof fn lemma_spelled_once(document: Seq<char>, left: ThemeModel, right: ThemeModel)
    requires
        spells(document, left),
        spells(document, right),
    ensures
        right == (ThemeModel { agent_marker: right.agent_marker, ..left }),
{
}

/// The rendered document loses nothing of an imported theme: imports with the same document have
/// the same theme.
pub proof fn law_rendered_imports_lose_nothing(left: Seq<char>, right: Seq<char>)
    requires
        openbox_theme::import_of(left) is Ok,
        openbox_theme::import_of(right) is Ok,
        openbox_theme::import_of(left)->Ok_0.theme.document() == openbox_theme::import_of(
            right,
        )->Ok_0.theme.document(),
    ensures
        openbox_theme::import_of(left)->Ok_0.theme == openbox_theme::import_of(right)->Ok_0.theme,
{
    openbox_theme::law_imported_themes_are_valid(left);
    openbox_theme::law_imported_themes_are_valid(right);
    lemma_imported_colors_fit(left);
    lemma_imported_colors_fit(right);
    openbox_theme::law_imports_keep_the_agent_marker(left);
    openbox_theme::law_imports_keep_the_agent_marker(right);
    law_documents_tell_themes_apart(
        openbox_theme::import_of(left)->Ok_0.theme,
        openbox_theme::import_of(right)->Ok_0.theme,
    );
}

/// The colors of an imported theme have three channels.
proof fn lemma_imported_colors_fit(source: Seq<char>)
    requires
        openbox_theme::import_of(source) is Ok,
    ensures
        openbox_theme::import_of(source)->Ok_0.theme.colors_fit(),
{
    let reading = openbox_theme::reading(text::lines(source));
    lemma_taken_colors_fit(reading.properties);
    let taken = Progress::start().with_properties(reading.properties);
    assert(openbox_theme::import_of(source)->Ok_0.theme == taken.with_closing_notes(reading).theme);
    assert(taken.with_closing_notes(reading).theme == taken.theme);
}

proof fn lemma_chosen_color_fits(properties: Properties, candidates: Seq<Seq<char>>)
    ensures
        openbox_theme::chosen_color(properties, candidates) matches Some(color) ==> color
            <= 0xff_ffff,
{
    if let Some(key) = openbox_theme::chosen(properties, candidates) {
        openbox_color::law_openbox_colors_have_three_channels(properties[key]);
    }
}

proof fn lemma_taken_colors_fit(properties: Properties)
    ensures
        Progress::start().with_properties(properties).theme.colors_fit(),
{
    lemma_chosen_color_fits(properties, openbox_theme::active_border_keys());
    lemma_chosen_color_fits(properties, openbox_theme::inactive_border_keys());
    lemma_chosen_color_fits(properties, openbox_theme::active_titlebar_keys());
    lemma_chosen_color_fits(properties, openbox_theme::inactive_titlebar_keys());
    lemma_chosen_color_fits(properties, openbox_theme::title_text_keys());
    lemma_chosen_color_fits(properties, openbox_theme::buttons_keys());
    lemma_chosen_color_fits(properties, openbox_theme::button_glyph_keys());
    let a = Progress::start().with_border_width(properties).with_title_padding(
        properties,
    ).with_title_alignment(properties);
    assert(a.theme.colors_fit());
    let b = a.with_active_border(properties);
    assert(b.theme.colors_fit());
    let c = b.with_inactive_border(properties);
    assert(c.theme.colors_fit());
    let d = c.with_active_titlebar(properties);
    assert(d.theme.colors_fit());
    let e = d.with_inactive_titlebar(properties);
    assert(e.theme.colors_fit());
    let f = e.with_title_text(properties);
    assert(f.theme.colors_fit());
    let g = f.with_buttons(properties);
    assert(g.theme.colors_fit());
    let h = g.with_button_glyph(properties);
    assert(h.theme.colors_fit());
}

} // verus!
