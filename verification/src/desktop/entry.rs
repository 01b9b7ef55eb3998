//! Desktop entries: the fields of an application file.

use vstd::prelude::*;

use crate::text;
use crate::text::{
    byte_size, characters, collected, cut_filled, cut_lines, find, same_ignoring_case, spells,
    stretch,
};
use crate::text_map::TextMap;

verus! {

/// Maximum number of bytes in a value, and in the arguments of a command together.
pub const MAX_ARGUMENT_BYTES: usize = 16_384;

/// Maximum number of bytes in a field's name.
pub const MAX_KEY_BYTES: usize = 255;

/// The value of each field by its name.
pub type Values = Map<Seq<char>, Seq<char>>;

/// What has been read of an entry.
pub ghost struct EntryReading {
    /// The first value of each field.
    pub values: Values,
    /// Whether the lines that follow belong to the entry.
    pub inside: bool,
}

/// Whether a line starts a group.
pub open spec fn is_group(line: Seq<char>) -> bool {
    line.len() > 0 && line[0] == '[' && line.last() == ']'
}

/// What has been read once another line was; nothing for a line that is no field.
pub open spec fn line_read(before: EntryReading, line: Seq<char>) -> Option<EntryReading> {
    let line = text::without_trailing(line, '\r');
    if is_group(line) {
        Some(EntryReading { inside: line == "[Desktop Entry]"@, ..before })
    } else if !before.inside || line.len() == 0 || line[0] == '#' {
        Some(before)
    } else {
        match text::position(line, '=') {
            Some(at) => {
                let key = line.take(at);
                let value = line.skip(at + 1);
                if key.len() == 0 || text::size(key) > MAX_KEY_BYTES || text::size(value)
                    > MAX_ARGUMENT_BYTES {
                    None
                } else if before.values.contains_key(key) {
                    Some(before)
                } else {
                    Some(EntryReading { values: before.values.insert(key, value), ..before })
                }
            },
            None => None,
        }
    }
}

/// What the lines of an entry hold together.
pub open spec fn lines_read(lines: Seq<Seq<char>>) -> Option<EntryReading>
    decreases lines.len(),
{
    if lines.len() == 0 {
        Some(EntryReading { values: Map::empty(), inside: false })
    } else {
        match lines_read(lines.drop_last()) {
            Some(before) => line_read(before, lines.last()),
            None => None,
        }
    }
}

/// The fields of a desktop entry.
pub open spec fn entry_values(source: Seq<char>) -> Option<Values> {
    match lines_read(text::lines(source)) {
        Some(read) => Some(read.values),
        None => None,
    }
}

/// A field's value, where it is there.
pub open spec fn value_of(values: Values, key: Seq<char>) -> Option<Seq<char>> {
    if values.contains_key(key) {
        Some(values[key])
    } else {
        None
    }
}

/// The character that an escape stands for.
pub open spec fn escape(c: char) -> Option<char> {
    if c == 's' {
        Some(' ')
    } else if c == 'n' {
        Some('\n')
    } else if c == 't' {
        Some('\t')
    } else if c == 'r' {
        Some('\r')
    } else if c == '\\' {
        Some('\\')
    } else {
        None
    }
}

/// Text before the text that may follow.
pub open spec fn before(start: Seq<char>, rest: Option<Seq<char>>) -> Option<Seq<char>> {
    match rest {
        Some(rest) => Some(start + rest),
        None => None,
    }
}

/// Text with its escapes resolved, or nothing for an escape that does not exist.
pub open spec fn unescaped(value: Seq<char>) -> Option<Seq<char>>
    decreases value.len(),
{
    if value.len() == 0 {
        Some(Seq::empty())
    } else if value[0] != '\\' {
        before(seq![value[0]], unescaped(value.skip(1)))
    } else if value.len() == 1 {
        None
    } else {
        match escape(value[1]) {
            Some(c) => before(seq![c], unescaped(value.skip(2))),
            None => None,
        }
    }
}

/// A field's value with its escapes resolved.
pub open spec fn text_value(values: Values, key: Seq<char>) -> Option<Seq<char>> {
    match value_of(values, key) {
        Some(value) => unescaped(value),
        None => None,
    }
}

/// The name of a field's translation.
pub open spec fn translated(key: Seq<char>, locale: Seq<char>) -> Seq<char> {
    key.push('[') + locale.push(']')
}

/// The raw value of a field in the first language that has it, or else without a language.
pub open spec fn localized(values: Values, key: Seq<char>, locales: Seq<Seq<char>>) -> Option<
    Seq<char>,
>
    decreases locales.len(),
{
    if locales.len() == 0 {
        value_of(values, key)
    } else if values.contains_key(translated(key, locales[0])) {
        Some(values[translated(key, locales[0])])
    } else {
        localized(values, key, locales.skip(1))
    }
}

/// Whether a value is `true`.
pub open spec fn truth(value: Option<Seq<char>>) -> bool {
    match value {
        Some(value) => text::lower(value) == "true"@,
        None => false,
    }
}

/// The items of a list: what is between semicolons.
pub open spec fn items(value: Seq<char>) -> Seq<Seq<char>> {
    text::filled(text::pieces(value, ';'))
}

/// Whether an item names one of the desktops.
pub open spec fn names_desktop(desktops: Seq<Seq<char>>, item: Seq<char>) -> bool {
    exists|i: int| 0 <= i < desktops.len() && text::lower(#[trigger] desktops[i]) == text::lower(item)
}

/// Whether one of the items names one of the desktops.
pub open spec fn name_desktop(desktops: Seq<Seq<char>>, items: Seq<Seq<char>>) -> bool {
    exists|i: int| 0 <= i < items.len() && names_desktop(desktops, #[trigger] items[i])
}

/// Whether an entry is meant for one of the desktops.
pub open spec fn visible(values: Values, desktops: Seq<Seq<char>>) -> bool {
    &&& match value_of(values, "OnlyShowIn"@) {
        Some(only) => items(only).len() == 0 || name_desktop(desktops, items(only)),
        None => true,
    }
    &&& match value_of(values, "NotShowIn"@) {
        Some(excluded) => !name_desktop(desktops, items(excluded)),
        None => true,
    }
}

fn trim_returns(line: &[char]) -> (trimmed: Vec<char>)
    ensures
        trimmed@ == text::without_trailing(line@, '\r'),
{
    let mut end: usize = line.len();
    assert(line@.take(end as int) =~= line@);
    while end > 0 && line[end - 1] == '\r'
        invariant
            end <= line@.len(),
            text::without_trailing(line@, '\r') == text::without_trailing(
                line@.take(end as int),
                '\r',
            ),
        decreases end,
    {
        assert(line@.take(end as int).drop_last() =~= line@.take(end - 1));
        end = end - 1;
    }
    let trimmed = stretch(line, 0, end);
    assert(trimmed@ =~= line@.take(end as int));
    trimmed
}

fn concat(text: &str, rest: &str) -> (joined: String)
    ensures
        joined@ == text@ + rest@,
{
    let mut joined = text.to_owned();
    joined.append(rest);
    joined
}

/// The fields of a desktop entry.
pub struct DesktopEntry {
    values: TextMap,
}

impl View for DesktopEntry {
    type V = Values;

    closed spec fn view(&self) -> Values {
        self.values@
    }
}

impl DesktopEntry {
    #[verifier::type_invariant]
    spec fn inv(self) -> bool {
        self.values.wf()
    }

    /// Reads the fields of a desktop entry.
    ///
    /// Only the group of the entry itself counts, the first definition of a field wins, and a
    /// line of that group that defines no field spoils the file.
    #[must_use]
    pub fn parse(source: &str) -> (entry: Option<Self>)
        ensures
            match entry {
                Some(entry) => entry_values(source@) == Some(entry@),
                None => entry_values(source@) is None,
            },
    {
        let chars = characters(source);
        let lines = cut_lines(chars.as_slice());
        let ghost all = text::texts(lines@);
        let mut values = TextMap::new();
        let mut inside = false;
        let mut index: usize = 0;
        assert(all.take(0) =~= Seq::empty());
        while index < lines.len()
            invariant
                index <= lines.len(),
                all == text::texts(lines@),
                all == text::lines(source@),
                values.wf(),
                lines_read(all.take(index as int)) == Some(EntryReading { values: values@, inside }),
            decreases lines.len() - index,
        {
            assert(all.take(index + 1).drop_last() =~= all.take(index as int));
            assert(all.take(index + 1).last() == lines@[index as int]@);
            let ghost read = EntryReading { values: values@, inside };
            let line = trim_returns(lines[index].as_slice());
            if line.len() > 0 && line[0] == '[' && line[line.len() - 1] == ']' {
                inside = spells(line.as_slice(), "[Desktop Entry]");
            } else if inside && line.len() > 0 && line[0] != '#' {
                match read_field(line.as_slice()) {
                    Some((key, value)) => {
                        if values.get(key.as_str()).is_none() {
                            let _ = values.insert(key, value);
                        }
                    },
                    None => {
                        assert(line_read(read, lines@[index as int]@) is None);
                        proof {
                            lemma_spoiled(all, index + 1);
                        }
                        return None;
                    },
                }
            }
            index = index + 1;
        }
        assert(all.take(index as int) =~= all);
        Some(DesktopEntry { values })
    }

    /// Returns a field's raw value.
    #[must_use]
    pub fn get(&self, key: &str) -> (value: Option<&str>)
        ensures
            match value {
                Some(value) => value_of(self@, key@) == Some(value@),
                None => value_of(self@, key@) is None,
            },
    {
        proof {
            use_type_invariant(self);
        }
        self.values.get(key)
    }

    /// Returns a field's value with its escapes resolved.
    #[must_use]
    pub fn text_value(&self, key: &str) -> (value: Option<String>)
        ensures
            text::maybe(value) == text_value(self@, key@),
    {
        match self.get(key) {
            Some(value) => unescape_string(value),
            None => None,
        }
    }

    /// Returns a field's value in the first language that has it, with its escapes resolved.
    #[must_use]
    pub fn localized_value(&self, key: &str, locales: &[String]) -> (value: Option<String>)
        ensures
            text::maybe(value) == (match localized(self@, key@, text::lines_of(locales@)) {
                Some(value) => unescaped(value),
                None => None,
            }),
    {
        let ghost all = text::lines_of(locales@);
        let mut index: usize = 0;
        assert(all.skip(0) =~= all);
        while index < locales.len()
            invariant
                index <= locales.len(),
                all == text::lines_of(locales@),
                localized(self@, key@, all) == localized(self@, key@, all.skip(index as int)),
            decreases locales.len() - index,
        {
            assert(all.skip(index as int)[0] == locales@[index as int]@);
            assert(all.skip(index as int).skip(1) =~= all.skip(index + 1));
            let mut name = key.to_owned();
            name.push('[');
            let mut locale = locales[index].clone();
            locale.push(']');
            let lookup = concat(name.as_str(), locale.as_str());
            if let Some(value) = self.get(lookup.as_str()) {
                return unescape_string(value);
            }
            index = index + 1;
        }
        assert(all.skip(index as int).len() == 0);
        self.text_value(key)
    }

    /// Returns whether a field is `true`.
    #[must_use]
    pub fn flag(&self, key: &str) -> (set: bool)
        ensures
            set == truth(value_of(self@, key@)),
    {
        desktop_bool(self.get(key))
    }

    /// Returns whether the entry is meant for one of the desktops.
    #[must_use]
    pub fn is_visible(&self, desktops: &[String]) -> (r: bool)
        ensures
            r == visible(self@, text::lines_of(desktops@)),
    {
        if let Some(only) = self.get("OnlyShowIn") {
            let list = desktop_list(only);
            if list.len() > 0 && !lists_desktop(desktops, &list) {
                return false;
            }
        }
        match self.get("NotShowIn") {
            Some(excluded) => {
                let list = desktop_list(excluded);
                !lists_desktop(desktops, &list)
            },
            None => true,
        }
    }
}

/// Once a line spoils the file, it stays spoiled.
proof fn lemma_spoiled(lines: Seq<Seq<char>>, length: int)
    requires
        0 <= length <= lines.len(),
        lines_read(lines.take(length)) is None,
    ensures
        lines_read(lines) is None,
    decreases lines.len() - length,
{
    if length < lines.len() {
        assert(lines.take(length + 1).drop_last() =~= lines.take(length));
        lemma_spoiled(lines, length + 1);
    } else {
        assert(lines.take(length) =~= lines);
    }
}

/// Reads the name and the value of a field.
fn read_field(line: &[char]) -> (field: Option<(String, String)>)
    ensures
        ({
            let at = text::position(line@, '=');
            let key = line@.take(at->Some_0);
            let value = line@.skip(at->Some_0 + 1);
            match field {
                Some(field) => at is Some && field.0@ == key && field.1@ == value && key.len() > 0
                    && text::size(key) <= MAX_KEY_BYTES && text::size(value)
                    <= MAX_ARGUMENT_BYTES,
                None => at is None || key.len() == 0 || text::size(key) > MAX_KEY_BYTES
                    || text::size(value) > MAX_ARGUMENT_BYTES,
            }
        }),
{
    let length: usize = line.len();
    match find(line, '=') {
        Some(at) => {
            let name = stretch(line, 0, at);
            assert(name@ =~= line@.take(at as int));
            let rest = stretch(line, at + 1, length);
            assert(rest@ =~= line@.skip(at + 1));
            let key = collected(name.as_slice());
            let value = collected(rest.as_slice());
            if key.as_str().is_empty() || byte_size(key.as_str()) > MAX_KEY_BYTES || byte_size(
                value.as_str(),
            ) > MAX_ARGUMENT_BYTES {
                None
            } else {
                Some((key, value))
            }
        },
        None => None,
    }
}

/// Returns whether a value is `true`.
pub(crate) fn desktop_bool(value: Option<&str>) -> (set: bool)
    ensures
        set == truth(
            match value {
                Some(value) => Some(value@),
                None => None,
            },
        ),
{
    match value {
        Some(value) => {
            let chars = characters(value);
            let lower = text::lower_chars(chars.as_slice());
            spells(lower.as_slice(), "true")
        },
        None => false,
    }
}

/// Returns the items of a list.
pub(crate) fn desktop_list(value: &str) -> (list: Vec<Vec<char>>)
    ensures
        text::texts(list@) == items(value@),
        list@.len() == items(value@).len(),
{
    let chars = characters(value);
    let list = cut_filled(chars.as_slice(), ';');
    assert(text::texts(list@).len() == list@.len());
    list
}

fn lists_desktop(desktops: &[String], list: &Vec<Vec<char>>) -> (r: bool)
    ensures
        r == name_desktop(text::lines_of(desktops@), text::texts(list@)),
{
    let ghost names = text::lines_of(desktops@);
    let ghost all = text::texts(list@);
    let mut index: usize = 0;
    while index < list.len()
        invariant
            index <= list.len(),
            names == text::lines_of(desktops@),
            all == text::texts(list@),
            forall|i: int| 0 <= i < index ==> !names_desktop(names, #[trigger] all[i]),
        decreases list.len() - index,
    {
        assert(all[index as int] == list@[index as int]@);
        if is_desktop(desktops, list[index].as_slice()) {
            return true;
        }
        index = index + 1;
    }
    false
}

fn is_desktop(desktops: &[String], item: &[char]) -> (r: bool)
    ensures
        r == names_desktop(text::lines_of(desktops@), item@),
{
    let ghost names = text::lines_of(desktops@);
    let mut index: usize = 0;
    while index < desktops.len()
        invariant
            index <= desktops.len(),
            names == text::lines_of(desktops@),
            forall|i: int| 0 <= i < index ==> text::lower(#[trigger] names[i]) != text::lower(item@),
        decreases desktops.len() - index,
    {
        assert(names[index as int] == desktops@[index as int]@);
        let desktop = characters(desktops[index].as_str());
        if same_ignoring_case(desktop.as_slice(), item) {
            return true;
        }
        index = index + 1;
    }
    false
}

/// Resolves the escapes of a string value.
///
/// There is none for a lone backslash or an unknown escape.
#[must_use]
pub fn unescape_string(value: &str) -> (output: Option<String>)
    ensures
        text::maybe(output) == unescaped(value@),
{
    let chars = characters(value);
    let mut output: Vec<char> = Vec::new();
    let mut index: usize = 0;
    assert(chars@.skip(0) =~= chars@);
    assert(before(output@, unescaped(chars@)) == unescaped(chars@)) by {
        if let Some(rest) = unescaped(chars@) {
            assert(output@ + rest =~= rest);
        }
    }
    while index < chars.len()
        invariant
            index <= chars.len(),
            chars@ == value@,
            unescaped(chars@) == before(output@, unescaped(chars@.skip(index as int))),
        decreases chars.len() - index,
    {
        let ghost rest = chars@.skip(index as int);
        let ghost done = output@;
        let c = chars[index];
        assert(rest[0] == c);
        if c != '\\' {
            output.push(c);
            assert(rest.skip(1) =~= chars@.skip(index + 1));
            proof {
                if let Some(tail) = unescaped(rest.skip(1)) {
                    assert(done + (seq![c] + tail) =~= output@ + tail);
                }
            }
            index = index + 1;
        } else {
            if index + 1 == chars.len() {
                return None;
            }
            let code = chars[index + 1];
            assert(rest[1] == code);
            let resolved = match code {
                's' => ' ',
                'n' => '\n',
                't' => '\t',
                'r' => '\r',
                '\\' => '\\',
                _ => return None,
            };
            output.push(resolved);
            assert(rest.skip(2) =~= chars@.skip(index + 2));
            proof {
                if let Some(tail) = unescaped(rest.skip(2)) {
                    assert(done + (seq![resolved] + tail) =~= output@ + tail);
                }
            }
            index = index + 2;
        }
    }
    assert(chars@.skip(index as int).len() == 0);
    assert(output@ + Seq::<char>::empty() =~= output@);
    Some(collected(output.as_slice()))
}

/// Text without backslashes stands for itself.
pub proof fn law_plain_text_needs_no_escapes(value: Seq<char>)
    requires
        !value.contains('\\'),
    ensures
        unescaped(value) == Some(value),
    decreases value.len(),
{
    if value.len() > 0 {
        let rest = value.skip(1);
        assert(value[0] != '\\');
        assert forall|i: int| 0 <= i < rest.len() implies rest[i] != '\\' by {
            assert(value[i + 1] != '\\');
        }
        law_plain_text_needs_no_escapes(rest);
        assert(seq![value[0]] + rest =~= value);
    }
}

/// The first definition of a field wins.
pub proof fn law_first_definition_wins(reading: EntryReading, line: Seq<char>, key: Seq<char>)
    requires
        reading.values.contains_key(key),
        line_read(reading, line) is Some,
    ensures
        line_read(reading, line)->Some_0.values.contains_key(key),
        line_read(reading, line)->Some_0.values[key] == reading.values[key],
{
}

} // verus!
