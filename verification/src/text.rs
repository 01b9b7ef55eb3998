//! Characters, words and numbers in text.
//!
//! Text is modelled as the sequence of its characters.

use vstd::prelude::*;

verus! {

/// Unicode's `White_Space` property.
pub open spec fn white_space(c: char) -> bool {
    let code = c as int;
    ||| 0x9 <= code <= 0xd
    ||| code == 0x20
    ||| code == 0x85
    ||| code == 0xa0
    ||| code == 0x1680
    ||| 0x2000 <= code <= 0x200a
    ||| code == 0x2028
    ||| code == 0x2029
    ||| code == 0x202f
    ||| code == 0x205f
    ||| code == 0x3000
}

/// Unicode's `Cc` category.
pub open spec fn control(c: char) -> bool {
    (c as int) < 0x20 || 0x7f <= c as int <= 0x9f
}

/// An ASCII character other than a control character.
pub open spec fn printable(c: char) -> bool {
    0x20 <= c as int <= 0x7e
}

/// ASCII text without control characters.
pub open spec fn printable_ascii(text: Seq<char>) -> bool {
    forall|i: int| 0 <= i < text.len() ==> printable(#[trigger] text[i])
}

/// An ASCII letter.
pub open spec fn letter(c: char) -> bool {
    'a' <= c <= 'z' || 'A' <= c <= 'Z'
}

/// An ASCII decimal digit.
pub open spec fn digit(c: char) -> bool {
    '0' <= c <= '9'
}

/// The lower-case form of an ASCII letter; any other character itself.
pub open spec fn lowered(c: char) -> char {
    if 'A' <= c <= 'Z' {
        (c as int + 32) as char
    } else {
        c
    }
}

/// Text with its ASCII letters in lower case.
pub open spec fn lower(text: Seq<char>) -> Seq<char> {
    Seq::new(text.len(), |i: int| lowered(text[i]))
}

/// Text that is empty once surrounding white space is taken off.
pub open spec fn blank(text: Seq<char>) -> bool {
    forall|i: int| 0 <= i < text.len() ==> white_space(#[trigger] text[i])
}

/// Text without white space at either end.
pub open spec fn trimmed(text: Seq<char>) -> bool {
    text.len() == 0 || (!white_space(text.first()) && !white_space(text.last()))
}

/// Text with white space somewhere.
pub open spec fn spaced(text: Seq<char>) -> bool {
    exists|i: int| 0 <= i < text.len() && white_space(#[trigger] text[i])
}

/// The number of bytes that the UTF-8 form of the text takes.
pub open spec fn size(text: Seq<char>) -> nat {
    vstd::utf8::encode_utf8(text).len()
}

/// The decimal digit for a number below ten.
pub open spec fn digit_char(value: int) -> char {
    (value + '0' as int) as char
}

/// A number in decimal, without leading zeros.
pub open spec fn decimal(value: nat) -> Seq<char>
    decreases value,
{
    if value < 10 {
        seq![digit_char(value as int)]
    } else {
        decimal(value / 10).push(digit_char(value as int % 10))
    }
}

/// Whether the text is one or more decimal digits.
pub open spec fn digits(text: Seq<char>) -> bool {
    text.len() > 0 && forall|i: int| 0 <= i < text.len() ==> digit(#[trigger] text[i])
}

/// The number that a sequence of decimal digits spells.
pub open spec fn number(text: Seq<char>) -> nat
    decreases text.len(),
{
    if text.len() == 0 {
        0
    } else {
        (number(text.drop_last()) * 10 + (text.last() as int - '0' as int)) as nat
    }
}

/// The value of decimal text that fits an unsigned 32-bit number.
///
/// One leading plus sign is allowed.
pub open spec fn unsigned(text: Seq<char>) -> Option<u32> {
    let body = if text.len() > 0 && text[0] == '+' {
        text.skip(1)
    } else {
        text
    };
    if digits(body) && number(body) <= u32::MAX {
        Some(number(body) as u32)
    } else {
        None
    }
}

/// The value of decimal text that fits a signed 32-bit number.
///
/// One leading sign is allowed.
pub open spec fn signed(text: Seq<char>) -> Option<i32> {
    let negative = text.len() > 0 && text[0] == '-';
    let body = if text.len() > 0 && (text[0] == '+' || text[0] == '-') {
        text.skip(1)
    } else {
        text
    };
    if !digits(body) {
        None
    } else if negative {
        if number(body) <= 0x8000_0000 {
            Some((-(number(body) as int)) as i32)
        } else {
            None
        }
    } else if number(body) <= i32::MAX {
        Some(number(body) as i32)
    } else {
        None
    }
}

/// The parts of the text between separators, at least one.
pub open spec fn pieces(text: Seq<char>, separator: char) -> Seq<Seq<char>>
    decreases text.len(),
{
    if text.len() == 0 {
        seq![Seq::<char>::empty()]
    } else {
        let before = pieces(text.drop_last(), separator);
        if text.last() == separator {
            before.push(Seq::<char>::empty())
        } else {
            before.drop_last().push(before.last().push(text.last()))
        }
    }
}

/// The texts among some that are not empty.
pub open spec fn filled(texts: Seq<Seq<char>>) -> Seq<Seq<char>>
    decreases texts.len(),
{
    if texts.len() == 0 {
        Seq::empty()
    } else {
        let before = filled(texts.drop_last());
        if texts.last().len() == 0 {
            before
        } else {
            before.push(texts.last())
        }
    }
}

/// The text without the occurrences of a character at its end.
pub open spec fn without_trailing(text: Seq<char>, unwanted: char) -> Seq<char>
    decreases text.len(),
{
    if text.len() > 0 && text.last() == unwanted {
        without_trailing(text.drop_last(), unwanted)
    } else {
        text
    }
}

/// The longest runs of characters that are not white space.
pub open spec fn words(text: Seq<char>) -> Seq<Seq<char>>
    decreases text.len(),
{
    if text.len() == 0 {
        Seq::<Seq<char>>::empty()
    } else {
        let before = words(text.drop_last());
        if white_space(text.last()) {
            before
        } else if text.len() == 1 || white_space(text[text.len() - 2]) {
            before.push(seq![text.last()])
        } else {
            before.drop_last().push(before.last().push(text.last()))
        }
    }
}

/// The text from its first character that is not white space.
pub open spec fn trim_start(text: Seq<char>) -> Seq<char>
    decreases text.len(),
{
    if text.len() > 0 && white_space(text.first()) {
        trim_start(text.skip(1))
    } else {
        text
    }
}

/// The text up to its last character that is not white space.
pub open spec fn trim_end(text: Seq<char>) -> Seq<char>
    decreases text.len(),
{
    if text.len() > 0 && white_space(text.last()) {
        trim_end(text.drop_last())
    } else {
        text
    }
}

/// The text without the white space at both ends.
pub open spec fn trim(text: Seq<char>) -> Seq<char> {
    trim_end(trim_start(text))
}

/// A line without the carriage return of its line ending.
pub open spec fn without_return(line: Seq<char>) -> Seq<char> {
    if line.len() > 0 && line.last() == '\r' {
        line.drop_last()
    } else {
        line
    }
}

/// The lines of the text.
///
/// A line ends at a line feed, with or without a carriage return before it. The ending of the
/// last line is optional.
pub open spec fn lines(text: Seq<char>) -> Seq<Seq<char>> {
    let parts = pieces(text, '\n');
    let ended = Seq::new((parts.len() - 1) as nat, |i: int| without_return(parts[i]));
    if parts.last().len() == 0 {
        ended
    } else {
        ended.push(parts.last())
    }
}

/// The index of the first occurrence of a character.
pub open spec fn position(text: Seq<char>, wanted: char) -> Option<int>
    decreases text.len(),
{
    if text.len() == 0 {
        None
    } else {
        match position(text.drop_last(), wanted) {
            Some(found) => Some(found),
            None => if text.last() == wanted {
                Some(text.len() - 1)
            } else {
                None
            },
        }
    }
}

/// Whether one text comes before another in alphabetical order of code points.
pub open spec fn precedes(left: Seq<char>, right: Seq<char>) -> bool
    decreases left.len(),
{
    if right.len() == 0 {
        false
    } else if left.len() == 0 {
        true
    } else if left[0] != right[0] {
        left[0] < right[0]
    } else {
        precedes(left.skip(1), right.skip(1))
    }
}

/// The character sequences of a list of character vectors.
pub open spec fn texts(parts: Seq<Vec<char>>) -> Seq<Seq<char>> {
    Seq::new(parts.len(), |i: int| parts[i]@)
}

/// The characters of a list of strings.
pub open spec fn lines_of(parts: Seq<String>) -> Seq<Seq<char>> {
    Seq::new(parts.len(), |i: int| parts[i]@)
}

/// The texts of a list of names.
pub open spec fn names(list: Seq<&str>) -> Seq<Seq<char>> {
    Seq::new(list.len(), |i: int| list[i]@)
}

/// The characters of an optional string.
pub open spec fn maybe(text: Option<String>) -> Option<Seq<char>> {
    match text {
        Some(text) => Some(text@),
        None => None,
    }
}

/// `String::push` appends one character.
pub assume_specification[ String::push ](target: &mut String, c: char)
    ensures
        final(target)@ == old(target)@.push(c),
;

/// The first occurrence of a character is within the text, and nothing before it is that
/// character.
pub proof fn lemma_position(text: Seq<char>, wanted: char)
    ensures
        match position(text, wanted) {
            Some(found) => 0 <= found < text.len() && text[found] == wanted
                && !text.take(found).contains(wanted),
            None => !text.contains(wanted),
        },
    decreases text.len(),
{
    if text.len() > 0 {
        lemma_position(text.drop_last(), wanted);
        match position(text.drop_last(), wanted) {
            Some(found) => {
                assert(text.drop_last().take(found) =~= text.take(found));
            },
            None => {
                assert(text.take(text.len() - 1) =~= text.drop_last());
                assert forall|i: int| 0 <= i < text.len() && text[i] == wanted implies i
                    == text.len() - 1 by {
                    if i < text.len() - 1 {
                        assert(text.drop_last()[i] == wanted);
                    }
                }
            },
        }
    }
}

/// Text is cut into at least one piece.
pub proof fn lemma_pieces(text: Seq<char>, separator: char)
    ensures
        pieces(text, separator).len() > 0,
    decreases text.len(),
{
    if text.len() > 0 {
        lemma_pieces(text.drop_last(), separator);
    }
}

/// Text that ends in a character other than white space has a last word.
proof fn lemma_words(text: Seq<char>)
    requires
        text.len() > 0,
        !white_space(text.last()),
    ensures
        words(text).len() > 0,
    decreases text.len(),
{
    if text.len() > 1 && !white_space(text[text.len() - 2]) {
        lemma_words(text.drop_last());
    }
}

/// More digits never spell a smaller number.
pub proof fn lemma_number_grows(text: Seq<char>, length: int)
    requires
        digits(text),
        0 <= length <= text.len(),
    ensures
        number(text.take(length)) <= number(text),
    decreases text.len() - length,
{
    if length < text.len() {
        lemma_number_grows(text, length + 1);
        assert(text.take(length + 1).drop_last() =~= text.take(length));
        assert(digit(text[length]));
    } else {
        assert(text.take(length) =~= text);
    }
}

/// The decimal form of a number is made of digits and spells that number.
pub proof fn law_decimal_spells_the_number(value: nat)
    ensures
        digits(decimal(value)),
        number(decimal(value)) == value,
    decreases value,
{
    reveal_with_fuel(number, 2);
    if value >= 10 {
        law_decimal_spells_the_number(value / 10);
        let last = digit_char(value as int % 10);
        assert(decimal(value).drop_last() =~= decimal(value / 10));
        assert(digit(last));
    } else {
        assert(decimal(value).drop_last() =~= Seq::<char>::empty());
        assert(digit(digit_char(value as int)));
    }
}

pub(crate) fn is_white_space(c: char) -> (r: bool)
    ensures
        r == white_space(c),
{
    let code: u32 = c as u32;
    (0x9 <= code && code <= 0xd) || code == 0x20 || code == 0x85 || code == 0xa0 || code == 0x1680
        || (0x2000 <= code && code <= 0x200a) || code == 0x2028 || code == 0x2029 || code == 0x202f
        || code == 0x205f || code == 0x3000
}

pub(crate) fn is_control(c: char) -> (r: bool)
    ensures
        r == control(c),
{
    let code: u32 = c as u32;
    code < 0x20 || (0x7f <= code && code <= 0x9f)
}

pub(crate) fn is_printable(c: char) -> (r: bool)
    ensures
        r == printable(c),
{
    let code: u32 = c as u32;
    0x20 <= code && code <= 0x7e
}

pub(crate) fn is_digit(c: char) -> (r: bool)
    ensures
        r == digit(c),
{
    '0' <= c && c <= '9'
}

pub(crate) fn is_letter(c: char) -> (r: bool)
    ensures
        r == letter(c),
{
    ('a' <= c && c <= 'z') || ('A' <= c && c <= 'Z')
}

/// The lower-case form of one character.
pub(crate) fn to_lower(c: char) -> (r: char)
    ensures
        r == lowered(c),
{
    if 'A' <= c && c <= 'Z' {
        ((c as u8) + 32) as char
    } else {
        c
    }
}

/// The characters of a string.
pub(crate) fn characters(text: &str) -> (r: Vec<char>)
    ensures
        r@ == text@,
{
    let mut found: Vec<char> = Vec::new();
    for c in iter: text.chars()
        invariant
            iter.seq() == text@,
            found@ == text@.take(iter.index() as int),
    {
        assert(text@.take(iter.index() as int + 1) =~= text@.take(iter.index() as int).push(
            text@[iter.index() as int],
        ));
        found.push(c);
    }
    assert(text@.take(text@.len() as int) =~= text@);
    found
}

/// The string with the given characters.
pub(crate) fn collected(chars: &[char]) -> (r: String)
    ensures
        r@ == chars@,
{
    let mut text: String = String::new();
    let mut index: usize = 0;
    while index < chars.len()
        invariant
            index <= chars.len(),
            text@ == chars@.take(index as int),
        decreases chars.len() - index,
    {
        assert(chars@.take(index + 1) =~= chars@.take(index as int).push(chars@[index as int]));
        text.push(chars[index]);
        index = index + 1;
    }
    assert(chars@.take(index as int) =~= chars@);
    text
}

/// The number of UTF-8 bytes of a string.
pub(crate) fn byte_size(text: &str) -> (r: usize)
    ensures
        r == size(text@),
{
    text.as_bytes().len()
}

/// Whether nothing but white space is in the text.
pub(crate) fn is_blank(text: &str) -> (r: bool)
    ensures
        r == blank(text@),
{
    let chars = characters(text);
    let mut index: usize = 0;
    while index < chars.len()
        invariant
            index <= chars.len(),
            chars@ == text@,
            forall|i: int| 0 <= i < index ==> white_space(#[trigger] chars@[i]),
        decreases chars.len() - index,
    {
        if !is_white_space(chars[index]) {
            return false;
        }
        index = index + 1;
    }
    true
}

/// Whether white space is at neither end of the text.
pub(crate) fn is_trimmed(text: &str) -> (r: bool)
    ensures
        r == trimmed(text@),
{
    let chars = characters(text);
    chars.len() == 0 || (!is_white_space(chars[0]) && !is_white_space(chars[chars.len() - 1]))
}

/// Whether there is white space in the text.
pub(crate) fn is_spaced(text: &str) -> (r: bool)
    ensures
        r == spaced(text@),
{
    let chars = characters(text);
    let mut index: usize = 0;
    while index < chars.len()
        invariant
            index <= chars.len(),
            chars@ == text@,
            forall|i: int| 0 <= i < index ==> !white_space(#[trigger] chars@[i]),
        decreases chars.len() - index,
    {
        if is_white_space(chars[index]) {
            assert(white_space(text@[index as int]));
            return true;
        }
        index = index + 1;
    }
    false
}

/// Whether a character occurs in the text.
pub(crate) fn holds_char(text: &str, wanted: char) -> (r: bool)
    ensures
        r == text@.contains(wanted),
{
    let chars = characters(text);
    let mut index: usize = 0;
    while index < chars.len()
        invariant
            index <= chars.len(),
            chars@ == text@,
            forall|i: int| 0 <= i < index ==> chars@[i] != wanted,
        decreases chars.len() - index,
    {
        if chars[index] == wanted {
            assert(text@[index as int] == wanted);
            return true;
        }
        index = index + 1;
    }
    false
}

/// Whether the text has a control character.
pub(crate) fn has_control(text: &str) -> (r: bool)
    ensures
        r == exists|i: int| 0 <= i < text@.len() && control(#[trigger] text@[i]),
{
    let chars = characters(text);
    let mut index: usize = 0;
    while index < chars.len()
        invariant
            index <= chars.len(),
            chars@ == text@,
            forall|i: int| 0 <= i < index ==> !control(#[trigger] chars@[i]),
        decreases chars.len() - index,
    {
        if is_control(chars[index]) {
            assert(control(text@[index as int]));
            return true;
        }
        index = index + 1;
    }
    false
}

/// Whether the text is ASCII without control characters.
pub(crate) fn is_printable_ascii(text: &str) -> (r: bool)
    ensures
        r == printable_ascii(text@),
{
    let chars = characters(text);
    let mut index: usize = 0;
    while index < chars.len()
        invariant
            index <= chars.len(),
            chars@ == text@,
            forall|i: int| 0 <= i < index ==> printable(#[trigger] chars@[i]),
        decreases chars.len() - index,
    {
        if !is_printable(chars[index]) {
            assert(!printable(text@[index as int]));
            return false;
        }
        index = index + 1;
    }
    true
}

/// Whether two character sequences are the same.
pub(crate) fn same_chars(left: &[char], right: &[char]) -> (r: bool)
    ensures
        r == (left@ == right@),
{
    if left.len() != right.len() {
        return false;
    }
    let mut index: usize = 0;
    while index < left.len()
        invariant
            index <= left.len(),
            left.len() == right.len(),
            forall|i: int| 0 <= i < index ==> left@[i] == right@[i],
        decreases left.len() - index,
    {
        if left[index] != right[index] {
            assert(left@[index as int] != right@[index as int]);
            return false;
        }
        index = index + 1;
    }
    assert(left@ =~= right@);
    true
}

/// Whether two strings hold the same text.
pub(crate) fn same(left: &str, right: &str) -> (r: bool)
    ensures
        r == (left@ == right@),
{
    if byte_size(left) != byte_size(right) {
        return false;
    }
    let left_chars = characters(left);
    let right_chars = characters(right);
    same_chars(left_chars.as_slice(), right_chars.as_slice())
}

/// The characters with their ASCII letters in lower case.
pub(crate) fn lower_chars(chars: &[char]) -> (r: Vec<char>)
    ensures
        r@ == lower(chars@),
{
    let mut found: Vec<char> = Vec::new();
    let mut index: usize = 0;
    while index < chars.len()
        invariant
            index <= chars.len(),
            found.len() == index,
            forall|i: int| 0 <= i < index ==> found@[i] == lowered(chars@[i]),
        decreases chars.len() - index,
    {
        found.push(to_lower(chars[index]));
        index = index + 1;
    }
    assert(found@ =~= lower(chars@));
    found
}

/// The index of the first occurrence of a character.
pub(crate) fn find(chars: &[char], wanted: char) -> (r: Option<usize>)
    ensures
        match r {
            Some(index) => position(chars@, wanted) == Some(index as int) && index < chars@.len(),
            None => position(chars@, wanted) is None,
        },
{
    let mut index: usize = 0;
    while index < chars.len()
        invariant
            index <= chars.len(),
            position(chars@.take(index as int), wanted) is None,
        decreases chars.len() - index,
    {
        assert(chars@.take(index + 1).drop_last() =~= chars@.take(index as int));
        if chars[index] == wanted {
            assert(position(chars@.take(index + 1), wanted) == Some(index as int));
            proof {
                lemma_position_extends(chars@, wanted, index + 1);
            }
            return Some(index);
        }
        index = index + 1;
    }
    assert(chars@.take(index as int) =~= chars@);
    None
}

/// An occurrence found in a prefix is the one found in the whole text.
proof fn lemma_position_extends(text: Seq<char>, wanted: char, length: int)
    requires
        0 <= length <= text.len(),
        position(text.take(length), wanted) is Some,
    ensures
        position(text, wanted) == position(text.take(length), wanted),
    decreases text.len(),
{
    if length < text.len() {
        assert(text.drop_last().take(length) =~= text.take(length));
        lemma_position_extends(text.drop_last(), wanted, length);
    } else {
        assert(text.take(length) =~= text);
    }
}

/// A copy of a stretch of characters.
pub(crate) fn stretch(chars: &[char], from: usize, to: usize) -> (r: Vec<char>)
    requires
        from <= to <= chars@.len(),
    ensures
        r@ == chars@.subrange(from as int, to as int),
{
    let mut found: Vec<char> = Vec::new();
    let mut index: usize = from;
    while index < to
        invariant
            from <= index <= to <= chars@.len(),
            found@ == chars@.subrange(from as int, index as int),
        decreases to - index,
    {
        assert(chars@.subrange(from as int, index + 1) =~= chars@.subrange(
            from as int,
            index as int,
        ).push(chars@[index as int]));
        found.push(chars[index]);
        index = index + 1;
    }
    found
}

/// Cuts text at each separator.
pub(crate) fn cut(chars: &[char], separator: char) -> (r: Vec<Vec<char>>)
    ensures
        texts(r@) == pieces(chars@, separator),
{
    let mut done: Vec<Vec<char>> = Vec::new();
    let mut last: Vec<char> = Vec::new();
    let mut index: usize = 0;
    assert(texts(done@).push(last@) =~= pieces(chars@.take(0), separator));
    while index < chars.len()
        invariant
            index <= chars.len(),
            texts(done@).push(last@) == pieces(chars@.take(index as int), separator),
        decreases chars.len() - index,
    {
        assert(chars@.take(index + 1).drop_last() =~= chars@.take(index as int));
        let ghost before = texts(done@).push(last@);
        assert(before.drop_last() =~= texts(done@));
        if chars[index] == separator {
            let ghost finished = done@.push(last);
            assert(texts(finished) =~= before);
            done.push(last);
            last = Vec::new();
        } else {
            last.push(chars[index]);
        }
        index = index + 1;
    }
    assert(chars@.take(index as int) =~= chars@);
    let ghost all = done@.push(last);
    assert(texts(all) =~= texts(done@).push(last@));
    done.push(last);
    done
}

/// The characters without the white space at both ends.
pub(crate) fn trim_chars(chars: &[char]) -> (r: Vec<char>)
    ensures
        r@ == trim(chars@),
{
    let mut from: usize = 0;
    assert(chars@.skip(0) =~= chars@);
    while from < chars.len() && is_white_space(chars[from])
        invariant
            from <= chars.len(),
            trim_start(chars@) == trim_start(chars@.skip(from as int)),
        decreases chars.len() - from,
    {
        assert(chars@.skip(from as int).skip(1) =~= chars@.skip(from + 1));
        from = from + 1;
    }
    let mut to: usize = chars.len();
    assert(chars@.subrange(from as int, to as int) =~= chars@.skip(from as int));
    while from < to && is_white_space(chars[to - 1])
        invariant
            from <= to <= chars.len(),
            trim(chars@) == trim_end(chars@.subrange(from as int, to as int)),
        decreases to,
    {
        assert(chars@.subrange(from as int, to as int).drop_last() =~= chars@.subrange(
            from as int,
            to - 1,
        ));
        to = to - 1;
    }
    stretch(chars, from, to)
}

/// Cuts text into lines.
pub(crate) fn cut_lines(chars: &[char]) -> (r: Vec<Vec<char>>)
    ensures
        texts(r@) == lines(chars@),
{
    let parts = cut(chars, '\n');
    let ghost pieces = pieces(chars@, '\n');
    proof {
        lemma_pieces(chars@, '\n');
        assert(texts(parts@).len() == parts@.len());
    }
    let last: usize = parts.len() - 1;
    let mut done: Vec<Vec<char>> = Vec::new();
    while done.len() < last
        invariant
            done.len() <= last,
            last == parts.len() - 1,
            pieces == texts(parts@),
            forall|i: int|
                0 <= i < done@.len() ==> (#[trigger] done@[i])@ == without_return(pieces[i]),
        decreases last - done.len(),
    {
        let part = &parts[done.len()];
        assert(part@ == pieces[done@.len() as int]);
        let end: usize = if part.len() > 0 && part[part.len() - 1] == '\r' {
            part.len() - 1
        } else {
            part.len()
        };
        let line = stretch(part.as_slice(), 0, end);
        assert(line@ =~= without_return(part@));
        done.push(line);
    }
    assert(parts@[last as int]@ == pieces.last());
    if parts[last].len() > 0 {
        let line = stretch(parts[last].as_slice(), 0, parts[last].len());
        assert(line@ =~= pieces.last());
        done.push(line);
    }
    assert(texts(done@) =~= lines(chars@));
    done
}

/// Whether the text starts with a prefix.
pub(crate) fn starts_with(chars: &[char], prefix: &str) -> (r: bool)
    ensures
        r == prefix@.is_prefix_of(chars@),
{
    let wanted = characters(prefix);
    if wanted.len() > chars.len() {
        return false;
    }
    let start = stretch(chars, 0, wanted.len());
    same_chars(wanted.as_slice(), start.as_slice())
}

/// Whether the text ends with a suffix.
pub(crate) fn ends_with(chars: &[char], suffix: &str) -> (r: bool)
    ensures
        r == suffix@.is_suffix_of(chars@),
{
    let wanted = characters(suffix);
    if wanted.len() > chars.len() {
        return false;
    }
    let end = stretch(chars, chars.len() - wanted.len(), chars.len());
    same_chars(wanted.as_slice(), end.as_slice())
}

/// Whether the characters are those of a string.
pub(crate) fn spells(chars: &[char], text: &str) -> (r: bool)
    ensures
        r == (chars@ == text@),
{
    let wanted = characters(text);
    same_chars(chars, wanted.as_slice())
}

/// Cuts text at each separator and keeps the parts that are not empty.
pub(crate) fn cut_filled(chars: &[char], separator: char) -> (r: Vec<Vec<char>>)
    ensures
        texts(r@) == filled(pieces(chars@, separator)),
{
    let parts = cut(chars, separator);
    let ghost all = texts(parts@);
    let mut kept: Vec<Vec<char>> = Vec::new();
    let mut index: usize = 0;
    assert(texts(kept@) =~= filled(all.take(0)));
    while index < parts.len()
        invariant
            index <= parts.len(),
            all == texts(parts@),
            texts(kept@) == filled(all.take(index as int)),
        decreases parts.len() - index,
    {
        assert(all.take(index + 1).drop_last() =~= all.take(index as int));
        assert(all[index as int] == parts@[index as int]@);
        if parts[index].len() > 0 {
            let ghost before = kept@;
            let part = stretch(parts[index].as_slice(), 0, parts[index].len());
            assert(part@ =~= parts@[index as int]@);
            kept.push(part);
            assert(texts(kept@) =~= texts(before).push(part@));
        }
        index = index + 1;
    }
    assert(all.take(index as int) =~= all);
    kept
}

/// Whether two texts are the same but for the case of ASCII letters.
pub(crate) fn same_ignoring_case(left: &[char], right: &[char]) -> (r: bool)
    ensures
        r == (lower(left@) == lower(right@)),
{
    let left_lower = lower_chars(left);
    let right_lower = lower_chars(right);
    same_chars(left_lower.as_slice(), right_lower.as_slice())
}

/// Cuts text into words.
pub(crate) fn cut_words(chars: &[char]) -> (r: Vec<Vec<char>>)
    ensures
        texts(r@) == words(chars@),
{
    let mut done: Vec<Vec<char>> = Vec::new();
    let mut last: Vec<char> = Vec::new();
    let mut index: usize = 0;
    let ghost mut whole: Seq<Vec<char>> = Seq::empty();
    assert(texts(whole) =~= words(chars@.take(0)));
    while index < chars.len()
        invariant
            index <= chars.len(),
            whole == (if last@.len() == 0 { done@ } else { done@.push(last) }),
            texts(whole) == words(chars@.take(index as int)),
            last@.len() > 0 <==> index > 0 && !white_space(chars@[index - 1]),
        decreases chars.len() - index,
    {
        let ghost so_far = chars@.take(index as int);
        let ghost next = chars@.take(index + 1);
        assert(next.drop_last() =~= so_far);
        if is_white_space(chars[index]) {
            if last.len() > 0 {
                done.push(last);
                last = Vec::new();
            }
            assert(whole == done@);
        } else {
            let ghost previous = last;
            last.push(chars[index]);
            proof {
                whole = done@.push(last);
                if previous@.len() == 0 {
                    assert(index == 0 || white_space(next[next.len() - 2]));
                    assert(texts(whole) =~= words(so_far).push(seq![chars@[index as int]])) by {
                        assert(last@ =~= seq![chars@[index as int]]);
                    }
                } else {
                    assert(!white_space(next[next.len() - 2]));
                    assert(texts(done@.push(previous)).drop_last() =~= texts(done@));
                    assert(texts(whole) =~= texts(done@).push(
                        previous@.push(chars@[index as int]),
                    ));
                }
            }
        }
        index = index + 1;
    }
    assert(chars@.take(index as int) =~= chars@);
    if last.len() > 0 {
        done.push(last);
    }
    done
}

/// Whether one text comes before another in alphabetical order of code points.
pub(crate) fn chars_come_before(left: &[char], right: &[char]) -> (r: bool)
    ensures
        r == precedes(left@, right@),
{
    let mut index: usize = 0;
    assert(left@.skip(0) =~= left@);
    assert(right@.skip(0) =~= right@);
    while index < left.len() && index < right.len()
        invariant
            index <= left.len(),
            index <= right.len(),
            precedes(left@, right@) == precedes(left@.skip(index as int), right@.skip(index as int)),
        decreases left.len() - index,
    {
        assert(left@.skip(index as int).skip(1) =~= left@.skip(index + 1));
        assert(right@.skip(index as int).skip(1) =~= right@.skip(index + 1));
        if left[index] != right[index] {
            return left[index] < right[index];
        }
        index = index + 1;
    }
    index < right.len()
}

/// Whether one string comes before another in alphabetical order of code points.
pub(crate) fn comes_before(left: &str, right: &str) -> (r: bool)
    ensures
        r == precedes(left@, right@),
{
    let left_chars = characters(left);
    let right_chars = characters(right);
    chars_come_before(left_chars.as_slice(), right_chars.as_slice())
}

/// Alphabetical order is a total order.
pub(crate) proof fn lemma_precedes(left: Seq<char>, middle: Seq<char>, right: Seq<char>)
    ensures
        !precedes(left, left),
        precedes(left, middle) ==> !precedes(middle, left),
        precedes(left, middle) || left == middle || precedes(middle, left),
        precedes(left, middle) && precedes(middle, right) ==> precedes(left, right),
    decreases left.len() + middle.len() + right.len(),
{
    if left.len() > 0 && middle.len() > 0 && right.len() > 0 {
        lemma_precedes(left.skip(1), middle.skip(1), right.skip(1));
        if left[0] == middle[0] && left.skip(1) == middle.skip(1) {
            assert(left =~= seq![left[0]] + left.skip(1));
            assert(middle =~= seq![middle[0]] + middle.skip(1));
        }
    } else {
        if left.len() > 0 && middle.len() > 0 {
            lemma_precedes(left.skip(1), middle.skip(1), Seq::empty());
            if left[0] == middle[0] && left.skip(1) == middle.skip(1) {
                assert(left =~= seq![left[0]] + left.skip(1));
                assert(middle =~= seq![middle[0]] + middle.skip(1));
            }
        } else if left.len() == 0 && middle.len() == 0 {
            assert(left =~= middle);
        }
        if left.len() > 0 && middle.len() == 0 {
            lemma_precedes(left.skip(1), Seq::empty(), Seq::empty());
        }
    }
}

/// The number that decimal digits spell, unless it is over a limit.
fn bounded_number(chars: &[char], from: usize, limit: u64) -> (r: Option<u64>)
    requires
        from <= chars@.len(),
        limit <= 0xffff_ffff,
    ensures
        ({
            let body = chars@.skip(from as int);
            match r {
                Some(value) => digits(body) && value == number(body) && value <= limit,
                None => !(digits(body) && number(body) <= limit),
            }
        }),
{
    let ghost body = chars@.skip(from as int);
    if from == chars.len() {
        return None;
    }
    let mut value: u64 = 0;
    let mut index: usize = from;
    while index < chars.len()
        invariant
            from <= index <= chars.len(),
            body == chars@.skip(from as int),
            body.len() > 0,
            value <= limit <= 0xffff_ffff,
            value == number(body.take(index - from)),
            forall|i: int| 0 <= i < index - from ==> digit(#[trigger] body[i]),
        decreases chars.len() - index,
    {
        assert(chars@[index as int] == body[index - from]);
        if !is_digit(chars[index]) {
            assert(!digit(body[index - from]));
            return None;
        }
        assert(body.take(index + 1 - from).drop_last() =~= body.take(index - from));
        value = value * 10 + (chars[index] as u64 - '0' as u64);
        if value > limit {
            proof {
                if digits(body) {
                    lemma_number_grows(body, index + 1 - from);
                }
            }
            return None;
        }
        index = index + 1;
    }
    assert(body.take(index - from) =~= body);
    Some(value)
}

/// Parses an unsigned decimal number.
pub(crate) fn parse_unsigned(chars: &[char]) -> (r: Option<u32>)
    ensures
        r == unsigned(chars@),
{
    let from: usize = if chars.len() > 0 && chars[0] == '+' {
        1
    } else {
        0
    };
    assert(chars@.skip(0) =~= chars@);
    match bounded_number(chars, from, 0xffff_ffff) {
        Some(value) => Some(value as u32),
        None => None,
    }
}

/// Parses a signed decimal number.
pub(crate) fn parse_signed(chars: &[char]) -> (r: Option<i32>)
    ensures
        r == signed(chars@),
{
    let negative = chars.len() > 0 && chars[0] == '-';
    let from: usize = if chars.len() > 0 && (chars[0] == '+' || chars[0] == '-') {
        1
    } else {
        0
    };
    assert(chars@.skip(0) =~= chars@);
    let limit: u64 = if negative {
        0x8000_0000
    } else {
        0x7fff_ffff
    };
    match bounded_number(chars, from, limit) {
        Some(value) => if negative {
            Some((-(value as i64)) as i32)
        } else {
            Some(value as i32)
        },
        None => None,
    }
}

/// Writes a number in decimal.
pub(crate) fn decimal_text(value: u64) -> (r: String)
    ensures
        r@ == decimal(value as nat),
    decreases value,
{
    let last = ((value % 10) as u8 + '0' as u8) as char;
    let mut text = if value < 10 {
        String::new()
    } else {
        decimal_text(value / 10)
    };
    text.push(last);
    assert(text@ =~= decimal(value as nat));
    text
}

} // verus!
