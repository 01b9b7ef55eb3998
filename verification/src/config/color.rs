//! Colors written as `#RRGGBB`.

use vstd::prelude::*;

use crate::text::characters;

verus! {

/// The lower-case hexadecimal digit for a number below sixteen.
pub open spec fn hex_digit(value: int) -> char {
    if value < 10 {
        (value + '0' as int) as char
    } else {
        (value - 10 + 'a' as int) as char
    }
}

/// The value of a hexadecimal digit of either case.
pub open spec fn hex_value(c: char) -> Option<int> {
    if '0' <= c <= '9' {
        Some(c as int - '0' as int)
    } else if 'a' <= c <= 'f' {
        Some(c as int - 'a' as int + 10)
    } else if 'A' <= c <= 'F' {
        Some(c as int - 'A' as int + 10)
    } else {
        None
    }
}

/// Whether every character is a hexadecimal digit.
pub open spec fn hexadecimal(text: Seq<char>) -> bool {
    forall|i: int| 0 <= i < text.len() ==> hex_value(#[trigger] text[i]) is Some
}

/// The number that hexadecimal digits spell.
pub open spec fn hex_number(text: Seq<char>) -> nat
    decreases text.len(),
{
    if text.len() == 0 {
        0
    } else {
        (hex_number(text.drop_last()) * 16 + hex_value(text.last())->Some_0) as nat
    }
}

/// A number in hexadecimal with exactly the given number of digits.
pub open spec fn hex_text(value: nat, digits: nat) -> Seq<char>
    decreases digits,
{
    if digits == 0 {
        Seq::empty()
    } else {
        hex_text(value / 16, (digits - 1) as nat).push(hex_digit(value as int % 16))
    }
}

/// The color that text spells: a number sign and six hexadecimal digits.
pub open spec fn color_of(text: Seq<char>) -> Option<u32> {
    if text.len() == 7 && text[0] == '#' && hexadecimal(text.skip(1)) {
        Some(hex_number(text.skip(1)) as u32)
    } else {
        None
    }
}

/// The canonical spelling of a packed color.
pub open spec fn color_text(packed: u32) -> Seq<char> {
    seq!['#'] + hex_text(packed as nat, 6)
}

/// An RGB color stored as `0xRRGGBB`.
#[derive(Clone, Copy, Debug, PartialEq, Eq, Structural)]
pub struct RgbColor(u32);

/// Error returned for a malformed `#RRGGBB` color.
#[derive(Clone, Copy, Debug, PartialEq, Eq, Structural)]
pub struct ColorError;

impl RgbColor {
    #[verifier::type_invariant]
    spec fn in_range(self) -> bool {
        self.0 <= 0xff_ffff
    }

    /// The color as `0xRRGGBB`.
    pub closed spec fn packed(self) -> u32 {
        self.0
    }

    /// Creates a color from red, green, and blue channels.
    #[must_use]
    pub fn new(red: u8, green: u8, blue: u8) -> (color: Self)
        ensures
            color.packed() == red * 0x1_0000 + green * 0x100 + blue,
    {
        Self(red as u32 * 0x1_0000 + green as u32 * 0x100 + blue as u32)
    }

    /// Returns `0xRRGGBB`.
    #[must_use]
    pub fn pixel(self) -> (packed: u32)
        ensures
            packed == self.packed(),
            packed <= 0xff_ffff,
    {
        proof {
            use_type_invariant(&self);
        }
        self.0
    }

    /// Returns the canonical `#rrggbb` spelling.
    #[must_use]
    pub fn text(self) -> (text: String)
        ensures
            text@ == color_text(self.packed()),
    {
        let mut text = String::new();
        text.push('#');
        assert(text@ =~= seq!['#'] + Seq::empty());
        push_hex(&mut text, self.0, 6);
        assert(text@ =~= color_text(self.0));
        text
    }

    /// Parses `#RRGGBB`.
    ///
    /// # Errors
    ///
    /// Returns an error unless a number sign and six hexadecimal digits are the whole text.
    pub fn parse(value: &str) -> (parsed: Result<Self, ColorError>)
        ensures
            match parsed {
                Ok(color) => color_of(value@) == Some(color.packed()),
                Err(_) => color_of(value@) is None,
            },
    {
        let chars = characters(value);
        parse_color_chars(chars.as_slice())
    }
}

impl core::str::FromStr for RgbColor {
    type Err = ColorError;

    fn from_str(value: &str) -> (parsed: Result<Self, ColorError>)
        ensures
            match parsed {
                Ok(color) => color_of(value@) == Some(color.packed()),
                Err(_) => color_of(value@) is None,
            },
    {
        Self::parse(value)
    }
}

/// Appends a number as that many hexadecimal digits.
fn push_hex(text: &mut String, value: u32, digits: u8)
    ensures
        final(text)@ == old(text)@ + hex_text(value as nat, digits as nat),
    decreases digits,
{
    if digits > 0 {
        push_hex(text, value / 16, digits - 1);
        let low: u8 = (value % 16) as u8;
        let ghost before = text@;
        text.push(if low < 10 { (low + 48) as char } else { (low - 10 + 97) as char });
        assert(text@ =~= old(text)@ + hex_text(value as nat, digits as nat));
    } else {
        assert(text@ =~= old(text)@ + hex_text(value as nat, 0));
    }
}

/// The value of one hexadecimal digit.
pub(crate) fn hex_digit_value(c: char) -> (value: Option<u8>)
    ensures
        match value {
            Some(value) => hex_value(c) == Some(value as int) && value < 16,
            None => hex_value(c) is None,
        },
{
    if '0' <= c && c <= '9' {
        Some(c as u8 - 48)
    } else if 'a' <= c && c <= 'f' {
        Some(c as u8 - 97 + 10)
    } else if 'A' <= c && c <= 'F' {
        Some(c as u8 - 65 + 10)
    } else {
        None
    }
}

/// The number that up to seven hexadecimal digits spell.
pub(crate) fn parse_hex(chars: &[char], from: usize) -> (value: Option<u32>)
    requires
        from <= chars@.len() <= from + 7,
    ensures
        match value {
            Some(value) => hexadecimal(chars@.skip(from as int)) && value == hex_number(
                chars@.skip(from as int),
            ),
            None => !hexadecimal(chars@.skip(from as int)),
        },
        value matches Some(value) ==> (value as int) < power_of_sixteen(chars@.len() - from),
{
    let ghost body = chars@.skip(from as int);
    let mut value: u32 = 0;
    let mut index: usize = from;
    proof {
        reveal_with_fuel(power_of_sixteen, 9);
    }
    while index < chars.len()
        invariant
            from <= index <= chars.len() <= from + 7,
            body == chars@.skip(from as int),
            value == hex_number(body.take(index - from)),
            (value as int) < power_of_sixteen(index - from) <= 0x1000_0000,
            power_of_sixteen(7) == 0x1000_0000,
            forall|i: int| 0 <= i < index - from ==> hex_value(#[trigger] body[i]) is Some,
        decreases chars.len() - index,
    {
        assert(chars@[index as int] == body[index - from]);
        assert(body.take(index + 1 - from).drop_last() =~= body.take(index - from));
        proof {
            reveal_with_fuel(power_of_sixteen, 9);
        }
        match hex_digit_value(chars[index]) {
            Some(digit) => {
                value = value * 16 + digit as u32;
            },
            None => {
                assert(hex_value(body[index - from]) is None);
                return None;
            },
        }
        index = index + 1;
    }
    assert(body.take(index - from) =~= body);
    Some(value)
}

/// Sixteen raised to a power.
pub open spec fn power_of_sixteen(exponent: int) -> int
    decreases exponent,
{
    if exponent <= 0 {
        1
    } else {
        16 * power_of_sixteen(exponent - 1)
    }
}

/// Parses `#RRGGBB` from characters.
pub(crate) fn parse_color_chars(chars: &[char]) -> (parsed: Result<RgbColor, ColorError>)
    ensures
        match parsed {
            Ok(color) => color_of(chars@) == Some(color.packed()),
            Err(_) => color_of(chars@) is None,
        },
{
    if chars.len() != 7 || chars[0] != '#' {
        return Err(ColorError);
    }
    match parse_hex(chars, 1) {
        Some(value) => {
            proof {
                reveal_with_fuel(power_of_sixteen, 9);
            }
            Ok(RgbColor(value))
        },
        None => Err(ColorError),
    }
}

proof fn lemma_hex_text(value: nat, digits: nat)
    requires
        value < power_of_sixteen(digits as int),
    ensures
        hex_text(value, digits).len() == digits,
        hexadecimal(hex_text(value, digits)),
        hex_number(hex_text(value, digits)) == value,
    decreases digits,
{
    if digits > 0 {
        let before = (digits - 1) as nat;
        lemma_hex_text(value / 16, before);
        let text = hex_text(value, digits);
        assert(text.drop_last() =~= hex_text(value / 16, before));
        let last = hex_digit(value as int % 16);
        assert(hex_value(last) == Some(value as int % 16));
        assert forall|i: int| 0 <= i < text.len() implies hex_value(#[trigger] text[i]) is Some by {
            if i < text.len() - 1 {
                assert(text[i] == hex_text(value / 16, before)[i]);
            }
        }
    }
}

/// The spelling of a color parses back to that color.
pub proof fn law_color_text_parses_back(packed: u32)
    requires
        packed <= 0xff_ffff,
    ensures
        color_of(color_text(packed)) == Some(packed),
{
    reveal_with_fuel(power_of_sixteen, 9);
    lemma_hex_text(packed as nat, 6);
    assert(color_text(packed).skip(1) =~= hex_text(packed as nat, 6));
}

} // verus!
