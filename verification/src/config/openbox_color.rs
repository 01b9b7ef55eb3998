//! Colors as Openbox themes spell them.

use vstd::prelude::*;

use crate::config::color;
use crate::config::color::{hex_digit_value, parse_color_chars, parse_hex, RgbColor};
use crate::text;
use crate::text::{
    characters, cut, lower_chars, parse_unsigned, spells, starts_with, stretch, trim_chars,
};

verus! {

/// A color packed from its channels.
pub open spec fn packed(red: int, green: int, blue: int) -> u32 {
    (red * 0x1_0000 + green * 0x100 + blue) as u32
}

/// A color whose channels are the same.
pub open spec fn shade(channel: int) -> u32 {
    packed(channel, channel, channel)
}

/// Whether text is a number sign and three hexadecimal digits.
pub open spec fn short(value: Seq<char>) -> bool {
    value.len() == 4 && value[0] == '#' && color::hexadecimal(value.skip(1))
}

/// The color of a short spelling, in which each digit stands for a doubled one.
pub open spec fn short_color(value: Seq<char>) -> u32 {
    packed(
        color::hex_value(value[1])->Some_0 * 17,
        color::hex_value(value[2])->Some_0 * 17,
        color::hex_value(value[3])->Some_0 * 17,
    )
}

/// The channel that one to four hexadecimal digits spell, scaled to a byte.
///
/// One leading plus sign is allowed; it counts as a digit for the scale.
pub open spec fn channel(value: Seq<char>) -> Option<int> {
    let body = if value.len() > 1 && value[0] == '+' {
        value.skip(1)
    } else {
        value
    };
    if 1 <= value.len() <= 4 && color::hexadecimal(body) {
        Some(
            color::hex_number(body) as int * 255 / (color::power_of_sixteen(value.len() as int)
                - 1),
        )
    } else {
        None
    }
}

/// The color that three channels between slashes spell.
pub open spec fn channels_color(value: Seq<char>) -> Option<u32> {
    let parts = text::pieces(value, '/');
    if parts.len() == 3 {
        match (channel(parts[0]), channel(parts[1]), channel(parts[2])) {
            (Some(red), Some(green), Some(blue)) => Some(packed(red, green, blue)),
            _ => None,
        }
    } else {
        None
    }
}

/// The color of a name.
pub open spec fn named_color(name: Seq<char>) -> Option<u32> {
    if name == "black"@ {
        Some(0)
    } else if name == "white"@ {
        Some(0xff_ffff)
    } else if name == "red"@ {
        Some(0xff_0000)
    } else if name == "green"@ {
        Some(0xff00)
    } else if name == "blue"@ {
        Some(0xff)
    } else if name == "yellow"@ {
        Some(0xff_ff00)
    } else if name == "cyan"@ {
        Some(0xffff)
    } else if name == "magenta"@ {
        Some(0xff_00ff)
    } else if name == "gray"@ || name == "grey"@ {
        Some(0xbe_bebe)
    } else {
        None
    }
}

/// The color of a numbered gray: a percentage behind the name.
pub open spec fn gray_color(name: Seq<char>) -> Option<u32> {
    if "gray"@.is_prefix_of(name) || "grey"@.is_prefix_of(name) {
        match text::unsigned(name.skip(4)) {
            Some(percentage) => if percentage <= 100 {
                Some(shade(percentage * 255 / 100))
            } else {
                None
            },
            None => None,
        }
    } else {
        None
    }
}

/// The packed color that an Openbox theme's value spells.
pub open spec fn openbox_color(value: Seq<char>) -> Option<u32> {
    let spelling = text::lower(text::trim(value));
    if color::color_of(spelling) is Some {
        color::color_of(spelling)
    } else if short(spelling) {
        Some(short_color(spelling))
    } else if "rgb:"@.is_prefix_of(spelling) {
        channels_color(spelling.skip(4))
    } else if named_color(spelling) is Some {
        named_color(spelling)
    } else {
        gray_color(spelling)
    }
}

/// The packed form of an optional color.
pub open spec fn packed_color(color: Option<RgbColor>) -> Option<u32> {
    match color {
        Some(color) => Some(color.packed()),
        None => None,
    }
}

/// Parses a color of an Openbox theme.
#[must_use]
pub fn parse_openbox_color(value: &str) -> (color: Option<RgbColor>)
    ensures
        packed_color(color) == openbox_color(value@),
{
    let chars = characters(value);
    let trimmed = trim_chars(chars.as_slice());
    let spelling = lower_chars(trimmed.as_slice());
    if let Ok(color) = parse_color_chars(spelling.as_slice()) {
        return Some(color);
    }
    if let Some(color) = parse_short(spelling.as_slice()) {
        return Some(color);
    }
    if starts_with(spelling.as_slice(), "rgb:") {
        proof {
            reveal_strlit("rgb:");
        }
        let channels = stretch(spelling.as_slice(), 4, spelling.len());
        assert(channels@ =~= spelling@.skip(4));
        return parse_channels(channels.as_slice());
    }
    match parse_name(spelling.as_slice()) {
        Some(color) => Some(color),
        None => parse_gray_percentage(spelling.as_slice()),
    }
}

/// Parses a number sign and three hexadecimal digits.
fn parse_short(chars: &[char]) -> (color: Option<RgbColor>)
    ensures
        packed_color(color) == (if short(chars@) {
            Some(short_color(chars@))
        } else {
            None
        }),
{
    if chars.len() != 4 || chars[0] != '#' {
        return None;
    }
    let ghost body = chars@.skip(1);
    assert(body[0] == chars@[1] && body[1] == chars@[2] && body[2] == chars@[3]);
    match (hex_digit_value(chars[1]), hex_digit_value(chars[2]), hex_digit_value(chars[3])) {
        (Some(red), Some(green), Some(blue)) => {
            assert(color::hexadecimal(body));
            Some(RgbColor::new(red * 17, green * 17, blue * 17))
        },
        _ => None,
    }
}

/// Parses one channel of an X11 color.
fn parse_x11_hex_channel(chars: &[char]) -> (value: Option<u8>)
    ensures
        match value {
            Some(value) => channel(chars@) == Some(value as int),
            None => channel(chars@) is None,
        },
{
    if chars.len() == 0 || chars.len() > 4 {
        return None;
    }
    let from: usize = if chars.len() > 1 && chars[0] == '+' {
        1
    } else {
        0
    };
    assert(chars@.skip(0) =~= chars@);
    proof {
        reveal_with_fuel(color::power_of_sixteen, 6);
    }
    match parse_hex(chars, from) {
        Some(value) => {
            let maximum: u32 = match chars.len() {
                1 => 0xf,
                2 => 0xff,
                3 => 0xfff,
                _ => 0xffff,
            };
            assert(maximum == color::power_of_sixteen(chars@.len() as int) - 1);
            assert(value <= maximum);
            let scaled: u32 = value * 255 / maximum;
            assert(scaled <= 255) by (nonlinear_arith)
                requires
                    value <= maximum,
                    maximum > 0,
                    scaled == value * 255 / maximum as int,
            ;
            Some(scaled as u8)
        },
        None => None,
    }
}

/// Parses three channels between slashes.
fn parse_channels(chars: &[char]) -> (color: Option<RgbColor>)
    ensures
        packed_color(color) == channels_color(chars@),
{
    let parts = cut(chars, '/');
    let ghost pieces = text::pieces(chars@, '/');
    assert(texts_match(parts@, pieces));
    if parts.len() != 3 {
        return None;
    }
    match (
        parse_x11_hex_channel(parts[0].as_slice()),
        parse_x11_hex_channel(parts[1].as_slice()),
        parse_x11_hex_channel(parts[2].as_slice()),
    ) {
        (Some(red), Some(green), Some(blue)) => Some(RgbColor::new(red, green, blue)),
        _ => None,
    }
}

spec fn texts_match(parts: Seq<Vec<char>>, pieces: Seq<Seq<char>>) -> bool {
    parts.len() == pieces.len() && forall|i: int|
        0 <= i < parts.len() ==> (#[trigger] parts[i])@ == pieces[i]
}

/// Parses a color name.
fn parse_name(chars: &[char]) -> (color: Option<RgbColor>)
    ensures
        packed_color(color) == named_color(chars@),
{
    if spells(chars, "black") {
        Some(RgbColor::new(0, 0, 0))
    } else if spells(chars, "white") {
        Some(RgbColor::new(255, 255, 255))
    } else if spells(chars, "red") {
        Some(RgbColor::new(255, 0, 0))
    } else if spells(chars, "green") {
        Some(RgbColor::new(0, 255, 0))
    } else if spells(chars, "blue") {
        Some(RgbColor::new(0, 0, 255))
    } else if spells(chars, "yellow") {
        Some(RgbColor::new(255, 255, 0))
    } else if spells(chars, "cyan") {
        Some(RgbColor::new(0, 255, 255))
    } else if spells(chars, "magenta") {
        Some(RgbColor::new(255, 0, 255))
    } else if spells(chars, "gray") || spells(chars, "grey") {
        Some(RgbColor::new(190, 190, 190))
    } else {
        None
    }
}

/// Parses a gray given by its percentage of white.
fn parse_gray_percentage(chars: &[char]) -> (color: Option<RgbColor>)
    ensures
        packed_color(color) == gray_color(chars@),
{
    if !starts_with(chars, "gray") && !starts_with(chars, "grey") {
        return None;
    }
    proof {
        reveal_strlit("gray");
        reveal_strlit("grey");
    }
    let rest = stretch(chars, 4, chars.len());
    assert(rest@ =~= chars@.skip(4));
    match parse_unsigned(rest.as_slice()) {
        Some(percentage) => if percentage <= 100 {
            let channel: u8 = (percentage * 255 / 100) as u8;
            Some(RgbColor::new(channel, channel, channel))
        } else {
            None
        },
        None => None,
    }
}

/// What hexadecimal digits spell is below the power of sixteen with that many digits.
proof fn lemma_hex_number_bounded(text: Seq<char>)
    requires
        color::hexadecimal(text),
    ensures
        color::hex_number(text) < color::power_of_sixteen(text.len() as int),
    decreases text.len(),
{
    if text.len() > 0 {
        assert(color::hex_value(text[text.len() - 1]) is Some);
        assert(color::hexadecimal(text.drop_last())) by {
            assert forall|i: int| 0 <= i < text.len() - 1 implies color::hex_value(
                #[trigger] text.drop_last()[i],
            ) is Some by {
                assert(color::hex_value(text[i]) is Some);
            }
        }
        lemma_hex_number_bounded(text.drop_last());
    }
}

/// A channel fits in a byte.
proof fn lemma_channel_is_a_byte(value: Seq<char>)
    ensures
        channel(value) matches Some(level) ==> 0 <= level <= 255,
{
    if channel(value) is Some {
        let body = if value.len() > 1 && value[0] == '+' {
            value.skip(1)
        } else {
            value
        };
        lemma_hex_number_bounded(body);
        reveal_with_fuel(color::power_of_sixteen, 6);
        let number = color::hex_number(body) as int;
        let greatest = color::power_of_sixteen(value.len() as int) - 1;
        assert(0 <= number * 255 / greatest <= 255) by (nonlinear_arith)
            requires
                0 <= number <= greatest,
                greatest > 0,
        ;
    }
}

/// What an Openbox theme's value spells is a color: three channels and nothing above them.
pub proof fn law_openbox_colors_have_three_channels(value: Seq<char>)
    ensures
        openbox_color(value) matches Some(packed) ==> packed <= 0xff_ffff,
{
    let spelling = text::lower(text::trim(value));
    if color::color_of(spelling) is Some {
        lemma_hex_number_bounded(spelling.skip(1));
        reveal_with_fuel(color::power_of_sixteen, 8);
    } else if short(spelling) {
        assert forall|i: int| 1 <= i < 4 implies (#[trigger] color::hex_value(
            spelling[i],
        ) matches Some(digit) && 0 <= digit < 16) by {
            assert(color::hex_value(spelling.skip(1)[i - 1]) is Some);
        }
    } else if "rgb:"@.is_prefix_of(spelling) {
        let parts = text::pieces(spelling.skip(4), '/');
        lemma_channel_is_a_byte(parts[0]);
        lemma_channel_is_a_byte(parts[1]);
        lemma_channel_is_a_byte(parts[2]);
    }
}

} // verus!
