//! Laws of the colors of Openbox themes.

use vstd::prelude::*;

use crate::config::color;
use crate::config::keys;
use crate::config::openbox_color;
use crate::text;

verus! {

/// What a color is spelled as, the case of its letters and the space around it left aside.
pub open spec fn spells(value: Seq<char>, spelling: Seq<char>) -> bool {
    text::lower(text::trim(value)) == spelling
}

/// The number of two hexadecimal digits is that of the first sixteen times and the second.
proof fn lemma_two_more_digits(digits: Seq<char>, high: char, low: char)
    requires
        color::hex_value(high) is Some,
        color::hex_value(low) is Some,
    ensures
        color::hex_number(digits.push(high).push(low)) == color::hex_number(digits) * 256
            + color::hex_value(high)->Some_0 * 16 + color::hex_value(low)->Some_0,
{
    assert(digits.push(high).drop_last() == digits);
    assert(digits.push(high).push(low).drop_last() == digits.push(high));
    assert(color::hex_number(digits.push(high)) == color::hex_number(digits) * 16
        + color::hex_value(high)->Some_0);
}

/// Three digits behind a number sign spell the color that they spell when each is written twice.
pub proof fn law_short_colors_double_their_digits(
    value: Seq<char>,
    full: Seq<char>,
    red: char,
    green: char,
    blue: char,
)
    requires
        color::hex_value(red) is Some,
        color::hex_value(green) is Some,
        color::hex_value(blue) is Some,
        spells(value, seq!['#', red, green, blue]),
        spells(full, seq!['#', red, red, green, green, blue, blue]),
    ensures
        openbox_color::openbox_color(value) is Some,
        openbox_color::openbox_color(value) == openbox_color::openbox_color(full),
{
    let short = seq!['#', red, green, blue];
    let long = seq!['#', red, red, green, green, blue, blue];
    let nothing = Seq::<char>::empty();
    assert(long.skip(1) == nothing.push(red).push(red).push(green).push(green).push(blue).push(
        blue,
    ));
    assert(color::hex_number(nothing) == 0);
    lemma_two_more_digits(nothing, red, red);
    lemma_two_more_digits(nothing.push(red).push(red), green, green);
    lemma_two_more_digits(nothing.push(red).push(red).push(green).push(green), blue, blue);
    assert(color::hexadecimal(long.skip(1)));
    assert(color::hexadecimal(short.skip(1)));
}

/// One to four digits spell a channel in proportion: none of it as zero, all of it as 255, and
/// what lies between rounded down.
pub proof fn law_channels_are_scaled(value: Seq<char>)
    requires
        1 <= value.len() <= 4,
        color::hexadecimal(value),
    ensures
        openbox_color::channel(value) matches Some(level) && {
            let given = color::hex_number(value) * 255;
            &&& value.len() == 1 ==> level * 0xf <= given < (level + 1) * 0xf
            &&& value.len() == 2 ==> level * 0xff <= given < (level + 1) * 0xff
            &&& value.len() == 3 ==> level * 0xfff <= given < (level + 1) * 0xfff
            &&& value.len() == 4 ==> level * 0xffff <= given < (level + 1) * 0xffff
        },
{
    reveal_with_fuel(color::power_of_sixteen, 5);
    assert(color::hex_value(value[0]) is Some);
    assert(value[0] != '+');
    let given = color::hex_number(value) as int * 255;
    assert(color::power_of_sixteen(1) == 16);
    assert(color::power_of_sixteen(2) == 256);
    assert(color::power_of_sixteen(3) == 4_096);
    assert(color::power_of_sixteen(4) == 65_536);
    let whole = color::power_of_sixteen(value.len() as int) - 1;
    vstd::arithmetic::div_mod::lemma_fundamental_div_mod(given, whole);
    vstd::arithmetic::div_mod::lemma_mod_bound(given, whole);
    let level = given / whole;
    assert(openbox_color::channel(value) == Some(level));
    assert(whole * level == level * whole) by (nonlinear_arith);
    assert((level + 1) * whole == level * whole + whole) by (nonlinear_arith);
}

/// Three channels between slashes spell a color that has them in the order red, green and blue.
pub proof fn law_channels_are_in_order(
    value: Seq<char>,
    red: Seq<char>,
    green: Seq<char>,
    blue: Seq<char>,
)
    requires
        1 <= red.len() <= 4,
        1 <= green.len() <= 4,
        1 <= blue.len() <= 4,
        color::hexadecimal(red),
        color::hexadecimal(green),
        color::hexadecimal(blue),
        spells(value, "rgb:"@ + red + "/"@ + green + "/"@ + blue),
    ensures
        ({
            let high = openbox_color::channel(red)->Some_0;
            let middle = openbox_color::channel(green)->Some_0;
            let low = openbox_color::channel(blue)->Some_0;
            openbox_color::openbox_color(value) == Some(
                (high * 65_536 + middle * 256 + low) as u32,
            )
        }),
{
    reveal_strlit("rgb:");
    reveal_strlit("/");
    let spelling = "rgb:"@ + red + "/"@ + green + "/"@ + blue;
    law_channels_are_scaled(red);
    law_channels_are_scaled(green);
    law_channels_are_scaled(blue);
    assert(spelling[0] == 'r');
    assert("rgb:"@.is_prefix_of(spelling));
    let body = spelling.skip(4);
    assert(!red.contains('/')) by {
        if red.contains('/') {
            let i = red.index_of('/');
            assert(color::hex_value(red[i]) is Some);
        }
    }
    keys::lemma_one_piece(red, '/');
    lemma_one_more_piece(red, green);
    lemma_one_more_piece(red.push('/') + green, blue);
    assert(body == (red.push('/') + green).push('/') + blue);
}

/// Text behind a separator that does not hold one is one more piece.
proof fn lemma_one_more_piece(before: Seq<char>, piece: Seq<char>)
    requires
        color::hexadecimal(piece),
    ensures
        text::pieces(before.push('/') + piece, '/') == text::pieces(before, '/').push(piece),
    decreases piece.len(),
{
    let whole = before.push('/') + piece;
    if piece.len() == 0 {
        assert(piece == Seq::<char>::empty());
        assert(whole == before.push('/'));
        assert(whole.drop_last() == before);
    } else {
        let less = piece.drop_last();
        assert forall|i: int| 0 <= i < less.len() implies color::hex_value(
            #[trigger] less[i],
        ) is Some by {
            assert(color::hex_value(piece[i]) is Some);
        }
        lemma_one_more_piece(before, less);
        assert(whole.drop_last() == before.push('/') + less);
        assert(color::hex_value(piece[piece.len() - 1]) is Some);
        assert(whole.last() == piece.last());
        assert(less.push(piece.last()) == piece);
        assert(text::pieces(before, '/').push(less).drop_last() == text::pieces(before, '/'));
    }
}

/// A percentage behind `gray` or `grey` spells the shade in that proportion to white, rounded
/// down; both spellings are the same color.
pub proof fn law_grays_are_scaled(value: Seq<char>, other: Seq<char>, percentage: Seq<char>)
    requires
        percentage.len() > 0,
        text::unsigned(percentage) matches Some(given) && given <= 100,
        spells(value, "gray"@ + percentage),
        spells(other, "grey"@ + percentage),
    ensures
        openbox_color::openbox_color(value) == openbox_color::openbox_color(other),
        openbox_color::openbox_color(value) matches Some(shade) && exists|level: int|
            shade == #[trigger] (level * 0x1_0101) && level * 100 <= text::unsigned(
                percentage,
            )->Some_0 * 255 < (level + 1) * 100,
{
    let given = text::unsigned(percentage)->Some_0;
    let level = given * 255 / 100;
    lemma_gray_is_scaled("gray"@, percentage);
    lemma_gray_is_scaled("grey"@, percentage);
    assert(level * 0x1_0101 == openbox_color::shade(level));
}

proof fn lemma_gray_is_scaled(name: Seq<char>, percentage: Seq<char>)
    requires
        name == "gray"@ || name == "grey"@,
        percentage.len() > 0,
        text::unsigned(percentage) matches Some(given) && given <= 100,
    ensures
        ({
            let spelling = name + percentage;
            &&& color::color_of(spelling) is None
            &&& !openbox_color::short(spelling)
            &&& !"rgb:"@.is_prefix_of(spelling)
            &&& openbox_color::named_color(spelling) is None
            &&& openbox_color::gray_color(spelling) == Some(
                openbox_color::shade(text::unsigned(percentage)->Some_0 * 255 / 100),
            )
        }),
{
    reveal_strlit("gray");
    reveal_strlit("grey");
    reveal_strlit("rgb:");
    reveal_strlit("black");
    reveal_strlit("white");
    reveal_strlit("red");
    reveal_strlit("green");
    reveal_strlit("blue");
    reveal_strlit("yellow");
    reveal_strlit("cyan");
    reveal_strlit("magenta");
    let spelling = name + percentage;
    assert(spelling[0] == 'g' && spelling[1] == 'r');
    assert(spelling[2] == 'a' || spelling[2] == 'e');
    assert(spelling[3] == 'y');
    assert(spelling.skip(4) == percentage);
    assert(name.is_prefix_of(spelling));
    assert("rgb:"@[0] == 'r');
    assert("black"@[0] == 'b');
    assert("white"@[0] == 'w');
    assert("red"@[0] == 'r');
    assert("green"@[3] == 'e');
    assert("blue"@[0] == 'b');
    assert("yellow"@[0] == 'y');
    assert("cyan"@[0] == 'c');
    assert("magenta"@[0] == 'm');
    if "rgb:"@.is_prefix_of(spelling) {
        assert("rgb:"@[0] == spelling[0]);
    }
}

/// The names of the basic colors spell them, whatever the case of their letters and the space
/// around them.
pub proof fn law_basic_colors_have_names(value: Seq<char>)
    ensures
        spells(value, "black"@) ==> openbox_color::openbox_color(value) == Some(0u32),
        spells(value, "white"@) ==> openbox_color::openbox_color(value) == Some(0xff_ffffu32),
        spells(value, "red"@) ==> openbox_color::openbox_color(value) == Some(0xff_0000u32),
        spells(value, "green"@) ==> openbox_color::openbox_color(value) == Some(0xff00u32),
        spells(value, "blue"@) ==> openbox_color::openbox_color(value) == Some(0xffu32),
        spells(value, "yellow"@) ==> openbox_color::openbox_color(value) == Some(0xff_ff00u32),
        spells(value, "cyan"@) ==> openbox_color::openbox_color(value) == Some(0xffffu32),
        spells(value, "magenta"@) ==> openbox_color::openbox_color(value) == Some(0xff_00ffu32),
        spells(value, "gray"@) ==> openbox_color::openbox_color(value) == Some(0xbe_bebeu32),
        spells(value, "grey"@) ==> openbox_color::openbox_color(value) == Some(0xbe_bebeu32),
{
    reveal_strlit("rgb:");
    reveal_strlit("black");
    reveal_strlit("white");
    reveal_strlit("red");
    reveal_strlit("green");
    reveal_strlit("blue");
    reveal_strlit("yellow");
    reveal_strlit("cyan");
    reveal_strlit("magenta");
    reveal_strlit("gray");
    reveal_strlit("grey");
    assert("black"@.len() == 5 && "black"@[0] == 'b' && "black"@[2] == 'a');
    assert("white"@.len() == 5 && "white"@[0] == 'w' && "white"@[2] == 'i');
    assert("red"@.len() == 3 && "red"@[0] == 'r' && "red"@[2] == 'd');
    assert("green"@.len() == 5 && "green"@[0] == 'g' && "green"@[2] == 'e');
    assert("blue"@.len() == 4 && "blue"@[0] == 'b' && "blue"@[2] == 'u');
    assert("yellow"@.len() == 6 && "yellow"@[0] == 'y' && "yellow"@[2] == 'l');
    assert("cyan"@.len() == 4 && "cyan"@[0] == 'c' && "cyan"@[2] == 'a');
    assert("magenta"@.len() == 7 && "magenta"@[0] == 'm' && "magenta"@[2] == 'g');
    assert("gray"@.len() == 4 && "gray"@[0] == 'g' && "gray"@[2] == 'a');
    assert("grey"@.len() == 4 && "grey"@[0] == 'g' && "grey"@[2] == 'e');
    let spelling = text::lower(text::trim(value));
    if "rgb:"@.is_prefix_of(spelling) {
        assert("rgb:"@[0] == spelling[0]);
        assert("rgb:"@[1] == spelling[1]);
    }
    assert("red"@[1] == 'e');
}

} // verus!
