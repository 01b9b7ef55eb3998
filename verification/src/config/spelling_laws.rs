//! Laws of spelled values: amounts, positions, modifiers, buttons, and names.

use vstd::prelude::*;

use crate::config::amounts;
use crate::config::amounts::{AxisPosition, OutputTarget, Positive, RelativeAmount};
use crate::config::keys;
use crate::config::keys::KeyboardModifier;
use crate::config::pointer;
use crate::config::pointer::{MouseButton, MouseContext, MouseTrigger};
use crate::config::rules::{
    ApplicationMaximized, ApplicationWorkspace, ApplicationWorkspaceError,
};
use crate::text;

verus! {

/// Text behind which a character follows that is not in it.
proof fn lemma_first_at(start: Seq<char>, wanted: char, rest: Seq<char>)
    requires
        !start.contains(wanted),
    ensures
        text::position(start + seq![wanted] + rest, wanted) == Some(start.len() as int),
        (start + seq![wanted] + rest).take(start.len() as int) == start,
        (start + seq![wanted] + rest).skip(start.len() as int + 1) == rest,
{
    let all = start + seq![wanted] + rest;
    text::lemma_position(all, wanted);
    assert(all[start.len() as int] == wanted);
    let found = text::position(all, wanted);
    assert(found is Some) by {
        if found is None {
            assert(all.contains(wanted));
        }
    }
    let at = found->Some_0;
    if at < start.len() {
        assert(start[at] == wanted);
    }
    if at > start.len() {
        assert(all.take(at)[start.len() as int] == wanted);
    }
    assert(all.take(start.len() as int) =~= start);
    assert(all.skip(start.len() as int + 1) =~= rest);
}

/// Numbers are spelled with digits behind at most one sign.
proof fn lemma_spelled_number(number: Seq<char>)
    requires
        text::signed(number) is Some,
    ensures
        number.len() > 0,
        forall|i: int| 0 <= i < number.len()
            ==> text::digit(#[trigger] number[i]) || number[i] == '-'
            || number[i] == '+',
{
    let signed = number.len() > 0 && (number[0] == '+' || number[0] == '-');
    let body = if signed {
        number.skip(1)
    } else {
        number
    };
    assert(text::digits(body));
    assert forall|i: int| 0 <= i < number.len() implies text::digit(#[trigger] number[i])
        || number[i] == '-' || number[i] == '+' by {
        if signed {
            if i > 0 {
                assert(text::digit(body[i - 1]));
            }
        } else {
            assert(text::digit(body[i]));
        }
    }
}

/// A number is an amount of pixels, a number with a percent sign behind it is so many hundredths,
/// and a number with a slash and another one behind it, which is not zero, is a fraction.
pub proof fn law_amounts_are_spelled(number: Seq<char>, divisor: Seq<char>)
    requires
        text::signed(number) is Some,
        text::unsigned(divisor) is Some,
    ensures
        ({
            let value = text::signed(number)->Some_0;
            let parts = text::unsigned(divisor)->Some_0;
            &&& amounts::amount_of(number) == Some(RelativeAmount::Pixels(value))
            &&& amounts::amount_of(number + seq!['%']) == Some(
                RelativeAmount::Fraction { numerator: value, denominator: Positive::of(100) },
            )
            &&& parts > 0 ==> amounts::amount_of(number + seq!['/'] + divisor) == Some(
                RelativeAmount::Fraction { numerator: value, denominator: Positive::of(parts) },
            )
            &&& parts == 0 ==> amounts::amount_of(number + seq!['/'] + divisor) is None
        }),
{
    lemma_spelled_number(number);
    assert(text::digit(number[0]) || number[0] == '-' || number[0] == '+');
    assert(text::digit(number[number.len() - 1]) || number[number.len() - 1] == '-'
        || number[number.len() - 1] == '+');
    text::lemma_position(number, '/');
    assert(!number.contains('/')) by {
        if number.contains('/') {
            let i = choose|i: int| 0 <= i < number.len() && number[i] == '/';
            assert(text::digit(number[i]) || number[i] == '-' || number[i] == '+');
        }
    }
    let percent = number + seq!['%'];
    assert(percent.last() == '%');
    assert(percent.first() == number[0]);
    assert(percent.drop_last() =~= number);
    let fraction = number + seq!['/'] + divisor;
    lemma_first_at(number, '/', divisor);
    assert(fraction.first() == number[0]);
    let body = if divisor.len() > 0 && divisor[0] == '+' {
        divisor.skip(1)
    } else {
        divisor
    };
    assert(text::digits(body));
    assert(body[body.len() - 1] == divisor[divisor.len() - 1]);
    assert(text::digit(body[body.len() - 1]));
    assert(fraction.last() == divisor[divisor.len() - 1]);
}

/// Pixels do not depend on what they are measured against. A fraction of a reference is the whole
/// pixels in it, and the same with the other sign for the fraction with the other sign.
pub proof fn law_fractions_are_rounded_toward_zero(
    numerator: i32,
    denominator: Positive,
    reference: u32,
)
    requires
        0 <= numerator,
        denominator.value() > 0,
        numerator * reference <= i32::MAX * denominator.value(),
    ensures
        (RelativeAmount::Pixels(numerator)).resolved(reference) == numerator,
        ({
            let whole = (RelativeAmount::Fraction { numerator, denominator }).resolved(reference);
            let opposite = (RelativeAmount::Fraction {
                numerator: (-numerator) as i32,
                denominator,
            }).resolved(reference);
            &&& whole * denominator.value() <= numerator * reference
            &&& numerator * reference < (whole + 1) * denominator.value()
            &&& opposite == -whole
        }),
{
    let d = denominator.value() as int;
    let product = numerator * reference;
    assert(product >= 0) by (nonlinear_arith)
        requires
            numerator >= 0,
            reference >= 0,
            product == numerator * reference,
    ;
    vstd::arithmetic::div_mod::lemma_fundamental_div_mod(product, d);
    vstd::arithmetic::div_mod::lemma_mod_bound(product, d);
    let whole = product / d;
    vstd::arithmetic::mul::lemma_mul_is_commutative(d, whole);
    assert((whole + 1) * d == whole * d + d) by (nonlinear_arith);
    assert(0 <= whole <= i32::MAX) by (nonlinear_arith)
        requires
            whole * d <= product,
            product <= i32::MAX * d,
            product >= 0,
            d > 0,
            product < (whole + 1) * d,
    ;
    assert((-numerator) * reference == -product) by (nonlinear_arith)
        requires
            product == numerator * reference,
    ;
}

/// An amount that is not negative is counted from the start, with or without a plus sign in front
/// of it, and from the end with a minus sign; `center` in any case is the middle.
pub proof fn law_positions_are_spelled(spelling: Seq<char>)
    requires
        amounts::amount_of(spelling) is Some,
        !amounts::amount_of(spelling)->Some_0.negative(),
        spelling[0] != '-',
        spelling[0] != '+',
        text::lower(spelling) != "center"@,
    ensures
        ({
            let amount = amounts::amount_of(spelling)->Some_0;
            &&& amounts::axis_of(spelling) == Some(AxisPosition::Start(amount))
            &&& amounts::axis_of(seq!['+'] + spelling) == Some(AxisPosition::Start(amount))
            &&& amounts::axis_of(seq!['-'] + spelling) == Some(AxisPosition::End(amount))
        }),
{
    reveal_strlit("center");
    assert((seq!['+'] + spelling).skip(1) =~= spelling);
    assert((seq!['-'] + spelling).skip(1) =~= spelling);
    assert(text::lower(seq!['+'] + spelling)[0] == text::lowered('+'));
    assert(text::lower(seq!['-'] + spelling)[0] == text::lowered('-'));
    assert("center"@[0] == 'c');
}

/// Pixels that are not negative are counted from the start and others, without their sign, from
/// the end; `center` is spelled in any case.
pub proof fn law_pixels_are_positions(pixels: i32, spelling: Seq<char>)
    ensures
        pixels >= 0 ==> AxisPosition::at_pixels(pixels) == Some(
            AxisPosition::Start(RelativeAmount::Pixels(pixels)),
        ),
        i32::MIN < pixels < 0 ==> AxisPosition::at_pixels(pixels) == Some(
            AxisPosition::End(RelativeAmount::Pixels((-pixels) as i32)),
        ),
        text::lower(spelling) == "center"@ ==> amounts::axis_of(spelling) == Some(
            AxisPosition::Center,
        ),
{
}

/// Whether the lower-case form of a spelling is one of two words.
pub open spec fn is_either(spelling: Seq<char>, one: Seq<char>, other: Seq<char>) -> bool {
    text::lower(spelling) == one || text::lower(spelling) == other
}

/// Outputs are named in any case, or numbered from one.
pub proof fn law_outputs_are_spelled(spelling: Seq<char>)
    ensures
        is_either(spelling, "current"@, "current"@) ==> amounts::target_of(spelling) == Some(
            OutputTarget::Current,
        ),
        is_either(spelling, "primary"@, "primary"@) ==> amounts::target_of(spelling) == Some(
            OutputTarget::Primary,
        ),
        is_either(spelling, "pointer"@, "mouse"@) ==> amounts::target_of(spelling) == Some(
            OutputTarget::Pointer,
        ),
        is_either(spelling, "next"@, "next"@) ==> amounts::target_of(spelling) == Some(
            OutputTarget::Next,
        ),
        is_either(spelling, "previous"@, "prev"@) ==> amounts::target_of(spelling) == Some(
            OutputTarget::Previous,
        ),
        is_either(spelling, "all"@, "all"@) ==> amounts::target_of(spelling) == Some(
            OutputTarget::All,
        ),
        text::unsigned(spelling) matches Some(index) ==> (index > 0 ==> amounts::target_of(
            spelling,
        ) == Some(OutputTarget::Index(Positive::of(index)))) && (index == 0 ==> amounts::target_of(
            spelling,
        ) is None),
{
    reveal_strlit("current");
    reveal_strlit("primary");
    reveal_strlit("pointer");
    reveal_strlit("mouse");
    reveal_strlit("next");
    reveal_strlit("previous");
    reveal_strlit("prev");
    reveal_strlit("all");
    assert("current"@[0] == 'c' && "mouse"@[0] == 'm' && "next"@[0] == 'n' && "all"@[0] == 'a');
    assert("primary"@.len() == 7 && "pointer"@.len() == 7 && "previous"@.len() == 8 && "prev"@.len()
        == 4 && "next"@.len() == 4);
    assert("primary"@[0] == 'p' && "pointer"@[0] == 'p' && "previous"@[0] == 'p' && "prev"@[0]
        == 'p');
    assert("primary"@[1] == 'r' && "pointer"@[1] == 'o');
    if text::unsigned(spelling) is Some {
        let body = if spelling.len() > 0 && spelling[0] == '+' {
            spelling.skip(1)
        } else {
            spelling
        };
        assert(text::digits(body));
        assert(text::digit(body[body.len() - 1]));
        assert(spelling[spelling.len() - 1] == body[body.len() - 1]);
        let lowered = text::lower(spelling);
        assert(lowered[lowered.len() - 1] == text::lowered(spelling[spelling.len() - 1]));
    }
}

/// Whether the lower-case form of a name is one of three words.
pub open spec fn is_one_of(name: Seq<char>, a: Seq<char>, b: Seq<char>, c: Seq<char>) -> bool {
    text::lower(name) == a || text::lower(name) == b || text::lower(name) == c
}

/// Modifiers have a letter and names, in any case.
pub proof fn law_modifiers_are_spelled(name: Seq<char>)
    ensures
        is_one_of(name, "c"@, "ctrl"@, "control"@) ==> keys::modifier_of(name) == Some(
            KeyboardModifier::Control,
        ),
        is_one_of(name, "a"@, "alt"@, "alt"@) ==> keys::modifier_of(name) == Some(
            KeyboardModifier::Alt,
        ),
        is_one_of(name, "s"@, "shift"@, "shift"@) ==> keys::modifier_of(name) == Some(
            KeyboardModifier::Shift,
        ),
        is_one_of(name, "w"@, "super"@, "super"@) ==> keys::modifier_of(name) == Some(
            KeyboardModifier::Super,
        ),
        keys::modifier_of(name) is Some ==> is_one_of(name, "c"@, "ctrl"@, "control"@) || is_one_of(
            name,
            "a"@,
            "alt"@,
            "alt"@,
        ) || is_one_of(name, "s"@, "shift"@, "shift"@) || is_one_of(
            name,
            "w"@,
            "super"@,
            "super"@,
        ),
{
    reveal_strlit("c");
    reveal_strlit("ctrl");
    reveal_strlit("control");
    reveal_strlit("a");
    reveal_strlit("alt");
    reveal_strlit("s");
    reveal_strlit("shift");
    reveal_strlit("w");
    reveal_strlit("super");
    assert("c"@[0] == 'c' && "ctrl"@[0] == 'c' && "control"@[0] == 'c');
    assert("a"@[0] == 'a' && "alt"@[0] == 'a');
    assert("s"@[0] == 's' && "shift"@[0] == 's' && "super"@[0] == 's');
    assert("shift"@[1] == 'h' && "super"@[1] == 'u');
    assert("s"@.len() == 1 && "super"@.len() == 5);
    assert("w"@[0] == 'w');
}

/// The place of a modifier in a chord.
pub open spec fn place(modifier: KeyboardModifier) -> int {
    match modifier {
        KeyboardModifier::Control => 0,
        KeyboardModifier::Alt => 1,
        KeyboardModifier::Shift => 2,
        KeyboardModifier::Super => 3,
    }
}

/// A chord holds each of the given modifiers once and no other, in the order of control, alt,
/// shift, and super.
pub proof fn law_modifiers_are_held_once_in_order(
    given: Seq<KeyboardModifier>,
    modifier: KeyboardModifier,
)
    ensures
        keys::canonical(given).contains(modifier) <==> given.contains(modifier),
        forall|i: int, j: int|
            0 <= i < j < keys::canonical(given).len() ==> place(
                #[trigger] keys::canonical(given)[i],
            ) < place(#[trigger] keys::canonical(given)[j]),
{
    let all = keys::canonical(given);
    let control = given.contains(KeyboardModifier::Control);
    let alt = given.contains(KeyboardModifier::Alt);
    let shift = given.contains(KeyboardModifier::Shift);
    let after_control = if control {
        1int
    } else {
        0
    };
    let after_alt = after_control + if alt {
        1int
    } else {
        0
    };
    let after_shift = after_alt + if shift {
        1int
    } else {
        0
    };
    if given.contains(modifier) {
        match modifier {
            KeyboardModifier::Control => {
                assert(all[0] == modifier);
            },
            KeyboardModifier::Alt => {
                assert(all[after_control] == modifier);
            },
            KeyboardModifier::Shift => {
                assert(all[after_alt] == modifier);
            },
            KeyboardModifier::Super => {
                assert(all[after_shift] == modifier);
            },
        }
    }
    if all.contains(modifier) {
        let k = choose|k: int| 0 <= k < all.len() && all[k] == modifier;
        assert(given.contains(all[k]));
    }
}

/// Chords that name a modifier twice are refused, and so are chords that name none that exists.
pub proof fn law_modifiers_are_named_once(names: Seq<Seq<char>>, name: Seq<char>)
    ensures
        keys::modifier_of(name) is None ==> keys::modifiers_of(names.push(name)) is None,
        keys::modifiers_of(names) is None ==> keys::modifiers_of(names.push(name)) is None,
        keys::modifiers_of(names) matches Some(before) ==> (keys::modifier_of(name) matches Some(
            modifier,
        ) ==> {
            &&& before.contains(modifier) ==> keys::modifiers_of(names.push(name)) is None
            &&& !before.contains(modifier) ==> keys::modifiers_of(names.push(name)) == Some(
                before.push(modifier),
            )
        }),
{
    assert(names.push(name).drop_last() =~= names);
}

/// The five buttons are numbered from left to right and then the wheel up and down, and each is
/// named by its name, its number, and its number behind `button`, in any case.
pub proof fn law_buttons_are_spelled(name: Seq<char>)
    ensures
        is_one_of(name, "left"@, "button1"@, "1"@) ==> pointer::button_of(name) == Some(
            MouseButton::Left,
        ),
        is_one_of(name, "middle"@, "button2"@, "2"@) ==> pointer::button_of(name) == Some(
            MouseButton::Middle,
        ),
        is_one_of(name, "right"@, "button3"@, "3"@) ==> pointer::button_of(name) == Some(
            MouseButton::Right,
        ),
        is_one_of(name, "up"@, "button4"@, "4"@) ==> pointer::button_of(name) == Some(
            MouseButton::Up,
        ),
        is_one_of(name, "down"@, "button5"@, "5"@) ==> pointer::button_of(name) == Some(
            MouseButton::Down,
        ),
        pointer::button_of(name) matches Some(button) ==> {
            &&& button.code() == 1 ==> is_one_of(name, "left"@, "button1"@, "1"@)
            &&& button.code() == 2 ==> is_one_of(name, "middle"@, "button2"@, "2"@)
            &&& button.code() == 3 ==> is_one_of(name, "right"@, "button3"@, "3"@)
            &&& button.code() == 4 ==> is_one_of(name, "up"@, "button4"@, "4"@)
            &&& button.code() == 5 ==> is_one_of(name, "down"@, "button5"@, "5"@)
            &&& 1 <= button.code() <= 5
        },
{
    reveal_strlit("left");
    reveal_strlit("middle");
    reveal_strlit("right");
    reveal_strlit("up");
    reveal_strlit("down");
    reveal_strlit("button1");
    reveal_strlit("button2");
    reveal_strlit("button3");
    reveal_strlit("button4");
    reveal_strlit("button5");
    reveal_strlit("1");
    reveal_strlit("2");
    reveal_strlit("3");
    reveal_strlit("4");
    reveal_strlit("5");
    assert("left"@[0] == 'l' && "middle"@[0] == 'm' && "right"@[0] == 'r' && "up"@[0] == 'u'
        && "down"@[0] == 'd');
    assert("button1"@[6] == '1' && "button2"@[6] == '2' && "button3"@[6] == '3' && "button4"@[6]
        == '4' && "button5"@[6] == '5');
    assert("button1"@[0] == 'b' && "button2"@[0] == 'b' && "button3"@[0] == 'b' && "button4"@[0]
        == 'b' && "button5"@[0] == 'b');
    assert("1"@[0] == '1' && "2"@[0] == '2' && "3"@[0] == '3' && "4"@[0] == '4' && "5"@[0] == '5');
}

/// A workspace is assigned by its number, counted from one, or as `all` in any case; zero and
/// anything else is refused.
pub proof fn law_assigned_workspaces_are_spelled(spelling: Seq<char>)
    ensures
        text::lower(spelling) == "all"@ ==> ApplicationWorkspace::spelled(spelling) == (Ok::<
            ApplicationWorkspace,
            ApplicationWorkspaceError,
        >(ApplicationWorkspace::All)),
        text::lower(spelling) != "all"@ && text::unsigned(spelling) is None
            ==> ApplicationWorkspace::spelled(spelling) == (Err::<
            ApplicationWorkspace,
            ApplicationWorkspaceError,
        >(ApplicationWorkspaceError::NotAWorkspace)),
        text::lower(spelling) != "all"@ ==> (text::unsigned(spelling) matches Some(index) ==> {
            &&& index == 0 ==> ApplicationWorkspace::spelled(spelling) == (Err::<
                ApplicationWorkspace,
                ApplicationWorkspaceError,
            >(ApplicationWorkspaceError::Zero))
            &&& index > 0 ==> ApplicationWorkspace::spelled(spelling) == (Ok::<
                ApplicationWorkspace,
                ApplicationWorkspaceError,
            >(ApplicationWorkspace::Index(Positive::of(index))))
        }),
{
}

/// Maximized axes are spelled in any case: none, one of the two in full or for short, or both.
pub proof fn law_maximized_axes_are_spelled(spelling: Seq<char>)
    ensures
        is_either(spelling, "none"@, "none"@) ==> ApplicationMaximized::spelled(spelling) == Some(
            ApplicationMaximized::Neither,
        ),
        is_either(spelling, "horizontal"@, "horiz"@) ==> ApplicationMaximized::spelled(spelling)
            == Some(ApplicationMaximized::Horizontal),
        is_either(spelling, "vertical"@, "vert"@) ==> ApplicationMaximized::spelled(spelling)
            == Some(ApplicationMaximized::Vertical),
        is_either(spelling, "both"@, "both"@) ==> ApplicationMaximized::spelled(spelling) == Some(
            ApplicationMaximized::Both,
        ),
        ApplicationMaximized::spelled(spelling) is Some ==> is_either(
            spelling,
            "none"@,
            "both"@,
        ) || is_either(spelling, "horizontal"@, "horiz"@) || is_either(
            spelling,
            "vertical"@,
            "vert"@,
        ),
{
    reveal_strlit("none");
    reveal_strlit("horizontal");
    reveal_strlit("horiz");
    reveal_strlit("vertical");
    reveal_strlit("vert");
    reveal_strlit("both");
    assert("none"@[0] == 'n' && "horizontal"@[0] == 'h' && "horiz"@[0] == 'h' && "vertical"@[0]
        == 'v' && "vert"@[0] == 'v' && "both"@[0] == 'b');
}

/// Each phase of a gesture has a name of its own.
pub proof fn law_triggers_have_their_own_names(one: MouseTrigger, other: MouseTrigger)
    ensures
        one.name() == other.name() ==> one == other,
        one == MouseTrigger::Press <==> one.name() == "press"@,
        one == MouseTrigger::Release <==> one.name() == "release"@,
        one == MouseTrigger::Click <==> one.name() == "click"@,
        one == MouseTrigger::DoubleClick <==> one.name() == "double_click"@,
        one == MouseTrigger::Drag <==> one.name() == "drag"@,
{
    reveal_strlit("press");
    reveal_strlit("release");
    reveal_strlit("click");
    reveal_strlit("double_click");
    reveal_strlit("drag");
    assert("press"@[0] == 'p' && "release"@[0] == 'r' && "click"@[0] == 'c');
    assert("double_click"@[0] == 'd' && "drag"@[0] == 'd');
    assert("double_click"@.len() == 12 && "drag"@.len() == 4);
}

/// The letters and the length by which the names of contexts differ.
spec fn mark(name: Seq<char>) -> (nat, char, char) {
    (name.len(), name[0], name[name.len() - 1])
}

/// Each place that a gesture can begin at has a name of its own.
pub proof fn law_contexts_have_their_own_names(one: MouseContext, other: MouseContext)
    ensures
        one.name() == other.name() ==> one == other,
{
    reveal_strlit("root");
    reveal_strlit("desktop");
    reveal_strlit("client");
    reveal_strlit("frame");
    reveal_strlit("titlebar");
    reveal_strlit("border");
    reveal_strlit("top");
    reveal_strlit("bottom");
    reveal_strlit("left");
    reveal_strlit("right");
    reveal_strlit("top_left");
    reveal_strlit("top_right");
    reveal_strlit("bottom_left");
    reveal_strlit("bottom_right");
    reveal_strlit("minimize");
    reveal_strlit("maximize");
    reveal_strlit("close");
    assert(mark("root"@) == (4nat, 'r', 't'));
    assert(mark("desktop"@) == (7nat, 'd', 'p'));
    assert(mark("client"@) == (6nat, 'c', 't'));
    assert(mark("frame"@) == (5nat, 'f', 'e'));
    assert(mark("titlebar"@) == (8nat, 't', 'r'));
    assert(mark("border"@) == (6nat, 'b', 'r'));
    assert(mark("top"@) == (3nat, 't', 'p'));
    assert(mark("bottom"@) == (6nat, 'b', 'm'));
    assert(mark("left"@) == (4nat, 'l', 't'));
    assert(mark("right"@) == (5nat, 'r', 't'));
    assert(mark("top_left"@) == (8nat, 't', 't'));
    assert(mark("top_right"@) == (9nat, 't', 't'));
    assert(mark("bottom_left"@) == (11nat, 'b', 't'));
    assert(mark("bottom_right"@) == (12nat, 'b', 't'));
    assert(mark("minimize"@) == (8nat, 'm', 'e'));
    assert(mark("maximize"@) == (8nat, 'm', 'e'));
    assert("minimize"@[1] == 'i' && "maximize"@[1] == 'a');
    assert(mark("close"@) == (5nat, 'c', 'e'));
    assert(one.name() == other.name() ==> mark(one.name()) == mark(other.name()));
}

} // verus!
