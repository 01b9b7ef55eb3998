//! Amounts and positions relative to a screen area.

use vstd::prelude::*;

use crate::config::keys::is_word;
use crate::num;
use crate::text;
use crate::text::{characters, find, is_trimmed, lower_chars, parse_signed, parse_unsigned, stretch};

verus! {

/// A number of at least one.
#[derive(Clone, Copy, Debug, PartialEq, Eq, PartialOrd, Ord, Structural)]
pub struct Positive(u32);

impl Positive {
    #[verifier::type_invariant]
    spec fn not_zero(self) -> bool {
        self.0 > 0
    }

    /// The number itself.
    pub closed spec fn value(self) -> u32 {
        self.0
    }

    /// The value that holds a number.
    pub closed spec fn of(value: u32) -> Positive {
        Positive(value)
    }

    /// Wraps a number unless it is zero.
    #[must_use]
    pub fn new(value: u32) -> (wrapped: Option<Self>)
        ensures
            wrapped == (if value > 0 {
                Some(Positive::of(value))
            } else {
                None
            }),
    {
        if value > 0 {
            Some(Positive(value))
        } else {
            None
        }
    }

    /// Returns the number.
    #[must_use]
    pub fn get(self) -> (value: u32)
        ensures
            value == self.value(),
            value > 0,
            self == Positive::of(value),
    {
        proof {
            use_type_invariant(&self);
        }
        self.0
    }
}

/// A signed pixel amount or fraction of a context-dependent reference size.
#[derive(Clone, Copy, Debug, PartialEq, Eq, Structural)]
pub enum RelativeAmount {
    /// Fixed number of pixels.
    Pixels(i32),
    /// Signed fraction such as `50%` or `1/3`.
    Fraction {
        /// Signed numerator.
        numerator: i32,
        /// Strictly positive denominator.
        denominator: Positive,
    },
}

/// Invalid relative pixel, percentage, or fraction syntax.
#[derive(Clone, Debug, PartialEq, Eq)]
pub struct RelativeAmountError(String);

impl RelativeAmountError {
    /// The text that was refused.
    pub closed spec fn refused(self) -> Seq<char> {
        self.0@
    }
}

impl Default for RelativeAmount {
    /// No pixels.
    fn default() -> (amount: Self)
        ensures
            amount == RelativeAmount::Pixels(0),
    {
        RelativeAmount::Pixels(0)
    }
}

/// The quotient rounded toward zero.
pub open spec fn quotient(dividend: int, divisor: int) -> int {
    if dividend >= 0 {
        dividend / divisor
    } else {
        -((-dividend) / divisor)
    }
}

/// The amount that text spells: an integer, `N%`, or `N/D`.
pub open spec fn amount_of(text: Seq<char>) -> Option<RelativeAmount> {
    if text.len() == 0 || !text::trimmed(text) {
        None
    } else if text.last() == '%' {
        match text::signed(text.drop_last()) {
            Some(numerator) => Some(
                RelativeAmount::Fraction { numerator, denominator: Positive::of(100) },
            ),
            None => None,
        }
    } else {
        match text::position(text, '/') {
            Some(slash) => match (
                text::signed(text.take(slash)),
                text::unsigned(text.skip(slash + 1)),
            ) {
                (Some(numerator), Some(denominator)) => if denominator > 0 {
                    Some(
                        RelativeAmount::Fraction {
                            numerator,
                            denominator: Positive::of(denominator),
                        },
                    )
                } else {
                    None
                },
                _ => None,
            },
            None => match text::signed(text) {
                Some(pixels) => Some(RelativeAmount::Pixels(pixels)),
                None => None,
            },
        }
    }
}

impl RelativeAmount {
    /// The amount against a reference size, as a signed coordinate.
    pub open spec fn resolved(self, reference: u32) -> i32 {
        match self {
            RelativeAmount::Pixels(pixels) => pixels,
            RelativeAmount::Fraction { numerator, denominator } => num::coordinate(
                quotient(numerator * reference, denominator.value() as int),
            ) as i32,
        }
    }

    /// Whether the amount is above zero.
    pub open spec fn positive(self) -> bool {
        match self {
            RelativeAmount::Pixels(pixels) => pixels > 0,
            RelativeAmount::Fraction { numerator, .. } => numerator > 0,
        }
    }

    /// Whether the amount is below zero.
    pub open spec fn negative(self) -> bool {
        match self {
            RelativeAmount::Pixels(pixels) => pixels < 0,
            RelativeAmount::Fraction { numerator, .. } => numerator < 0,
        }
    }

    /// Resolves the amount against a width or height with saturating arithmetic.
    #[must_use]
    pub fn resolve(self, reference: u32) -> (pixels: i32)
        ensures
            pixels == self.resolved(reference),
    {
        match self {
            RelativeAmount::Pixels(pixels) => pixels,
            RelativeAmount::Fraction { numerator, denominator } => {
                let divisor: u64 = denominator.get() as u64;
                let negative = numerator < 0;
                let magnitude: u64 = if negative {
                    (-(numerator as i64)) as u64
                } else {
                    numerator as u64
                };
                assert(magnitude * reference <= 0x8000_0000 * 0xffff_ffff) by (nonlinear_arith)
                    requires
                        magnitude <= 0x8000_0000,
                        reference <= 0xffff_ffff,
                ;
                let scaled: u64 = magnitude * reference as u64;
                let amount: u64 = scaled / divisor;
                assert(amount <= scaled) by (nonlinear_arith)
                    requires
                        amount == scaled / divisor,
                        divisor > 0,
                ;
                assert(numerator * reference == if negative {
                    -(scaled as int)
                } else {
                    scaled as int
                }) by (nonlinear_arith)
                    requires
                        negative == (numerator < 0),
                        magnitude == (if negative {
                            -(numerator as int)
                        } else {
                            numerator as int
                        }),
                        scaled == magnitude * reference,
                ;
                if negative && scaled > 0 {
                    num::clamp_i64_to_i32(-(amount as i64))
                } else {
                    num::clamp_i64_to_i32(amount as i64)
                }
            },
        }
    }

    pub(crate) fn is_positive(self) -> (r: bool)
        ensures
            r == self.positive(),
    {
        match self {
            RelativeAmount::Pixels(pixels) => pixels > 0,
            RelativeAmount::Fraction { numerator, .. } => numerator > 0,
        }
    }

    pub(crate) fn is_negative(self) -> (r: bool)
        ensures
            r == self.negative(),
    {
        match self {
            RelativeAmount::Pixels(pixels) => pixels < 0,
            RelativeAmount::Fraction { numerator, .. } => numerator < 0,
        }
    }

    fn parse_chars(value: &str, chars: &[char]) -> (parsed: Option<Self>)
        requires
            value@ == chars@,
        ensures
            parsed == amount_of(value@),
    {
        if chars.len() == 0 || !is_trimmed(value) {
            return None;
        }
        let length = chars.len();
        if chars[length - 1] == '%' {
            let numerator = stretch(chars, 0, length - 1);
            assert(chars@.subrange(0, length - 1) =~= chars@.drop_last());
            return match parse_signed(numerator.as_slice()) {
                Some(numerator) => match Positive::new(100) {
                    Some(denominator) => Some(RelativeAmount::Fraction { numerator, denominator }),
                    None => None,
                },
                None => None,
            };
        }
        match find(chars, '/') {
            Some(slash) => {
                let numerator = stretch(chars, 0, slash);
                let denominator = stretch(chars, slash + 1, length);
                assert(chars@.subrange(0, slash as int) =~= chars@.take(slash as int));
                assert(chars@.subrange(slash + 1, length as int) =~= chars@.skip(slash + 1));
                match (parse_signed(numerator.as_slice()), parse_unsigned(denominator.as_slice())) {
                    (Some(numerator), Some(denominator)) => match Positive::new(denominator) {
                        Some(denominator) => Some(
                            RelativeAmount::Fraction { numerator, denominator },
                        ),
                        None => None,
                    },
                    _ => None,
                }
            },
            None => match parse_signed(chars) {
                Some(pixels) => Some(RelativeAmount::Pixels(pixels)),
                None => None,
            },
        }
    }

    /// Parses an integer, `N%`, or `N/D`.
    ///
    /// # Errors
    ///
    /// Returns an error for any other text.
    pub fn parse(value: &str) -> (parsed: Result<Self, RelativeAmountError>)
        ensures
            match parsed {
                Ok(amount) => amount_of(value@) == Some(amount),
                Err(error) => amount_of(value@) is None && error.refused() == value@,
            },
    {
        let chars = characters(value);
        match Self::parse_chars(value, chars.as_slice()) {
            Some(amount) => Ok(amount),
            None => Err(RelativeAmountError(value.to_owned())),
        }
    }
}

impl core::str::FromStr for RelativeAmount {
    type Err = RelativeAmountError;

    fn from_str(value: &str) -> (parsed: Result<Self, RelativeAmountError>)
        ensures
            match parsed {
                Ok(amount) => amount_of(value@) == Some(amount),
                Err(error) => amount_of(value@) is None && error.refused() == value@,
            },
    {
        Self::parse(value)
    }
}

/// Strictly positive pixel amount or fraction used for geometry dimensions.
#[derive(Clone, Copy, Debug, PartialEq, Eq, Structural)]
pub struct PositiveRelativeAmount(RelativeAmount);

/// A geometry dimension was zero or negative.
#[derive(Clone, Copy, Debug, PartialEq, Eq, Structural)]
pub struct PositiveRelativeAmountError;

impl PositiveRelativeAmount {
    #[verifier::type_invariant]
    spec fn above_zero(self) -> bool {
        self.0.positive()
    }

    /// The amount itself.
    pub closed spec fn amount(self) -> RelativeAmount {
        self.0
    }

    /// Resolves the configured dimension to at least one pixel.
    #[must_use]
    pub fn resolve(self, reference: u32) -> (pixels: u32)
        ensures
            pixels == num::greater(self.amount().resolved(reference) as int, 1),
    {
        proof {
            use_type_invariant(&self);
        }
        let resolved = self.0.resolve(reference);
        if resolved < 1 {
            1
        } else {
            resolved as u32
        }
    }
}

impl TryFrom<RelativeAmount> for PositiveRelativeAmount {
    type Error = PositiveRelativeAmountError;

    /// Wraps an amount above zero.
    ///
    /// # Errors
    ///
    /// Returns an error for zero and for negative amounts.
    fn try_from(amount: RelativeAmount) -> (wrapped: Result<Self, PositiveRelativeAmountError>)
        ensures
            match wrapped {
                Ok(wrapped) => amount.positive() && wrapped.amount() == amount,
                Err(_) => !amount.positive(),
            },
    {
        if amount.is_positive() {
            Ok(PositiveRelativeAmount(amount))
        } else {
            Err(PositiveRelativeAmountError)
        }
    }
}

impl vstd::std_specs::convert::TryFromSpecImpl<RelativeAmount> for PositiveRelativeAmount {
    open spec fn obeys_try_from_spec() -> bool {
        true
    }

    closed spec fn try_from_spec(amount: RelativeAmount) -> Result<
        Self,
        PositiveRelativeAmountError,
    > {
        if amount.positive() {
            Ok(PositiveRelativeAmount(amount))
        } else {
            Err(PositiveRelativeAmountError)
        }
    }
}

/// Gravity-style position of one axis within a selected work area.
#[derive(Clone, Copy, Debug, PartialEq, Eq, Structural)]
pub enum AxisPosition {
    /// Offset from the starting edge.
    Start(RelativeAmount),
    /// Center on this axis.
    Center,
    /// Inset from the ending edge.
    End(RelativeAmount),
}

/// Invalid gravity-style axis position.
#[derive(Clone, Debug, PartialEq, Eq)]
pub struct AxisPositionError(String);

impl AxisPositionError {
    /// The text that was refused.
    pub closed spec fn refused(self) -> Seq<char> {
        self.0@
    }
}

/// The position that text spells: `center`, or an amount that is not negative, behind a minus
/// sign where it is counted from the ending edge.
pub open spec fn axis_of(text: Seq<char>) -> Option<AxisPosition> {
    if text::lower(text) == "center"@ {
        Some(AxisPosition::Center)
    } else {
        let signed = text.len() > 0 && (text[0] == '-' || text[0] == '+');
        let amount = amount_of(
            if signed {
                text.skip(1)
            } else {
                text
            },
        );
        match amount {
            Some(amount) => if amount.negative() {
                None
            } else if text[0] == '-' {
                Some(AxisPosition::End(amount))
            } else {
                Some(AxisPosition::Start(amount))
            },
            None => None,
        }
    }
}

impl AxisPosition {
    /// The position that a number of pixels stands for; none for the smallest number, which
    /// has no inset.
    pub open spec fn at_pixels(pixels: i32) -> Option<AxisPosition> {
        if pixels >= 0 {
            Some(AxisPosition::Start(RelativeAmount::Pixels(pixels)))
        } else if pixels > i32::MIN {
            Some(AxisPosition::End(RelativeAmount::Pixels((-pixels) as i32)))
        } else {
            None
        }
    }

    /// Reads pixels as an offset from the start, or from the end when negative.
    ///
    /// # Errors
    ///
    /// Returns an error when the inset does not fit.
    pub fn from_pixels(pixels: i32) -> (position: Result<Self, AxisPositionError>)
        ensures
            match position {
                Ok(position) => AxisPosition::at_pixels(pixels) == Some(position),
                Err(error) => AxisPosition::at_pixels(pixels) is None && error.refused()
                    == "-2147483648"@,
            },
    {
        if pixels >= 0 {
            Ok(AxisPosition::Start(RelativeAmount::Pixels(pixels)))
        } else if pixels > i32::MIN {
            Ok(AxisPosition::End(RelativeAmount::Pixels(-pixels)))
        } else {
            Err(AxisPositionError("-2147483648".to_owned()))
        }
    }

    /// Parses `center` or a gravity-style offset.
    ///
    /// # Errors
    ///
    /// Returns an error for malformed amounts and for amounts below zero.
    pub fn parse(value: &str) -> (parsed: Result<Self, AxisPositionError>)
        ensures
            match parsed {
                Ok(position) => axis_of(value@) == Some(position),
                Err(error) => axis_of(value@) is None && error.refused() == value@,
            },
    {
        let chars = characters(value);
        let lowered = lower_chars(chars.as_slice());
        if is_word(lowered.as_slice(), "center") {
            return Ok(AxisPosition::Center);
        }
        let minus = chars.len() > 0 && chars[0] == '-';
        let amount = if chars.len() > 0 && (chars[0] == '-' || chars[0] == '+') {
            let rest = stretch(chars.as_slice(), 1, chars.len());
            assert(rest@ =~= value@.skip(1));
            let rest_text = text::collected(rest.as_slice());
            RelativeAmount::parse_chars(rest_text.as_str(), rest.as_slice())
        } else {
            RelativeAmount::parse_chars(value, chars.as_slice())
        };
        match amount {
            Some(amount) => if amount.is_negative() {
                Err(AxisPositionError(value.to_owned()))
            } else if minus {
                Ok(AxisPosition::End(amount))
            } else {
                Ok(AxisPosition::Start(amount))
            },
            None => Err(AxisPositionError(value.to_owned())),
        }
    }
}

impl core::str::FromStr for AxisPosition {
    type Err = AxisPositionError;

    fn from_str(value: &str) -> (parsed: Result<Self, AxisPositionError>)
        ensures
            match parsed {
                Ok(position) => axis_of(value@) == Some(position),
                Err(error) => axis_of(value@) is None && error.refused() == value@,
            },
    {
        Self::parse(value)
    }
}

/// Work area selected by an absolute placement action.
#[derive(Clone, Copy, Debug, PartialEq, Eq, Structural)]
pub enum OutputTarget {
    /// Output currently containing most of the client.
    Current,
    /// Backend-designated primary output.
    Primary,
    /// Output containing the pointer at action time.
    Pointer,
    /// Next output in stable discovery order, wrapping at the end.
    Next,
    /// Previous output in stable discovery order, wrapping at the beginning.
    Previous,
    /// Bounding work area across all outputs.
    All,
    /// One-based output in stable discovery order.
    Index(Positive),
}

/// Invalid absolute-placement output target.
#[derive(Clone, Debug, PartialEq, Eq)]
pub struct OutputTargetError(String);

impl OutputTargetError {
    /// The text that was refused.
    pub closed spec fn refused(self) -> Seq<char> {
        self.0@
    }
}

impl Default for OutputTarget {
    /// The current output.
    fn default() -> (target: Self)
        ensures
            target == OutputTarget::Current,
    {
        OutputTarget::Current
    }
}

/// The output target that text spells, in any case.
pub open spec fn target_of(text: Seq<char>) -> Option<OutputTarget> {
    let name = text::lower(text);
    if name == "current"@ {
        Some(OutputTarget::Current)
    } else if name == "primary"@ {
        Some(OutputTarget::Primary)
    } else if name == "pointer"@ || name == "mouse"@ {
        Some(OutputTarget::Pointer)
    } else if name == "next"@ {
        Some(OutputTarget::Next)
    } else if name == "previous"@ || name == "prev"@ {
        Some(OutputTarget::Previous)
    } else if name == "all"@ {
        Some(OutputTarget::All)
    } else {
        match text::unsigned(text) {
            Some(index) => if index > 0 {
                Some(OutputTarget::Index(Positive::of(index)))
            } else {
                None
            },
            None => None,
        }
    }
}

impl OutputTarget {
    /// Selects a one-based output, remembering how it was written.
    ///
    /// # Errors
    ///
    /// Returns an error for zero.
    pub fn from_index(index: u32, original: &str) -> (target: Result<Self, OutputTargetError>)
        ensures
            match target {
                Ok(target) => index > 0 && target == OutputTarget::Index(Positive::of(index)),
                Err(error) => index == 0 && error.refused() == original@,
            },
    {
        match Positive::new(index) {
            Some(index) => Ok(OutputTarget::Index(index)),
            None => Err(OutputTargetError(original.to_owned())),
        }
    }

    /// Parses a target's name or one-based number.
    ///
    /// # Errors
    ///
    /// Returns an error for unknown names and for zero.
    pub fn parse(value: &str) -> (parsed: Result<Self, OutputTargetError>)
        ensures
            match parsed {
                Ok(target) => target_of(value@) == Some(target),
                Err(error) => target_of(value@) is None && error.refused() == value@,
            },
    {
        let chars = characters(value);
        let lowered = lower_chars(chars.as_slice());
        let name = lowered.as_slice();
        if is_word(name, "current") {
            Ok(OutputTarget::Current)
        } else if is_word(name, "primary") {
            Ok(OutputTarget::Primary)
        } else if is_word(name, "pointer") || is_word(name, "mouse") {
            Ok(OutputTarget::Pointer)
        } else if is_word(name, "next") {
            Ok(OutputTarget::Next)
        } else if is_word(name, "previous") || is_word(name, "prev") {
            Ok(OutputTarget::Previous)
        } else if is_word(name, "all") {
            Ok(OutputTarget::All)
        } else {
            match parse_unsigned(chars.as_slice()) {
                Some(index) => Self::from_index(index, value),
                None => Err(OutputTargetError(value.to_owned())),
            }
        }
    }
}

impl core::str::FromStr for OutputTarget {
    type Err = OutputTargetError;

    fn from_str(value: &str) -> (parsed: Result<Self, OutputTargetError>)
        ensures
            match parsed {
                Ok(target) => target_of(value@) == Some(target),
                Err(error) => target_of(value@) is None && error.refused() == value@,
            },
    {
        Self::parse(value)
    }
}

/// Geometry dimension interpreted as decorated outer or client content size.
#[derive(Clone, Copy, Debug, PartialEq, Eq, Structural)]
pub enum SizeBasis {
    /// Count server-side decoration extents.
    Outer,
    /// Describe application content only.
    Content,
}

impl Default for SizeBasis {
    /// The outer size.
    fn default() -> (basis: Self)
        ensures
            basis == SizeBasis::Outer,
    {
        SizeBasis::Outer
    }
}

/// A fraction never resolves to more than its reference in magnitude when it is at most one.
pub proof fn law_fractions_stay_within_the_reference(
    numerator: i32,
    denominator: Positive,
    reference: u32,
)
    requires
        0 <= numerator <= denominator.value(),
        denominator.value() > 0,
        reference <= i32::MAX,
    ensures
        0 <= (RelativeAmount::Fraction { numerator, denominator }).resolved(reference)
            <= reference,
{
    let d = denominator.value() as int;
    let n = numerator as int;
    let r = reference as int;
    assert(0 <= n * r) by (nonlinear_arith)
        requires
            0 <= n,
            0 <= r,
    ;
    assert(0 <= (n * r) / d <= r) by (nonlinear_arith)
        requires
            0 <= n <= d,
            0 <= r,
            d > 0,
            0 <= n * r,
    ;
}

} // verus!
