//! Client sizes and the constraints applied to them.

use vstd::prelude::*;

use crate::num;

verus! {

/// A width and height pair used by client constraints.
#[derive(Clone, Copy, Debug, PartialEq, Eq, Structural)]
pub struct Size {
    /// Width in pixels.
    pub width: u32,
    /// Height in pixels.
    pub height: u32,
}

impl Size {
    /// Creates a non-empty size.
    #[must_use]
    pub fn new(width: u32, height: u32) -> (size: Self)
        ensures
            size.width == num::non_empty(width as int),
            size.height == num::non_empty(height as int),
    {
        Self { width: num::max_u32(width, 1), height: num::max_u32(height, 1) }
    }
}

/// A positive rational aspect ratio.
#[derive(Clone, Copy, Debug, PartialEq, Eq, Structural)]
pub struct AspectRatio {
    numerator: u32,
    denominator: u32,
}

impl AspectRatio {
    /// The ratio's numerator.
    pub closed spec fn numerator(self) -> int {
        self.numerator as int
    }

    /// The ratio's denominator.
    pub closed spec fn denominator(self) -> int {
        self.denominator as int
    }

    #[verifier::type_invariant]
    spec fn is_positive(self) -> bool {
        self.numerator > 0 && self.denominator > 0
    }

    /// Creates a ratio, returning `None` if either component is zero.
    #[must_use]
    pub fn new(numerator: u32, denominator: u32) -> (ratio: Option<Self>)
        ensures
            ratio is Some <==> numerator > 0 && denominator > 0,
            ratio matches Some(r) ==> r.numerator() == numerator && r.denominator() == denominator,
    {
        if numerator == 0 || denominator == 0 {
            None
        } else {
            Some(Self { numerator, denominator })
        }
    }

    /// Whether this ratio is no wider than another, by cross multiplication.
    pub open spec fn at_most(self, other: Self) -> bool {
        self.numerator() * other.denominator() <= other.numerator() * self.denominator()
    }

    /// The greatest height at which `width` is no narrower than this ratio, but never none.
    pub open spec fn greatest_height(self, width: int) -> int {
        num::dimension(num::greater(width * self.denominator() / self.numerator(), 1))
    }

    /// The smallest height at which `width` is no wider than this ratio.
    pub open spec fn smallest_height(self, width: int) -> int {
        num::dimension(
            (width * self.denominator() + self.numerator() - 1) / self.numerator(),
        )
    }
}

/// Inclusive minimum and maximum aspect ratios.
#[derive(Clone, Copy, Debug, PartialEq, Eq, Structural)]
pub struct AspectRange {
    /// Narrowest accepted width-to-height ratio.
    pub minimum: AspectRatio,
    /// Widest accepted width-to-height ratio.
    pub maximum: AspectRatio,
}

impl AspectRange {
    /// Whether a size is neither narrower nor wider than the range.
    pub open spec fn admits(self, width: int, height: int) -> bool {
        &&& height * self.minimum.numerator() <= width * self.minimum.denominator()
        &&& width * self.maximum.denominator() <= height * self.maximum.numerator()
    }

    /// Creates an ordered range, returning `None` for contradictory ratios.
    #[must_use]
    pub fn new(minimum: AspectRatio, maximum: AspectRatio) -> (range: Option<Self>)
        ensures
            range == (if minimum.at_most(maximum) {
                Some(AspectRange { minimum, maximum })
            } else {
                None
            }),
    {
        if ratio_is_at_most(minimum, maximum) {
            Some(Self { minimum, maximum })
        } else {
            None
        }
    }
}

/// ICCCM-compatible client size constraints.
#[derive(Clone, Copy, Debug, PartialEq, Eq, Structural)]
pub struct SizeHints {
    /// Smallest accepted client size.
    pub minimum: Option<Size>,
    /// Largest accepted client size.
    pub maximum: Option<Size>,
    /// Base used when applying resize increments.
    pub base: Option<Size>,
    /// Per-axis resize increments.
    pub increment: Option<Size>,
    /// Permitted width-to-height ratio range.
    pub aspect: Option<AspectRange>,
}

impl Default for SizeHints {
    /// No constraints at all.
    fn default() -> (hints: Self)
        ensures
            hints == (SizeHints {
                minimum: None,
                maximum: None,
                base: None,
                increment: None,
                aspect: None,
            }),
    {
        Self { minimum: None, maximum: None, base: None, increment: None, aspect: None }
    }
}

/// A dimension rounded down to a whole number of increments above its base.
pub open spec fn snapped(requested: int, base: int, increment: int) -> int {
    if increment <= 1 || requested <= base {
        requested
    } else {
        base + (requested - base) / increment * increment
    }
}

/// One axis of a request bounded by its limits, snapped to the increment
/// lattice, and bounded again.
pub open spec fn constrained_axis(
    requested: int,
    minimum: int,
    maximum: int,
    base: int,
    increment: int,
) -> int {
    let within = num::bounded(requested, minimum, maximum);
    num::bounded(snapped(within, base, increment), minimum, maximum)
}

/// The height that brings `width` by `height` inside an aspect range: too tall
/// becomes the narrowest ratio, then too flat becomes the widest one.
pub open spec fn ranged_height(width: int, height: int, range: AspectRange) -> int {
    let tall = if height * range.minimum.numerator() > width * range.minimum.denominator() {
        range.minimum.greatest_height(width)
    } else {
        height
    };
    if tall * range.maximum.numerator() < width * range.maximum.denominator() {
        range.maximum.smallest_height(width)
    } else {
        tall
    }
}

impl SizeHints {
    /// The smallest accepted size.
    pub open spec fn least(self) -> Size {
        match self.minimum {
            Some(minimum) => minimum,
            None => Size { width: 1, height: 1 },
        }
    }

    /// The largest accepted width, never below the smallest one.
    pub open spec fn most_width(self) -> int {
        match self.maximum {
            Some(maximum) => num::greater(maximum.width as int, self.least().width as int),
            None => u32::MAX as int,
        }
    }

    /// The largest accepted height, never below the smallest one.
    pub open spec fn most_height(self) -> int {
        match self.maximum {
            Some(maximum) => num::greater(maximum.height as int, self.least().height as int),
            None => u32::MAX as int,
        }
    }

    /// The origin of the increment lattice.
    pub open spec fn lattice_base(self) -> Size {
        match self.base {
            Some(base) => base,
            None => self.least(),
        }
    }

    /// The increment on each axis; one pixel when none was given.
    pub open spec fn step(self) -> Size {
        match self.increment {
            Some(increment) => increment,
            None => Size { width: 1, height: 1 },
        }
    }

    /// The width and height that an aspect range leaves out of account.
    pub open spec fn base_size(self) -> (int, int) {
        match self.base {
            Some(base) => (base.width as int, base.height as int),
            None => (0, 0),
        }
    }

    /// The accepted width for a request, before the aspect range applies.
    pub open spec fn lattice_width(self, width: int) -> int {
        constrained_axis(
            width,
            self.least().width as int,
            self.most_width(),
            self.lattice_base().width as int,
            self.step().width as int,
        )
    }

    /// The accepted height for a request, before the aspect range applies.
    pub open spec fn lattice_height(self, height: int) -> int {
        constrained_axis(
            height,
            self.least().height as int,
            self.most_height(),
            self.lattice_base().height as int,
            self.step().height as int,
        )
    }

    /// The width and height granted to a request.
    pub open spec fn granted(self, width: int, height: int) -> (int, int) {
        let lattice_width = self.lattice_width(width);
        let lattice_height = self.lattice_height(height);
        match self.aspect {
            None => (lattice_width, lattice_height),
            Some(range) => {
                let (base_width, base_height) = self.base_size();
                let free_width = num::non_empty(lattice_width - base_width);
                let free_height = num::non_empty(lattice_height - base_height);
                (
                    num::dimension(free_width + base_width),
                    num::dimension(ranged_height(free_width, free_height, range) + base_height),
                )
            },
        }
    }

    /// Constrains a requested size to the client's valid size lattice.
    #[must_use]
    pub fn constrain(self, requested: Size) -> (size: Size)
        ensures
            size.width == self.granted(requested.width as int, requested.height as int).0,
            size.height == self.granted(requested.width as int, requested.height as int).1,
    {
        let minimum: Size = match self.minimum {
            Some(minimum) => minimum,
            None => Size { width: 1, height: 1 },
        };
        let maximum: Size = match self.maximum {
            Some(maximum) => Size {
                width: num::max_u32(maximum.width, minimum.width),
                height: num::max_u32(maximum.height, minimum.height),
            },
            None => Size { width: u32::MAX, height: u32::MAX },
        };
        let mut width: u32 = num::bounded_u32(requested.width, minimum.width, maximum.width);
        let mut height: u32 = num::bounded_u32(requested.height, minimum.height, maximum.height);
        if let Some(increment) = self.increment {
            let base: Size = match self.base {
                Some(base) => base,
                None => minimum,
            };
            width = num::bounded_u32(
                snap_dimension(width, base.width, increment.width),
                minimum.width,
                maximum.width,
            );
            height = num::bounded_u32(
                snap_dimension(height, base.height, increment.height),
                minimum.height,
                maximum.height,
            );
        }
        if let Some(range) = self.aspect {
            let base: Size = match self.base {
                Some(base) => base,
                None => Size { width: 0, height: 0 },
            };
            constrain_aspect(Size { width, height }, base, range)
        } else {
            Size { width, height }
        }
    }
}

fn ratio_is_at_most(left: AspectRatio, right: AspectRatio) -> (r: bool)
    ensures
        r == left.at_most(right),
{
    product_is_at_most(left.numerator, right.denominator, right.numerator, left.denominator)
}

/// Compares two products of dimensions without overflow.
fn product_is_at_most(a: u32, b: u32, c: u32, d: u32) -> (r: bool)
    ensures
        r == (a * b <= c * d),
{
    assert(0 <= a * b <= 0xffff_ffff * 0xffff_ffff) by (nonlinear_arith);
    assert(0 <= c * d <= 0xffff_ffff * 0xffff_ffff) by (nonlinear_arith);
    a as u64 * b as u64 <= c as u64 * d as u64
}

fn constrain_aspect(size: Size, base: Size, range: AspectRange) -> (r: Size)
    ensures
        r.width == num::dimension(num::non_empty(size.width - base.width) + base.width),
        r.height == num::dimension(
            ranged_height(
                num::non_empty(size.width - base.width),
                num::non_empty(size.height - base.height),
                range,
            ) + base.height,
        ),
{
    let width: u32 = num::max_u32(size.width.saturating_sub(base.width), 1);
    let mut height: u32 = num::max_u32(size.height.saturating_sub(base.height), 1);
    if !product_is_at_most(height, range.minimum.numerator, width, range.minimum.denominator) {
        height = greatest_height(width, range.minimum);
    }
    if !product_is_at_most(width, range.maximum.denominator, height, range.maximum.numerator) {
        height = smallest_height(width, range.maximum);
    }
    Size::new(width.saturating_add(base.width), height.saturating_add(base.height))
}

fn greatest_height(width: u32, ratio: AspectRatio) -> (r: u32)
    ensures
        r == ratio.greatest_height(width as int),
        r >= 1,
{
    proof {
        use_type_invariant(&ratio);
    }
    assert(0 <= width * ratio.denominator <= 0xffff_ffff * 0xffff_ffff) by (nonlinear_arith);
    let value: u64 = width as u64 * ratio.denominator as u64 / ratio.numerator as u64;
    if value < 1 {
        1
    } else if value > u32::MAX as u64 {
        u32::MAX
    } else {
        value as u32
    }
}

fn smallest_height(width: u32, ratio: AspectRatio) -> (r: u32)
    requires
        width >= 1,
    ensures
        r == ratio.smallest_height(width as int),
        r >= 1,
{
    proof {
        use_type_invariant(&ratio);
    }
    assert(1 <= width * ratio.denominator <= 0xffff_ffff * 0xffff_ffff) by (nonlinear_arith)
        requires
            width >= 1,
            ratio.denominator >= 1,
    ;
    let area: u64 = width as u64 * ratio.denominator as u64;
    let value: u64 = (area + (ratio.numerator as u64 - 1)) / ratio.numerator as u64;
    assert(value >= 1) by (nonlinear_arith)
        requires
            value == (area + (ratio.numerator - 1)) / ratio.numerator as int,
            area >= 1,
            ratio.numerator >= 1,
    ;
    if value > u32::MAX as u64 {
        u32::MAX
    } else {
        value as u32
    }
}

fn snap_dimension(requested: u32, base: u32, increment: u32) -> (r: u32)
    ensures
        r == snapped(requested as int, base as int, increment as int),
{
    if increment <= 1 || requested <= base {
        return requested;
    }
    let excess: u32 = requested - base;
    proof {
        lemma_whole_increments(excess as int, increment as int);
    }
    base + excess / increment * increment
}

/// The whole increments in an excess never exceed it.
proof fn lemma_whole_increments(excess: int, increment: int)
    requires
        excess >= 0,
        increment > 0,
    ensures
        0 <= excess / increment * increment <= excess,
{
    assert(0 <= excess / increment * increment <= excess) by (nonlinear_arith)
        requires
            excess >= 0,
            increment > 0,
    ;
}

/// Without an aspect range every granted dimension lies within the limits.
pub proof fn law_granted_within_limits(hints: SizeHints, width: int, height: int)
    requires
        hints.aspect is None,
    ensures
        hints.least().width <= hints.granted(width, height).0 <= hints.most_width(),
        hints.least().height <= hints.granted(width, height).1 <= hints.most_height(),
{
}

/// Snapping never grows a dimension and leaves lattice points alone.
proof fn lemma_snapped_is_stable(requested: int, base: int, increment: int)
    requires
        base >= 0,
    ensures
        snapped(requested, base, increment) <= requested,
        snapped(snapped(requested, base, increment), base, increment) == snapped(
            requested,
            base,
            increment,
        ),
{
    if increment > 1 && requested > base {
        let excess = requested - base;
        lemma_whole_increments(excess, increment);
        let whole = excess / increment;
        assert(whole * increment / increment == whole) by (nonlinear_arith)
            requires
                increment > 1,
        ;
    }
}

/// Without an aspect range, constraining a granted size again changes nothing.
pub proof fn law_granted_is_stable(hints: SizeHints, width: int, height: int)
    requires
        hints.aspect is None,
    ensures
        hints.granted(hints.granted(width, height).0, hints.granted(width, height).1)
            == hints.granted(width, height),
{
    let within_width = num::bounded(width, hints.least().width as int, hints.most_width());
    let within_height = num::bounded(height, hints.least().height as int, hints.most_height());
    let base = hints.lattice_base();
    let step = hints.step();
    lemma_snapped_is_stable(within_width, base.width as int, step.width as int);
    lemma_snapped_is_stable(within_height, base.height as int, step.height as int);
    lemma_snapped_is_stable(hints.least().width as int, base.width as int, step.width as int);
    lemma_snapped_is_stable(hints.least().height as int, base.height as int, step.height as int);
}

/// What divides a product bounds a quotient, rounded down and rounded up.
proof fn lemma_rounded(product: int, divisor: int, height: int)
    requires
        divisor > 0,
        product >= 0,
    ensures
        height * divisor <= product <==> height <= product / divisor,
        product <= height * divisor <==> (product + divisor - 1) / divisor <= height,
{
    let down = product / divisor;
    let up = (product + divisor - 1) / divisor;
    vstd::arithmetic::div_mod::lemma_fundamental_div_mod(product, divisor);
    vstd::arithmetic::div_mod::lemma_fundamental_div_mod(product + divisor - 1, divisor);
    vstd::arithmetic::div_mod::lemma_mod_bound(product, divisor);
    vstd::arithmetic::div_mod::lemma_mod_bound(product + divisor - 1, divisor);
    assert(height <= down ==> height * divisor <= divisor * down) by (nonlinear_arith)
        requires
            divisor > 0,
    ;
    assert(height >= down + 1 ==> height * divisor >= divisor * down + divisor) by (nonlinear_arith)
        requires
            divisor > 0,
    ;
    assert(height >= up ==> height * divisor >= divisor * up) by (nonlinear_arith)
        requires
            divisor > 0,
    ;
    assert(height <= up - 1 ==> height * divisor <= divisor * up - divisor) by (nonlinear_arith)
        requires
            divisor > 0,
    ;
}

/// A height is brought inside an aspect range whenever the width has any height in it.
proof fn lemma_ranged_height(width: int, height: int, range: AspectRange, fit: int)
    requires
        width >= 1,
        height >= 1,
        range.minimum.numerator() > 0,
        range.minimum.denominator() > 0,
        range.maximum.numerator() > 0,
        range.maximum.denominator() > 0,
        1 <= fit <= u32::MAX,
        height <= u32::MAX,
        range.admits(width, fit),
    ensures
        range.admits(width, ranged_height(width, height, range)),
        1 <= ranged_height(width, height, range),
        ranged_height(width, height, range) <= height || ranged_height(width, height, range) <= fit,
{
    let low = width * range.minimum.denominator();
    let high = width * range.maximum.denominator();
    assert(low >= 0 && high >= 1) by (nonlinear_arith)
        requires
            width >= 1,
            range.minimum.denominator() > 0,
            range.maximum.denominator() > 0,
            low == width * range.minimum.denominator(),
            high == width * range.maximum.denominator(),
    ;
    let greatest = range.minimum.greatest_height(width);
    let smallest = range.maximum.smallest_height(width);
    let result = ranged_height(width, height, range);
    lemma_rounded(low, range.minimum.numerator(), fit);
    lemma_rounded(low, range.minimum.numerator(), height);
    lemma_rounded(low, range.minimum.numerator(), greatest);
    lemma_rounded(low, range.minimum.numerator(), smallest);
    lemma_rounded(high, range.maximum.numerator(), fit);
    lemma_rounded(high, range.maximum.numerator(), height);
    lemma_rounded(high, range.maximum.numerator(), greatest);
    lemma_rounded(high, range.maximum.numerator(), smallest);
    lemma_rounded(high, range.maximum.numerator(), 0);
}

/// What an aspect range speaks of is the size above the base, and a granted size lies in the
/// range there: whatever was asked for, it is neither narrower nor wider than accepted, as long
/// as the granted width has a height in the range at all and that height is representable.
pub proof fn law_granted_lies_in_the_aspect_range(
    hints: SizeHints,
    width: int,
    height: int,
    fit: int,
)
    requires
        hints.aspect is Some,
        hints.aspect->Some_0.minimum.numerator() > 0,
        hints.aspect->Some_0.minimum.denominator() > 0,
        hints.aspect->Some_0.maximum.numerator() > 0,
        hints.aspect->Some_0.maximum.denominator() > 0,
        hints.base_size().0 < u32::MAX,
        fit >= 1,
        hints.base_size().1 + fit <= u32::MAX,
        hints.aspect->Some_0.admits(
            hints.granted(width, height).0 - hints.base_size().0,
            fit,
        ),
    ensures
        hints.aspect->Some_0.admits(
            hints.granted(width, height).0 - hints.base_size().0,
            hints.granted(width, height).1 - hints.base_size().1,
        ),
{
    let range = hints.aspect->Some_0;
    let free_width = num::non_empty(hints.lattice_width(width) - hints.base_size().0);
    let free_height = num::non_empty(hints.lattice_height(height) - hints.base_size().1);
    lemma_ranged_height(free_width, free_height, range, fit);
}

/// Without increments and an aspect range, a request within the limits is granted as it is, one
/// below the smallest size is raised to it, and one above the largest is lowered to it; a largest
/// size below the smallest one is raised to that.
pub proof fn law_limits_alone_bound_requests(hints: SizeHints, width: int, height: int)
    requires
        hints.increment is None,
        hints.aspect is None,
        1 <= width <= u32::MAX,
        1 <= height <= u32::MAX,
    ensures
        ({
            let granted = hints.granted(width, height);
            let (least_width, least_height) = match hints.minimum {
                Some(minimum) => (minimum.width as int, minimum.height as int),
                None => (1int, 1int),
            };
            &&& hints.minimum is None && hints.maximum is None ==> granted == (width, height)
            &&& width <= least_width ==> granted.0 == least_width
            &&& height <= least_height ==> granted.1 == least_height
            &&& hints.maximum matches Some(maximum) ==> {
                &&& maximum.width >= least_width && width >= maximum.width ==> granted.0
                    == maximum.width
                &&& maximum.height >= least_height && height >= maximum.height ==> granted.1
                    == maximum.height
                &&& maximum.width < least_width ==> granted.0 == least_width
                &&& maximum.height < least_height ==> granted.1 == least_height
                &&& least_width <= width <= maximum.width ==> granted.0 == width
                &&& least_height <= height <= maximum.height ==> granted.1 == height
            }
            &&& hints.maximum is None && width >= least_width ==> granted.0 == width
            &&& hints.maximum is None && height >= least_height ==> granted.1 == height
        }),
{
}

/// With increments, a request within the limits and above the base is granted up to a whole number
/// of increments above the base: as much as asked for but for less than one increment. The base is
/// the smallest size where none is given.
pub proof fn law_requests_are_rounded_down_to_increments(
    hints: SizeHints,
    width: int,
    height: int,
)
    requires
        hints.aspect is None,
        hints.minimum is None,
        hints.maximum is None,
        hints.increment matches Some(increment) && increment.width >= 1 && increment.height >= 1,
        hints.base matches Some(base) && 1 <= base.width <= width && 1 <= base.height <= height,
        width <= u32::MAX,
        height <= u32::MAX,
    ensures
        ({
            let granted = hints.granted(width, height);
            let base = hints.base->Some_0;
            let increment = hints.increment->Some_0;
            &&& granted.0 <= width < granted.0 + increment.width
            &&& (granted.0 - base.width) % (increment.width as int) == 0
            &&& base.width <= granted.0
            &&& granted.1 <= height < granted.1 + increment.height
            &&& (granted.1 - base.height) % (increment.height as int) == 0
            &&& base.height <= granted.1
        }),
{
    let base = hints.base->Some_0;
    let increment = hints.increment->Some_0;
    lemma_rounded_down(width, base.width as int, increment.width as int);
    lemma_rounded_down(height, base.height as int, increment.height as int);
}

proof fn lemma_rounded_down(requested: int, base: int, increment: int)
    requires
        base <= requested,
        increment >= 1,
    ensures
        base <= snapped(requested, base, increment) <= requested,
        requested < snapped(requested, base, increment) + increment,
        (snapped(requested, base, increment) - base) % increment == 0,
{
    let excess = requested - base;
    vstd::arithmetic::div_mod::lemma_fundamental_div_mod(excess, increment);
    vstd::arithmetic::div_mod::lemma_mod_bound(excess, increment);
    lemma_whole_increments(excess, increment);
    vstd::arithmetic::mul::lemma_mul_is_commutative(excess / increment, increment);
    vstd::arithmetic::div_mod::lemma_mod_multiples_basic(excess / increment, increment);
    if requested == base {
        assert(0int % increment == 0) by (nonlinear_arith)
            requires
                increment >= 1,
        ;
    } else if increment == 1 {
        assert(excess % 1 == 0);
    }
}

/// An optional size with its axes exchanged.
pub open spec fn exchanged(size: Option<Size>) -> Option<Size> {
    match size {
        Some(size) => Some(Size { width: size.height, height: size.width }),
        None => None,
    }
}

/// Without an aspect range, constraints treat both axes alike.
pub proof fn law_constraints_treat_axes_alike(
    hints: SizeHints,
    image: SizeHints,
    width: int,
    height: int,
)
    requires
        hints.aspect is None,
        image.aspect is None,
        image.minimum == exchanged(hints.minimum),
        image.maximum == exchanged(hints.maximum),
        image.base == exchanged(hints.base),
        image.increment == exchanged(hints.increment),
    ensures
        image.granted(height, width).0 == hints.granted(width, height).1,
        image.granted(height, width).1 == hints.granted(width, height).0,
{
}

/// An aspect range leaves the width alone, and a height that lies in the range with it.
pub proof fn law_aspect_ranges_change_the_height_alone(
    hints: SizeHints,
    free: SizeHints,
    width: int,
    height: int,
)
    requires
        hints.aspect is Some,
        free == (SizeHints { aspect: None, ..hints }),
        hints.base is None,
        hints.minimum is None,
        1 <= width <= u32::MAX,
        1 <= height <= u32::MAX,
    ensures
        hints.granted(width, height).0 == free.granted(width, height).0,
        hints.aspect->Some_0.admits(
            free.granted(width, height).0,
            free.granted(width, height).1,
        ) ==> hints.granted(width, height).1 == free.granted(width, height).1,
{
    law_granted_within_limits(free, width, height);
}

} // verus!
