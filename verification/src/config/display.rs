//! Persistent connector preferences.

use vstd::prelude::*;

use crate::config::error;
use crate::config::error::{ConfigError, Fault};
use crate::text;
use crate::text::{byte_size, characters, collected, decimal_text, find, parse_unsigned, same, stretch};

verus! {

/// Maximum number of persistent connector rules accepted from configuration.
pub const MAX_OUTPUTS: usize = 32;

/// Requested logical desktop origin.
#[derive(Clone, Copy, Debug, PartialEq, Eq, Structural)]
pub struct OutputPosition {
    /// Horizontal logical coordinate.
    pub x: i32,
    /// Vertical logical coordinate.
    pub y: i32,
}

/// Output transform independent of any display-server enum.
#[derive(Clone, Copy, Debug, PartialEq, Eq, Structural)]
pub enum OutputTransform {
    /// No transform.
    Normal,
    /// Rotate clockwise by 90 degrees.
    Rotate90,
    /// Rotate clockwise by 180 degrees.
    Rotate180,
    /// Rotate clockwise by 270 degrees.
    Rotate270,
    /// Mirror horizontally.
    Flipped,
    /// Mirror horizontally, then rotate clockwise by 90 degrees.
    Flipped90,
    /// Mirror horizontally, then rotate clockwise by 180 degrees.
    Flipped180,
    /// Mirror horizontally, then rotate clockwise by 270 degrees.
    Flipped270,
}

impl Default for OutputTransform {
    /// No transform.
    fn default() -> (transform: Self)
        ensures
            transform == OutputTransform::Normal,
    {
        OutputTransform::Normal
    }
}

impl OutputTransform {
    /// The configuration spelling.
    pub open spec fn name(self) -> Seq<char> {
        match self {
            OutputTransform::Normal => "normal"@,
            OutputTransform::Rotate90 => "rotate90"@,
            OutputTransform::Rotate180 => "rotate180"@,
            OutputTransform::Rotate270 => "rotate270"@,
            OutputTransform::Flipped => "flipped"@,
            OutputTransform::Flipped90 => "flipped90"@,
            OutputTransform::Flipped180 => "flipped180"@,
            OutputTransform::Flipped270 => "flipped270"@,
        }
    }

    /// Returns the canonical configuration spelling.
    #[must_use]
    pub fn as_str(self) -> (name: &'static str)
        ensures
            name@ == self.name(),
    {
        match self {
            OutputTransform::Normal => "normal",
            OutputTransform::Rotate90 => "rotate90",
            OutputTransform::Rotate180 => "rotate180",
            OutputTransform::Rotate270 => "rotate270",
            OutputTransform::Flipped => "flipped",
            OutputTransform::Flipped90 => "flipped90",
            OutputTransform::Flipped180 => "flipped180",
            OutputTransform::Flipped270 => "flipped270",
        }
    }
}

/// Exact fractional output scale represented in Wayland's 1/120 units.
#[derive(Clone, Copy, Debug, PartialEq, Eq, PartialOrd, Ord, Structural)]
pub struct OutputScale(u16);

impl OutputScale {
    #[verifier::type_invariant]
    spec fn in_range(self) -> bool {
        60 <= self.0 <= 960
    }

    /// The scale in protocol units.
    pub closed spec fn value(self) -> u16 {
        self.0
    }

    /// Creates a scale from protocol units when it is within 0.5x..=8x.
    #[must_use]
    pub fn from_units(units: u16) -> (scale: Option<Self>)
        ensures
            match scale {
                Some(scale) => 60 <= units <= 960 && scale.value() == units,
                None => !(60 <= units <= 960),
            },
    {
        if units >= 60 && units <= 960 {
            Some(OutputScale(units))
        } else {
            None
        }
    }

    /// Returns the scale in protocol units, where 120 is 1x.
    #[must_use]
    pub fn units(self) -> (units: u16)
        ensures
            units == self.value(),
            60 <= units <= 960,
    {
        proof {
            use_type_invariant(&self);
        }
        self.0
    }
}

impl Default for OutputScale {
    /// The unscaled output.
    fn default() -> (scale: Self)
        ensures
            scale.value() == 120,
    {
        OutputScale(120)
    }
}

/// Exact connector mode requested as `WIDTHxHEIGHT` with optional `@HZ`.
#[derive(Clone, Copy, Debug, PartialEq, Eq, Structural)]
pub struct OutputModeConfig {
    /// Physical pixel width.
    pub width: u32,
    /// Physical pixel height.
    pub height: u32,
    /// Optional refresh rate in millihertz.
    pub refresh_millihz: Option<u32>,
}

/// Error returned for an invalid output mode string.
#[derive(Clone, Copy, Debug, PartialEq, Eq, Structural)]
pub struct OutputModeError;

/// A number below a thousand as a decimal fraction of one, without trailing zeros.
pub open spec fn thousandths(value: nat) -> Seq<char> {
    let first = text::digit_char(value as int / 100);
    let second = text::digit_char(value as int / 10 % 10);
    let third = text::digit_char(value as int % 10);
    if value % 10 != 0 {
        seq![first, second, third]
    } else if value % 100 != 0 {
        seq![first, second]
    } else {
        seq![first]
    }
}

/// The text behind the first at sign, if there is one.
pub open spec fn refresh_part(text: Seq<char>) -> Option<Seq<char>> {
    match text::position(text, '@') {
        Some(at) => Some(text.skip(at + 1)),
        None => None,
    }
}

/// The mode that text spells, where the text behind the at sign spells the given refresh rate,
/// or no rate.
pub open spec fn mode_of(text: Seq<char>, refresh_millihz: Option<u32>) -> Option<
    OutputModeConfig,
> {
    let dimensions = match text::position(text, '@') {
        Some(at) => text.take(at),
        None => text,
    };
    match text::position(dimensions, 'x') {
        Some(cross) => match (
            text::unsigned(dimensions.take(cross)),
            text::unsigned(dimensions.skip(cross + 1)),
        ) {
            (Some(width), Some(height)) => if 1 <= width <= 16_384 && 1 <= height <= 16_384 {
                if refresh_part(text) is None {
                    Some(OutputModeConfig { width, height, refresh_millihz: None })
                } else if refresh_millihz is Some {
                    Some(
                        OutputModeConfig {
                            width,
                            height,
                            refresh_millihz: if refresh_millihz == Some(0u32) {
                                None
                            } else {
                                refresh_millihz
                            },
                        },
                    )
                } else {
                    None
                }
            } else {
                None
            },
            _ => None,
        },
        None => None,
    }
}

impl OutputModeConfig {
    /// The canonical spelling.
    pub open spec fn spelling(self) -> Seq<char> {
        let dimensions = text::decimal(self.width as nat).push('x') + text::decimal(
            self.height as nat,
        );
        match self.refresh_millihz {
            None => dimensions,
            Some(refresh) => {
                let whole = dimensions.push('@') + text::decimal(refresh as nat / 1000);
                if refresh as nat % 1000 == 0 {
                    whole
                } else {
                    whole.push('.') + thousandths(refresh as nat % 1000)
                }
            },
        }
    }

    /// Returns the canonical spelling.
    #[must_use]
    pub fn text(&self) -> (spelled: String)
        ensures
            spelled@ == self.spelling(),
    {
        let mut spelled = decimal_text(self.width as u64);
        spelled.push('x');
        let height = decimal_text(self.height as u64);
        spelled.append(height.as_str());
        if let Some(refresh) = self.refresh_millihz {
            spelled.push('@');
            let whole = decimal_text((refresh / 1000) as u64);
            spelled.append(whole.as_str());
            let fraction: u32 = refresh % 1000;
            if fraction != 0 {
                let ghost before = spelled@;
                spelled.push('.');
                push_digit(&mut spelled, fraction / 100);
                if fraction % 100 != 0 {
                    push_digit(&mut spelled, fraction / 10 % 10);
                    if fraction % 10 != 0 {
                        push_digit(&mut spelled, fraction % 10);
                    }
                }
                assert(spelled@ =~= before.push('.') + thousandths(fraction as nat));
            }
        }
        spelled
    }

    /// Returns the text that spells the refresh rate, if there is any.
    #[must_use]
    pub fn refresh_text(value: &str) -> (refresh: Option<String>)
        ensures
            text::maybe(refresh) == refresh_part(value@),
    {
        let chars = characters(value);
        match find(chars.as_slice(), '@') {
            Some(at) => {
                let rest = stretch(chars.as_slice(), at + 1, chars.len());
                assert(rest@ =~= value@.skip(at + 1));
                Some(collected(rest.as_slice()))
            },
            None => None,
        }
    }

    /// Parses `WIDTHxHEIGHT` or `WIDTHxHEIGHT@HZ`, where the text behind the at sign spells the
    /// given refresh rate in millihertz, or no rate.
    ///
    /// # Errors
    ///
    /// Returns an error for malformed or unreasonable dimensions and for a rate that is none.
    pub fn parse(value: &str, refresh_millihz: Option<u32>) -> (parsed: Result<
        Self,
        OutputModeError,
    >)
        ensures
            match parsed {
                Ok(mode) => mode_of(value@, refresh_millihz) == Some(mode),
                Err(_) => mode_of(value@, refresh_millihz) is None,
            },
    {
        let chars = characters(value);
        let at = find(chars.as_slice(), '@');
        let end = match at {
            Some(at) => at,
            None => chars.len(),
        };
        let dimensions = stretch(chars.as_slice(), 0, end);
        assert(dimensions@ =~= match text::position(value@, '@') {
            Some(at) => value@.take(at),
            None => value@,
        });
        let cross = match find(dimensions.as_slice(), 'x') {
            Some(cross) => cross,
            None => {
                return Err(OutputModeError);
            },
        };
        let width = stretch(dimensions.as_slice(), 0, cross);
        let height = stretch(dimensions.as_slice(), cross + 1, dimensions.len());
        assert(width@ =~= dimensions@.take(cross as int));
        assert(height@ =~= dimensions@.skip(cross + 1));
        match (parse_unsigned(width.as_slice()), parse_unsigned(height.as_slice())) {
            (Some(width), Some(height)) => {
                if width < 1 || width > 16_384 || height < 1 || height > 16_384 {
                    return Err(OutputModeError);
                }
                match (at, refresh_millihz) {
                    (None, _) => Ok(OutputModeConfig { width, height, refresh_millihz: None }),
                    (Some(_), Some(refresh)) => {
                        let refresh_millihz = if refresh > 0 {
                            Some(refresh)
                        } else {
                            None
                        };
                        Ok(OutputModeConfig { width, height, refresh_millihz })
                    },
                    (Some(_), None) => Err(OutputModeError),
                }
            },
            _ => Err(OutputModeError),
        }
    }
}

fn push_digit(target: &mut String, value: u32)
    requires
        value < 10,
    ensures
        final(target)@ == old(target)@.push(text::digit_char(value as int)),
{
    target.push((value as u8 + 48) as char);
}

/// One connector rule shared by direct display backends and Settings.
#[derive(Clone, Debug, PartialEq, Eq)]
pub struct OutputConfig {
    /// Exact connector name reported by the backend.
    pub name: String,
    /// Whether the connector should be used when it is present.
    pub enabled: bool,
    /// Requested mode; `None` selects the connector's preferred mode.
    pub mode: Option<OutputModeConfig>,
    /// Logical desktop origin; `None` lays the connector out automatically.
    pub position: Option<OutputPosition>,
    /// Logical transform applied before layout.
    pub transform: OutputTransform,
    /// Exact logical scale in Wayland's 1/120 units.
    pub scale: OutputScale,
    /// Whether this connector is preferred as the primary output.
    pub primary: bool,
}

impl Default for OutputConfig {
    /// An enabled connector without a name.
    fn default() -> (output: Self)
        ensures
            output.name@ == Seq::<char>::empty(),
            output.enabled,
            output.mode is None,
            output.position is None,
            output.transform == OutputTransform::Normal,
            output.scale.value() == 120,
            !output.primary,
    {
        OutputConfig {
            name: String::new(),
            enabled: true,
            mode: None,
            position: None,
            transform: OutputTransform::Normal,
            scale: OutputScale::default(),
            primary: false,
        }
    }
}

/// Persistent connector preferences. An empty list leaves topology automatic.
#[derive(Clone, Debug, PartialEq, Eq)]
pub struct OutputsConfig {
    /// Rules keyed by stable DRM connector name, such as `DP-1` or `eDP-1`.
    pub entries: Vec<OutputConfig>,
}

impl Default for OutputsConfig {
    /// No rules.
    fn default() -> (outputs: Self)
        ensures
            outputs.entries@.len() == 0,
    {
        OutputsConfig { entries: Vec::new() }
    }
}

/// Whether a character may stand in a connector name.
pub open spec fn connector_char(c: char) -> bool {
    text::letter(c) || text::digit(c) || c == '-' || c == '_' || c == '.'
}

/// Whether text is a bounded portable connector name.
pub open spec fn connector_name(name: Seq<char>) -> bool {
    &&& name.len() > 0
    &&& text::size(name) <= 64
    &&& forall|i: int| 0 <= i < name.len() ==> connector_char(#[trigger] name[i])
}

/// Whether a coordinate is beyond the accepted bound.
pub open spec fn too_far(coordinate: i32) -> bool {
    coordinate < -1_000_000 || coordinate > 1_000_000
}

/// The names of connector rules.
pub open spec fn output_names(entries: Seq<OutputConfig>) -> Seq<Seq<char>> {
    Seq::new(entries.len(), |i: int| entries[i].name@)
}

/// The one-based position of the first primary rule.
pub open spec fn first_primary(entries: Seq<OutputConfig>) -> Option<usize>
    decreases entries.len(),
{
    if entries.len() == 0 {
        None
    } else {
        match first_primary(entries.drop_last()) {
            Some(first) => Some(first),
            None => if entries.last().primary {
                Some(entries.len() as usize)
            } else {
                None
            },
        }
    }
}

/// The check of one connector rule against those before it.
pub open spec fn output_check(entries: Seq<OutputConfig>) -> spec_fn(int) -> Option<Fault> {
    |i: int|
        {
            let output = entries[i];
            let before = entries.take(i);
            if !connector_name(output.name@) {
                Some(Fault::InvalidOutputName((i + 1) as usize))
            } else if output_names(before).contains(output.name@) {
                Some(Fault::DuplicateOutputName(output.name@))
            } else if output.primary && first_primary(before) is Some {
                Some(
                    Fault::MultiplePrimaryOutputs {
                        first: first_primary(before)->Some_0,
                        second: (i + 1) as usize,
                    },
                )
            } else if output.primary && !output.enabled {
                Some(Fault::DisabledPrimaryOutput(output.name@))
            } else if output.position is Some && (too_far(output.position->Some_0.x) || too_far(
                output.position->Some_0.y,
            )) {
                Some(Fault::OutputPositionOutOfRange(output.name@))
            } else {
                None
            }
        }
}

fn is_connector_name(name: &str) -> (r: bool)
    ensures
        r == connector_name(name@),
{
    if name.is_empty() || byte_size(name) > 64 {
        return false;
    }
    let chars = characters(name);
    let mut index: usize = 0;
    while index < chars.len()
        invariant
            index <= chars.len(),
            chars@ == name@,
            forall|i: int| 0 <= i < index ==> connector_char(#[trigger] name@[i]),
        decreases chars.len() - index,
    {
        let c = chars[index];
        if !(text::is_letter(c) || text::is_digit(c) || c == '-' || c == '_' || c == '.') {
            assert(!connector_char(name@[index as int]));
            return false;
        }
        index = index + 1;
    }
    true
}

impl OutputsConfig {
    /// The first thing wrong with the rules.
    pub open spec fn fault(self) -> Option<Fault> {
        if self.entries@.len() > MAX_OUTPUTS {
            Some(Fault::TooManyOutputs(self.entries@.len() as usize))
        } else {
            error::first_fault(self.entries@.len(), output_check(self.entries@))
        }
    }

    fn named_before(&self, index: usize, name: &str) -> (r: bool)
        requires
            index <= self.entries@.len(),
        ensures
            r == output_names(self.entries@.take(index as int)).contains(name@),
    {
        let ghost names = output_names(self.entries@.take(index as int));
        let mut earlier: usize = 0;
        while earlier < index
            invariant
                earlier <= index <= self.entries@.len(),
                names == output_names(self.entries@.take(index as int)),
                forall|i: int| 0 <= i < earlier ==> names[i] != name@,
            decreases index - earlier,
        {
            assert(names[earlier as int] == self.entries@[earlier as int].name@);
            if same(self.entries[earlier].name.as_str(), name) {
                return true;
            }
            earlier = earlier + 1;
        }
        false
    }

    /// Checks the connector rules.
    ///
    /// # Errors
    ///
    /// Returns the first problem found.
    pub fn validate(&self) -> (outcome: Result<(), ConfigError>)
        ensures
            error::fault_in(outcome) == self.fault(),
    {
        if self.entries.len() > MAX_OUTPUTS {
            return Err(ConfigError::TooManyOutputs(self.entries.len()));
        }
        let ghost entries = self.entries@;
        let ghost check = output_check(entries);
        let mut primary: Option<usize> = None;
        let mut index: usize = 0;
        assert(entries.take(0) =~= Seq::empty());
        while index < self.entries.len()
            invariant
                index <= self.entries.len() <= MAX_OUTPUTS,
                entries == self.entries@,
                check == output_check(entries),
                primary == first_primary(entries.take(index as int)),
                error::first_fault(index as nat, check) is None,
            decreases self.entries.len() - index,
        {
            let output = &self.entries[index];
            let position = index + 1;
            assert(entries.take(index + 1).drop_last() =~= entries.take(index as int));
            proof {
                if check(index as int) is Some {
                    error::lemma_first_fault((index + 1) as nat, entries.len(), check);
                }
            }
            if !is_connector_name(output.name.as_str()) {
                return Err(ConfigError::InvalidOutputName(position));
            }
            if self.named_before(index, output.name.as_str()) {
                return Err(ConfigError::DuplicateOutputName(output.name.clone()));
            }
            if output.primary {
                if let Some(first) = primary {
                    return Err(ConfigError::MultiplePrimaryOutputs { first, second: position });
                }
                if !output.enabled {
                    return Err(ConfigError::DisabledPrimaryOutput(output.name.clone()));
                }
                primary = Some(position);
            }
            if let Some(place) = output.position {
                if place.x < -1_000_000 || place.x > 1_000_000 || place.y < -1_000_000 || place.y
                    > 1_000_000 {
                    return Err(ConfigError::OutputPositionOutOfRange(output.name.clone()));
                }
            }
            assert(check(index as int) is None);
            index = index + 1;
        }
        Ok(())
    }

    /// Returns the rule for one exact connector name.
    #[must_use]
    pub fn entry(&self, name: &str) -> (found: Option<&OutputConfig>)
        ensures
            match found {
                Some(output) => exists|i: int|
                    0 <= i < self.entries@.len() && *output == #[trigger] self.entries@[i]
                        && output.name@ == name@ && !output_names(self.entries@.take(i)).contains(
                        name@,
                    ),
                None => !output_names(self.entries@).contains(name@),
            },
    {
        let mut index: usize = 0;
        while index < self.entries.len()
            invariant
                index <= self.entries.len(),
                !output_names(self.entries@.take(index as int)).contains(name@),
            decreases self.entries.len() - index,
        {
            if same(self.entries[index].name.as_str(), name) {
                assert(self.entries@[index as int].name@ == name@);
                return Some(&self.entries[index]);
            }
            proof {
                let before = output_names(self.entries@.take(index as int));
                let now = output_names(self.entries@.take(index + 1));
                assert forall|i: int| 0 <= i < now.len() implies now[i] != name@ by {
                    if i < index {
                        assert(before[i] == now[i]);
                    }
                }
            }
            index = index + 1;
        }
        assert(self.entries@.take(index as int) =~= self.entries@);
        None
    }
}

/// Accepted rules name distinct connectors, at most one of them is primary, and that one is
/// enabled.
pub proof fn law_accepted_outputs_are_unambiguous(outputs: OutputsConfig)
    requires
        outputs.fault() is None,
    ensures
        output_names(outputs.entries@).no_duplicates(),
        forall|i: int, j: int|
            0 <= i < j < outputs.entries@.len() && #[trigger] outputs.entries@[i].primary
                ==> !(#[trigger] outputs.entries@[j].primary),
        forall|i: int|
            0 <= i < outputs.entries@.len() && #[trigger] outputs.entries@[i].primary
                ==> outputs.entries@[i].enabled,
{
    let entries = outputs.entries@;
    let names = output_names(entries);
    let check = output_check(entries);
    assert forall|i: int| 0 <= i < entries.len() implies #[trigger] check(i) is None by {
        error::lemma_checks_passed(entries.len(), check, i);
    }
    assert forall|i: int, j: int| 0 <= i < j < names.len() implies names[i] != names[j] by {
        assert(check(j) is None);
        let before = output_names(entries.take(j));
        assert(before[i] == names[i]);
    }
    assert forall|i: int, j: int|
        0 <= i < j < entries.len() && #[trigger] entries[i].primary implies !(
    #[trigger] entries[j].primary) by {
        assert(check(j) is None);
        lemma_first_primary(entries.take(j), i);
    }
    assert forall|i: int| 0 <= i < entries.len() && #[trigger] entries[i].primary implies
        entries[i].enabled by {
        assert(check(i) is None);
    }
}

proof fn lemma_first_primary(entries: Seq<OutputConfig>, i: int)
    requires
        0 <= i < entries.len(),
        entries[i].primary,
    ensures
        first_primary(entries) is Some,
    decreases entries.len(),
{
    if i < entries.len() - 1 {
        lemma_first_primary(entries.drop_last(), i);
    }
}

/// The first occurrence of a character that stands behind text without it.
proof fn lemma_position_behind(before: Seq<char>, wanted: char, after: Seq<char>)
    requires
        !before.contains(wanted),
    ensures
        text::position(before.push(wanted) + after, wanted) == Some(before.len() as int),
{
    let whole = before.push(wanted) + after;
    text::lemma_position(whole, wanted);
    assert(whole[before.len() as int] == wanted);
    match text::position(whole, wanted) {
        Some(found) => {
            if found < before.len() {
                assert(before[found] == wanted);
            }
            if found > before.len() {
                assert(whole.take(found)[before.len() as int] == wanted);
            }
        },
        None => {},
    }
}

/// A decimal number reads back as the number, and holds digits only.
proof fn lemma_decimal_reads_back(value: u32)
    ensures
        text::unsigned(text::decimal(value as nat)) == Some(value),
        !text::decimal(value as nat).contains('x'),
        !text::decimal(value as nat).contains('@'),
{
    let spelled = text::decimal(value as nat);
    text::law_decimal_spells_the_number(value as nat);
    assert(text::digit(spelled[0]));
    assert forall|i: int| 0 <= i < spelled.len() implies spelled[i] != 'x' && spelled[i]
        != '@' by {
        assert(text::digit(spelled[i]));
    }
}

/// The canonical spelling of a usable mode parses back to that mode, where the text behind its
/// at sign is read as the mode's refresh rate; it has an at sign exactly if there is a rate.
pub proof fn law_mode_text_parses_back(mode: OutputModeConfig)
    requires
        1 <= mode.width <= 16_384,
        1 <= mode.height <= 16_384,
        mode.refresh_millihz != Some(0u32),
    ensures
        mode_of(mode.spelling(), mode.refresh_millihz) == Some(mode),
        refresh_part(mode.spelling()) is Some <==> mode.refresh_millihz is Some,
{
    let width = text::decimal(mode.width as nat);
    let height = text::decimal(mode.height as nat);
    let dimensions = width.push('x') + height;
    let spelling = mode.spelling();
    lemma_decimal_reads_back(mode.width);
    lemma_decimal_reads_back(mode.height);
    lemma_position_behind(width, 'x', height);
    assert(dimensions.take(width.len() as int) =~= width);
    assert(dimensions.skip(width.len() as int + 1) =~= height);
    assert forall|i: int| 0 <= i < dimensions.len() implies dimensions[i] != '@' by {
        if i < width.len() {
            assert(width.contains(width[i]));
        } else if i > width.len() {
            assert(height.contains(height[i - width.len() - 1]));
        }
    }
    assert(!dimensions.contains('@'));
    match mode.refresh_millihz {
        None => {
            text::lemma_position(spelling, '@');
            if let Some(found) = text::position(spelling, '@') {
                assert(dimensions.contains(spelling[found]));
            }
        },
        Some(refresh) => {
            let rate = text::decimal(refresh as nat / 1000) + if refresh as nat % 1000 == 0 {
                Seq::empty()
            } else {
                seq!['.'] + thousandths(refresh as nat % 1000)
            };
            assert(spelling =~= dimensions.push('@') + rate);
            lemma_position_behind(dimensions, '@', rate);
            assert(spelling.take(dimensions.len() as int) =~= dimensions);
        },
    }
}

} // verus!
