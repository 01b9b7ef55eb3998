//! Pointer buttons, contexts and triggers.

use vstd::prelude::*;

use crate::config::keys;
use crate::config::keys::{
    canonical_modifiers, copied_modifiers, is_word, parse_modifiers, push_modifiers, same_modifiers,
    KeyboardModifier,
};
use crate::text;
use crate::text::{characters, cut, is_spaced, lower_chars};

verus! {

/// Pointer location used to select a binding.
#[derive(Clone, Copy, Debug, PartialEq, Eq, PartialOrd, Ord, Structural)]
pub enum MouseContext {
    /// Root window outside managed desktop surfaces.
    Root,
    /// Desktop surface, including desktop-role clients.
    Desktop,
    /// Application-owned client content.
    Client,
    /// Any managed decoration, used as a context fallback.
    Frame,
    /// Titlebar excluding its buttons.
    Titlebar,
    /// Any resize border, used as a context fallback.
    Border,
    /// Top resize border.
    Top,
    /// Bottom resize border.
    Bottom,
    /// Left resize border.
    Left,
    /// Right resize border.
    Right,
    /// Top-left resize corner.
    TopLeft,
    /// Top-right resize corner.
    TopRight,
    /// Bottom-left resize corner.
    BottomLeft,
    /// Bottom-right resize corner.
    BottomRight,
    /// Minimize titlebar button.
    Minimize,
    /// Maximize titlebar button.
    Maximize,
    /// Close titlebar button.
    Close,
}

impl MouseContext {
    /// The configuration spelling.
    pub open spec fn name(self) -> Seq<char> {
        match self {
            MouseContext::Root => "root"@,
            MouseContext::Desktop => "desktop"@,
            MouseContext::Client => "client"@,
            MouseContext::Frame => "frame"@,
            MouseContext::Titlebar => "titlebar"@,
            MouseContext::Border => "border"@,
            MouseContext::Top => "top"@,
            MouseContext::Bottom => "bottom"@,
            MouseContext::Left => "left"@,
            MouseContext::Right => "right"@,
            MouseContext::TopLeft => "top_left"@,
            MouseContext::TopRight => "top_right"@,
            MouseContext::BottomLeft => "bottom_left"@,
            MouseContext::BottomRight => "bottom_right"@,
            MouseContext::Minimize => "minimize"@,
            MouseContext::Maximize => "maximize"@,
            MouseContext::Close => "close"@,
        }
    }

    /// Returns the name.
    pub fn as_str(self) -> (name: &'static str)
        ensures
            name@ == self.name(),
    {
        match self {
            MouseContext::Root => "root",
            MouseContext::Desktop => "desktop",
            MouseContext::Client => "client",
            MouseContext::Frame => "frame",
            MouseContext::Titlebar => "titlebar",
            MouseContext::Border => "border",
            MouseContext::Top => "top",
            MouseContext::Bottom => "bottom",
            MouseContext::Left => "left",
            MouseContext::Right => "right",
            MouseContext::TopLeft => "top_left",
            MouseContext::TopRight => "top_right",
            MouseContext::BottomLeft => "bottom_left",
            MouseContext::BottomRight => "bottom_right",
            MouseContext::Minimize => "minimize",
            MouseContext::Maximize => "maximize",
            MouseContext::Close => "close",
        }
    }
}

/// Gesture phase that dispatches a pointer binding.
#[derive(Clone, Copy, Debug, PartialEq, Eq, PartialOrd, Ord, Structural)]
pub enum MouseTrigger {
    /// Initial button press.
    Press,
    /// Matching button release.
    Release,
    /// Press and release without crossing the drag threshold.
    Click,
    /// Second nearby click within the configured time.
    DoubleClick,
    /// Movement beyond the configured threshold while the button is held.
    Drag,
}

impl MouseTrigger {
    /// The configuration spelling.
    pub open spec fn name(self) -> Seq<char> {
        match self {
            MouseTrigger::Press => "press"@,
            MouseTrigger::Release => "release"@,
            MouseTrigger::Click => "click"@,
            MouseTrigger::DoubleClick => "double_click"@,
            MouseTrigger::Drag => "drag"@,
        }
    }

    /// Returns the name.
    pub fn as_str(self) -> (name: &'static str)
        ensures
            name@ == self.name(),
    {
        match self {
            MouseTrigger::Press => "press",
            MouseTrigger::Release => "release",
            MouseTrigger::Click => "click",
            MouseTrigger::DoubleClick => "double_click",
            MouseTrigger::Drag => "drag",
        }
    }
}

/// Modifier supported for mouse actions.
#[derive(Clone, Copy, Debug, PartialEq, Eq, Structural)]
pub enum MouseModifier {
    /// Alt/Mod1.
    Alt,
    /// Super/Mod4.
    Super,
}

impl Default for MouseModifier {
    /// The super key.
    fn default() -> (modifier: Self)
        ensures
            modifier == MouseModifier::Super,
    {
        MouseModifier::Super
    }
}

impl MouseModifier {
    /// The keyboard modifier held with the button.
    pub open spec fn key(self) -> KeyboardModifier {
        match self {
            MouseModifier::Alt => KeyboardModifier::Alt,
            MouseModifier::Super => KeyboardModifier::Super,
        }
    }

    /// Returns the keyboard modifier held with the button.
    pub(crate) fn keyboard(self) -> (modifier: KeyboardModifier)
        ensures
            modifier == self.key(),
    {
        match self {
            MouseModifier::Alt => KeyboardModifier::Alt,
            MouseModifier::Super => KeyboardModifier::Super,
        }
    }
}

/// Conventional X11 pointer button used by a binding.
#[derive(Clone, Copy, Debug, PartialEq, Eq, PartialOrd, Ord, Structural)]
pub enum MouseButton {
    /// Primary/left button (X11 button 1).
    Left,
    /// Middle button (X11 button 2).
    Middle,
    /// Secondary/right button (X11 button 3).
    Right,
    /// Wheel up (X11 button 4).
    Up,
    /// Wheel down (X11 button 5).
    Down,
}

impl MouseButton {
    /// The X11 button number.
    pub open spec fn code(self) -> u8 {
        match self {
            MouseButton::Left => 1,
            MouseButton::Middle => 2,
            MouseButton::Right => 3,
            MouseButton::Up => 4,
            MouseButton::Down => 5,
        }
    }

    /// Returns the X11-compatible button number.
    #[must_use]
    pub fn number(self) -> (number: u8)
        ensures
            number == self.code(),
    {
        match self {
            MouseButton::Left => 1,
            MouseButton::Middle => 2,
            MouseButton::Right => 3,
            MouseButton::Up => 4,
            MouseButton::Down => 5,
        }
    }

    /// The canonical spelling.
    pub open spec fn name(self) -> Seq<char> {
        match self {
            MouseButton::Left => "Left"@,
            MouseButton::Middle => "Middle"@,
            MouseButton::Right => "Right"@,
            MouseButton::Up => "Up"@,
            MouseButton::Down => "Down"@,
        }
    }

    /// Returns the canonical spelling.
    pub fn as_str(self) -> (name: &'static str)
        ensures
            name@ == self.name(),
    {
        match self {
            MouseButton::Left => "Left",
            MouseButton::Middle => "Middle",
            MouseButton::Right => "Right",
            MouseButton::Up => "Up",
            MouseButton::Down => "Down",
        }
    }
}

/// The button with a name or number, in any case.
pub open spec fn button_of(name: Seq<char>) -> Option<MouseButton> {
    let name = text::lower(name);
    if name == "left"@ || name == "button1"@ || name == "1"@ {
        Some(MouseButton::Left)
    } else if name == "middle"@ || name == "button2"@ || name == "2"@ {
        Some(MouseButton::Middle)
    } else if name == "right"@ || name == "button3"@ || name == "3"@ {
        Some(MouseButton::Right)
    } else if name == "up"@ || name == "button4"@ || name == "4"@ {
        Some(MouseButton::Up)
    } else if name == "down"@ || name == "button5"@ || name == "5"@ {
        Some(MouseButton::Down)
    } else {
        None
    }
}

/// Parses a button's name or number.
fn parse_button(name: &[char]) -> (button: Option<MouseButton>)
    ensures
        button == button_of(name@),
{
    let lowered = lower_chars(name);
    let name = lowered.as_slice();
    if is_word(name, "left") || is_word(name, "button1") || is_word(name, "1") {
        Some(MouseButton::Left)
    } else if is_word(name, "middle") || is_word(name, "button2") || is_word(name, "2") {
        Some(MouseButton::Middle)
    } else if is_word(name, "right") || is_word(name, "button3") || is_word(name, "3") {
        Some(MouseButton::Right)
    } else if is_word(name, "up") || is_word(name, "button4") || is_word(name, "4") {
        Some(MouseButton::Up)
    } else if is_word(name, "down") || is_word(name, "button5") || is_word(name, "5") {
        Some(MouseButton::Down)
    } else {
        None
    }
}

impl core::str::FromStr for MouseButton {
    type Err = ();

    fn from_str(value: &str) -> (parsed: Result<Self, ()>)
        ensures
            match parsed {
                Ok(button) => button_of(value@) == Some(button),
                Err(_) => button_of(value@) is None,
            },
    {
        let chars = characters(value);
        match parse_button(chars.as_slice()) {
            Some(button) => Ok(button),
            None => Err(()),
        }
    }
}

/// What a pointer chord is: its modifiers in canonical order and a button.
pub ghost struct MouseChordModel {
    pub modifiers: Seq<KeyboardModifier>,
    pub button: MouseButton,
}

impl MouseChordModel {
    /// The canonical spelling.
    pub open spec fn text(self) -> Seq<char> {
        keys::modifiers_text(self.modifiers) + self.button.name()
    }
}

/// The pointer chord that text spells: modifier names and a button, joined by hyphens.
pub open spec fn mouse_chord_of(text: Seq<char>) -> Option<MouseChordModel> {
    let parts = text::pieces(text, '-');
    if text::spaced(text) {
        None
    } else {
        match (keys::modifiers_of(parts.drop_last()), button_of(parts.last())) {
            (Some(modifiers), Some(button)) => Some(
                MouseChordModel { modifiers: keys::canonical(modifiers), button },
            ),
            _ => None,
        }
    }
}

/// Parsed modifier and physical pointer-button chord.
#[derive(Debug, PartialEq, Eq, PartialOrd, Ord)]
pub struct MouseChord {
    modifiers: Vec<KeyboardModifier>,
    button: MouseButton,
}

/// Error returned for malformed pointer-button chord syntax.
#[derive(Clone, Debug, PartialEq, Eq)]
pub struct MouseChordError(String);

impl MouseChordError {
    /// The text that was refused.
    pub closed spec fn refused(self) -> Seq<char> {
        self.0@
    }
}

impl View for MouseChord {
    type V = MouseChordModel;

    closed spec fn view(&self) -> MouseChordModel {
        MouseChordModel { modifiers: self.modifiers@, button: self.button }
    }
}

impl Clone for MouseChord {
    fn clone(&self) -> (copy: Self)
        ensures
            copy@ == self@,
    {
        MouseChord { modifiers: copied_modifiers(self.modifiers.as_slice()), button: self.button }
    }
}

impl MouseChord {
    /// Creates a chord with its modifiers in canonical order.
    #[must_use]
    pub fn new(modifiers: &[KeyboardModifier], button: MouseButton) -> (chord: Self)
        ensures
            chord@ == (MouseChordModel { modifiers: keys::canonical(modifiers@), button }),
    {
        MouseChord { modifiers: canonical_modifiers(modifiers), button }
    }

    /// Returns the chord's modifiers in canonical order.
    #[must_use]
    pub fn modifiers(&self) -> (modifiers: &[KeyboardModifier])
        ensures
            modifiers@ == self@.modifiers,
    {
        self.modifiers.as_slice()
    }

    /// Returns the physical pointer button.
    #[must_use]
    pub fn button(&self) -> (button: MouseButton)
        ensures
            button == self@.button,
    {
        self.button
    }

    /// Returns the canonical spelling.
    #[must_use]
    pub fn text(&self) -> (text: String)
        ensures
            text@ == self@.text(),
    {
        let mut text = String::new();
        push_modifiers(&mut text, self.modifiers.as_slice());
        text.append(self.button.as_str());
        assert(text@ =~= self@.text());
        text
    }

    /// Whether two chords are the same.
    pub(crate) fn same(&self, other: &Self) -> (r: bool)
        ensures
            r == (self@ == other@),
    {
        same_modifiers(self.modifiers.as_slice(), other.modifiers.as_slice()) && self.button
            == other.button
    }

    /// Parses modifier names and a button joined by hyphens.
    ///
    /// # Errors
    ///
    /// Returns an error for white space, an unknown button or modifier, or a modifier given
    /// twice.
    pub fn parse(value: &str) -> (parsed: Result<Self, MouseChordError>)
        ensures
            match parsed {
                Ok(chord) => mouse_chord_of(value@) == Some(chord@),
                Err(error) => mouse_chord_of(value@) is None && error.refused() == value@,
            },
    {
        if is_spaced(value) {
            return Err(MouseChordError(value.to_owned()));
        }
        let chars = characters(value);
        let parts = cut(chars.as_slice(), '-');
        proof {
            text::lemma_pieces(value@, '-');
        }
        let last = parts.len() - 1;
        match (parse_button(parts[last].as_slice()), parse_modifiers(&parts)) {
            (Some(button), Some(modifiers)) => Ok(
                MouseChord { modifiers: canonical_modifiers(modifiers.as_slice()), button },
            ),
            _ => Err(MouseChordError(value.to_owned())),
        }
    }
}

impl core::str::FromStr for MouseChord {
    type Err = MouseChordError;

    fn from_str(value: &str) -> (parsed: Result<Self, MouseChordError>)
        ensures
            match parsed {
                Ok(chord) => mouse_chord_of(value@) == Some(chord@),
                Err(error) => mouse_chord_of(value@) is None && error.refused() == value@,
            },
    {
        Self::parse(value)
    }
}

/// The contexts searched for a binding, from the exact one to the most general.
pub open spec fn chain_of(context: MouseContext) -> Seq<MouseContext> {
    match context {
        MouseContext::Root => seq![MouseContext::Root, MouseContext::Desktop],
        MouseContext::Desktop => seq![MouseContext::Desktop, MouseContext::Root],
        MouseContext::Frame => seq![MouseContext::Frame],
        MouseContext::Client | MouseContext::Titlebar | MouseContext::Border => seq![
            context,
            MouseContext::Frame,
        ],
        MouseContext::Minimize | MouseContext::Maximize | MouseContext::Close => seq![
            context,
            MouseContext::Titlebar,
            MouseContext::Frame,
        ],
        _ => seq![context, MouseContext::Border, MouseContext::Frame],
    }
}

/// Returns the exact-to-general lookup order for pointer bindings.
///
/// Both display backends use this chain so a context-specific binding wins
/// before the shared border, frame, desktop, or root fallback.
#[must_use]
pub fn mouse_context_chain(context: MouseContext) -> (chain: Vec<MouseContext>)
    ensures
        chain@ == chain_of(context),
{
    let mut chain: Vec<MouseContext> = Vec::new();
    chain.push(context);
    match context {
        MouseContext::Root => {
            chain.push(MouseContext::Desktop);
        },
        MouseContext::Desktop => {
            chain.push(MouseContext::Root);
        },
        MouseContext::Frame => {},
        MouseContext::Client | MouseContext::Titlebar | MouseContext::Border => {
            chain.push(MouseContext::Frame);
        },
        MouseContext::Minimize | MouseContext::Maximize | MouseContext::Close => {
            chain.push(MouseContext::Titlebar);
            chain.push(MouseContext::Frame);
        },
        _ => {
            chain.push(MouseContext::Border);
            chain.push(MouseContext::Frame);
        },
    }
    assert(chain@ =~= chain_of(context));
    chain
}

/// Every lookup starts at the context itself, tries no context twice, and a context that is
/// part of a frame falls back to the frame last.
pub proof fn law_lookup_goes_from_exact_to_general(context: MouseContext)
    ensures
        chain_of(context).first() == context,
        chain_of(context).no_duplicates(),
        context != MouseContext::Root && context != MouseContext::Desktop ==> chain_of(
            context,
        ).last() == MouseContext::Frame,
{
}

/// A button's name is one without white space or hyphens, and names that button.
proof fn lemma_button_name(button: MouseButton)
    ensures
        button_of(button.name()) == Some(button),
        !button.name().contains('-'),
        !text::spaced(button.name()),
{
    reveal_strlit("Left");
    reveal_strlit("Middle");
    reveal_strlit("Right");
    reveal_strlit("Up");
    reveal_strlit("Down");
    reveal_strlit("left");
    reveal_strlit("middle");
    reveal_strlit("right");
    reveal_strlit("up");
    reveal_strlit("down");
    reveal_strlit("button1");
    reveal_strlit("button2");
    reveal_strlit("button3");
    reveal_strlit("button4");
    reveal_strlit("button5");
    reveal_strlit("1");
    reveal_strlit("2");
    reveal_strlit("3");
    reveal_strlit("4");
    reveal_strlit("5");
    let name = text::lower(button.name());
    match button {
        MouseButton::Left => {
            assert(name =~= "left"@);
        },
        MouseButton::Middle => {
            assert(name =~= "middle"@);
        },
        MouseButton::Right => {
            assert(name =~= "right"@);
            assert("button1"@.len() == 7);
        },
        MouseButton::Up => {
            assert(name =~= "up"@);
        },
        MouseButton::Down => {
            assert(name =~= "down"@);
            assert(name[0] != "left"@[0]);
        },
    }
}

/// The canonical spelling of a parsed pointer chord parses back to that chord.
pub proof fn law_mouse_chord_text_parses_back(spelling: Seq<char>)
    requires
        mouse_chord_of(spelling) is Some,
    ensures
        mouse_chord_of(mouse_chord_of(spelling)->Some_0.text()) == mouse_chord_of(spelling),
{
    let chord = mouse_chord_of(spelling)->Some_0;
    let name = chord.button.name();
    lemma_button_name(chord.button);
    keys::lemma_canonical(keys::modifiers_of(text::pieces(spelling, '-').drop_last())->Some_0);
    keys::lemma_chord_pieces(chord.modifiers, name);
    keys::lemma_letters_name_modifiers(chord.modifiers);
    keys::lemma_modifiers_text_unspaced(chord.modifiers);
    let whole = chord.text();
    let start = keys::modifiers_text(chord.modifiers);
    assert forall|i: int| 0 <= i < whole.len() implies !text::white_space(#[trigger] whole[i]) by {
        if i < start.len() {
            assert(!text::white_space(start[i]));
        } else {
            assert(!text::white_space(name[i - start.len()]));
        }
    }
    let parts = keys::letters(chord.modifiers).push(name);
    assert(parts.drop_last() =~= keys::letters(chord.modifiers));
}

} // verus!
