//! Pointer and keyboard bindings: the standard ones, and what configuration makes of them.

use vstd::prelude::*;

use crate::config::action;
use crate::config::action::{copy_actions, Action, ActionModel, ScreenshotTarget};
use crate::config::keys;
use crate::config::keys::{ChordModel, KeyChord, KeySequence, KeyboardModifier};
use crate::config::pointer::{
    MouseButton, MouseChord, MouseChordModel, MouseContext, MouseModifier, MouseTrigger,
};
use crate::config::settings;
use crate::config::settings::{ShortcutsConfig, ShortcutsModel};

verus! {

/// Identity of one inherited pointer binding to omit.
#[derive(Debug, PartialEq, Eq, PartialOrd, Ord)]
pub struct MouseBindingSelector {
    /// Decoration or surface context where the gesture begins.
    pub context: MouseContext,
    /// Modifier and physical button chord.
    pub button: MouseChord,
    /// Gesture phase to omit.
    pub trigger: MouseTrigger,
}

/// One context-aware pointer binding.
#[derive(Debug, PartialEq, Eq)]
pub struct MouseBinding {
    /// Decoration or surface context where the gesture begins.
    pub context: MouseContext,
    /// Modifier and physical button chord.
    pub button: MouseChord,
    /// Gesture phase that dispatches the actions.
    pub trigger: MouseTrigger,
    /// Ordered actions dispatched for the gesture.
    pub actions: Vec<Action>,
}

/// One global keyboard binding.
#[derive(Debug, PartialEq, Eq)]
pub struct KeyBinding {
    /// Key sequence such as `W-Return` or `C-x C-s`.
    pub key: KeySequence,
    /// Ordered actions executed when the complete sequence is pressed.
    pub actions: Vec<Action>,
}

/// A pointer gesture: where it begins, with which chord, and in which phase.
pub ghost struct Gesture {
    pub context: MouseContext,
    pub button: MouseChordModel,
    pub trigger: MouseTrigger,
}

/// What a pointer binding does.
pub ghost struct MouseBindingModel {
    pub gesture: Gesture,
    pub actions: Seq<ActionModel>,
}

/// What a keyboard binding does.
pub ghost struct KeyBindingModel {
    pub key: Seq<ChordModel>,
    pub actions: Seq<ActionModel>,
}

impl Gesture {
    /// The canonical spelling.
    pub open spec fn text(self) -> Seq<char> {
        self.context.name().push(' ') + self.button.text().push(' ') + self.trigger.name()
    }
}

impl View for MouseBindingSelector {
    type V = Gesture;

    open spec fn view(&self) -> Gesture {
        Gesture { context: self.context, button: self.button@, trigger: self.trigger }
    }
}

impl View for MouseBinding {
    type V = MouseBindingModel;

    open spec fn view(&self) -> MouseBindingModel {
        MouseBindingModel {
            gesture: Gesture {
                context: self.context,
                button: self.button@,
                trigger: self.trigger,
            },
            actions: action::action_models(self.actions@),
        }
    }
}

impl View for KeyBinding {
    type V = KeyBindingModel;

    open spec fn view(&self) -> KeyBindingModel {
        KeyBindingModel { key: self.key@, actions: action::action_models(self.actions@) }
    }
}

/// The gestures of selectors.
pub open spec fn gestures(selectors: Seq<MouseBindingSelector>) -> Seq<Gesture> {
    Seq::new(selectors.len(), |i: int| selectors[i]@)
}

/// The models of pointer bindings.
pub open spec fn mouse_models(bindings: Seq<MouseBinding>) -> Seq<MouseBindingModel> {
    Seq::new(bindings.len(), |i: int| bindings[i]@)
}

/// The models of keyboard bindings.
pub open spec fn key_models(bindings: Seq<KeyBinding>) -> Seq<KeyBindingModel> {
    Seq::new(bindings.len(), |i: int| bindings[i]@)
}

/// The models of key sequences.
pub open spec fn sequences(keys: Seq<KeySequence>) -> Seq<Seq<ChordModel>> {
    Seq::new(keys.len(), |i: int| keys[i]@)
}

impl Clone for MouseBindingSelector {
    fn clone(&self) -> (copied: Self)
        ensures
            copied@ == self@,
    {
        MouseBindingSelector {
            context: self.context,
            button: self.button.clone(),
            trigger: self.trigger,
        }
    }
}

impl Clone for MouseBinding {
    fn clone(&self) -> (copied: Self)
        ensures
            copied@ == self@,
    {
        MouseBinding {
            context: self.context,
            button: self.button.clone(),
            trigger: self.trigger,
            actions: copy_actions(&self.actions),
        }
    }
}

impl Clone for KeyBinding {
    fn clone(&self) -> (copied: Self)
        ensures
            copied@ == self@,
    {
        KeyBinding { key: self.key.clone(), actions: copy_actions(&self.actions) }
    }
}

/// The spelling of a gesture.
fn gesture_text(context: MouseContext, button: &MouseChord, trigger: MouseTrigger) -> (text: String)
    ensures
        text@ == (Gesture { context, button: button@, trigger }).text(),
{
    let mut text = context.as_str().to_owned();
    text.push(' ');
    let chord = button.text();
    text.append(chord.as_str());
    text.push(' ');
    text.append(trigger.as_str());
    assert(text@ =~= (Gesture { context, button: button@, trigger }).text());
    text
}

impl MouseBindingSelector {
    /// Returns the canonical spelling.
    #[must_use]
    pub fn text(&self) -> (text: String)
        ensures
            text@ == self@.text(),
    {
        gesture_text(self.context, &self.button, self.trigger)
    }

    /// Whether two selectors are the same.
    pub(crate) fn same(&self, other: &Self) -> (r: bool)
        ensures
            r == (self@ == other@),
    {
        self.context == other.context && self.button.same(&other.button) && self.trigger
            == other.trigger
    }

    pub(crate) fn matches(&self, binding: &MouseBinding) -> (r: bool)
        ensures
            r == (self@ == binding@.gesture),
    {
        self.context == binding.context && self.button.same(&binding.button) && self.trigger
            == binding.trigger
    }
}

impl MouseBinding {
    /// Returns the canonical spelling of the gesture.
    #[must_use]
    pub fn text(&self) -> (text: String)
        ensures
            text@ == self@.gesture.text(),
    {
        gesture_text(self.context, &self.button, self.trigger)
    }

    /// Whether two bindings are for the same gesture.
    pub(crate) fn same_gesture(&self, other: &Self) -> (r: bool)
        ensures
            r == (self@.gesture == other@.gesture),
    {
        self.context == other.context && self.button.same(&other.button) && self.trigger
            == other.trigger
    }
}

/// A pointer binding in the standard table.
pub open spec fn gesture(
    context: MouseContext,
    modifiers: Seq<KeyboardModifier>,
    button: MouseButton,
    trigger: MouseTrigger,
    actions: Seq<ActionModel>,
) -> MouseBindingModel {
    MouseBindingModel {
        gesture: Gesture {
            context,
            button: MouseChordModel { modifiers: keys::canonical(modifiers), button },
            trigger,
        },
        actions,
    }
}

/// The pointer bindings that nobox ships with and that need no modifier.
pub open spec fn standard_gestures() -> Seq<MouseBindingModel> {
    seq![
        gesture(
            MouseContext::Client,
            Seq::empty(),
            MouseButton::Left,
            MouseTrigger::Press,
            seq![
                ActionModel::Plain(Action::Focus { here: false }),
                ActionModel::Plain(Action::Raise),
            ],
        ),
        gesture(
            MouseContext::Client,
            Seq::empty(),
            MouseButton::Middle,
            MouseTrigger::Press,
            seq![
                ActionModel::Plain(Action::Focus { here: false }),
                ActionModel::Plain(Action::Raise),
            ],
        ),
        gesture(
            MouseContext::Client,
            Seq::empty(),
            MouseButton::Right,
            MouseTrigger::Press,
            seq![
                ActionModel::Plain(Action::Focus { here: false }),
                ActionModel::Plain(Action::Raise),
            ],
        ),
        gesture(
            MouseContext::Titlebar,
            Seq::empty(),
            MouseButton::Left,
            MouseTrigger::Press,
            seq![
                ActionModel::Plain(Action::Focus { here: false }),
                ActionModel::Plain(Action::Raise),
                ActionModel::Plain(Action::Unshade),
            ],
        ),
        gesture(
            MouseContext::Titlebar,
            Seq::empty(),
            MouseButton::Left,
            MouseTrigger::Drag,
            seq![ActionModel::Plain(Action::Move)],
        ),
        gesture(
            MouseContext::Titlebar,
            Seq::empty(),
            MouseButton::Left,
            MouseTrigger::DoubleClick,
            seq![ActionModel::Plain(Action::ToggleMaximize)],
        ),
        gesture(
            MouseContext::Titlebar,
            Seq::empty(),
            MouseButton::Middle,
            MouseTrigger::Press,
            seq![
                ActionModel::Plain(Action::Lower),
                ActionModel::Plain(Action::FocusToBottom),
                ActionModel::Plain(Action::FocusFallback),
            ],
        ),
        gesture(
            MouseContext::Titlebar,
            Seq::empty(),
            MouseButton::Right,
            MouseTrigger::Press,
            seq![
                ActionModel::Plain(Action::Focus { here: false }),
                ActionModel::Plain(Action::Raise),
                ActionModel::Plain(Action::Unshade),
                ActionModel::ShowMenu { menu: "client"@ },
            ],
        ),
        gesture(
            MouseContext::Border,
            Seq::empty(),
            MouseButton::Left,
            MouseTrigger::Drag,
            seq![ActionModel::Plain(Action::Resize { edge: None })],
        ),
        gesture(
            MouseContext::Minimize,
            Seq::empty(),
            MouseButton::Left,
            MouseTrigger::Press,
            seq![
                ActionModel::Plain(Action::Focus { here: false }),
                ActionModel::Plain(Action::Raise),
                ActionModel::Plain(Action::Unshade),
            ],
        ),
        gesture(
            MouseContext::Minimize,
            Seq::empty(),
            MouseButton::Left,
            MouseTrigger::Click,
            seq![ActionModel::Plain(Action::Minimize)],
        ),
        gesture(
            MouseContext::Maximize,
            Seq::empty(),
            MouseButton::Left,
            MouseTrigger::Press,
            seq![
                ActionModel::Plain(Action::Focus { here: false }),
                ActionModel::Plain(Action::Raise),
                ActionModel::Plain(Action::Unshade),
            ],
        ),
        gesture(
            MouseContext::Maximize,
            Seq::empty(),
            MouseButton::Left,
            MouseTrigger::Click,
            seq![ActionModel::Plain(Action::ToggleMaximize)],
        ),
        gesture(
            MouseContext::Maximize,
            Seq::empty(),
            MouseButton::Middle,
            MouseTrigger::Click,
            seq![ActionModel::Plain(Action::ToggleMaximizeVertical)],
        ),
        gesture(
            MouseContext::Maximize,
            Seq::empty(),
            MouseButton::Right,
            MouseTrigger::Click,
            seq![ActionModel::Plain(Action::ToggleMaximizeHorizontal)],
        ),
        gesture(
            MouseContext::Close,
            Seq::empty(),
            MouseButton::Left,
            MouseTrigger::Press,
            seq![
                ActionModel::Plain(Action::Focus { here: false }),
                ActionModel::Plain(Action::Raise),
                ActionModel::Plain(Action::Unshade),
            ],
        ),
        gesture(
            MouseContext::Close,
            Seq::empty(),
            MouseButton::Left,
            MouseTrigger::Click,
            seq![ActionModel::Plain(Action::Close)],
        ),
        gesture(
            MouseContext::Desktop,
            Seq::empty(),
            MouseButton::Up,
            MouseTrigger::Click,
            seq![ActionModel::Plain(Action::PreviousWorkspace)],
        ),
        gesture(
            MouseContext::Desktop,
            Seq::empty(),
            MouseButton::Down,
            MouseTrigger::Click,
            seq![ActionModel::Plain(Action::NextWorkspace)],
        ),
        gesture(
            MouseContext::Root,
            Seq::empty(),
            MouseButton::Right,
            MouseTrigger::Press,
            seq![ActionModel::ShowMenu { menu: "root"@ }],
        ),
        gesture(
            MouseContext::Root,
            Seq::empty(),
            MouseButton::Middle,
            MouseTrigger::Press,
            seq![ActionModel::ShowMenu { menu: "windows"@ }],
        ),
    ]
}

/// The pointer bindings that nobox ships with for one drag modifier.
pub open spec fn frame_gestures(modifier: KeyboardModifier) -> Seq<MouseBindingModel> {
    seq![
        gesture(
            MouseContext::Frame,
            seq![modifier],
            MouseButton::Left,
            MouseTrigger::Press,
            seq![
                ActionModel::Plain(Action::Focus { here: false }),
                ActionModel::Plain(Action::Raise),
            ],
        ),
        gesture(
            MouseContext::Frame,
            seq![modifier],
            MouseButton::Left,
            MouseTrigger::Drag,
            seq![ActionModel::Plain(Action::Move)],
        ),
        gesture(
            MouseContext::Frame,
            seq![modifier],
            MouseButton::Right,
            MouseTrigger::Press,
            seq![
                ActionModel::Plain(Action::Focus { here: false }),
                ActionModel::Plain(Action::Raise),
                ActionModel::Plain(Action::Unshade),
            ],
        ),
        gesture(
            MouseContext::Frame,
            seq![modifier],
            MouseButton::Right,
            MouseTrigger::Drag,
            seq![ActionModel::Plain(Action::Resize { edge: None })],
        ),
        gesture(
            MouseContext::Frame,
            seq![modifier],
            MouseButton::Middle,
            MouseTrigger::Press,
            seq![
                ActionModel::Plain(Action::Lower),
                ActionModel::Plain(Action::FocusToBottom),
                ActionModel::Plain(Action::FocusFallback),
            ],
        ),
        gesture(
            MouseContext::Frame,
            seq![modifier],
            MouseButton::Up,
            MouseTrigger::Click,
            seq![ActionModel::Plain(Action::PreviousWorkspace)],
        ),
        gesture(
            MouseContext::Frame,
            seq![modifier],
            MouseButton::Down,
            MouseTrigger::Click,
            seq![ActionModel::Plain(Action::NextWorkspace)],
        ),
        gesture(
            MouseContext::Frame,
            seq![modifier, KeyboardModifier::Control],
            MouseButton::Up,
            MouseTrigger::Click,
            seq![ActionModel::Plain(Action::PreviousWorkspace)],
        ),
        gesture(
            MouseContext::Frame,
            seq![modifier, KeyboardModifier::Control],
            MouseButton::Down,
            MouseTrigger::Click,
            seq![ActionModel::Plain(Action::NextWorkspace)],
        ),
        gesture(
            MouseContext::Frame,
            seq![modifier, KeyboardModifier::Shift],
            MouseButton::Up,
            MouseTrigger::Click,
            seq![ActionModel::Plain(Action::MoveToPreviousWorkspace { follow: true })],
        ),
        gesture(
            MouseContext::Frame,
            seq![modifier, KeyboardModifier::Shift],
            MouseButton::Down,
            MouseTrigger::Click,
            seq![ActionModel::Plain(Action::MoveToNextWorkspace { follow: true })],
        ),
    ]
}

/// The pointer bindings that nobox ships with for drag modifiers.
pub open spec fn framed_gestures(modifiers: Seq<MouseModifier>) -> Seq<MouseBindingModel>
    decreases modifiers.len(),
{
    if modifiers.len() == 0 {
        Seq::empty()
    } else {
        framed_gestures(modifiers.drop_last()) + frame_gestures(modifiers.last().key())
    }
}

/// A keyboard binding in the standard table.
pub open spec fn key_model(chord: ChordModel, action: ActionModel) -> KeyBindingModel {
    KeyBindingModel { key: seq![chord], actions: seq![action] }
}

/// The keyboard bindings that nobox ships with, given the shortcuts.
pub open spec fn standard_keys(shortcuts: ShortcutsModel) -> Seq<KeyBindingModel> {
    seq![
        key_model(
            settings::chord(seq![KeyboardModifier::Alt], "Tab"@),
            ActionModel::Plain(Action::NextWindow),
        ),
        key_model(
            settings::chord(seq![KeyboardModifier::Alt, KeyboardModifier::Shift], "Tab"@),
            ActionModel::Plain(Action::PreviousWindow),
        ),
        key_model(
            settings::chord(seq![KeyboardModifier::Alt], "space"@),
            ActionModel::ShowMenu { menu: "client"@ },
        ),
        key_model(
            settings::chord(seq![KeyboardModifier::Alt], "F11"@),
            ActionModel::Plain(Action::ToggleFullscreen),
        ),
        key_model(
            settings::chord(seq![KeyboardModifier::Super], "Return"@),
            ActionModel::Plain(Action::LaunchTerminal),
        ),
        key_model(shortcuts.terminal, ActionModel::Plain(Action::LaunchTerminal)),
        key_model(
            shortcuts.screenshot,
            ActionModel::Plain(Action::Screenshot { target: ScreenshotTarget::Screen }),
        ),
        key_model(
            shortcuts.window_screenshot,
            ActionModel::Plain(Action::Screenshot { target: ScreenshotTarget::Window }),
        ),
        key_model(
            settings::chord(seq![KeyboardModifier::Super], "q"@),
            ActionModel::Plain(Action::Close),
        ),
        key_model(
            settings::chord(seq![KeyboardModifier::Super], "d"@),
            ActionModel::Plain(Action::ToggleShowDesktop { strict: false }),
        ),
        key_model(
            settings::chord(seq![KeyboardModifier::Super, KeyboardModifier::Shift], "Escape"@),
            ActionModel::Plain(Action::Exit { prompt: true }),
        ),
        key_model(
            settings::chord(seq![KeyboardModifier::Control, KeyboardModifier::Alt], "Left"@),
            ActionModel::Plain(Action::WorkspaceLeft { wrap: Some(false) }),
        ),
        key_model(
            settings::chord(seq![KeyboardModifier::Control, KeyboardModifier::Alt], "Right"@),
            ActionModel::Plain(Action::WorkspaceRight { wrap: Some(false) }),
        ),
        key_model(
            settings::chord(seq![KeyboardModifier::Alt, KeyboardModifier::Shift], "Left"@),
            ActionModel::Plain(Action::MoveToWorkspaceLeft { follow: true, wrap: Some(false) }),
        ),
        key_model(
            settings::chord(seq![KeyboardModifier::Alt, KeyboardModifier::Shift], "Right"@),
            ActionModel::Plain(Action::MoveToWorkspaceRight { follow: true, wrap: Some(false) }),
        ),
        key_model(
            settings::chord(seq![KeyboardModifier::Super], "Left"@),
            ActionModel::Plain(Action::WorkspaceLeft { wrap: Some(false) }),
        ),
        key_model(
            settings::chord(seq![KeyboardModifier::Super], "Right"@),
            ActionModel::Plain(Action::WorkspaceRight { wrap: Some(false) }),
        ),
        key_model(
            settings::chord(seq![KeyboardModifier::Super], "Up"@),
            ActionModel::Plain(Action::WorkspaceUp { wrap: Some(false) }),
        ),
        key_model(
            settings::chord(seq![KeyboardModifier::Super], "Down"@),
            ActionModel::Plain(Action::WorkspaceDown { wrap: Some(false) }),
        ),
        key_model(
            settings::chord(seq![KeyboardModifier::Super, KeyboardModifier::Shift], "Left"@),
            ActionModel::Plain(Action::MoveToWorkspaceLeft { follow: true, wrap: Some(false) }),
        ),
        key_model(
            settings::chord(seq![KeyboardModifier::Super, KeyboardModifier::Shift], "Right"@),
            ActionModel::Plain(Action::MoveToWorkspaceRight { follow: true, wrap: Some(false) }),
        ),
        key_model(
            settings::chord(seq![KeyboardModifier::Super, KeyboardModifier::Shift], "Up"@),
            ActionModel::Plain(Action::MoveToWorkspaceUp { follow: true, wrap: Some(false) }),
        ),
        key_model(
            settings::chord(seq![KeyboardModifier::Super, KeyboardModifier::Shift], "Down"@),
            ActionModel::Plain(Action::MoveToWorkspaceDown { follow: true, wrap: Some(false) }),
        ),
    ]
}

fn one(first: Action) -> (actions: Vec<Action>)
    ensures
        action::action_models(actions@) == seq![first.model()],
{
    let actions = vec![first];
    proof {
        action::lemma_action_models(actions@);
        assert(action::action_models(actions@) =~= seq![first.model()]);
    }
    actions
}

fn two(first: Action, second: Action) -> (actions: Vec<Action>)
    ensures
        action::action_models(actions@) == seq![first.model(), second.model()],
{
    let actions = vec![first, second];
    proof {
        action::lemma_action_models(actions@);
        assert(action::action_models(actions@) =~= seq![first.model(), second.model()]);
    }
    actions
}

fn three(first: Action, second: Action, third: Action) -> (actions: Vec<Action>)
    ensures
        action::action_models(actions@) == seq![first.model(), second.model(), third.model()],
{
    let actions = vec![first, second, third];
    proof {
        action::lemma_action_models(actions@);
        assert(action::action_models(actions@) =~= seq![
            first.model(),
            second.model(),
            third.model(),
        ]);
    }
    actions
}

fn four(first: Action, second: Action, third: Action, fourth: Action) -> (actions: Vec<Action>)
    ensures
        action::action_models(actions@) == seq![
            first.model(),
            second.model(),
            third.model(),
            fourth.model(),
        ],
{
    let actions = vec![first, second, third, fourth];
    proof {
        action::lemma_action_models(actions@);
        assert(action::action_models(actions@) =~= seq![
            first.model(),
            second.model(),
            third.model(),
            fourth.model(),
        ]);
    }
    actions
}

fn bare(button: MouseButton) -> (chord: MouseChord)
    ensures
        chord@ == (MouseChordModel { modifiers: keys::canonical(Seq::empty()), button }),
{
    let modifiers: Vec<KeyboardModifier> = Vec::new();
    assert(modifiers@ =~= Seq::empty());
    MouseChord::new(modifiers.as_slice(), button)
}

fn with_one(modifier: KeyboardModifier, button: MouseButton) -> (chord: MouseChord)
    ensures
        chord@ == (MouseChordModel { modifiers: keys::canonical(seq![modifier]), button }),
{
    let modifiers = vec![modifier];
    assert(modifiers@ =~= seq![modifier]);
    MouseChord::new(modifiers.as_slice(), button)
}

fn with_two(
    modifier: KeyboardModifier,
    other: KeyboardModifier,
    button: MouseButton,
) -> (chord: MouseChord)
    ensures
        chord@ == (MouseChordModel { modifiers: keys::canonical(seq![modifier, other]), button }),
{
    let modifiers = vec![modifier, other];
    assert(modifiers@ =~= seq![modifier, other]);
    MouseChord::new(modifiers.as_slice(), button)
}

fn key_one(modifier: KeyboardModifier, symbol: &str) -> (chord: KeyChord)
    ensures
        chord@ == settings::chord(seq![modifier], symbol@),
{
    let modifiers = vec![modifier];
    assert(modifiers@ =~= seq![modifier]);
    KeyChord::new(modifiers.as_slice(), symbol)
}

fn key_two(modifier: KeyboardModifier, other: KeyboardModifier, symbol: &str) -> (chord: KeyChord)
    ensures
        chord@ == settings::chord(seq![modifier, other], symbol@),
{
    let modifiers = vec![modifier, other];
    assert(modifiers@ =~= seq![modifier, other]);
    KeyChord::new(modifiers.as_slice(), symbol)
}

fn add_binding(
    bindings: &mut Vec<MouseBinding>,
    context: MouseContext,
    button: MouseChord,
    trigger: MouseTrigger,
    actions: Vec<Action>,
)
    ensures
        mouse_models(final(bindings)@) == mouse_models(old(bindings)@).push(
            MouseBindingModel {
                gesture: Gesture { context, button: button@, trigger },
                actions: action::action_models(actions@),
            },
        ),
{
    let ghost before = mouse_models(bindings@);
    let binding = MouseBinding { context, button, trigger, actions };
    let ghost model = binding@;
    bindings.push(binding);
    assert(mouse_models(bindings@) =~= before.push(model));
}

fn add_key(bindings: &mut Vec<KeyBinding>, chord: KeyChord, action: Action)
    ensures
        key_models(final(bindings)@) == key_models(old(bindings)@).push(
            key_model(chord@, action.model()),
        ),
{
    let ghost before = key_models(bindings@);
    let binding = KeyBinding { key: KeySequence::single(chord), actions: one(action) };
    let ghost model = binding@;
    bindings.push(binding);
    assert(key_models(bindings@) =~= before.push(model));
}

fn add_standard_gestures() -> (bindings: Vec<MouseBinding>)
    ensures
        mouse_models(bindings@) == standard_gestures(),
{
    let mut bindings: Vec<MouseBinding> = Vec::new();
    assert(mouse_models(bindings@) =~= Seq::empty());
    add_binding(
        &mut bindings,
        MouseContext::Client,
        bare(MouseButton::Left),
        MouseTrigger::Press,
        two(Action::Focus { here: false }, Action::Raise),
    );
    add_binding(
        &mut bindings,
        MouseContext::Client,
        bare(MouseButton::Middle),
        MouseTrigger::Press,
        two(Action::Focus { here: false }, Action::Raise),
    );
    add_binding(
        &mut bindings,
        MouseContext::Client,
        bare(MouseButton::Right),
        MouseTrigger::Press,
        two(Action::Focus { here: false }, Action::Raise),
    );
    add_binding(
        &mut bindings,
        MouseContext::Titlebar,
        bare(MouseButton::Left),
        MouseTrigger::Press,
        three(Action::Focus { here: false }, Action::Raise, Action::Unshade),
    );
    add_binding(
        &mut bindings,
        MouseContext::Titlebar,
        bare(MouseButton::Left),
        MouseTrigger::Drag,
        one(Action::Move),
    );
    add_binding(
        &mut bindings,
        MouseContext::Titlebar,
        bare(MouseButton::Left),
        MouseTrigger::DoubleClick,
        one(Action::ToggleMaximize),
    );
    add_binding(
        &mut bindings,
        MouseContext::Titlebar,
        bare(MouseButton::Middle),
        MouseTrigger::Press,
        three(Action::Lower, Action::FocusToBottom, Action::FocusFallback),
    );
    add_binding(
        &mut bindings,
        MouseContext::Titlebar,
        bare(MouseButton::Right),
        MouseTrigger::Press,
        four(
            Action::Focus { here: false },
            Action::Raise,
            Action::Unshade,
            Action::ShowMenu { menu: "client".to_owned() },
        ),
    );
    add_binding(
        &mut bindings,
        MouseContext::Border,
        bare(MouseButton::Left),
        MouseTrigger::Drag,
        one(Action::Resize { edge: None }),
    );
    add_binding(
        &mut bindings,
        MouseContext::Minimize,
        bare(MouseButton::Left),
        MouseTrigger::Press,
        three(Action::Focus { here: false }, Action::Raise, Action::Unshade),
    );
    add_binding(
        &mut bindings,
        MouseContext::Minimize,
        bare(MouseButton::Left),
        MouseTrigger::Click,
        one(Action::Minimize),
    );
    add_binding(
        &mut bindings,
        MouseContext::Maximize,
        bare(MouseButton::Left),
        MouseTrigger::Press,
        three(Action::Focus { here: false }, Action::Raise, Action::Unshade),
    );
    add_binding(
        &mut bindings,
        MouseContext::Maximize,
        bare(MouseButton::Left),
        MouseTrigger::Click,
        one(Action::ToggleMaximize),
    );
    add_binding(
        &mut bindings,
        MouseContext::Maximize,
        bare(MouseButton::Middle),
        MouseTrigger::Click,
        one(Action::ToggleMaximizeVertical),
    );
    add_binding(
        &mut bindings,
        MouseContext::Maximize,
        bare(MouseButton::Right),
        MouseTrigger::Click,
        one(Action::ToggleMaximizeHorizontal),
    );
    add_binding(
        &mut bindings,
        MouseContext::Close,
        bare(MouseButton::Left),
        MouseTrigger::Press,
        three(Action::Focus { here: false }, Action::Raise, Action::Unshade),
    );
    add_binding(
        &mut bindings,
        MouseContext::Close,
        bare(MouseButton::Left),
        MouseTrigger::Click,
        one(Action::Close),
    );
    add_binding(
        &mut bindings,
        MouseContext::Desktop,
        bare(MouseButton::Up),
        MouseTrigger::Click,
        one(Action::PreviousWorkspace),
    );
    add_binding(
        &mut bindings,
        MouseContext::Desktop,
        bare(MouseButton::Down),
        MouseTrigger::Click,
        one(Action::NextWorkspace),
    );
    add_binding(
        &mut bindings,
        MouseContext::Root,
        bare(MouseButton::Right),
        MouseTrigger::Press,
        one(Action::ShowMenu { menu: "root".to_owned() }),
    );
    add_binding(
        &mut bindings,
        MouseContext::Root,
        bare(MouseButton::Middle),
        MouseTrigger::Press,
        one(Action::ShowMenu { menu: "windows".to_owned() }),
    );
    bindings
}

fn add_frame_gestures(bindings: &mut Vec<MouseBinding>, modifier: KeyboardModifier)
    ensures
        mouse_models(final(bindings)@) == mouse_models(old(bindings)@) + frame_gestures(modifier),
{
    let ghost before = mouse_models(bindings@);
    add_binding(
        bindings,
        MouseContext::Frame,
        with_one(modifier, MouseButton::Left),
        MouseTrigger::Press,
        two(Action::Focus { here: false }, Action::Raise),
    );
    add_binding(
        bindings,
        MouseContext::Frame,
        with_one(modifier, MouseButton::Left),
        MouseTrigger::Drag,
        one(Action::Move),
    );
    add_binding(
        bindings,
        MouseContext::Frame,
        with_one(modifier, MouseButton::Right),
        MouseTrigger::Press,
        three(Action::Focus { here: false }, Action::Raise, Action::Unshade),
    );
    add_binding(
        bindings,
        MouseContext::Frame,
        with_one(modifier, MouseButton::Right),
        MouseTrigger::Drag,
        one(Action::Resize { edge: None }),
    );
    add_binding(
        bindings,
        MouseContext::Frame,
        with_one(modifier, MouseButton::Middle),
        MouseTrigger::Press,
        three(Action::Lower, Action::FocusToBottom, Action::FocusFallback),
    );
    add_binding(
        bindings,
        MouseContext::Frame,
        with_one(modifier, MouseButton::Up),
        MouseTrigger::Click,
        one(Action::PreviousWorkspace),
    );
    add_binding(
        bindings,
        MouseContext::Frame,
        with_one(modifier, MouseButton::Down),
        MouseTrigger::Click,
        one(Action::NextWorkspace),
    );
    add_binding(
        bindings,
        MouseContext::Frame,
        with_two(modifier, KeyboardModifier::Control, MouseButton::Up),
        MouseTrigger::Click,
        one(Action::PreviousWorkspace),
    );
    add_binding(
        bindings,
        MouseContext::Frame,
        with_two(modifier, KeyboardModifier::Control, MouseButton::Down),
        MouseTrigger::Click,
        one(Action::NextWorkspace),
    );
    add_binding(
        bindings,
        MouseContext::Frame,
        with_two(modifier, KeyboardModifier::Shift, MouseButton::Up),
        MouseTrigger::Click,
        one(Action::MoveToPreviousWorkspace { follow: true }),
    );
    add_binding(
        bindings,
        MouseContext::Frame,
        with_two(modifier, KeyboardModifier::Shift, MouseButton::Down),
        MouseTrigger::Click,
        one(Action::MoveToNextWorkspace { follow: true }),
    );
    assert(mouse_models(bindings@) =~= before + frame_gestures(modifier));
}

/// The standard pointer bindings for drag modifiers.
pub fn standard_mouse_bindings(modifiers: &[MouseModifier]) -> (bindings: Vec<MouseBinding>)
    ensures
        mouse_models(bindings@) == standard_gestures() + framed_gestures(modifiers@),
{
    let mut bindings = add_standard_gestures();
    let mut index: usize = 0;
    assert(mouse_models(bindings@) =~= standard_gestures() + framed_gestures(modifiers@.take(0)));
    while index < modifiers.len()
        invariant
            index <= modifiers.len(),
            mouse_models(bindings@) == standard_gestures() + framed_gestures(
                modifiers@.take(index as int),
            ),
        decreases modifiers.len() - index,
    {
        assert(modifiers@.take(index + 1).drop_last() =~= modifiers@.take(index as int));
        let ghost before = mouse_models(bindings@);
        add_frame_gestures(&mut bindings, modifiers[index].keyboard());
        assert(mouse_models(bindings@) =~= standard_gestures() + framed_gestures(
            modifiers@.take(index + 1),
        ));
        index = index + 1;
    }
    assert(modifiers@.take(index as int) =~= modifiers@);
    bindings
}

/// The standard keyboard bindings, given the shortcuts.
pub fn standard_key_bindings(shortcuts: &ShortcutsConfig) -> (bindings: Vec<KeyBinding>)
    ensures
        key_models(bindings@) == standard_keys(shortcuts@),
{
    let mut bindings: Vec<KeyBinding> = Vec::new();
    assert(key_models(bindings@) =~= Seq::empty());
    add_key(&mut bindings, key_one(KeyboardModifier::Alt, "Tab"), Action::NextWindow);
    add_key(
        &mut bindings,
        key_two(KeyboardModifier::Alt, KeyboardModifier::Shift, "Tab"),
        Action::PreviousWindow,
    );
    add_key(
        &mut bindings,
        key_one(KeyboardModifier::Alt, "space"),
        Action::ShowMenu { menu: "client".to_owned() },
    );
    add_key(&mut bindings, key_one(KeyboardModifier::Alt, "F11"), Action::ToggleFullscreen);
    add_key(&mut bindings, key_one(KeyboardModifier::Super, "Return"), Action::LaunchTerminal);
    add_key(&mut bindings, shortcuts.terminal.clone(), Action::LaunchTerminal);
    add_key(
        &mut bindings,
        shortcuts.screenshot.clone(),
        Action::Screenshot { target: ScreenshotTarget::Screen },
    );
    add_key(
        &mut bindings,
        shortcuts.window_screenshot.clone(),
        Action::Screenshot { target: ScreenshotTarget::Window },
    );
    add_key(&mut bindings, key_one(KeyboardModifier::Super, "q"), Action::Close);
    add_key(
        &mut bindings,
        key_one(KeyboardModifier::Super, "d"),
        Action::ToggleShowDesktop { strict: false },
    );
    add_key(
        &mut bindings,
        key_two(KeyboardModifier::Super, KeyboardModifier::Shift, "Escape"),
        Action::Exit { prompt: true },
    );
    add_key(
        &mut bindings,
        key_two(KeyboardModifier::Control, KeyboardModifier::Alt, "Left"),
        Action::WorkspaceLeft { wrap: Some(false) },
    );
    add_key(
        &mut bindings,
        key_two(KeyboardModifier::Control, KeyboardModifier::Alt, "Right"),
        Action::WorkspaceRight { wrap: Some(false) },
    );
    add_key(
        &mut bindings,
        key_two(KeyboardModifier::Alt, KeyboardModifier::Shift, "Left"),
        Action::MoveToWorkspaceLeft { follow: true, wrap: Some(false) },
    );
    add_key(
        &mut bindings,
        key_two(KeyboardModifier::Alt, KeyboardModifier::Shift, "Right"),
        Action::MoveToWorkspaceRight { follow: true, wrap: Some(false) },
    );
    add_key(
        &mut bindings,
        key_one(KeyboardModifier::Super, "Left"),
        Action::WorkspaceLeft { wrap: Some(false) },
    );
    add_key(
        &mut bindings,
        key_one(KeyboardModifier::Super, "Right"),
        Action::WorkspaceRight { wrap: Some(false) },
    );
    add_key(
        &mut bindings,
        key_one(KeyboardModifier::Super, "Up"),
        Action::WorkspaceUp { wrap: Some(false) },
    );
    add_key(
        &mut bindings,
        key_one(KeyboardModifier::Super, "Down"),
        Action::WorkspaceDown { wrap: Some(false) },
    );
    add_key(
        &mut bindings,
        key_two(KeyboardModifier::Super, KeyboardModifier::Shift, "Left"),
        Action::MoveToWorkspaceLeft { follow: true, wrap: Some(false) },
    );
    add_key(
        &mut bindings,
        key_two(KeyboardModifier::Super, KeyboardModifier::Shift, "Right"),
        Action::MoveToWorkspaceRight { follow: true, wrap: Some(false) },
    );
    add_key(
        &mut bindings,
        key_two(KeyboardModifier::Super, KeyboardModifier::Shift, "Up"),
        Action::MoveToWorkspaceUp { follow: true, wrap: Some(false) },
    );
    add_key(
        &mut bindings,
        key_two(KeyboardModifier::Super, KeyboardModifier::Shift, "Down"),
        Action::MoveToWorkspaceDown { follow: true, wrap: Some(false) },
    );
    bindings
}

} // verus!
