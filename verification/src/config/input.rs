//! The mouse and keyboard sections.

use vstd::prelude::*;

use crate::config::action;
use crate::config::bindings;
use crate::config::bindings::{
    standard_key_bindings, standard_mouse_bindings, Gesture, KeyBinding, KeyBindingModel,
    MouseBinding, MouseBindingModel, MouseBindingSelector,
};
use crate::config::error;
use crate::config::error::{ConfigError, Fault};
use crate::config::keys;
use crate::config::keys::{ChordModel, KeyChord, KeySequence, KeyboardModifier};
use crate::config::pointer::MouseModifier;
use crate::config::settings;
use crate::config::settings::{ShortcutsConfig, ShortcutsModel};
use crate::config::tree;
use crate::config::tree::{Surroundings, SurroundingsModel};
use crate::text;
use crate::text::{byte_size, is_printable_ascii};

verus! {

/// Mouse-driven window-management bindings.
#[derive(Clone, Debug, PartialEq, Eq)]
pub struct MouseConfig {
    /// Start from nobox's standard pointer bindings before applying user overrides.
    pub inherit_defaults: bool,
    /// Standard bindings to omit, identified by context, chord, and trigger.
    pub disabled_bindings: Vec<MouseBindingSelector>,
    /// Modifier held for window-management drags.
    pub modifier: MouseModifier,
    /// Additional conventional modifiers accepted for window-management drags.
    pub compatibility_modifiers: Vec<MouseModifier>,
    /// Button used to move a client.
    pub move_button: u8,
    /// Button used to resize a client from its bottom-right corner.
    pub resize_button: u8,
    /// Snap a moved window beside visible windows within edge resistance.
    pub snap_to_windows: bool,
    /// Distance in pixels at which move and resize edges snap to the work area.
    pub edge_resistance: u32,
    /// Pointer movement required before a drag binding fires.
    pub drag_threshold: u32,
    /// Maximum delay between clicks recognized as a double click.
    pub double_click_ms: u32,
    /// Ordered context-aware pointer bindings.
    pub bindings: Vec<MouseBinding>,
}

impl MouseConfig {
    /// Whether these are the values that nobox ships with.
    pub open spec fn is_standard(self) -> bool {
        &&& self.inherit_defaults
        &&& self.disabled_bindings@.len() == 0
        &&& self.modifier == MouseModifier::Super
        &&& self.compatibility_modifiers@ == seq![MouseModifier::Alt]
        &&& self.move_button == 1
        &&& self.resize_button == 3
        &&& self.snap_to_windows
        &&& self.edge_resistance == 10
        &&& self.drag_threshold == 8
        &&& self.double_click_ms == 500
        &&& self.bindings@.len() == 0
    }
}

impl Default for MouseConfig {
    /// The standard bindings with the super and alt keys.
    fn default() -> (mouse: Self)
        ensures
            mouse.is_standard(),
    {
        let compatibility_modifiers = vec![MouseModifier::Alt];
        assert(compatibility_modifiers@ =~= seq![MouseModifier::Alt]);
        MouseConfig {
            inherit_defaults: true,
            disabled_bindings: Vec::new(),
            modifier: MouseModifier::Super,
            compatibility_modifiers,
            move_button: 1,
            resize_button: 3,
            snap_to_windows: true,
            edge_resistance: 10,
            drag_threshold: 8,
            double_click_ms: 500,
            bindings: Vec::new(),
        }
    }
}

/// A sequence with each value kept only where it comes up first.
pub open spec fn distinct<T>(values: Seq<T>) -> Seq<T>
    decreases values.len(),
{
    if values.len() == 0 {
        Seq::empty()
    } else {
        let before = distinct(values.drop_last());
        if before.contains(values.last()) {
            before
        } else {
            before.push(values.last())
        }
    }
}

/// The bindings whose gesture is not disabled.
pub open spec fn enabled_gestures(
    bindings: Seq<MouseBindingModel>,
    disabled: Seq<Gesture>,
) -> Seq<MouseBindingModel>
    decreases bindings.len(),
{
    if bindings.len() == 0 {
        Seq::empty()
    } else {
        let before = enabled_gestures(bindings.drop_last(), disabled);
        if disabled.contains(bindings.last().gesture) {
            before
        } else {
            before.push(bindings.last())
        }
    }
}

/// The position of the first binding for a gesture.
pub open spec fn gesture_position(bindings: Seq<MouseBindingModel>, gesture: Gesture) -> Option<
    int,
>
    decreases bindings.len(),
{
    if bindings.len() == 0 {
        None
    } else {
        match gesture_position(bindings.drop_last(), gesture) {
            Some(found) => Some(found),
            None => if bindings.last().gesture == gesture {
                Some(bindings.len() - 1)
            } else {
                None
            },
        }
    }
}

/// Bindings with one binding in the place of the one for its gesture, or at the end.
pub open spec fn with_gesture(
    bindings: Seq<MouseBindingModel>,
    binding: MouseBindingModel,
) -> Seq<MouseBindingModel> {
    match gesture_position(bindings, binding.gesture) {
        Some(found) => bindings.update(found, binding),
        None => bindings.push(binding),
    }
}

/// Bindings with other bindings laid over them, one after the other.
pub open spec fn with_gestures(
    bindings: Seq<MouseBindingModel>,
    overrides: Seq<MouseBindingModel>,
) -> Seq<MouseBindingModel>
    decreases overrides.len(),
{
    if overrides.len() == 0 {
        bindings
    } else {
        with_gesture(with_gestures(bindings, overrides.drop_last()), overrides.last())
    }
}

/// The check of one value: it comes up only once.
pub open spec fn gesture_check(gestures: Seq<Gesture>) -> spec_fn(int) -> Option<Fault> {
    |i: int|
        error::fault_when(
            gestures.take(i).contains(gestures[i]),
            Fault::DuplicateMouseBinding(gestures[i].text()),
        )
}

/// The check of one disabled gesture: it comes up only once.
pub open spec fn disabled_gesture_check(gestures: Seq<Gesture>) -> spec_fn(int) -> Option<Fault> {
    |i: int|
        error::fault_when(
            gestures.take(i).contains(gestures[i]),
            Fault::DuplicateDisabledMouseBinding(gestures[i].text()),
        )
}

/// The check of one effective pointer binding: it is short, and its actions are in order.
pub open spec fn mouse_action_check(
    around: SurroundingsModel,
    bindings: Seq<MouseBindingModel>,
) -> spec_fn(int) -> Option<Fault> {
    |i: int|
        {
            let binding = bindings[i];
            if binding.actions.len() > 16 {
                Some(
                    Fault::TooManyMouseBindingActions {
                        binding: binding.gesture.text(),
                        count: binding.actions.len() as usize,
                    },
                )
            } else {
                tree::actions_fault(around, binding.gesture.text(), binding.actions)
            }
        }
}

/// The gestures of bindings.
pub open spec fn bound_gestures(bindings: Seq<MouseBindingModel>) -> Seq<Gesture> {
    Seq::new(bindings.len(), |i: int| bindings[i].gesture)
}

impl MouseConfig {
    /// The primary and compatibility modifiers, each once.
    pub open spec fn drag_modifiers(self) -> Seq<MouseModifier> {
        distinct(seq![self.modifier] + self.compatibility_modifiers@)
    }

    /// The bindings in effect: the standard ones unless they are not inherited, without the
    /// disabled ones, under the configured ones.
    pub open spec fn effective(self) -> Seq<MouseBindingModel> {
        let standard = if self.inherit_defaults {
            bindings::standard_gestures() + bindings::framed_gestures(self.drag_modifiers())
        } else {
            Seq::empty()
        };
        with_gestures(
            enabled_gestures(standard, bindings::gestures(self.disabled_bindings@)),
            bindings::mouse_models(self.bindings@),
        )
    }

    /// The first thing wrong with the mouse section, the equality of its two buttons left
    /// aside.
    pub open spec fn fault(self, around: SurroundingsModel) -> Option<Fault> {
        let configured = bound_gestures(bindings::mouse_models(self.bindings@));
        let disabled = bindings::gestures(self.disabled_bindings@);
        let effective = self.effective();
        if !(1 <= self.move_button <= 5) {
            Some(Fault::InvalidMouseButton(self.move_button))
        } else if !(1 <= self.resize_button <= 5) {
            Some(Fault::InvalidMouseButton(self.resize_button))
        } else if self.edge_resistance > 256 {
            Some(Fault::EdgeResistanceTooStrong(self.edge_resistance))
        } else if self.drag_threshold > 256 {
            Some(Fault::DragThresholdTooLarge(self.drag_threshold))
        } else if !(100 <= self.double_click_ms <= 2_000) {
            Some(Fault::InvalidDoubleClickTime(self.double_click_ms))
        } else if self.compatibility_modifiers@.len() > 4 {
            Some(
                Fault::TooManyMouseCompatibilityModifiers(
                    self.compatibility_modifiers@.len() as usize,
                ),
            )
        } else if configured.len() > 256 {
            Some(Fault::TooManyMouseBindings(configured.len() as usize))
        } else if disabled.len() > 256 {
            Some(Fault::TooManyDisabledMouseBindings(disabled.len() as usize))
        } else if error::first_fault(configured.len(), gesture_check(configured)) is Some {
            error::first_fault(configured.len(), gesture_check(configured))
        } else if error::first_fault(disabled.len(), disabled_gesture_check(disabled)) is Some {
            error::first_fault(disabled.len(), disabled_gesture_check(disabled))
        } else if effective.len() > 256 {
            Some(Fault::TooManyMouseBindings(effective.len() as usize))
        } else {
            error::first_fault(effective.len(), mouse_action_check(around, effective))
        }
    }

    /// Returns the primary and compatibility drag modifiers without duplicates.
    #[must_use]
    pub fn effective_modifiers(&self) -> (modifiers: Vec<MouseModifier>)
        ensures
            modifiers@ == self.drag_modifiers(),
    {
        let ghost all = seq![self.modifier] + self.compatibility_modifiers@;
        let mut modifiers: Vec<MouseModifier> = Vec::new();
        modifiers.push(self.modifier);
        let mut index: usize = 0;
        assert(all.take(1) =~= seq![self.modifier]);
        assert(all.take(1).drop_last() =~= Seq::empty());
        assert(distinct(all.take(1)) =~= seq![self.modifier]) by {
            reveal_with_fuel(distinct, 2);
        }
        while index < self.compatibility_modifiers.len()
            invariant
                index <= self.compatibility_modifiers.len(),
                all == seq![self.modifier] + self.compatibility_modifiers@,
                modifiers@ == distinct(all.take(index + 1)),
            decreases self.compatibility_modifiers.len() - index,
        {
            let modifier = self.compatibility_modifiers[index];
            assert(all.take(index + 2).drop_last() =~= all.take(index + 1));
            assert(all[index + 1] == modifier);
            if !holds(&modifiers, modifier) {
                modifiers.push(modifier);
            }
            index = index + 1;
        }
        assert(all.take(index + 1) =~= all);
        modifiers
    }

    fn is_disabled(&self, binding: &MouseBinding) -> (r: bool)
        ensures
            r == bindings::gestures(self.disabled_bindings@).contains(binding@.gesture),
    {
        let ghost disabled = bindings::gestures(self.disabled_bindings@);
        let mut index: usize = 0;
        while index < self.disabled_bindings.len()
            invariant
                index <= self.disabled_bindings.len(),
                disabled == bindings::gestures(self.disabled_bindings@),
                forall|i: int| 0 <= i < index ==> disabled[i] != binding@.gesture,
            decreases self.disabled_bindings.len() - index,
        {
            assert(disabled[index as int] == self.disabled_bindings@[index as int]@);
            if self.disabled_bindings[index].matches(binding) {
                return true;
            }
            index = index + 1;
        }
        false
    }

    fn inherited(&self) -> (kept: Vec<MouseBinding>)
        ensures
            bindings::mouse_models(kept@) == enabled_gestures(
                if self.inherit_defaults {
                    bindings::standard_gestures() + bindings::framed_gestures(
                        self.drag_modifiers(),
                    )
                } else {
                    Seq::empty()
                },
                bindings::gestures(self.disabled_bindings@),
            ),
    {
        let ghost disabled = bindings::gestures(self.disabled_bindings@);
        let mut kept: Vec<MouseBinding> = Vec::new();
        if !self.inherit_defaults {
            assert(bindings::mouse_models(kept@) =~= Seq::empty());
            return kept;
        }
        let modifiers = self.effective_modifiers();
        let standard = standard_mouse_bindings(modifiers.as_slice());
        let ghost models = bindings::mouse_models(standard@);
        let mut index: usize = 0;
        assert(bindings::mouse_models(kept@) =~= enabled_gestures(models.take(0), disabled));
        while index < standard.len()
            invariant
                index <= standard.len(),
                models == bindings::mouse_models(standard@),
                disabled == bindings::gestures(self.disabled_bindings@),
                bindings::mouse_models(kept@) == enabled_gestures(
                    models.take(index as int),
                    disabled,
                ),
            decreases standard.len() - index,
        {
            assert(models.take(index + 1).drop_last() =~= models.take(index as int));
            assert(models[index as int] == standard@[index as int]@);
            if !self.is_disabled(&standard[index]) {
                let ghost before = bindings::mouse_models(kept@);
                kept.push(standard[index].clone());
                assert(bindings::mouse_models(kept@) =~= before.push(models[index as int]));
            }
            index = index + 1;
        }
        assert(models.take(index as int) =~= models);
        kept
    }

    /// Resolves inherited defaults, explicit omissions, and user overrides.
    #[must_use]
    pub fn effective_bindings(&self) -> (effective: Vec<MouseBinding>)
        ensures
            bindings::mouse_models(effective@) == self.effective(),
    {
        let mut effective = self.inherited();
        let ghost start = bindings::mouse_models(effective@);
        let ghost overrides = bindings::mouse_models(self.bindings@);
        let mut index: usize = 0;
        assert(overrides.take(0) =~= Seq::empty());
        while index < self.bindings.len()
            invariant
                index <= self.bindings.len(),
                overrides == bindings::mouse_models(self.bindings@),
                bindings::mouse_models(effective@) == with_gestures(
                    start,
                    overrides.take(index as int),
                ),
            decreases self.bindings.len() - index,
        {
            assert(overrides.take(index + 1).drop_last() =~= overrides.take(index as int));
            assert(overrides[index as int] == self.bindings@[index as int]@);
            place_gesture(&mut effective, self.bindings[index].clone());
            index = index + 1;
        }
        assert(overrides.take(index as int) =~= overrides);
        effective
    }

    fn validate_configured(&self) -> (outcome: Result<(), ConfigError>)
        ensures
            ({
                let configured = bound_gestures(bindings::mouse_models(self.bindings@));
                error::fault_in(outcome) == error::first_fault(
                    configured.len(),
                    gesture_check(configured),
                )
            }),
    {
        let ghost configured = bound_gestures(bindings::mouse_models(self.bindings@));
        let ghost check = gesture_check(configured);
        let mut index: usize = 0;
        while index < self.bindings.len()
            invariant
                index <= self.bindings.len(),
                configured == bound_gestures(bindings::mouse_models(self.bindings@)),
                check == gesture_check(configured),
                error::first_fault(index as nat, check) is None,
            decreases self.bindings.len() - index,
        {
            let binding = &self.bindings[index];
            assert(configured[index as int] == binding@.gesture);
            let mut earlier: usize = 0;
            while earlier < index
                invariant
                    earlier <= index < self.bindings.len(),
                    binding == self.bindings@[index as int],
                    configured == bound_gestures(bindings::mouse_models(self.bindings@)),
                    configured[index as int] == binding@.gesture,
                    check == gesture_check(configured),
                    error::first_fault(index as nat, check) is None,
                    forall|i: int| 0 <= i < earlier ==> configured[i] != binding@.gesture,
                decreases index - earlier,
            {
                assert(configured[earlier as int] == self.bindings@[earlier as int]@.gesture);
                if self.bindings[earlier].same_gesture(binding) {
                    proof {
                        assert(configured.take(index as int)[earlier as int] == binding@.gesture);
                        assert(check(index as int) is Some);
                        error::lemma_first_fault((index + 1) as nat, configured.len(), check);
                    }
                    return Err(ConfigError::DuplicateMouseBinding(binding.text()));
                }
                earlier = earlier + 1;
            }
            assert(check(index as int) is None);
            index = index + 1;
        }
        Ok(())
    }

    fn validate_disabled(&self) -> (outcome: Result<(), ConfigError>)
        ensures
            ({
                let disabled = bindings::gestures(self.disabled_bindings@);
                error::fault_in(outcome) == error::first_fault(
                    disabled.len(),
                    disabled_gesture_check(disabled),
                )
            }),
    {
        let ghost disabled = bindings::gestures(self.disabled_bindings@);
        let ghost check = disabled_gesture_check(disabled);
        let mut index: usize = 0;
        while index < self.disabled_bindings.len()
            invariant
                index <= self.disabled_bindings.len(),
                disabled == bindings::gestures(self.disabled_bindings@),
                check == disabled_gesture_check(disabled),
                error::first_fault(index as nat, check) is None,
            decreases self.disabled_bindings.len() - index,
        {
            let selector = &self.disabled_bindings[index];
            assert(disabled[index as int] == selector@);
            let mut earlier: usize = 0;
            while earlier < index
                invariant
                    earlier <= index < self.disabled_bindings.len(),
                    selector == self.disabled_bindings@[index as int],
                    disabled == bindings::gestures(self.disabled_bindings@),
                    disabled[index as int] == selector@,
                    check == disabled_gesture_check(disabled),
                    error::first_fault(index as nat, check) is None,
                    forall|i: int| 0 <= i < earlier ==> disabled[i] != selector@,
                decreases index - earlier,
            {
                assert(disabled[earlier as int] == self.disabled_bindings@[earlier as int]@);
                if self.disabled_bindings[earlier].same(selector) {
                    proof {
                        assert(disabled.take(index as int)[earlier as int] == selector@);
                        assert(check(index as int) is Some);
                        error::lemma_first_fault((index + 1) as nat, disabled.len(), check);
                    }
                    return Err(ConfigError::DuplicateDisabledMouseBinding(selector.text()));
                }
                earlier = earlier + 1;
            }
            assert(check(index as int) is None);
            index = index + 1;
        }
        Ok(())
    }

    /// Checks the mouse section, the equality of its two buttons left aside.
    ///
    /// # Errors
    ///
    /// Returns the first problem found.
    pub fn validate(&self, around: &Surroundings<'_>) -> (outcome: Result<(), ConfigError>)
        ensures
            error::fault_in(outcome) == self.fault(around@),
    {
        if self.move_button < 1 || self.move_button > 5 {
            return Err(ConfigError::InvalidMouseButton(self.move_button));
        }
        if self.resize_button < 1 || self.resize_button > 5 {
            return Err(ConfigError::InvalidMouseButton(self.resize_button));
        }
        if self.edge_resistance > 256 {
            return Err(ConfigError::EdgeResistanceTooStrong(self.edge_resistance));
        }
        if self.drag_threshold > 256 {
            return Err(ConfigError::DragThresholdTooLarge(self.drag_threshold));
        }
        if self.double_click_ms < 100 || self.double_click_ms > 2_000 {
            return Err(ConfigError::InvalidDoubleClickTime(self.double_click_ms));
        }
        if self.compatibility_modifiers.len() > 4 {
            return Err(
                ConfigError::TooManyMouseCompatibilityModifiers(
                    self.compatibility_modifiers.len(),
                ),
            );
        }
        if self.bindings.len() > 256 {
            return Err(ConfigError::TooManyMouseBindings(self.bindings.len()));
        }
        if self.disabled_bindings.len() > 256 {
            return Err(ConfigError::TooManyDisabledMouseBindings(self.disabled_bindings.len()));
        }
        if let Err(error) = self.validate_configured() {
            return Err(error);
        }
        if let Err(error) = self.validate_disabled() {
            return Err(error);
        }
        let effective = self.effective_bindings();
        if effective.len() > 256 {
            return Err(ConfigError::TooManyMouseBindings(effective.len()));
        }
        validate_mouse_actions(&effective, around)
    }
}

fn validate_mouse_actions(effective: &Vec<MouseBinding>, around: &Surroundings<'_>) -> (outcome:
    Result<(), ConfigError>)
    ensures
        error::fault_in(outcome) == error::first_fault(
            effective@.len(),
            mouse_action_check(around@, bindings::mouse_models(effective@)),
        ),
{
    let ghost models = bindings::mouse_models(effective@);
    let ghost check = mouse_action_check(around@, models);
    let mut index: usize = 0;
    while index < effective.len()
        invariant
            index <= effective.len(),
            models == bindings::mouse_models(effective@),
            check == mouse_action_check(around@, models),
            error::first_fault(index as nat, check) is None,
        decreases effective.len() - index,
    {
        let binding = &effective[index];
        assert(models[index as int] == binding@);
        proof {
            action::lemma_action_models(binding.actions@);
            if check(index as int) is Some {
                error::lemma_first_fault((index + 1) as nat, models.len(), check);
            }
        }
        let text = binding.text();
        if binding.actions.len() > 16 {
            return Err(
                ConfigError::TooManyMouseBindingActions {
                    binding: text,
                    count: binding.actions.len(),
                },
            );
        }
        if let Err(error) = around.validate_actions(&binding.actions, &text) {
            return Err(error);
        }
        assert(check(index as int) is None);
        index = index + 1;
    }
    Ok(())
}

fn holds(modifiers: &Vec<MouseModifier>, wanted: MouseModifier) -> (r: bool)
    ensures
        r == modifiers@.contains(wanted),
{
    let mut index: usize = 0;
    while index < modifiers.len()
        invariant
            index <= modifiers.len(),
            forall|i: int| 0 <= i < index ==> modifiers@[i] != wanted,
        decreases modifiers.len() - index,
    {
        if modifiers[index] == wanted {
            return true;
        }
        index = index + 1;
    }
    false
}

proof fn lemma_gesture_position(bindings: Seq<MouseBindingModel>, gesture: Gesture)
    ensures
        match gesture_position(bindings, gesture) {
            Some(found) => 0 <= found < bindings.len() && bindings[found].gesture == gesture,
            None => forall|i: int|
                0 <= i < bindings.len() ==> (#[trigger] bindings[i]).gesture != gesture,
        },
    decreases bindings.len(),
{
    if bindings.len() > 0 {
        lemma_gesture_position(bindings.drop_last(), gesture);
        assert forall|i: int|
            0 <= i < bindings.len() && gesture_position(bindings, gesture) is None implies (
        #[trigger] bindings[i]).gesture != gesture by {
            if i < bindings.len() - 1 {
                assert(bindings.drop_last()[i] == bindings[i]);
            }
        }
    }
}

proof fn lemma_gesture_prefix(bindings: Seq<MouseBindingModel>, gesture: Gesture, length: int)
    requires
        0 <= length <= bindings.len(),
        gesture_position(bindings.take(length), gesture) is Some,
    ensures
        gesture_position(bindings, gesture) == gesture_position(bindings.take(length), gesture),
    decreases bindings.len(),
{
    if length < bindings.len() {
        assert(bindings.drop_last().take(length) =~= bindings.take(length));
        lemma_gesture_prefix(bindings.drop_last(), gesture, length);
    } else {
        assert(bindings.take(length) =~= bindings);
    }
}

/// Puts a binding in the place of the one for its gesture, or at the end.
fn place_gesture(bindings: &mut Vec<MouseBinding>, binding: MouseBinding)
    ensures
        bindings::mouse_models(final(bindings)@) == with_gesture(
            bindings::mouse_models(old(bindings)@),
            binding@,
        ),
{
    let ghost models = bindings::mouse_models(bindings@);
    let ghost model = binding@;
    let mut index: usize = 0;
    assert(models.take(0) =~= Seq::empty());
    while index < bindings.len()
        invariant
            index <= bindings.len(),
            bindings@ == old(bindings)@,
            models == bindings::mouse_models(bindings@),
            model == binding@,
            gesture_position(models.take(index as int), model.gesture) is None,
        decreases bindings.len() - index,
    {
        assert(models.take(index + 1).drop_last() =~= models.take(index as int));
        assert(models[index as int] == bindings@[index as int]@);
        if bindings[index].same_gesture(&binding) {
            assert(gesture_position(models.take(index + 1), model.gesture) == Some(index as int));
            proof {
                lemma_gesture_prefix(models, model.gesture, index + 1);
            }
            bindings.set(index, binding);
            assert(bindings::mouse_models(bindings@) =~= models.update(index as int, model));
            return;
        }
        index = index + 1;
    }
    assert(models.take(index as int) =~= models);
    bindings.push(binding);
    assert(bindings::mouse_models(bindings@) =~= models.push(model));
}

/// Global keyboard bindings.
#[derive(Clone, Debug, PartialEq, Eq)]
pub struct KeyboardConfig {
    /// XKB keyboard model used by native Wayland sessions, or the environment default.
    pub model: String,
    /// Comma-separated XKB layouts used by native Wayland sessions.
    pub layout: String,
    /// Comma-separated XKB variants corresponding to `layout`.
    pub variant: String,
    /// Comma-separated XKB options such as a Compose-key assignment.
    pub options: String,
    /// Start from nobox's standard key bindings before applying user overrides.
    pub inherit_defaults: bool,
    /// Standard bindings to omit, identified by their complete key sequence.
    pub disabled_bindings: Vec<KeySequence>,
    /// Chord that cancels an active key sequence.
    pub chain_quit_key: KeyChord,
    /// Milliseconds before an incomplete key sequence is cancelled.
    pub chain_timeout_ms: u32,
    /// Ordered key-to-action mappings.
    pub bindings: Vec<KeyBinding>,
}

impl KeyboardConfig {
    /// Whether these are the values that nobox ships with.
    pub open spec fn is_standard(self) -> bool {
        &&& self.model@ == Seq::<char>::empty()
        &&& self.layout@ == Seq::<char>::empty()
        &&& self.variant@ == Seq::<char>::empty()
        &&& self.options@ == Seq::<char>::empty()
        &&& self.inherit_defaults
        &&& self.disabled_bindings@.len() == 0
        &&& self.chain_quit_key@ == settings::chord(seq![KeyboardModifier::Control], "g"@)
        &&& self.chain_timeout_ms == 3_000
        &&& self.bindings@.len() == 0
    }
}

impl Default for KeyboardConfig {
    /// The standard bindings.
    fn default() -> (keyboard: Self)
        ensures
            keyboard.is_standard(),
    {
        let control = vec![KeyboardModifier::Control];
        assert(control@ =~= seq![KeyboardModifier::Control]);
        KeyboardConfig {
            model: String::new(),
            layout: String::new(),
            variant: String::new(),
            options: String::new(),
            inherit_defaults: true,
            disabled_bindings: Vec::new(),
            chain_quit_key: KeyChord::new(control.as_slice(), "g"),
            chain_timeout_ms: 3_000,
            bindings: Vec::new(),
        }
    }
}

/// The bindings whose key sequence is not disabled.
pub open spec fn enabled_keys(
    bindings: Seq<KeyBindingModel>,
    disabled: Seq<Seq<ChordModel>>,
) -> Seq<KeyBindingModel>
    decreases bindings.len(),
{
    if bindings.len() == 0 {
        Seq::empty()
    } else {
        let before = enabled_keys(bindings.drop_last(), disabled);
        if disabled.contains(bindings.last().key) {
            before
        } else {
            before.push(bindings.last())
        }
    }
}

/// The position of the first binding for a key sequence.
pub open spec fn key_position(bindings: Seq<KeyBindingModel>, key: Seq<ChordModel>) -> Option<int>
    decreases bindings.len(),
{
    if bindings.len() == 0 {
        None
    } else {
        match key_position(bindings.drop_last(), key) {
            Some(found) => Some(found),
            None => if bindings.last().key == key {
                Some(bindings.len() - 1)
            } else {
                None
            },
        }
    }
}

/// Bindings with one binding in the place of the one for its key sequence, or at the end.
pub open spec fn with_key(
    bindings: Seq<KeyBindingModel>,
    binding: KeyBindingModel,
) -> Seq<KeyBindingModel> {
    match key_position(bindings, binding.key) {
        Some(found) => bindings.update(found, binding),
        None => bindings.push(binding),
    }
}

/// Bindings with other bindings laid over them, one after the other.
pub open spec fn with_keys(
    bindings: Seq<KeyBindingModel>,
    overrides: Seq<KeyBindingModel>,
) -> Seq<KeyBindingModel>
    decreases overrides.len(),
{
    if overrides.len() == 0 {
        bindings
    } else {
        with_key(with_keys(bindings, overrides.drop_last()), overrides.last())
    }
}

/// Whether an XKB name is unusable.
pub open spec fn bad_xkb(value: Seq<char>) -> bool {
    text::size(value) > 255 || !text::printable_ascii(value)
}

fn is_bad_xkb(value: &str) -> (r: bool)
    ensures
        r == bad_xkb(value@),
{
    byte_size(value) > 255 || !is_printable_ascii(value)
}

/// The key sequences of bindings.
pub open spec fn bound_keys(bindings: Seq<KeyBindingModel>) -> Seq<Seq<ChordModel>> {
    Seq::new(bindings.len(), |i: int| bindings[i].key)
}

/// The check of one disabled key sequence: it is short, and comes up only once.
pub open spec fn disabled_key_check(disabled: Seq<Seq<ChordModel>>) -> spec_fn(int) -> Option<
    Fault,
> {
    |i: int|
        {
            let key = disabled[i];
            if key.len() > 8 {
                Some(
                    Fault::KeySequenceTooLong {
                        key: keys::sequence_text(key),
                        length: key.len() as usize,
                    },
                )
            } else {
                error::fault_when(
                    disabled.take(i).contains(key),
                    Fault::DuplicateDisabledKeyBinding(keys::sequence_text(key)),
                )
            }
        }
}

/// The check of one configured key sequence: it comes up only once.
pub open spec fn configured_key_check(configured: Seq<Seq<ChordModel>>) -> spec_fn(int) -> Option<
    Fault,
> {
    |i: int|
        error::fault_when(
            configured.take(i).contains(configured[i]),
            Fault::DuplicateKeyBinding(keys::sequence_text(configured[i])),
        )
}

/// Whether one of two key sequences continues the other.
pub open spec fn conflicting(left: Seq<ChordModel>, right: Seq<ChordModel>) -> bool {
    keys::strict_prefix(left, right) || keys::strict_prefix(right, left)
}

/// Whether one chord comes before another: by modifiers first, then by symbol.
pub open spec fn chord_precedes(left: ChordModel, right: ChordModel) -> bool {
    if left.modifiers != right.modifiers {
        modifiers_precede(left.modifiers, right.modifiers)
    } else {
        text::precedes(left.symbol, right.symbol)
    }
}

/// The rank of a modifier in canonical order.
pub open spec fn rank(modifier: KeyboardModifier) -> int {
    match modifier {
        KeyboardModifier::Control => 0,
        KeyboardModifier::Alt => 1,
        KeyboardModifier::Shift => 2,
        KeyboardModifier::Super => 3,
    }
}

/// Whether one list of modifiers comes before another.
pub open spec fn modifiers_precede(
    left: Seq<KeyboardModifier>,
    right: Seq<KeyboardModifier>,
) -> bool
    decreases left.len(),
{
    if right.len() == 0 {
        false
    } else if left.len() == 0 {
        true
    } else if left[0] != right[0] {
        rank(left[0]) < rank(right[0])
    } else {
        modifiers_precede(left.skip(1), right.skip(1))
    }
}

/// Whether one key sequence comes before another, chord by chord.
pub open spec fn sequence_precedes(left: Seq<ChordModel>, right: Seq<ChordModel>) -> bool
    decreases left.len(),
{
    if right.len() == 0 {
        false
    } else if left.len() == 0 {
        true
    } else if left[0] != right[0] {
        chord_precedes(left[0], right[0])
    } else {
        sequence_precedes(left.skip(1), right.skip(1))
    }
}

/// Among key sequences, the first in order that conflicts with another one.
pub open spec fn first_conflict(
    bound: Seq<Seq<ChordModel>>,
    key: Seq<ChordModel>,
) -> Option<Seq<ChordModel>>
    decreases bound.len(),
{
    if bound.len() == 0 {
        None
    } else {
        let before = first_conflict(bound.drop_last(), key);
        if !conflicting(bound.last(), key) {
            before
        } else if before is Some && !sequence_precedes(bound.last(), before->Some_0) {
            before
        } else {
            Some(bound.last())
        }
    }
}

/// The check of one effective keyboard binding against those before it.
pub open spec fn key_action_check(
    around: SurroundingsModel,
    quit: ChordModel,
    bindings: Seq<KeyBindingModel>,
) -> spec_fn(int) -> Option<Fault> {
    |i: int|
        {
            let key = bindings[i].key;
            let actions = bindings[i].actions;
            let before = bound_keys(bindings.take(i));
            let spelling = keys::sequence_text(key);
            if key.len() > 8 {
                Some(Fault::KeySequenceTooLong { key: spelling, length: key.len() as usize })
            } else if actions.len() > 16 {
                Some(
                    Fault::TooManyBindingActions { key: spelling, count: actions.len() as usize },
                )
            } else if exists|j: int| 1 <= j < key.len() && #[trigger] key[j] == quit {
                Some(Fault::ConflictingChainQuitKey { key: quit.text(), binding: spelling })
            } else if first_conflict(before, key) is Some {
                Some(
                    Fault::ConflictingKeyBinding {
                        first: keys::sequence_text(first_conflict(before, key)->Some_0),
                        second: spelling,
                    },
                )
            } else if before.contains(key) {
                Some(Fault::DuplicateKeyBinding(spelling))
            } else {
                tree::actions_fault(around, spelling, actions)
            }
        }
}

impl KeyboardConfig {
    /// The bindings in effect: the standard ones unless they are not inherited, without the
    /// disabled ones, under the configured ones.
    pub open spec fn effective(self, shortcuts: ShortcutsModel) -> Seq<KeyBindingModel> {
        let standard = if self.inherit_defaults {
            bindings::standard_keys(shortcuts)
        } else {
            Seq::empty()
        };
        with_keys(
            enabled_keys(standard, bindings::sequences(self.disabled_bindings@)),
            bindings::key_models(self.bindings@),
        )
    }

    /// The first thing wrong with the keyboard's bounds.
    pub open spec fn bounds_fault(self, shortcuts: ShortcutsModel) -> Option<Fault> {
        if !(100 <= self.chain_timeout_ms <= 60_000) {
            Some(Fault::InvalidChainTimeout(self.chain_timeout_ms))
        } else if bad_xkb(self.model@) {
            Some(Fault::InvalidKeyboardXkbField("model"))
        } else if bad_xkb(self.layout@) {
            Some(Fault::InvalidKeyboardXkbField("layout"))
        } else if bad_xkb(self.variant@) {
            Some(Fault::InvalidKeyboardXkbField("variant"))
        } else if bad_xkb(self.options@) {
            Some(Fault::InvalidKeyboardXkbField("options"))
        } else if self.effective(shortcuts).len() > 256 {
            Some(Fault::TooManyKeyBindings(self.effective(shortcuts).len() as usize))
        } else if self.disabled_bindings@.len() > 256 {
            Some(Fault::TooManyDisabledKeyBindings(self.disabled_bindings@.len() as usize))
        } else {
            None
        }
    }

    /// The first thing wrong with the keyboard bindings.
    pub open spec fn binding_fault(
        self,
        shortcuts: ShortcutsModel,
        around: SurroundingsModel,
    ) -> Option<Fault> {
        let disabled = bindings::sequences(self.disabled_bindings@);
        let configured = bound_keys(bindings::key_models(self.bindings@));
        let effective = self.effective(shortcuts);
        if error::first_fault(disabled.len(), disabled_key_check(disabled)) is Some {
            error::first_fault(disabled.len(), disabled_key_check(disabled))
        } else if error::first_fault(configured.len(), configured_key_check(configured)) is Some {
            error::first_fault(configured.len(), configured_key_check(configured))
        } else {
            error::first_fault(
                effective.len(),
                key_action_check(around, self.chain_quit_key@, effective),
            )
        }
    }

    fn is_disabled(&self, key: &KeySequence) -> (r: bool)
        ensures
            r == bindings::sequences(self.disabled_bindings@).contains(key@),
    {
        let ghost disabled = bindings::sequences(self.disabled_bindings@);
        let mut index: usize = 0;
        while index < self.disabled_bindings.len()
            invariant
                index <= self.disabled_bindings.len(),
                disabled == bindings::sequences(self.disabled_bindings@),
                forall|i: int| 0 <= i < index ==> disabled[i] != key@,
            decreases self.disabled_bindings.len() - index,
        {
            assert(disabled[index as int] == self.disabled_bindings@[index as int]@);
            if self.disabled_bindings[index].same(key) {
                return true;
            }
            index = index + 1;
        }
        false
    }

    fn inherited(&self, shortcuts: &ShortcutsConfig) -> (kept: Vec<KeyBinding>)
        ensures
            bindings::key_models(kept@) == enabled_keys(
                if self.inherit_defaults {
                    bindings::standard_keys(shortcuts@)
                } else {
                    Seq::empty()
                },
                bindings::sequences(self.disabled_bindings@),
            ),
    {
        let ghost disabled = bindings::sequences(self.disabled_bindings@);
        let mut kept: Vec<KeyBinding> = Vec::new();
        if !self.inherit_defaults {
            assert(bindings::key_models(kept@) =~= Seq::empty());
            return kept;
        }
        let standard = standard_key_bindings(shortcuts);
        let ghost models = bindings::key_models(standard@);
        let mut index: usize = 0;
        assert(bindings::key_models(kept@) =~= enabled_keys(models.take(0), disabled));
        while index < standard.len()
            invariant
                index <= standard.len(),
                models == bindings::key_models(standard@),
                disabled == bindings::sequences(self.disabled_bindings@),
                bindings::key_models(kept@) == enabled_keys(models.take(index as int), disabled),
            decreases standard.len() - index,
        {
            assert(models.take(index + 1).drop_last() =~= models.take(index as int));
            assert(models[index as int] == standard@[index as int]@);
            if !self.is_disabled(&standard[index].key) {
                let ghost before = bindings::key_models(kept@);
                kept.push(standard[index].clone());
                assert(bindings::key_models(kept@) =~= before.push(models[index as int]));
            }
            index = index + 1;
        }
        assert(models.take(index as int) =~= models);
        kept
    }

    /// Resolves inherited defaults, explicit omissions, and user overrides.
    #[must_use]
    pub fn effective_bindings(&self) -> (effective: Vec<KeyBinding>)
        ensures
            bindings::key_models(effective@) == self.effective(ShortcutsModel::standard()),
    {
        let shortcuts = ShortcutsConfig::default();
        self.effective_bindings_with(&shortcuts)
    }

    /// Resolves the bindings with the given shortcuts.
    #[must_use]
    pub fn effective_bindings_with(&self, shortcuts: &ShortcutsConfig) -> (effective: Vec<
        KeyBinding,
    >)
        ensures
            bindings::key_models(effective@) == self.effective(shortcuts@),
    {
        let mut effective = self.inherited(shortcuts);
        let ghost start = bindings::key_models(effective@);
        let ghost overrides = bindings::key_models(self.bindings@);
        let mut index: usize = 0;
        assert(overrides.take(0) =~= Seq::empty());
        while index < self.bindings.len()
            invariant
                index <= self.bindings.len(),
                overrides == bindings::key_models(self.bindings@),
                bindings::key_models(effective@) == with_keys(start, overrides.take(index as int)),
            decreases self.bindings.len() - index,
        {
            assert(overrides.take(index + 1).drop_last() =~= overrides.take(index as int));
            assert(overrides[index as int] == self.bindings@[index as int]@);
            place_key(&mut effective, self.bindings[index].clone());
            index = index + 1;
        }
        assert(overrides.take(index as int) =~= overrides);
        effective
    }

    /// Checks the keyboard's bounds.
    ///
    /// # Errors
    ///
    /// Returns the first problem found.
    pub fn validate_bounds(&self, shortcuts: &ShortcutsConfig) -> (outcome: Result<(), ConfigError>)
        ensures
            error::fault_in(outcome) == self.bounds_fault(shortcuts@),
    {
        if self.chain_timeout_ms < 100 || self.chain_timeout_ms > 60_000 {
            return Err(ConfigError::InvalidChainTimeout(self.chain_timeout_ms));
        }
        if is_bad_xkb(self.model.as_str()) {
            return Err(ConfigError::InvalidKeyboardXkbField("model"));
        }
        if is_bad_xkb(self.layout.as_str()) {
            return Err(ConfigError::InvalidKeyboardXkbField("layout"));
        }
        if is_bad_xkb(self.variant.as_str()) {
            return Err(ConfigError::InvalidKeyboardXkbField("variant"));
        }
        if is_bad_xkb(self.options.as_str()) {
            return Err(ConfigError::InvalidKeyboardXkbField("options"));
        }
        let effective = self.effective_bindings_with(shortcuts);
        if effective.len() > 256 {
            return Err(ConfigError::TooManyKeyBindings(effective.len()));
        }
        if self.disabled_bindings.len() > 256 {
            return Err(ConfigError::TooManyDisabledKeyBindings(self.disabled_bindings.len()));
        }
        Ok(())
    }

    fn validate_disabled(&self) -> (outcome: Result<(), ConfigError>)
        ensures
            ({
                let disabled = bindings::sequences(self.disabled_bindings@);
                error::fault_in(outcome) == error::first_fault(
                    disabled.len(),
                    disabled_key_check(disabled),
                )
            }),
    {
        let ghost disabled = bindings::sequences(self.disabled_bindings@);
        let ghost check = disabled_key_check(disabled);
        let mut index: usize = 0;
        while index < self.disabled_bindings.len()
            invariant
                index <= self.disabled_bindings.len(),
                disabled == bindings::sequences(self.disabled_bindings@),
                check == disabled_key_check(disabled),
                error::first_fault(index as nat, check) is None,
            decreases self.disabled_bindings.len() - index,
        {
            let key = &self.disabled_bindings[index];
            assert(disabled[index as int] == key@);
            proof {
                if check(index as int) is Some {
                    error::lemma_first_fault((index + 1) as nat, disabled.len(), check);
                }
            }
            let length = key.chords().len();
            if length > 8 {
                return Err(ConfigError::KeySequenceTooLong { key: key.text(), length });
            }
            let mut earlier: usize = 0;
            while earlier < index
                invariant
                    earlier <= index < self.disabled_bindings.len(),
                    key == self.disabled_bindings@[index as int],
                    disabled == bindings::sequences(self.disabled_bindings@),
                    disabled[index as int] == key@,
                    key@.len() <= 8,
                    check == disabled_key_check(disabled),
                    check(index as int) is Some ==> error::first_fault(disabled.len(), check)
                        == check(index as int),
                    forall|i: int| 0 <= i < earlier ==> disabled[i] != key@,
                decreases index - earlier,
            {
                assert(disabled[earlier as int] == self.disabled_bindings@[earlier as int]@);
                if self.disabled_bindings[earlier].same(key) {
                    assert(disabled.take(index as int)[earlier as int] == key@);
                    assert(check(index as int) is Some);
                    return Err(ConfigError::DuplicateDisabledKeyBinding(key.text()));
                }
                earlier = earlier + 1;
            }
            assert(check(index as int) is None);
            index = index + 1;
        }
        Ok(())
    }

    fn validate_configured(&self) -> (outcome: Result<(), ConfigError>)
        ensures
            ({
                let configured = bound_keys(bindings::key_models(self.bindings@));
                error::fault_in(outcome) == error::first_fault(
                    configured.len(),
                    configured_key_check(configured),
                )
            }),
    {
        let ghost configured = bound_keys(bindings::key_models(self.bindings@));
        let ghost check = configured_key_check(configured);
        let mut index: usize = 0;
        while index < self.bindings.len()
            invariant
                index <= self.bindings.len(),
                configured == bound_keys(bindings::key_models(self.bindings@)),
                check == configured_key_check(configured),
                error::first_fault(index as nat, check) is None,
            decreases self.bindings.len() - index,
        {
            let key = &self.bindings[index].key;
            assert(configured[index as int] == key@);
            let mut earlier: usize = 0;
            while earlier < index
                invariant
                    earlier <= index < self.bindings.len(),
                    key == self.bindings@[index as int].key,
                    configured == bound_keys(bindings::key_models(self.bindings@)),
                    configured[index as int] == key@,
                    check == configured_key_check(configured),
                    error::first_fault(index as nat, check) is None,
                    forall|i: int| 0 <= i < earlier ==> configured[i] != key@,
                decreases index - earlier,
            {
                assert(configured[earlier as int] == self.bindings@[earlier as int].key@);
                if self.bindings[earlier].key.same(key) {
                    proof {
                        assert(configured.take(index as int)[earlier as int] == key@);
                        assert(check(index as int) is Some);
                        error::lemma_first_fault((index + 1) as nat, configured.len(), check);
                    }
                    return Err(ConfigError::DuplicateKeyBinding(key.text()));
                }
                earlier = earlier + 1;
            }
            assert(check(index as int) is None);
            index = index + 1;
        }
        Ok(())
    }

    fn quits_within(&self, key: &KeySequence) -> (r: bool)
        ensures
            r == exists|j: int| 1 <= j < key@.len() && #[trigger] key@[j] == self.chain_quit_key@,
    {
        let chords = key.chords();
        let mut index: usize = 1;
        while index < chords.len()
            invariant
                1 <= index,
                keys::chord_models(chords@) == key@,
                forall|j: int| 1 <= j < index && j < key@.len() ==> #[trigger] key@[j]
                    != self.chain_quit_key@,
            decreases chords.len() - index,
        {
            assert(key@[index as int] == chords@[index as int]@);
            if chords[index].same(&self.chain_quit_key) {
                return true;
            }
            index = index + 1;
        }
        false
    }

    fn validate_effective(
        &self,
        effective: &Vec<KeyBinding>,
        around: &Surroundings<'_>,
    ) -> (outcome: Result<(), ConfigError>)
        ensures
            error::fault_in(outcome) == error::first_fault(
                effective@.len(),
                key_action_check(
                    around@,
                    self.chain_quit_key@,
                    bindings::key_models(effective@),
                ),
            ),
    {
        let ghost models = bindings::key_models(effective@);
        let ghost check = key_action_check(around@, self.chain_quit_key@, models);
        let mut index: usize = 0;
        while index < effective.len()
            invariant
                index <= effective.len(),
                models == bindings::key_models(effective@),
                check == key_action_check(around@, self.chain_quit_key@, models),
                error::first_fault(index as nat, check) is None,
            decreases effective.len() - index,
        {
            let binding = &effective[index];
            assert(models[index as int] == binding@);
            proof {
                action::lemma_action_models(binding.actions@);
                if check(index as int) is Some {
                    error::lemma_first_fault((index + 1) as nat, models.len(), check);
                }
            }
            let spelling = binding.key.text();
            let length = binding.key.chords().len();
            assert(length == binding.key@.len());
            if length > 8 {
                return Err(ConfigError::KeySequenceTooLong { key: spelling, length });
            }
            if binding.actions.len() > 16 {
                return Err(
                    ConfigError::TooManyBindingActions {
                        key: spelling,
                        count: binding.actions.len(),
                    },
                );
            }
            if self.quits_within(&binding.key) {
                return Err(
                    ConfigError::ConflictingChainQuitKey {
                        key: self.chain_quit_key.text(),
                        binding: spelling,
                    },
                );
            }
            assert(bound_keys(models.take(index as int)) =~= bound_before(effective@, index as int));
            if let Some(conflict) = find_conflict(effective, index, &binding.key) {
                return Err(
                    ConfigError::ConflictingKeyBinding {
                        first: effective[conflict].key.text(),
                        second: spelling,
                    },
                );
            }
            if is_bound(effective, index, &binding.key) {
                return Err(ConfigError::DuplicateKeyBinding(spelling));
            }
            if let Err(error) = around.validate_actions(&binding.actions, &spelling) {
                return Err(error);
            }
            assert(check(index as int) is None);
            index = index + 1;
        }
        Ok(())
    }

    /// Checks the keyboard bindings.
    ///
    /// # Errors
    ///
    /// Returns the first problem found.
    pub fn validate_bindings(
        &self,
        shortcuts: &ShortcutsConfig,
        around: &Surroundings<'_>,
    ) -> (outcome: Result<(), ConfigError>)
        ensures
            error::fault_in(outcome) == self.binding_fault(shortcuts@, around@),
    {
        if let Err(error) = self.validate_disabled() {
            return Err(error);
        }
        if let Err(error) = self.validate_configured() {
            return Err(error);
        }
        let effective = self.effective_bindings_with(shortcuts);
        self.validate_effective(&effective, around)
    }
}

/// The key sequences of the bindings before a position.
pub open spec fn bound_before(bindings: Seq<KeyBinding>, index: int) -> Seq<Seq<ChordModel>> {
    Seq::new(index as nat, |i: int| bindings[i].key@)
}

fn is_bound(bindings: &Vec<KeyBinding>, index: usize, key: &KeySequence) -> (r: bool)
    requires
        index <= bindings@.len(),
    ensures
        r == bound_before(bindings@, index as int).contains(key@),
{
    let ghost before = bound_before(bindings@, index as int);
    let mut earlier: usize = 0;
    while earlier < index
        invariant
            earlier <= index <= bindings@.len(),
            before == bound_before(bindings@, index as int),
            forall|i: int| 0 <= i < earlier ==> before[i] != key@,
        decreases index - earlier,
    {
        assert(before[earlier as int] == bindings@[earlier as int].key@);
        if bindings[earlier].key.same(key) {
            return true;
        }
        earlier = earlier + 1;
    }
    false
}

fn modifier_rank(modifier: KeyboardModifier) -> (r: u8)
    ensures
        r == rank(modifier),
{
    match modifier {
        KeyboardModifier::Control => 0,
        KeyboardModifier::Alt => 1,
        KeyboardModifier::Shift => 2,
        KeyboardModifier::Super => 3,
    }
}

fn modifiers_come_before(left: &[KeyboardModifier], right: &[KeyboardModifier]) -> (r: bool)
    ensures
        r == modifiers_precede(left@, right@),
{
    let mut index: usize = 0;
    assert(left@.skip(0) =~= left@);
    assert(right@.skip(0) =~= right@);
    while index < left.len() && index < right.len()
        invariant
            index <= left.len(),
            index <= right.len(),
            modifiers_precede(left@, right@) == modifiers_precede(
                left@.skip(index as int),
                right@.skip(index as int),
            ),
        decreases left.len() - index,
    {
        assert(left@.skip(index as int).skip(1) =~= left@.skip(index + 1));
        assert(right@.skip(index as int).skip(1) =~= right@.skip(index + 1));
        if left[index] != right[index] {
            return modifier_rank(left[index]) < modifier_rank(right[index]);
        }
        index = index + 1;
    }
    index < right.len()
}

fn chord_comes_before(left: &KeyChord, right: &KeyChord) -> (r: bool)
    ensures
        r == chord_precedes(left@, right@),
{
    if keys::same_modifiers(left.modifiers(), right.modifiers()) {
        text::comes_before(left.symbol(), right.symbol())
    } else {
        modifiers_come_before(left.modifiers(), right.modifiers())
    }
}

fn sequence_comes_before(left: &KeySequence, right: &KeySequence) -> (r: bool)
    ensures
        r == sequence_precedes(left@, right@),
{
    let left_chords = left.chords();
    let right_chords = right.chords();
    let mut index: usize = 0;
    assert(left@.skip(0) =~= left@);
    assert(right@.skip(0) =~= right@);
    while index < left_chords.len() && index < right_chords.len()
        invariant
            keys::chord_models(left_chords@) == left@,
            keys::chord_models(right_chords@) == right@,
            index <= left_chords.len(),
            index <= right_chords.len(),
            sequence_precedes(left@, right@) == sequence_precedes(
                left@.skip(index as int),
                right@.skip(index as int),
            ),
        decreases left_chords.len() - index,
    {
        assert(left@.skip(index as int).skip(1) =~= left@.skip(index + 1));
        assert(right@.skip(index as int).skip(1) =~= right@.skip(index + 1));
        assert(left@[index as int] == left_chords@[index as int]@);
        assert(right@[index as int] == right_chords@[index as int]@);
        if !left_chords[index].same(&right_chords[index]) {
            return chord_comes_before(&left_chords[index], &right_chords[index]);
        }
        index = index + 1;
    }
    index < right_chords.len()
}

fn find_conflict(bindings: &Vec<KeyBinding>, index: usize, key: &KeySequence) -> (found: Option<
    usize,
>)
    requires
        index <= bindings@.len(),
    ensures
        match found {
            Some(found) => found < index && first_conflict(
                bound_before(bindings@, index as int),
                key@,
            ) == Some(bindings@[found as int].key@),
            None => first_conflict(bound_before(bindings@, index as int), key@) is None,
        },
{
    let ghost before = bound_before(bindings@, index as int);
    let mut found: Option<usize> = None;
    let mut earlier: usize = 0;
    assert(before.take(0) =~= Seq::empty());
    while earlier < index
        invariant
            earlier <= index <= bindings@.len(),
            before == bound_before(bindings@, index as int),
            match found {
                Some(found) => found < earlier && first_conflict(
                    before.take(earlier as int),
                    key@,
                ) == Some(bindings@[found as int].key@),
                None => first_conflict(before.take(earlier as int), key@) is None,
            },
        decreases index - earlier,
    {
        assert(before.take(earlier + 1).drop_last() =~= before.take(earlier as int));
        let candidate = &bindings[earlier].key;
        assert(before[earlier as int] == candidate@);
        if candidate.is_strict_prefix_of(key) || key.is_strict_prefix_of(candidate) {
            let replace = match found {
                Some(best) => sequence_comes_before(candidate, &bindings[best].key),
                None => true,
            };
            if replace {
                found = Some(earlier);
            }
        }
        earlier = earlier + 1;
    }
    assert(before.take(earlier as int) =~= before);
    found
}

proof fn lemma_key_prefix(bindings: Seq<KeyBindingModel>, key: Seq<ChordModel>, length: int)
    requires
        0 <= length <= bindings.len(),
        key_position(bindings.take(length), key) is Some,
    ensures
        key_position(bindings, key) == key_position(bindings.take(length), key),
    decreases bindings.len(),
{
    if length < bindings.len() {
        assert(bindings.drop_last().take(length) =~= bindings.take(length));
        lemma_key_prefix(bindings.drop_last(), key, length);
    } else {
        assert(bindings.take(length) =~= bindings);
    }
}

/// Puts a binding in the place of the one for its key sequence, or at the end.
fn place_key(bindings: &mut Vec<KeyBinding>, binding: KeyBinding)
    ensures
        bindings::key_models(final(bindings)@) == with_key(
            bindings::key_models(old(bindings)@),
            binding@,
        ),
{
    let ghost models = bindings::key_models(bindings@);
    let ghost model = binding@;
    let mut index: usize = 0;
    assert(models.take(0) =~= Seq::empty());
    while index < bindings.len()
        invariant
            index <= bindings.len(),
            bindings@ == old(bindings)@,
            models == bindings::key_models(bindings@),
            model == binding@,
            key_position(models.take(index as int), model.key) is None,
        decreases bindings.len() - index,
    {
        assert(models.take(index + 1).drop_last() =~= models.take(index as int));
        assert(models[index as int] == bindings@[index as int]@);
        if bindings[index].key.same(&binding.key) {
            assert(key_position(models.take(index + 1), model.key) == Some(index as int));
            proof {
                lemma_key_prefix(models, model.key, index + 1);
            }
            bindings.set(index, binding);
            assert(bindings::key_models(bindings@) =~= models.update(index as int, model));
            return;
        }
        index = index + 1;
    }
    assert(models.take(index as int) =~= models);
    bindings.push(binding);
    assert(bindings::key_models(bindings@) =~= models.push(model));
}

/// Laying one binding over others: it is there, and every other gesture is bound as before.
proof fn lemma_with_gesture(bindings: Seq<MouseBindingModel>, binding: MouseBindingModel)
    ensures
        ({
            let after = with_gesture(bindings, binding);
            &&& after.contains(binding)
            &&& forall|other: MouseBindingModel|
                other.gesture != binding.gesture ==> #[trigger] after.contains(other)
                    == bindings.contains(other)
            &&& bound_gestures(bindings).no_duplicates() ==> bound_gestures(after).no_duplicates()
        }),
{
    let after = with_gesture(bindings, binding);
    lemma_gesture_position(bindings, binding.gesture);
    let at = match gesture_position(bindings, binding.gesture) {
        Some(found) => found,
        None => bindings.len() as int,
    };
    assert(after[at] == binding);
    assert forall|other: MouseBindingModel|
        other.gesture != binding.gesture implies #[trigger] after.contains(other) == bindings.contains(
        other,
    ) by {
        if bindings.contains(other) {
            let i = choose|i: int| 0 <= i < bindings.len() && bindings[i] == other;
            assert(after[i] == other);
        }
        if after.contains(other) {
            let i = choose|i: int| 0 <= i < after.len() && after[i] == other;
            assert(bindings[i] == other);
        }
    }
    if bound_gestures(bindings).no_duplicates() {
        let before = bound_gestures(bindings);
        let now = bound_gestures(after);
        assert forall|i: int, j: int| 0 <= i < j < now.len() implies now[i] != now[j] by {
            if j < before.len() {
                assert(before[i] != before[j]);
                assert(now[i] == before[i]);
                assert(now[j] == before[j]);
            } else {
                assert(now[i] == bindings[i].gesture);
            }
        }
    }
}

/// The last of the bindings for a gesture.
pub open spec fn last_gesture_binding(
    bindings: Seq<MouseBindingModel>,
    gesture: Gesture,
) -> Option<MouseBindingModel>
    decreases bindings.len(),
{
    if bindings.len() == 0 {
        None
    } else if bindings.last().gesture == gesture {
        Some(bindings.last())
    } else {
        last_gesture_binding(bindings.drop_last(), gesture)
    }
}

/// A gesture has a last binding where it is bound.
proof fn lemma_last_gesture_binding(bindings: Seq<MouseBindingModel>, gesture: Gesture)
    ensures
        last_gesture_binding(bindings, gesture) is Some <==> bound_gestures(bindings).contains(
            gesture,
        ),
        last_gesture_binding(bindings, gesture) matches Some(last) ==> last.gesture == gesture
            && bindings.contains(last),
    decreases bindings.len(),
{
    if bindings.len() > 0 {
        let before = bindings.drop_last();
        let names = bound_gestures(bindings);
        let earlier = bound_gestures(before);
        assert(earlier =~= names.drop_last());
        assert(names[names.len() - 1] == bindings.last().gesture);
        assert(bindings[bindings.len() - 1] == bindings.last());
        lemma_last_gesture_binding(before, gesture);
        if let Some(last) = last_gesture_binding(before, gesture) {
            let i = choose|i: int| 0 <= i < before.len() && before[i] == last;
            assert(bindings[i] == last);
            assert(names[i] == gesture);
        }
        if names.contains(gesture) && bindings.last().gesture != gesture {
            let i = choose|i: int| 0 <= i < names.len() && names[i] == gesture;
            assert(earlier[i] == gesture);
        }
    }
}

/// Every configured pointer binding is in effect unless a later one is for the same
/// gesture: of bindings that repeat one, the last wins. Of the other bindings, exactly those
/// whose gesture is not configured are in effect. Where no gesture came up twice before,
/// none does after, and a configured one is bound as its last binding says and in no other way.
pub proof fn law_configured_gestures_take_effect(
    inherited: Seq<MouseBindingModel>,
    configured: Seq<MouseBindingModel>,
    binding: MouseBindingModel,
)
    ensures
        last_gesture_binding(configured, binding.gesture) == Some(binding) ==> with_gestures(
            inherited,
            configured,
        ).contains(binding),
        !bound_gestures(configured).contains(binding.gesture) ==> with_gestures(
            inherited,
            configured,
        ).contains(binding) == inherited.contains(binding),
        bound_gestures(inherited).no_duplicates() ==> bound_gestures(
            with_gestures(inherited, configured),
        ).no_duplicates(),
        bound_gestures(inherited).no_duplicates() && bound_gestures(configured).contains(
            binding.gesture,
        ) ==> with_gestures(inherited, configured).contains(binding) == (last_gesture_binding(
            configured,
            binding.gesture,
        ) == Some(binding)),
    decreases configured.len(),
{
    let laid = with_gestures(inherited, configured);
    if configured.len() > 0 {
        let before = configured.drop_last();
        let last = configured.last();
        let so_far = with_gestures(inherited, before);
        let names = bound_gestures(configured);
        let earlier = bound_gestures(before);
        assert(earlier =~= names.drop_last());
        assert(names[names.len() - 1] == last.gesture);
        law_configured_gestures_take_effect(inherited, before, binding);
        lemma_with_gesture(so_far, last);
        if !names.contains(binding.gesture) {
            assert(binding.gesture != last.gesture);
            assert forall|i: int| 0 <= i < earlier.len() implies earlier[i] != binding.gesture by {
                assert(names[i] == earlier[i]);
                assert(names.contains(names[i]));
            }
        }
        if bound_gestures(inherited).no_duplicates() && names.contains(binding.gesture) {
            lemma_last_gesture_binding(configured, binding.gesture);
            let winner = last_gesture_binding(configured, binding.gesture)->0;
            if winner != last {
                law_configured_gestures_take_effect(inherited, before, winner);
            }
            assert(laid.contains(winner));
            if laid.contains(binding) {
                let i = choose|i: int| 0 <= i < laid.len() && laid[i] == binding;
                let j = choose|j: int| 0 <= j < laid.len() && laid[j] == winner;
                assert(bound_gestures(laid)[i] == bound_gestures(laid)[j]);
            }
        }
    } else {
        assert(bound_gestures(configured).len() == 0);
    }
}

/// A disabled gesture is not inherited, and every other one is.
pub proof fn law_disabled_gestures_are_not_inherited(
    standard: Seq<MouseBindingModel>,
    disabled: Seq<Gesture>,
    binding: MouseBindingModel,
)
    ensures
        enabled_gestures(standard, disabled).contains(binding) == (standard.contains(binding)
            && !disabled.contains(binding.gesture)),
    decreases standard.len(),
{
    if standard.len() > 0 {
        let rest = standard.drop_last();
        let last = standard.last();
        law_disabled_gestures_are_not_inherited(rest, disabled, binding);
        let before = enabled_gestures(rest, disabled);
        let after = enabled_gestures(standard, disabled);
        assert(standard[standard.len() - 1] == last);
        assert(before.push(last)[before.len() as int] == last);
        if before.contains(binding) {
            let i = choose|i: int| 0 <= i < before.len() && before[i] == binding;
            assert(before.push(last)[i] == binding);
        }
        if rest.contains(binding) {
            let i = choose|i: int| 0 <= i < rest.len() && rest[i] == binding;
            assert(standard[i] == binding);
        }
        if standard.contains(binding) && binding != last {
            let i = choose|i: int| 0 <= i < standard.len() && standard[i] == binding;
            assert(rest[i] == binding);
        }
        if after.contains(binding) && binding != last {
            let i = choose|i: int| 0 <= i < after.len() && after[i] == binding;
            assert(before[i] == binding);
        }
    }
}

/// The position of a key sequence is that of a binding for it.
proof fn lemma_key_position(bindings: Seq<KeyBindingModel>, key: Seq<ChordModel>)
    ensures
        match key_position(bindings, key) {
            Some(found) => 0 <= found < bindings.len() && bindings[found].key == key,
            None => forall|i: int| 0 <= i < bindings.len() ==> (#[trigger] bindings[i]).key != key,
        },
    decreases bindings.len(),
{
    if bindings.len() > 0 {
        lemma_key_position(bindings.drop_last(), key);
        assert forall|i: int|
            0 <= i < bindings.len() && key_position(bindings, key) is None implies (
        #[trigger] bindings[i]).key != key by {
            if i < bindings.len() - 1 {
                assert(bindings.drop_last()[i] == bindings[i]);
            }
        }
    }
}

/// Laying one binding over others: it is there, and every other key sequence is bound as before.
proof fn lemma_with_key(bindings: Seq<KeyBindingModel>, binding: KeyBindingModel)
    ensures
        ({
            let after = with_key(bindings, binding);
            &&& after.contains(binding)
            &&& forall|other: KeyBindingModel|
                other.key != binding.key ==> #[trigger] after.contains(other)
                    == bindings.contains(other)
            &&& bound_keys(bindings).no_duplicates() ==> bound_keys(after).no_duplicates()
        }),
{
    let after = with_key(bindings, binding);
    lemma_key_position(bindings, binding.key);
    let at = match key_position(bindings, binding.key) {
        Some(found) => found,
        None => bindings.len() as int,
    };
    assert(after[at] == binding);
    assert forall|other: KeyBindingModel|
        other.key != binding.key implies #[trigger] after.contains(other) == bindings.contains(
        other,
    ) by {
        if bindings.contains(other) {
            let i = choose|i: int| 0 <= i < bindings.len() && bindings[i] == other;
            assert(after[i] == other);
        }
        if after.contains(other) {
            let i = choose|i: int| 0 <= i < after.len() && after[i] == other;
            assert(bindings[i] == other);
        }
    }
    if bound_keys(bindings).no_duplicates() {
        let before = bound_keys(bindings);
        let now = bound_keys(after);
        assert forall|i: int, j: int| 0 <= i < j < now.len() implies now[i] != now[j] by {
            if j < before.len() {
                assert(before[i] != before[j]);
                assert(now[i] == before[i]);
                assert(now[j] == before[j]);
            } else {
                assert(now[i] == bindings[i].key);
            }
        }
    }
}

/// The last of the bindings for a key sequence.
pub open spec fn last_key_binding(
    bindings: Seq<KeyBindingModel>,
    key: Seq<ChordModel>,
) -> Option<KeyBindingModel>
    decreases bindings.len(),
{
    if bindings.len() == 0 {
        None
    } else if bindings.last().key == key {
        Some(bindings.last())
    } else {
        last_key_binding(bindings.drop_last(), key)
    }
}

/// A key sequence has a last binding where it is bound.
proof fn lemma_last_key_binding(bindings: Seq<KeyBindingModel>, key: Seq<ChordModel>)
    ensures
        last_key_binding(bindings, key) is Some <==> bound_keys(bindings).contains(key),
        last_key_binding(bindings, key) matches Some(last) ==> last.key == key
            && bindings.contains(last),
    decreases bindings.len(),
{
    if bindings.len() > 0 {
        let before = bindings.drop_last();
        let names = bound_keys(bindings);
        let earlier = bound_keys(before);
        assert(earlier =~= names.drop_last());
        assert(names[names.len() - 1] == bindings.last().key);
        assert(bindings[bindings.len() - 1] == bindings.last());
        lemma_last_key_binding(before, key);
        if let Some(last) = last_key_binding(before, key) {
            let i = choose|i: int| 0 <= i < before.len() && before[i] == last;
            assert(bindings[i] == last);
            assert(names[i] == key);
        }
        if names.contains(key) && bindings.last().key != key {
            let i = choose|i: int| 0 <= i < names.len() && names[i] == key;
            assert(earlier[i] == key);
        }
    }
}

/// Every configured keyboard binding is in effect unless a later one is for the same
/// key sequence: of bindings that repeat one, the last wins. Of the other bindings, exactly those
/// whose key sequence is not configured are in effect. Where no key sequence came up twice before,
/// none does after, and a configured one is bound as its last binding says and in no other way.
pub proof fn law_configured_keys_take_effect(
    inherited: Seq<KeyBindingModel>,
    configured: Seq<KeyBindingModel>,
    binding: KeyBindingModel,
)
    ensures
        last_key_binding(configured, binding.key) == Some(binding) ==> with_keys(
            inherited,
            configured,
        ).contains(binding),
        !bound_keys(configured).contains(binding.key) ==> with_keys(
            inherited,
            configured,
        ).contains(binding) == inherited.contains(binding),
        bound_keys(inherited).no_duplicates() ==> bound_keys(
            with_keys(inherited, configured),
        ).no_duplicates(),
        bound_keys(inherited).no_duplicates() && bound_keys(configured).contains(
            binding.key,
        ) ==> with_keys(inherited, configured).contains(binding) == (last_key_binding(
            configured,
            binding.key,
        ) == Some(binding)),
    decreases configured.len(),
{
    let laid = with_keys(inherited, configured);
    if configured.len() > 0 {
        let before = configured.drop_last();
        let last = configured.last();
        let so_far = with_keys(inherited, before);
        let names = bound_keys(configured);
        let earlier = bound_keys(before);
        assert(earlier =~= names.drop_last());
        assert(names[names.len() - 1] == last.key);
        law_configured_keys_take_effect(inherited, before, binding);
        lemma_with_key(so_far, last);
        if !names.contains(binding.key) {
            assert(binding.key != last.key);
            assert forall|i: int| 0 <= i < earlier.len() implies earlier[i] != binding.key by {
                assert(names[i] == earlier[i]);
                assert(names.contains(names[i]));
            }
        }
        if bound_keys(inherited).no_duplicates() && names.contains(binding.key) {
            lemma_last_key_binding(configured, binding.key);
            let winner = last_key_binding(configured, binding.key)->0;
            if winner != last {
                law_configured_keys_take_effect(inherited, before, winner);
            }
            assert(laid.contains(winner));
            if laid.contains(binding) {
                let i = choose|i: int| 0 <= i < laid.len() && laid[i] == binding;
                let j = choose|j: int| 0 <= j < laid.len() && laid[j] == winner;
                assert(bound_keys(laid)[i] == bound_keys(laid)[j]);
            }
        }
    } else {
        assert(bound_keys(configured).len() == 0);
    }
}

/// A disabled key sequence is not inherited, and every other one is.
pub proof fn law_disabled_keys_are_not_inherited(
    standard: Seq<KeyBindingModel>,
    disabled: Seq<Seq<ChordModel>>,
    binding: KeyBindingModel,
)
    ensures
        enabled_keys(standard, disabled).contains(binding) == (standard.contains(binding)
            && !disabled.contains(binding.key)),
    decreases standard.len(),
{
    if standard.len() > 0 {
        let rest = standard.drop_last();
        let last = standard.last();
        law_disabled_keys_are_not_inherited(rest, disabled, binding);
        let before = enabled_keys(rest, disabled);
        let after = enabled_keys(standard, disabled);
        assert(standard[standard.len() - 1] == last);
        assert(before.push(last)[before.len() as int] == last);
        if before.contains(binding) {
            let i = choose|i: int| 0 <= i < before.len() && before[i] == binding;
            assert(before.push(last)[i] == binding);
        }
        if rest.contains(binding) {
            let i = choose|i: int| 0 <= i < rest.len() && rest[i] == binding;
            assert(standard[i] == binding);
        }
        if standard.contains(binding) && binding != last {
            let i = choose|i: int| 0 <= i < standard.len() && standard[i] == binding;
            assert(rest[i] == binding);
        }
        if after.contains(binding) && binding != last {
            let i = choose|i: int| 0 <= i < after.len() && after[i] == binding;
            assert(before[i] == binding);
        }
    }
}

/// Where no first conflict is found, nothing conflicts.
proof fn lemma_first_conflict(bound: Seq<Seq<ChordModel>>, key: Seq<ChordModel>, i: int)
    requires
        first_conflict(bound, key) is None,
        0 <= i < bound.len(),
    ensures
        !conflicting(bound[i], key),
    decreases bound.len(),
{
    if i < bound.len() - 1 {
        lemma_first_conflict(bound.drop_last(), key, i);
    }
}

/// Among accepted keyboard bindings no two have the same key sequence, none is the beginning of
/// another, and none needs the key that quits a chain.
pub proof fn law_accepted_keys_are_unambiguous(
    keyboard: KeyboardConfig,
    shortcuts: ShortcutsModel,
    around: SurroundingsModel,
)
    requires
        keyboard.binding_fault(shortcuts, around) is None,
    ensures
        ({
            let bound = bound_keys(keyboard.effective(shortcuts));
            &&& bound.no_duplicates()
            &&& forall|i: int, j: int|
                0 <= i < bound.len() && 0 <= j < bound.len() ==> !(#[trigger] keys::strict_prefix(
                    bound[i],
                    bound[j],
                ))
            &&& forall|i: int, j: int|
                0 <= i < bound.len() && 1 <= j < bound[i].len() ==> #[trigger] bound[i][j]
                    != keyboard.chain_quit_key@
        }),
{
    let effective = keyboard.effective(shortcuts);
    let bound = bound_keys(effective);
    let check = key_action_check(around, keyboard.chain_quit_key@, effective);
    assert forall|j: int| 0 <= j < bound.len() implies {
        &&& first_conflict(#[trigger] bound_keys(effective.take(j)), bound[j]) is None
        &&& !bound_keys(effective.take(j)).contains(bound[j])
        &&& forall|k: int| 1 <= k < bound[j].len() ==> #[trigger] bound[j][k]
            != keyboard.chain_quit_key@
    } by {
        error::lemma_checks_passed(effective.len(), check, j);
        assert(check(j) is None);
        assert(bound[j] == effective[j].key);
    }
    assert forall|i: int, j: int| 0 <= i < j < bound.len() implies bound[i] != bound[j] && !(
    #[trigger] conflicting(bound[i], bound[j])) by {
        let before = bound_keys(effective.take(j));
        assert(before[i] == bound[i]);
        lemma_first_conflict(before, bound[j], i);
    }
    assert forall|i: int, j: int|
        0 <= i < bound.len() && 0 <= j < bound.len() && i != j implies #[trigger] bound[i]
        != #[trigger] bound[j] by {
        assert(!conflicting(bound[i], bound[j]) || !conflicting(bound[j], bound[i]));
    }
    assert forall|i: int, j: int| 0 <= i < bound.len() && 0 <= j < bound.len() implies !(
    #[trigger] keys::strict_prefix(bound[i], bound[j])) by {
        if i < j {
            assert(!conflicting(bound[i], bound[j]));
        } else if j < i {
            assert(!conflicting(bound[j], bound[i]));
        }
    }
    assert forall|i: int, j: int| 0 <= i < bound.len() && 1 <= j < bound[i].len() implies
        #[trigger] bound[i][j] != keyboard.chain_quit_key@ by {
        assert(first_conflict(bound_keys(effective.take(i)), bound[i]) is None);
    }
}

} // verus!
