//! Laws of the input and menu sections, of actions, and of the places of files.

use vstd::prelude::*;

use crate::config::action::{Action, ActionModel};
use crate::config::bindings;
use crate::config::error::Fault;
use crate::config::input;
use crate::config::input::{KeyboardConfig, MouseConfig};
use crate::config::keys::{ChordModel, KeyboardModifier};
use crate::config::menu::{EntryModel, MenuModel, MenuSource};
use crate::config::menus;
use crate::config::menus::MenusModel;
use crate::config::paths;
use crate::config::settings::ShortcutsModel;
use crate::config::tree;
use crate::config::tree::SurroundingsModel;
use crate::text;

verus! {

/// The configuration lives in `nobox` below the configuration directory of the user, or else in
/// `.config/nobox` below the home directory; a variable that is empty counts as unset.
pub proof fn law_configurations_have_a_home(config_home: Option<&str>, home: Option<&str>)
    ensures
        ({
            let found = paths::config_home(config_home, home);
            let given = config_home matches Some(directory) && directory@.len() > 0;
            let home_given = home matches Some(directory) && directory@.len() > 0;
            &&& given && config_home->Some_0@.last() != '/' ==> found == Some(
                config_home->Some_0@ + "/nobox"@,
            )
            &&& !given && home_given && home->Some_0@.last() != '/' ==> found == Some(
                home->Some_0@ + "/.config/nobox"@,
            )
            &&& !given && !home_given ==> found is None
        }),
{
    reveal_strlit("nobox");
    reveal_strlit("/nobox");
    reveal_strlit(".config/nobox");
    reveal_strlit("/.config/nobox");
    if config_home is Some {
        let directory = config_home->Some_0@;
        assert(directory.push('/') + "nobox"@ == directory + "/nobox"@);
    }
    if home is Some {
        let directory = home->Some_0@;
        assert(directory.push('/') + ".config/nobox"@ == directory + "/.config/nobox"@);
    }
}

/// The state of a session lives in the file that is named for it; else in `session.toml` beside
/// the configuration file that is named; else below the state directory of the user; else below
/// the home directory.
pub proof fn law_session_states_have_a_home(
    state_file: Option<&str>,
    config_file: Option<&str>,
    config_parent: Seq<char>,
    state_home: Option<&str>,
    home: Option<&str>,
)
    requires
        config_parent.len() > 0,
        config_parent.last() != '/',
    ensures
        ({
            let found = paths::state_home(
                state_file,
                config_file,
                Some(config_parent),
                state_home,
                home,
            );
            let state_given = state_file matches Some(file) && file@.len() > 0;
            let config_given = config_file matches Some(file) && file@.len() > 0;
            let directory_given = state_home matches Some(directory) && directory@.len() > 0;
            let home_given = home matches Some(directory) && directory@.len() > 0;
            &&& state_given ==> found == Some(state_file->Some_0@)
            &&& !state_given && config_given ==> found == Some(config_parent + "/session.toml"@)
            &&& !state_given && !config_given && directory_given && state_home->Some_0@.last()
                != '/' ==> found == Some(state_home->Some_0@ + "/nobox/session.toml"@)
            &&& !state_given && !config_given && !directory_given && home_given
                && home->Some_0@.last() != '/' ==> found == Some(
                home->Some_0@ + "/.local/state/nobox/session.toml"@,
            )
            &&& !state_given && !config_given && !directory_given && !home_given ==> found is None
        }),
{
    reveal_strlit("session.toml");
    reveal_strlit("/session.toml");
    reveal_strlit("nobox/session.toml");
    reveal_strlit("/nobox/session.toml");
    reveal_strlit(".local/state/nobox/session.toml");
    reveal_strlit("/.local/state/nobox/session.toml");
    assert(config_parent.push('/') + "session.toml"@ == config_parent + "/session.toml"@);
    if state_home is Some {
        let directory = state_home->Some_0@;
        assert(directory.push('/') + "nobox/session.toml"@ == directory + "/nobox/session.toml"@);
    }
    if home is Some {
        let directory = home->Some_0@;
        assert(directory.push('/') + ".local/state/nobox/session.toml"@ == directory
            + "/.local/state/nobox/session.toml"@);
    }
}

/// An action without branches is accepted exactly where it is nested at most eight deep, is one of
/// the first 128 of its tree, and has no fault of its own.
pub proof fn law_actions_are_nested_and_counted(
    around: SurroundingsModel,
    context: Seq<char>,
    action: ActionModel,
    depth: nat,
    seen: nat,
)
    requires
        !(action is If),
        !(action is ForEach),
    ensures
        tree::walk(around, context, action, depth, seen).fault is None <==> depth <= 8 && seen < 128
            && tree::own_fault(around, context, action) is None,
        depth > 8 ==> tree::walk(around, context, action, depth, seen).fault == Some(
            Fault::ActionNestingTooDeep { context, depth: depth as usize },
        ),
        depth <= 8 && seen >= 128 ==> tree::walk(around, context, action, depth, seen).fault
            == Some(Fault::ActionTreeTooLarge(context)),
        depth <= 8 && seen < 128 ==> tree::walk(around, context, action, depth, seen).seen == seen
            + 1,
{
}

/// An action may go to a workspace, counted from one, or show a menu, exactly where there is one.
pub proof fn law_actions_refer_to_what_there_is(
    around: SurroundingsModel,
    context: Seq<char>,
    workspace: u32,
    menu: Seq<char>,
)
    ensures
        tree::own_fault(
            around,
            context,
            ActionModel::Plain(Action::SwitchWorkspace { workspace }),
        ) is None <==> 1 <= workspace <= around.workspaces,
        tree::own_fault(around, context, ActionModel::ShowMenu { menu }) is None
            <==> around.menus.contains(menu),
{
}

/// A command to run holds something that can be seen and no NUL, in at most 16384 bytes; so does
/// the question before it in at most 255 bytes, and a message in at most 1024.
pub proof fn law_actions_have_bounded_texts(
    around: SurroundingsModel,
    context: Seq<char>,
    command: Seq<char>,
    prompt: Option<Seq<char>>,
    message: Seq<char>,
)
    ensures
        tree::own_fault(
            around,
            context,
            ActionModel::Execute { command, prompt, startup: None },
        ) is None <==> !text::blank(command) && !command.contains('\0') && text::size(command)
            <= 16_384 && (prompt matches Some(question) ==> !text::blank(question)
            && !question.contains('\0') && text::size(question) <= 255),
        tree::own_fault(around, context, ActionModel::Debug { message }) is None
            <==> !text::blank(message) && !message.contains('\0') && text::size(message) <= 1_024,
        tree::own_fault(
            around,
            context,
            ActionModel::Restart { command: Some(command) },
        ) is None <==> !text::blank(command),
        tree::own_fault(around, context, ActionModel::Restart { command: None }) is None,
{
}

/// What is out of bounds in the menu section is refused: the width outside 160 to 1024 pixels, the
/// height of a row outside 16 to 64, the rows outside 2 to 32, the time of a command outside 50 to
/// 5000 milliseconds, and more than 64 menus. A section without menus that keeps the bounds is
/// accepted.
pub proof fn law_menu_sections_have_bounds(section: MenusModel, workspaces: nat)
    ensures
        ({
            let within = 160 <= section.width <= 1_024 && 16 <= section.row_height <= 64 && 2
                <= section.max_rows <= 32 && 50 <= section.command_timeout_ms <= 5_000;
            &&& section.fault(workspaces) is None ==> within && section.menus.len() <= 64
            &&& within && section.menus.len() == 0 ==> section.fault(workspaces) is None
            &&& within && section.menus.len() > 64 ==> section.fault(workspaces) == Some(
                Fault::TooManyMenus(section.menus.len() as usize),
            )
        }),
{
}

/// A menu identifier consists of at most 64 ASCII letters, digits, hyphens and underscores, and of
/// at least one; a title or a label can be seen, holds no NUL, and has at most 256 bytes.
pub proof fn law_menu_names_are_portable(id: Seq<char>, label: Seq<char>, i: int)
    ensures
        menus::menu_text(label) <==> !text::blank(label) && !label.contains('\0') && text::size(
            label,
        ) <= 256,
        menus::menu_id(id) ==> menus::menu_text(id) && text::size(id) <= 64,
        menus::menu_id(id) && 0 <= i < id.len() ==> 'a' <= id[i] <= 'z' || 'A' <= id[i] <= 'Z'
            || '0' <= id[i] <= '9' || id[i] == '-' || id[i] == '_',
        'a' <= id[i] <= 'z' || 'A' <= id[i] <= 'Z' || '0' <= id[i] <= '9' || id[i] == '-' || id[i]
            == '_' ==> menus::id_char(id[i]),
{
}

/// A menu has what its source needs and nothing else: entries of which one can be selected where
/// it is written out, a command alone where a command fills it, and neither where nobox fills it.
pub proof fn law_menus_have_what_their_source_needs(menu: MenuModel)
    ensures
        menu.source == MenuSource::Static ==> (menus::source_fault(menu) is None
            <==> menu.command is None && exists|i: int|
            0 <= i < menu.entries.len() && !((#[trigger] menu.entries[i]) is Separator)),
        menu.source == MenuSource::Command ==> (menus::source_fault(menu) is None
            <==> menu.entries.len() == 0 && (menu.command matches Some(command)
            && menus::menu_command(command))),
        menu.source != MenuSource::Static && menu.source != MenuSource::Command ==> (
        menus::source_fault(menu) is None <==> menu.entries.len() == 0 && menu.command is None),
{
    if menu.source == MenuSource::Static && menu.command is None {
        if exists|i: int|
            0 <= i < menu.entries.len() && !((#[trigger] menu.entries[i]) is Separator) {
            let i = choose|i: int|
                0 <= i < menu.entries.len() && !((#[trigger] menu.entries[i]) is Separator);
            assert(menus::selectable(menu.entries[i]));
        }
    }
}

/// A submenu is accepted exactly where its label is and there is such a menu; a separator where it
/// has no label or an accepted one. An item has at most sixteen actions.
pub proof fn law_entries_lead_to_menus(
    around: SurroundingsModel,
    id: Seq<char>,
    label: Seq<char>,
    menu: Seq<char>,
    actions: Seq<ActionModel>,
    number: nat,
)
    ensures
        menus::entry_fault(around, id, EntryModel::Submenu { label, menu }, number) is None
            <==> menus::menu_text(label) && around.menus.contains(menu),
        menus::entry_fault(around, id, EntryModel::Separator { label: None }, number) is None,
        menus::entry_fault(around, id, EntryModel::Separator { label: Some(label) }, number) is None
            <==> menus::menu_text(label),
        menus::entry_fault(around, id, EntryModel::Item { label, actions }, number) is None
            ==> menus::menu_text(label) && actions.len() <= 16,
        menus::menu_text(label) && actions.len() == 0 ==> menus::entry_fault(
            around,
            id,
            EntryModel::Item { label, actions },
            number,
        ) is None,
{
}

/// What is out of bounds in the mouse section is refused: a button outside 1 to 5, a resistance or
/// a drag threshold of more than 256 pixels, a double click outside 100 to 2000 milliseconds, more
/// than four further modifiers, and more than 256 bindings.
pub proof fn law_mouse_sections_have_bounds(mouse: MouseConfig, around: SurroundingsModel)
    ensures
        ({
            let buttons = 1 <= mouse.move_button <= 5 && 1 <= mouse.resize_button <= 5;
            let distances = mouse.edge_resistance <= 256 && mouse.drag_threshold <= 256;
            let time = 100 <= mouse.double_click_ms <= 2_000;
            let counts = mouse.compatibility_modifiers@.len() <= 4 && mouse.bindings@.len() <= 256
                && mouse.disabled_bindings@.len() <= 256;
            &&& mouse.fault(around) is None ==> buttons && distances && time && counts
            &&& buttons && distances && time && counts && mouse.bindings@.len() == 0
                && mouse.disabled_bindings@.len() == 0 && !mouse.inherit_defaults ==> mouse.fault(
                around,
            ) is None
        }),
{
    let configured = input::bound_gestures(bindings::mouse_models(mouse.bindings@));
    assert(configured.len() == mouse.bindings@.len());
    assert(bindings::gestures(mouse.disabled_bindings@).len() == mouse.disabled_bindings@.len());
    assert(input::enabled_gestures(Seq::empty(), Seq::empty()).len() == 0);
    if mouse.bindings@.len() == 0 && !mouse.inherit_defaults {
        assert(mouse.effective().len() == 0);
    }
}

/// The keyboard section is within bounds exactly where a chain waits 100 to 60000 milliseconds,
/// the names for XKB are printable and at most 255 bytes long, and there are at most 256 bindings
/// in effect and as many disabled.
pub proof fn law_keyboard_sections_have_bounds(keyboard: KeyboardConfig, shortcuts: ShortcutsModel)
    ensures
        keyboard.bounds_fault(shortcuts) is None <==> 100 <= keyboard.chain_timeout_ms <= 60_000
            && text::size(keyboard.model@) <= 255 && text::printable_ascii(keyboard.model@)
            && text::size(keyboard.layout@) <= 255 && text::printable_ascii(keyboard.layout@)
            && text::size(keyboard.variant@) <= 255 && text::printable_ascii(keyboard.variant@)
            && text::size(keyboard.options@) <= 255 && text::printable_ascii(keyboard.options@)
            && keyboard.effective(shortcuts).len() <= 256 && keyboard.disabled_bindings@.len()
            <= 256,
{
}

/// A key sequence conflicts exactly with those that continue it and those that it continues, and
/// never with itself.
pub proof fn law_sequences_conflict_with_their_continuations(
    key: Seq<ChordModel>,
    more: Seq<ChordModel>,
    other: Seq<ChordModel>,
)
    requires
        more.len() > 0,
    ensures
        input::conflicting(key, key + more),
        input::conflicting(key + more, key),
        !input::conflicting(key, key),
        key.len() == other.len() ==> !input::conflicting(key, other),
        key.len() > 0 && other.len() > 0 && key[0] != other[0] ==> !input::conflicting(key, other),
{
    assert((key + more).take(key.len() as int) == key);
    if key.len() > 0 && other.len() > 0 && key[0] != other[0] {
        if key.len() < other.len() {
            assert(other.take(key.len() as int)[0] == other[0]);
        }
        if other.len() < key.len() {
            assert(key.take(other.len() as int)[0] == key[0]);
        }
    }
}

/// Chords are ordered by their first modifier: those without one, then those with control, alt,
/// shift and super. Chords with the same modifiers are ordered by their symbol.
pub proof fn law_chords_are_ordered_by_modifiers(left: ChordModel, right: ChordModel)
    ensures
        left.modifiers.len() == 0 && right.modifiers.len() > 0 ==> input::chord_precedes(
            left,
            right,
        ) && !input::chord_precedes(right, left),
        left.modifiers.len() > 0 && right.modifiers.len() > 0 ==> {
            let first = left.modifiers[0];
            let second = right.modifiers[0];
            let before = input::chord_precedes(left, right) && !input::chord_precedes(right, left);
            &&& first == KeyboardModifier::Control && second != KeyboardModifier::Control ==> before
            &&& first == KeyboardModifier::Alt && (second == KeyboardModifier::Shift || second
                == KeyboardModifier::Super) ==> before
            &&& first == KeyboardModifier::Shift && second == KeyboardModifier::Super ==> before
        },
        left.modifiers == right.modifiers ==> input::chord_precedes(left, right) == text::precedes(
            left.symbol,
            right.symbol,
        ),
{
}

/// Every modifier that may be held for a drag is listed, and none twice; the one for dragging
/// itself comes first.
pub proof fn law_modifiers_for_dragging_are_listed_once(mouse: MouseConfig)
    ensures
        mouse.drag_modifiers().no_duplicates(),
        mouse.drag_modifiers().len() > 0,
        mouse.drag_modifiers()[0] == mouse.modifier,
        mouse.drag_modifiers().to_set() == mouse.compatibility_modifiers@.to_set().insert(
            mouse.modifier,
        ),
{
    let all = seq![mouse.modifier] + mouse.compatibility_modifiers@;
    lemma_distinct_values(all);
    assert(all[0] == mouse.modifier);
    assert forall|modifier| #[trigger]
        mouse.drag_modifiers().to_set().contains(modifier) == mouse.compatibility_modifiers@.to_set(
        ).insert(mouse.modifier).contains(modifier) by {
        assert(mouse.drag_modifiers().contains(modifier) == all.contains(modifier));
        if mouse.compatibility_modifiers@.contains(modifier) {
            let i = mouse.compatibility_modifiers@.index_of(modifier);
            assert(all[i + 1] == modifier);
        }
        if all.contains(modifier) && modifier != mouse.modifier {
            let i = all.index_of(modifier);
            assert(mouse.compatibility_modifiers@[i - 1] == modifier);
        }
    }
}

/// Keeping each value once keeps every value, and the first one in front.
proof fn lemma_distinct_values<T>(values: Seq<T>)
    ensures
        input::distinct(values).no_duplicates(),
        forall|value: T| #[trigger]
            input::distinct(values).contains(value) == values.contains(value),
        values.len() > 0 ==> input::distinct(values).len() > 0 && input::distinct(values)[0]
            == values[0],
    decreases values.len(),
{
    if values.len() > 0 {
        let rest = values.drop_last();
        let before = input::distinct(rest);
        lemma_distinct_values(rest);
        assert forall|value: T| input::distinct(values).contains(value) == values.contains(
            value,
        ) by {
            if values.contains(value) && value != values.last() {
                let i = values.index_of(value);
                assert(rest[i] == value);
                assert(rest.contains(value));
                assert(before.contains(value));
                if !before.contains(values.last()) {
                    let j = before.index_of(value);
                    assert(input::distinct(values)[j] == value);
                }
            }
            if value == values.last() && !before.contains(value) {
                assert(input::distinct(values)[before.len() as int] == value);
            }
            if before.contains(value) {
                assert(rest.contains(value));
                let i = rest.index_of(value);
                assert(values[i] == value);
            }
        }
        if rest.len() == 0 {
            assert(before.len() == 0);
        }
    }
}

} // verus!
