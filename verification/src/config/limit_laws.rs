//! Laws of accepted settings: what is within bounds, and what is refused as what.

use vstd::prelude::*;

use crate::capability::Capability;
use crate::config::agent;
use crate::config::agent::{AgentConfig, AgentGrant, AgentLaunchConfig, LaunchPolicy};
use crate::config::display;
use crate::config::display::{OutputConfig, OutputModeConfig, OutputsConfig};
use crate::config::error;
use crate::config::error::Fault;
use crate::config::panel;
use crate::config::panel::PanelConfig;
use crate::config::settings;
use crate::config::settings::{
    CommandsConfig, MarginConfig, SwitcherConfig, WaylandConfig, WorkspaceConfig,
};
use crate::config::theme::ThemeModel;
use crate::path;
use crate::text;

verus! {

/// A theme is accepted exactly where its border and its padding are at most 64 pixels wide, its
/// titlebar is at most 128 high, and its font is visible printable text of at most 255 bytes; what
/// is out of bounds is told in that order, the padding last.
pub proof fn law_themes_have_bounds(theme: ThemeModel)
    ensures
        ({
            let font = !text::blank(theme.font) && text::size(theme.font) <= 255
                && text::printable_ascii(theme.font);
            &&& theme.fault() is None <==> theme.border_width <= 64 && theme.titlebar_height <= 128
                && theme.title_padding <= 64 && font
            &&& theme.border_width > 64 ==> theme.fault() == Some(
                Fault::BorderTooWide(theme.border_width),
            )
            &&& theme.border_width <= 64 && theme.titlebar_height > 128 ==> theme.fault() == Some(
                Fault::TitlebarTooTall(theme.titlebar_height),
            )
            &&& theme.border_width <= 64 && theme.titlebar_height <= 128 && !font ==> theme.fault()
                == Some(Fault::InvalidThemeFont)
            &&& theme.border_width <= 64 && theme.titlebar_height <= 128 && font
                && theme.title_padding > 64 ==> theme.fault() == Some(
                Fault::TitlePaddingTooWide(theme.title_padding),
            )
        }),
{
}

/// A switcher is accepted exactly where it is 160 to 1024 pixels wide, its rows are 16 to 64 high,
/// and there are 1 to 32 of them.
pub proof fn law_switchers_have_bounds(switcher: SwitcherConfig)
    ensures
        switcher.fault() is None <==> 160 <= switcher.width <= 1024 && 16 <= switcher.row_height
            <= 64 && 1 <= switcher.max_rows <= 32,
        switcher.width < 160 || switcher.width > 1024 ==> switcher.fault() == Some(
            Fault::InvalidSwitcherWidth(switcher.width),
        ),
        160 <= switcher.width <= 1024 && (switcher.row_height < 16 || switcher.row_height > 64)
            ==> switcher.fault() == Some(Fault::InvalidSwitcherRowHeight(switcher.row_height)),
        160 <= switcher.width <= 1024 && 16 <= switcher.row_height <= 64 && (switcher.max_rows < 1
            || switcher.max_rows > 32) ==> switcher.fault() == Some(
            Fault::InvalidSwitcherRows(switcher.max_rows),
        ),
{
}

/// Margins are accepted exactly where none is above 16384 pixels, and one that is told by its edge.
pub proof fn law_margins_have_bounds(margins: MarginConfig)
    ensures
        margins.fault() is None <==> margins.top <= 16_384 && margins.right <= 16_384
            && margins.bottom <= 16_384 && margins.left <= 16_384,
        margins.top > 16_384 ==> margins.fault() == Some(
            Fault::MarginTooLarge { edge: "top", pixels: margins.top },
        ),
        margins.top <= 16_384 && margins.right > 16_384 ==> margins.fault() == Some(
            Fault::MarginTooLarge { edge: "right", pixels: margins.right },
        ),
        margins.top <= 16_384 && margins.right <= 16_384 && margins.bottom > 16_384
            ==> margins.fault() == Some(
            Fault::MarginTooLarge { edge: "bottom", pixels: margins.bottom },
        ),
        margins.top <= 16_384 && margins.right <= 16_384 && margins.bottom <= 16_384 && margins.left
            > 16_384 ==> margins.fault() == Some(
            Fault::MarginTooLarge { edge: "left", pixels: margins.left },
        ),
{
}

/// There are 1 to 32 workspaces in at most as many columns as there are of them, and the first one
/// shown is one of them, counted from one.
pub proof fn law_workspaces_have_bounds(workspaces: WorkspaceConfig)
    ensures
        ({
            let count = workspaces.names@.len();
            &&& workspaces.count_fault() is None <==> 1 <= count <= 32 && workspaces.columns
                <= count && 1 <= workspaces.initial <= count
            &&& count == 0 ==> workspaces.count_fault() == Some(Fault::NoWorkspaces)
            &&& count > 32 ==> workspaces.count_fault() == Some(
                Fault::TooManyWorkspaces(count as usize),
            )
            &&& 1 <= count <= 32 && workspaces.columns > count ==> workspaces.count_fault() == Some(
                Fault::TooManyWorkspaceColumns {
                    columns: workspaces.columns,
                    count: count as usize,
                },
            )
        }),
{
}

/// Where every check passes there is no first fault.
proof fn lemma_all_checks_pass(count: nat, check: spec_fn(int) -> Option<Fault>)
    requires
        forall|i: int| 0 <= i < count ==> (#[trigger] check(i)) is None,
    ensures
        error::first_fault(count, check) is None,
    decreases count,
{
    if count > 0 {
        lemma_all_checks_pass((count - 1) as nat, check);
        assert(check(count - 1) is None);
    }
}

/// The first check that fails tells the fault.
proof fn lemma_first_check_fails(count: nat, check: spec_fn(int) -> Option<Fault>, at: int)
    requires
        0 <= at < count,
        check(at) is Some,
        forall|i: int| 0 <= i < at ==> (#[trigger] check(i)) is None,
    ensures
        error::first_fault(count, check) == check(at),
{
    lemma_all_checks_pass(at as nat, check);
    assert(error::first_fault((at + 1) as nat, check) == check(at));
    error::lemma_first_fault((at + 1) as nat, count, check);
}

/// The names of workspaces are accepted exactly where each can be seen and none holds a NUL.
pub proof fn law_workspace_names_can_be_seen(workspaces: WorkspaceConfig)
    ensures
        ({
            let names = text::lines_of(workspaces.names@);
            workspaces.name_fault() is None <==> forall|i: int|
                0 <= i < names.len() ==> !text::blank(#[trigger] names[i]) && !names[i].contains(
                    '\0',
                )
        }),
{
    let names = text::lines_of(workspaces.names@);
    let check = settings::name_check(names);
    if workspaces.name_fault() is None {
        assert forall|i: int| 0 <= i < names.len() implies !text::blank(#[trigger] names[i])
            && !names[i].contains('\0') by {
            error::lemma_checks_passed(names.len(), check, i);
            assert(check(i) is None);
        }
    }
    if forall|i: int|
        0 <= i < names.len() ==> !text::blank(#[trigger] names[i]) && !names[i].contains('\0') {
        assert forall|i: int| 0 <= i < names.len() implies (#[trigger] check(i)) is None by {
            assert(!text::blank(names[i]));
        }
        lemma_all_checks_pass(names.len(), check);
    }
}

/// Of workspace names that cannot be used the first one is told, counted from one.
pub proof fn law_the_first_unusable_name_is_told(workspaces: WorkspaceConfig, at: int)
    requires
        0 <= at < workspaces.names@.len(),
        text::blank(workspaces.names@[at]@) || workspaces.names@[at]@.contains('\0'),
        forall|i: int|
            0 <= i < at ==> !text::blank((#[trigger] workspaces.names@[i])@)
                && !workspaces.names@[i]@.contains('\0'),
    ensures
        workspaces.name_fault() == Some(Fault::InvalidWorkspaceName((at + 1) as usize)),
{
    let names = text::lines_of(workspaces.names@);
    let check = settings::name_check(names);
    assert(names[at] == workspaces.names@[at]@);
    assert forall|i: int| 0 <= i < at implies (#[trigger] check(i)) is None by {
        assert(names[i] == workspaces.names@[i]@);
    }
    lemma_first_check_fails(names.len(), check, at);
}

/// The commands are accepted exactly where none holds a NUL or more than 16384 bytes and all but
/// that of the session can be seen.
pub proof fn law_commands_have_bounds(commands: CommandsConfig)
    ensures
        commands.fault() is None <==> !text::blank(commands.terminal@) && !text::blank(
            commands.screenshot@,
        ) && !text::blank(commands.window_screenshot@) && !commands.terminal@.contains('\0')
            && !commands.screenshot@.contains('\0') && !commands.window_screenshot@.contains('\0')
            && !commands.session@.contains('\0') && text::size(commands.terminal@) <= 16_384
            && text::size(commands.screenshot@) <= 16_384 && text::size(commands.window_screenshot@)
            <= 16_384 && text::size(commands.session@) <= 16_384,
{
}

/// The command of an input method is accepted exactly where it has at most 32 parts, each without
/// a NUL and of at most 4096 bytes, which take at most 16384 bytes together, and the first is the
/// full path of a program.
pub proof fn law_input_methods_have_bounds(wayland: WaylandConfig)
    ensures
        ({
            let command = text::lines_of(wayland.input_method@);
            wayland.fault() is None <==> {
                &&& command.len() <= 32
                &&& command.len() > 0 ==> path::absolute(command[0])
                &&& forall|i: int|
                    0 <= i < command.len() ==> !(#[trigger] command[i]).contains('\0')
                        && text::size(command[i]) <= 4_096
                &&& settings::total_size(command) <= 16_384
            }
        }),
{
    let command = text::lines_of(wayland.input_method@);
    if wayland.fault() is None {
        assert forall|i: int| 0 <= i < command.len() implies !(#[trigger] command[i]).contains('\0')
            && text::size(command[i]) <= 4_096 by {
            assert(!settings::bad_argument(command[i]));
        }
    }
}

/// A panel is accepted exactly where it is 20 to 96 pixels high, its padding is at most 48 and its
/// spacing at most 32 wide, a task is 80 to 512 wide at most, it has 1 to 16 components and up to
/// 32 launchers, none twice, every launcher names an entry, and the format of the clock is one line
/// of up to 128 bytes that is understood.
pub proof fn law_panels_have_bounds(panel: PanelConfig, malformed: bool)
    ensures
        ({
            let launchers = text::lines_of(panel.launchers@);
            let clock = panel.clock_format@;
            &&& panel.fault(malformed) is None ==> {
                &&& 20 <= panel.height <= 96
                &&& panel.padding <= 48
                &&& panel.spacing <= 32
                &&& 80 <= panel.task_max_width <= 512
                &&& 1 <= panel.items@.len() <= 16
                &&& launchers.len() <= 32
                &&& 0 < clock.len() && text::size(clock) <= 128 && !clock.contains('\0')
                    && !clock.contains('\n') && !clock.contains('\r') && !malformed
            }
            &&& 20 <= panel.height <= 96 && panel.padding <= 48 && panel.spacing <= 32 && 80
                <= panel.task_max_width <= 512 && 1 <= panel.items@.len() <= 16
                && panel.items@.no_duplicates() && 0 < clock.len() && text::size(clock) <= 128
                && !clock.contains('\0') && !clock.contains('\n') && !clock.contains('\r')
                && !malformed && launchers.len() <= 32 && launchers.no_duplicates() && (forall|
                i: int,
            |
                0 <= i < launchers.len() ==> agent::entry_id(#[trigger] launchers[i]))
                ==> panel.fault(malformed) is None
            &&& panel.height < 20 || panel.height > 96 ==> panel.fault(malformed) == Some(
                Fault::InvalidPanelHeight(panel.height),
            )
            &&& 20 <= panel.height <= 96 && panel.padding > 48 ==> panel.fault(malformed) == Some(
                Fault::InvalidPanelPadding(panel.padding),
            )
            &&& 20 <= panel.height <= 96 && panel.padding <= 48 && panel.spacing > 32
                ==> panel.fault(malformed) == Some(Fault::InvalidPanelSpacing(panel.spacing))
        }),
{
    let items = panel.items@;
    let launchers = text::lines_of(panel.launchers@);
    let item_check = panel::item_check(items);
    let launcher_check = panel::launcher_check(launchers);
    if items.no_duplicates() {
        assert forall|i: int| 0 <= i < items.len() implies (#[trigger] item_check(i)) is None by {
            if items.take(i).contains(items[i]) {
                let k = choose|k: int| 0 <= k < items.take(i).len() && items.take(i)[k] == items[i];
                assert(items[k] == items[i]);
            }
        }
        lemma_all_checks_pass(items.len(), item_check);
    }
    if launchers.no_duplicates() && forall|i: int|
        0 <= i < launchers.len() ==> agent::entry_id(#[trigger] launchers[i]) {
        assert forall|i: int| 0 <= i < launchers.len() implies (#[trigger] launcher_check(i))
            is None by {
            assert(agent::entry_id(launchers[i]));
            let before = launchers.take(i);
            if before.contains(launchers[i]) {
                let k = choose|k: int| 0 <= k < before.len() && before[k] == launchers[i];
                assert(launchers[k] == launchers[i]);
            }
        }
        lemma_all_checks_pass(launchers.len(), launcher_check);
    }
}

/// The identifier of a desktop entry is not empty, has at most 256 bytes, and is no path.
pub proof fn law_entries_are_named_not_pointed_at(entry: Seq<char>)
    ensures
        agent::entry_id(entry) <==> entry.len() > 0 && text::size(entry) <= 256 && !entry.contains(
            '/',
        ) && !entry.contains('\0'),
{
}

/// Rules for outputs are accepted exactly where there are at most 32, each is named by letters,
/// digits, hyphens, underscores, and dots, up to 64 bytes, no name comes up twice, at most one is
/// primary and that one is enabled, and no position is beyond a million.
pub proof fn law_output_rules_have_bounds(outputs: OutputsConfig)
    requires
        outputs.entries@.len() <= 32,
        forall|i: int|
            0 <= i < outputs.entries@.len() ==> {
                let output = #[trigger] outputs.entries@[i];
                &&& 0 < output.name@.len() && text::size(output.name@) <= 64
                &&& forall|k: int|
                    0 <= k < output.name@.len() ==> text::letter(#[trigger] output.name@[k])
                        || text::digit(output.name@[k]) || output.name@[k] == '-' || output.name@[k]
                        == '_' || output.name@[k] == '.'
                &&& output.primary ==> output.enabled
                &&& output.position matches Some(position) ==> -1_000_000 <= position.x
                    <= 1_000_000 && -1_000_000 <= position.y <= 1_000_000
            },
        forall|i: int, j: int|
            0 <= i < j < outputs.entries@.len() ==> (#[trigger] outputs.entries@[i]).name@ != (
            #[trigger] outputs.entries@[j]).name@ && !(outputs.entries@[i].primary
                && outputs.entries@[j].primary),
    ensures
        outputs.fault() is None,
{
    let entries = outputs.entries@;
    let check = display::output_check(entries);
    assert forall|i: int| 0 <= i < entries.len() implies (#[trigger] check(i)) is None by {
        let output = entries[i];
        let before = entries.take(i);
        let names = display::output_names(before);
        assert(display::connector_name(output.name@));
        if names.contains(output.name@) {
            let k = choose|k: int| 0 <= k < names.len() && names[k] == output.name@;
            assert(entries[k].name@ == output.name@);
        }
        if output.primary && display::first_primary(before) is Some {
            let k = lemma_primary_position(before);
            assert(before[k] == entries[k]);
        }
    }
    lemma_all_checks_pass(entries.len(), check);
}

/// The position of a primary rule.
proof fn lemma_primary_position(entries: Seq<OutputConfig>) -> (at: int)
    requires
        display::first_primary(entries) is Some,
    ensures
        0 <= at < entries.len(),
        entries[at].primary,
    decreases entries.len(),
{
    if display::first_primary(entries.drop_last()) is Some {
        let at = lemma_primary_position(entries.drop_last());
        assert(entries.drop_last()[at] == entries[at]);
        at
    } else {
        entries.len() - 1
    }
}

/// A rule for an output that is out of bounds is refused: more than 32, an unusable name, a
/// disabled primary one, and a position beyond a million.
pub proof fn law_unusable_output_rules_are_refused(outputs: OutputsConfig, i: int)
    requires
        0 <= i < outputs.entries@.len(),
        ({
            let output = outputs.entries@[i];
            ||| outputs.entries@.len() > 32
            ||| output.name@.len() == 0
            ||| text::size(output.name@) > 64
            ||| output.name@.contains(' ')
            ||| output.name@.contains('/')
            ||| output.primary && !output.enabled
            ||| output.position matches Some(position) && (position.x < -1_000_000 || position.x
                > 1_000_000 || position.y < -1_000_000 || position.y > 1_000_000)
        }),
    ensures
        outputs.fault() is Some,
{
    let entries = outputs.entries@;
    let check = display::output_check(entries);
    if outputs.fault() is None {
        error::lemma_checks_passed(entries.len(), check, i);
        assert(check(i) is None);
        let name = entries[i].name@;
        assert(display::connector_name(name));
        if name.contains(' ') {
            let k = choose|k: int| 0 <= k < name.len() && name[k] == ' ';
            assert(display::connector_char(name[k]));
        }
        if name.contains('/') {
            let k = choose|k: int| 0 <= k < name.len() && name[k] == '/';
            assert(display::connector_char(name[k]));
        }
    }
}

/// A mode is spelled as its width and its height with an `x` between them, each from 1 to 16384.
pub proof fn law_modes_are_spelled(width: Seq<char>, height: Seq<char>)
    requires
        text::unsigned(width) is Some,
        text::unsigned(height) is Some,
        !width.contains('@'),
        !height.contains('@'),
        !width.contains('x'),
    ensures
        ({
            let across = text::unsigned(width)->Some_0;
            let down = text::unsigned(height)->Some_0;
            let spelled = width + seq!['x'] + height;
            &&& 1 <= across <= 16_384 && 1 <= down <= 16_384 ==> display::mode_of(spelled, None)
                == Some(
                OutputModeConfig { width: across, height: down, refresh_millihz: None },
            )
            &&& across == 0 || across > 16_384 || down == 0 || down > 16_384 ==> display::mode_of(
                spelled,
                None,
            ) is None
        }),
{
    let spelled = width + seq!['x'] + height;
    text::lemma_position(spelled, '@');
    text::lemma_position(spelled, 'x');
    assert(!spelled.contains('@')) by {
        assert forall|i: int| 0 <= i < spelled.len() implies spelled[i] != '@' by {
            if i < width.len() {
                assert(width.contains(width[i]));
            } else if i > width.len() {
                assert(spelled[i] == height[i - width.len() - 1]);
                assert(height.contains(height[i - width.len() - 1]));
            }
        }
    }
    assert(spelled[width.len() as int] == 'x');
    assert(text::position(spelled, 'x') == Some(width.len() as int)) by {
        let found = text::position(spelled, 'x');
        if found is None {
            assert(spelled.contains('x'));
        }
        let at = found->Some_0;
        if at < width.len() {
            assert(width[at] == 'x');
        }
        if at > width.len() {
            assert(spelled.take(at)[width.len() as int] == 'x');
        }
    }
    assert(spelled.take(width.len() as int) =~= width);
    assert(spelled.skip(width.len() as int + 1) =~= height);
}

/// A companion may launch nothing under a policy that denies, only what is listed under one that
/// allows the listed, and everything but what is listed as denied under one that allows what is
/// installed; what a user installed only where that is allowed too.
pub proof fn law_launching_follows_the_policy(
    launch: AgentLaunchConfig,
    entry: Seq<char>,
    user_installed: bool,
)
    ensures
        launch.policy == LaunchPolicy::Deny ==> !launch.permits(entry, user_installed),
        user_installed && !launch.user_entries ==> !launch.permits(entry, user_installed),
        launch.policy == LaunchPolicy::AllowListed && !text::lines_of(launch.allow@).contains(entry)
            ==> !launch.permits(entry, user_installed),
        launch.policy == LaunchPolicy::AllowInstalled && text::lines_of(launch.deny@).contains(
            entry,
        ) ==> !launch.permits(entry, user_installed),
        launch.policy == LaunchPolicy::AllowListed && text::lines_of(launch.allow@).contains(entry)
            && (!user_installed || launch.user_entries) ==> launch.permits(entry, user_installed),
        launch.policy == LaunchPolicy::AllowInstalled && !text::lines_of(launch.deny@).contains(
            entry,
        ) && (!user_installed || launch.user_entries) ==> launch.permits(entry, user_installed),
{
}

/// A peer holds what the first grant for its program and user gives, and nothing without such a
/// grant. A grant without a user is for every user; without a known program there is none.
pub proof fn law_the_first_grant_decides(
    agent: AgentConfig,
    executable: Option<Seq<char>>,
    uid: u32,
    at: int,
)
    ensures
        0 <= at < agent.grants@.len() && agent.grants@[at].applies(executable, uid) && (forall|
            earlier: int,
        |
            0 <= earlier < at ==> !(#[trigger] agent.grants@[earlier]).applies(executable, uid))
            ==> agent.held(executable, uid)
                == agent::granted_atoms(agent.grants@[at].capabilities@),
        (forall|i: int|
            0 <= i < agent.grants@.len() ==> !(#[trigger] agent.grants@[i]).applies(
                executable,
                uid,
            )) ==> agent.held(executable, uid) == Set::<Capability>::empty(),
        0 <= at < agent.grants@.len() && (agent.grants@[at].uid matches Some(user) && user != uid)
            ==> !agent.grants@[at].applies(executable, uid),
        0 <= at < agent.grants@.len() && executable is None ==> !agent.grants@[at].applies(
            executable,
            uid,
        ),
        0 <= at < agent.grants@.len() && (executable matches Some(program) && path::same_path(
            program,
            agent.grants@[at].executable@,
        )) && (agent.grants@[at].uid is None || agent.grants@[at].uid == Some(uid))
            ==> agent.grants@[at].applies(executable, uid),
{
    let grants = agent.grants@;
    if 0 <= at < grants.len() && grants[at].applies(executable, uid) && (forall|earlier: int|
        0 <= earlier < at ==> !(#[trigger] grants[earlier]).applies(executable, uid)) {
        lemma_first_grant(grants, executable, uid, at);
    }
    if forall|i: int|
        0 <= i < grants.len() ==> !(#[trigger] grants[i]).applies(executable, uid) {
        lemma_no_grant(grants, executable, uid);
    }
}

proof fn lemma_no_grant(grants: Seq<AgentGrant>, executable: Option<Seq<char>>, uid: u32)
    requires
        forall|i: int|
            0 <= i < grants.len() ==> !(#[trigger] grants[i]).applies(executable, uid),
    ensures
        agent::grant_position(grants, executable, uid) is None,
    decreases grants.len(),
{
    if grants.len() > 0 {
        let shorter = grants.drop_last();
        assert forall|i: int| 0 <= i < shorter.len() implies !(#[trigger] shorter[i]).applies(
            executable,
            uid,
        ) by {
            assert(shorter[i] == grants[i]);
        }
        lemma_no_grant(shorter, executable, uid);
        assert(!grants[grants.len() - 1].applies(executable, uid));
    }
}

proof fn lemma_first_grant(
    grants: Seq<AgentGrant>,
    executable: Option<Seq<char>>,
    uid: u32,
    at: int,
)
    requires
        0 <= at < grants.len(),
        grants[at].applies(executable, uid),
        forall|earlier: int|
            0 <= earlier < at ==> !(#[trigger] grants[earlier]).applies(executable, uid),
    ensures
        agent::grant_position(grants, executable, uid) == Some(at),
    decreases grants.len(),
{
    let shorter = grants.drop_last();
    if at < shorter.len() {
        assert(shorter[at] == grants[at]);
        assert forall|earlier: int| 0 <= earlier < at implies !(
        #[trigger] shorter[earlier]).applies(executable, uid) by {
            assert(shorter[earlier] == grants[earlier]);
        }
        lemma_first_grant(shorter, executable, uid, at);
    } else {
        assert forall|i: int| 0 <= i < shorter.len() implies !(#[trigger] shorter[i]).applies(
            executable,
            uid,
        ) by {
            assert(shorter[i] == grants[i]);
        }
        lemma_no_grant(shorter, executable, uid);
    }
}

/// The section for companions is refused where its socket is no full path or longer than 107
/// bytes, where human input would hold agents off for more than a minute, where there are more
/// than 64 grants, and where one of them is for no full path, gives nothing, or has an empty scope.
pub proof fn law_companion_sections_have_bounds(agent: AgentConfig, i: int)
    ensures
        agent.fault() is None ==> {
            &&& agent.socket@.len() == 0 || path::absolute(agent.socket@)
            &&& text::size(agent.socket@) <= 107
            &&& agent.suppression_ms <= 60_000
            &&& agent.grants@.len() <= 64
            &&& agent.launch.allow@.len() <= 256
            &&& agent.launch.deny@.len() <= 256
            &&& 0 <= i < agent.grants@.len() ==> {
                &&& path::absolute(agent.grants@[i].executable@)
                &&& agent.grants@[i].capabilities@.len() > 0
                &&& agent.grants@[i].scope matches Some(scope) ==> !scope.unset()
                    && !scope.has_empty_pattern()
            }
        },
        agent.socket@.len() > 0 && !path::absolute(agent.socket@) ==> agent.fault() == Some(
            Fault::AgentSocketNotAbsolute(agent.socket@),
        ),
        (agent.socket@.len() == 0 || path::absolute(agent.socket@)) && text::size(agent.socket@)
            <= 107 && agent.suppression_ms > 60_000 ==> agent.fault() == Some(
            Fault::InvalidSuppressionWindow(agent.suppression_ms),
        ),
{
    if agent.fault() is None && 0 <= i < agent.grants@.len() {
        let check = agent::grant_check(agent.grants@);
        error::lemma_checks_passed(agent.grants@.len(), check, i);
        assert(check(i) is None);
    }
}

} // verus!
