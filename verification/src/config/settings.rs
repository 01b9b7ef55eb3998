//! Small sections of the configuration.

use vstd::prelude::*;

use crate::config::error;
use crate::config::error::{ConfigError, Fault};
use crate::config::keys;
use crate::config::keys::{ChordModel, KeyChord, KeyboardModifier};
use crate::path;
use crate::path::is_absolute;
use crate::text;
use crate::text::{byte_size, holds_char, is_blank};

verus! {

/// Maximum workspace count accepted by configuration and runtime actions.
pub const MAX_WORKSPACES: usize = 32;

/// Native Wayland helper configuration.
#[derive(Clone, Debug, PartialEq, Eq)]
pub struct WaylandConfig {
    /// Whether the compositor may start its optional XWayland compatibility server.
    pub xwayland: bool,
    /// Absolute executable and arguments for the compositor-authorized input method.
    pub input_method: Vec<String>,
}

impl WaylandConfig {
    /// Whether these are the values that nobox ships with.
    pub open spec fn is_standard(self) -> bool {
        &&& !self.xwayland
        &&& self.input_method@.len() == 0
    }
}

impl Default for WaylandConfig {
    /// No helpers.
    fn default() -> (wayland: Self)
        ensures
            wayland.is_standard(),
    {
        WaylandConfig { xwayland: false, input_method: Vec::new() }
    }
}

/// Whether one process argument is unusable.
pub open spec fn bad_argument(argument: Seq<char>) -> bool {
    argument.contains('\0') || text::size(argument) > 4_096
}

/// The bytes of all arguments together.
pub open spec fn total_size(arguments: Seq<Seq<char>>) -> nat
    decreases arguments.len(),
{
    if arguments.len() == 0 {
        0
    } else {
        total_size(arguments.drop_last()) + text::size(arguments.last())
    }
}

impl WaylandConfig {
    /// The first thing wrong with the input-method command.
    pub open spec fn fault(self) -> Option<Fault> {
        let command = text::lines_of(self.input_method@);
        if command.len() > 32 {
            Some(Fault::TooManyInputMethodArguments(command.len() as usize))
        } else if command.len() > 0 && (!path::absolute(command[0]) || bad_argument(command[0])) {
            Some(Fault::InvalidInputMethodExecutable)
        } else if (exists|i: int| 1 <= i < command.len() && bad_argument(#[trigger] command[i]))
            || total_size(command) > 16_384 {
            Some(Fault::InvalidInputMethodArguments)
        } else {
            None
        }
    }

    /// Checks the input-method command.
    ///
    /// # Errors
    ///
    /// Returns the first problem found.
    pub fn validate(&self) -> (outcome: Result<(), ConfigError>)
        ensures
            error::fault_in(outcome) == self.fault(),
    {
        let command = &self.input_method;
        let ghost texts = text::lines_of(command@);
        if command.len() > 32 {
            return Err(ConfigError::TooManyInputMethodArguments(command.len()));
        }
        if command.len() > 0 {
            assert(texts[0] == command@[0]@);
            let executable = command[0].as_str();
            if !is_absolute(executable) || is_bad_argument(executable) {
                return Err(ConfigError::InvalidInputMethodExecutable);
            }
        }
        let mut total: usize = 0;
        let mut index: usize = 0;
        assert(texts.take(0) =~= Seq::empty());
        while index < command.len()
            invariant
                index <= command.len() <= 32,
                texts == text::lines_of(command@),
                command.len() > 0 ==> !bad_argument(texts[0]),
                forall|i: int| 0 <= i < index ==> !bad_argument(#[trigger] texts[i]),
                total == total_size(texts.take(index as int)),
                total <= index * 4_096,
                self.fault() is None || self.fault() == Some(Fault::InvalidInputMethodArguments),
                self.input_method == command,
                self.fault() is Some <==> ((exists|i: int|
                    1 <= i < texts.len() && bad_argument(#[trigger] texts[i])) || total_size(texts)
                    > 16_384),
            decreases command.len() - index,
        {
            assert(texts.take(index + 1).drop_last() =~= texts.take(index as int));
            assert(texts[index as int] == command@[index as int]@);
            if is_bad_argument(command[index].as_str()) {
                return Err(ConfigError::InvalidInputMethodArguments);
            }
            total = total + byte_size(command[index].as_str());
            index = index + 1;
        }
        assert(texts.take(index as int) =~= texts);
        if total > 16_384 {
            return Err(ConfigError::InvalidInputMethodArguments);
        }
        Ok(())
    }
}

fn is_bad_argument(argument: &str) -> (r: bool)
    ensures
        r == bad_argument(argument@),
{
    holds_char(argument, '\0') || byte_size(argument) > 4_096
}

/// Shell commands behind standard launch, screenshot, and session actions.
#[derive(Clone, Debug, PartialEq, Eq)]
pub struct CommandsConfig {
    /// Preferred terminal command.
    pub terminal: String,
    /// Full-screen screenshot command.
    pub screenshot: String,
    /// Active-window screenshot command.
    pub window_screenshot: String,
    /// Optional external session/logout dialog command.
    pub session: String,
}

impl CommandsConfig {
    /// Whether these are the values that nobox ships with.
    pub open spec fn is_standard(self) -> bool {
        &&& self.terminal@ == "xterm"@
        &&& self.screenshot@ == "nobox-screenshot"@
        &&& self.window_screenshot@ == "nobox-screenshot -w"@
        &&& self.session@ == Seq::<char>::empty()
    }
}

impl Default for CommandsConfig {
    /// The commands that nobox ships with.
    fn default() -> (commands: Self)
        ensures
            commands.is_standard(),
    {
        CommandsConfig {
            terminal: "xterm".to_owned(),
            screenshot: "nobox-screenshot".to_owned(),
            window_screenshot: "nobox-screenshot -w".to_owned(),
            session: String::new(),
        }
    }
}

/// Whether a shell command is too long, holds NUL, or is blank where it must not be.
pub open spec fn bad_command(command: Seq<char>, required: bool) -> bool {
    ||| required && text::blank(command)
    ||| command.contains('\0')
    ||| text::size(command) > 16_384
}

pub(crate) fn is_bad_command(command: &str, required: bool) -> (r: bool)
    ensures
        r == bad_command(command@, required),
{
    (required && is_blank(command)) || holds_char(command, '\0') || byte_size(command) > 16_384
}

impl CommandsConfig {
    /// The first thing wrong with the commands.
    pub open spec fn fault(self) -> Option<Fault> {
        if bad_command(self.terminal@, true) {
            Some(Fault::InvalidConfiguredCommand("terminal"))
        } else if bad_command(self.screenshot@, true) {
            Some(Fault::InvalidConfiguredCommand("screenshot"))
        } else if bad_command(self.window_screenshot@, true) {
            Some(Fault::InvalidConfiguredCommand("window_screenshot"))
        } else if bad_command(self.session@, false) {
            Some(Fault::InvalidConfiguredCommand("session"))
        } else {
            None
        }
    }

    /// Checks the commands.
    ///
    /// # Errors
    ///
    /// Returns the first problem found.
    pub fn validate(&self) -> (outcome: Result<(), ConfigError>)
        ensures
            error::fault_in(outcome) == self.fault(),
    {
        if is_bad_command(self.terminal.as_str(), true) {
            return Err(ConfigError::InvalidConfiguredCommand("terminal"));
        }
        if is_bad_command(self.screenshot.as_str(), true) {
            return Err(ConfigError::InvalidConfiguredCommand("screenshot"));
        }
        if is_bad_command(self.window_screenshot.as_str(), true) {
            return Err(ConfigError::InvalidConfiguredCommand("window_screenshot"));
        }
        if is_bad_command(self.session.as_str(), false) {
            return Err(ConfigError::InvalidConfiguredCommand("session"));
        }
        Ok(())
    }
}

/// Editable shortcuts for the common command-backed actions.
#[derive(Clone, Debug, PartialEq, Eq)]
pub struct ShortcutsConfig {
    /// Additional traditional shortcut for the configured terminal.
    pub terminal: KeyChord,
    /// Shortcut for a full-screen screenshot.
    pub screenshot: KeyChord,
    /// Shortcut for an active-window screenshot.
    pub window_screenshot: KeyChord,
}

/// A chord of the given modifiers and symbol.
pub open spec fn chord(modifiers: Seq<KeyboardModifier>, symbol: Seq<char>) -> ChordModel {
    ChordModel { modifiers: keys::canonical(modifiers), symbol }
}

/// Which chords the shortcuts are.
pub ghost struct ShortcutsModel {
    pub terminal: ChordModel,
    pub screenshot: ChordModel,
    pub window_screenshot: ChordModel,
}

impl ShortcutsModel {
    /// The shortcuts that nobox ships with.
    pub open spec fn standard() -> ShortcutsModel {
        ShortcutsModel {
            terminal: chord(seq![KeyboardModifier::Control, KeyboardModifier::Alt], "t"@),
            screenshot: chord(Seq::empty(), "Print"@),
            window_screenshot: chord(seq![KeyboardModifier::Alt], "Print"@),
        }
    }
}

impl View for ShortcutsConfig {
    type V = ShortcutsModel;

    open spec fn view(&self) -> ShortcutsModel {
        ShortcutsModel {
            terminal: self.terminal@,
            screenshot: self.screenshot@,
            window_screenshot: self.window_screenshot@,
        }
    }
}

impl Default for ShortcutsConfig {
    /// The shortcuts that nobox ships with.
    fn default() -> (shortcuts: Self)
        ensures
            shortcuts@ == ShortcutsModel::standard(),
    {
        let terminal = [KeyboardModifier::Control, KeyboardModifier::Alt];
        let window = [KeyboardModifier::Alt];
        assert(terminal@ =~= seq![KeyboardModifier::Control, KeyboardModifier::Alt]);
        assert(window@ =~= seq![KeyboardModifier::Alt]);
        ShortcutsConfig {
            terminal: KeyChord::new(terminal.as_slice(), "t"),
            screenshot: KeyChord::new(Vec::new().as_slice(), "Print"),
            window_screenshot: KeyChord::new(window.as_slice(), "Print"),
        }
    }
}

/// Smart initial-placement behavior.
#[derive(Clone, Copy, Debug, PartialEq, Eq, Structural)]
pub struct PlacementConfig {
    /// Center windows within the first completely free grid field.
    pub center_free_space: bool,
}

impl Default for PlacementConfig {
    /// Windows are centered.
    fn default() -> (placement: Self)
        ensures
            placement.center_free_space,
    {
        PlacementConfig { center_free_space: true }
    }
}

/// Focus behavior.
#[derive(Clone, Copy, Debug, PartialEq, Eq, Structural)]
pub struct FocusConfig {
    /// Focus newly mapped windows.
    pub focus_new: bool,
    /// Focus a client when the pointer enters it.
    pub follow_mouse: bool,
    /// Reject stale application focus requests while preserving user requests.
    pub prevent_focus_stealing: bool,
    /// Raise a window whenever nobox focuses it.
    pub raise_on_focus: bool,
}

impl Default for FocusConfig {
    /// Click to focus.
    fn default() -> (focus: Self)
        ensures
            focus == (FocusConfig {
                focus_new: true,
                follow_mouse: false,
                prevent_focus_stealing: true,
                raise_on_focus: true,
            }),
    {
        FocusConfig {
            focus_new: true,
            follow_mouse: false,
            prevent_focus_stealing: true,
            raise_on_focus: true,
        }
    }
}

/// Lightweight on-screen focus-cycle list.
#[derive(Clone, Copy, Debug, PartialEq, Eq, Structural)]
pub struct SwitcherConfig {
    /// Show the list while a modifier-held focus cycle is active.
    pub enabled: bool,
    /// Preferred width in pixels, clamped to the selected output.
    pub width: u32,
    /// Height of each title row in pixels.
    pub row_height: u32,
    /// Maximum visible rows before the list follows the selection.
    pub max_rows: u32,
}

impl Default for SwitcherConfig {
    /// A list of eight rows.
    fn default() -> (switcher: Self)
        ensures
            switcher == (SwitcherConfig { enabled: true, width: 420, row_height: 28, max_rows: 8 }),
    {
        SwitcherConfig { enabled: true, width: 420, row_height: 28, max_rows: 8 }
    }
}

impl SwitcherConfig {
    /// The first thing wrong with the list.
    pub open spec fn fault(self) -> Option<Fault> {
        if !(160 <= self.width <= 1_024) {
            Some(Fault::InvalidSwitcherWidth(self.width))
        } else if !(16 <= self.row_height <= 64) {
            Some(Fault::InvalidSwitcherRowHeight(self.row_height))
        } else if !(1 <= self.max_rows <= 32) {
            Some(Fault::InvalidSwitcherRows(self.max_rows))
        } else {
            None
        }
    }

    /// Checks the list's bounds.
    ///
    /// # Errors
    ///
    /// Returns the first problem found.
    pub fn validate(&self) -> (outcome: Result<(), ConfigError>)
        ensures
            error::fault_in(outcome) == self.fault(),
    {
        if self.width < 160 || self.width > 1_024 {
            return Err(ConfigError::InvalidSwitcherWidth(self.width));
        }
        if self.row_height < 16 || self.row_height > 64 {
            return Err(ConfigError::InvalidSwitcherRowHeight(self.row_height));
        }
        if self.max_rows < 1 || self.max_rows > 32 {
            return Err(ConfigError::InvalidSwitcherRows(self.max_rows));
        }
        Ok(())
    }
}

/// Named policy workspaces.
#[derive(Clone, Debug, PartialEq, Eq)]
pub struct WorkspaceConfig {
    /// Ordered names; the number of names is the workspace count.
    pub names: Vec<String>,
    /// Grid columns; zero derives a single row from the workspace count.
    pub columns: u32,
    /// Wrap directional navigation at grid edges.
    pub wrap: bool,
    /// One-based workspace selected on a new session.
    pub initial: u32,
}

impl WorkspaceConfig {
    /// Whether these are the values that nobox ships with.
    pub open spec fn is_standard(self) -> bool {
        &&& text::lines_of(self.names@) == seq!["1"@, "2"@, "3"@, "4"@]
        &&& self.columns == 0
        &&& self.wrap
        &&& self.initial == 1
    }
}

impl Default for WorkspaceConfig {
    /// Four workspaces in one row.
    fn default() -> (workspaces: Self)
        ensures
            workspaces.is_standard(),
    {
        let names = vec!["1".to_owned(), "2".to_owned(), "3".to_owned(), "4".to_owned()];
        assert(text::lines_of(names@) =~= seq!["1"@, "2"@, "3"@, "4"@]);
        WorkspaceConfig { names, columns: 0, wrap: true, initial: 1 }
    }
}

/// The check of one workspace name: it is visible and free of NUL.
pub open spec fn name_check(names: Seq<Seq<char>>) -> spec_fn(int) -> Option<Fault> {
    |i: int|
        error::fault_when(
            text::blank(names[i]) || names[i].contains('\0'),
            Fault::InvalidWorkspaceName((i + 1) as usize),
        )
}

impl WorkspaceConfig {
    /// The first thing wrong with the workspace count and what depends on it.
    pub open spec fn count_fault(self) -> Option<Fault> {
        let count = self.names@.len();
        if count == 0 {
            Some(Fault::NoWorkspaces)
        } else if count > MAX_WORKSPACES {
            Some(Fault::TooManyWorkspaces(count as usize))
        } else if self.columns > count {
            Some(Fault::TooManyWorkspaceColumns { columns: self.columns, count: count as usize })
        } else if self.initial == 0 || self.initial > count {
            Some(
                Fault::InvalidInitialWorkspace { workspace: self.initial, count: count as usize },
            )
        } else {
            None
        }
    }

    /// The first invalid workspace name.
    pub open spec fn name_fault(self) -> Option<Fault> {
        error::first_fault(self.names@.len(), name_check(text::lines_of(self.names@)))
    }

    /// Checks the workspace count and what depends on it.
    ///
    /// # Errors
    ///
    /// Returns the first problem found.
    pub fn validate_count(&self) -> (outcome: Result<(), ConfigError>)
        ensures
            error::fault_in(outcome) == self.count_fault(),
    {
        let count = self.names.len();
        if count == 0 {
            return Err(ConfigError::NoWorkspaces);
        }
        if count > MAX_WORKSPACES {
            return Err(ConfigError::TooManyWorkspaces(count));
        }
        if self.columns as u64 > count as u64 {
            return Err(ConfigError::TooManyWorkspaceColumns { columns: self.columns, count });
        }
        if self.initial == 0 || self.initial as u64 > count as u64 {
            return Err(ConfigError::InvalidInitialWorkspace { workspace: self.initial, count });
        }
        Ok(())
    }

    /// Checks the workspace names.
    ///
    /// # Errors
    ///
    /// Returns the first problem found.
    pub fn validate_names(&self) -> (outcome: Result<(), ConfigError>)
        ensures
            error::fault_in(outcome) == self.name_fault(),
    {
        let ghost names = text::lines_of(self.names@);
        let ghost check = name_check(names);
        let mut index: usize = 0;
        while index < self.names.len()
            invariant
                index <= self.names.len(),
                names == text::lines_of(self.names@),
                check == name_check(names),
                error::first_fault(index as nat, check) is None,
            decreases self.names.len() - index,
        {
            let name = self.names[index].as_str();
            assert(names[index as int] == name@);
            if is_blank(name) || holds_char(name, '\0') {
                proof {
                    assert(check(index as int) is Some);
                    error::lemma_first_fault((index + 1) as nat, self.names@.len(), check);
                }
                return Err(ConfigError::InvalidWorkspaceName(index + 1));
            }
            assert(check(index as int) is None);
            index = index + 1;
        }
        Ok(())
    }
}

/// User-reserved screen edges independent of panels and display protocols.
#[derive(Clone, Copy, Debug, PartialEq, Eq, Structural)]
pub struct MarginConfig {
    /// Reserved pixels at the top edge.
    pub top: u32,
    /// Reserved pixels at the right edge.
    pub right: u32,
    /// Reserved pixels at the bottom edge.
    pub bottom: u32,
    /// Reserved pixels at the left edge.
    pub left: u32,
}

impl Default for MarginConfig {
    /// Nothing is reserved.
    fn default() -> (margins: Self)
        ensures
            margins == (MarginConfig { top: 0, right: 0, bottom: 0, left: 0 }),
    {
        MarginConfig { top: 0, right: 0, bottom: 0, left: 0 }
    }
}

impl MarginConfig {
    /// The first margin that is too large.
    pub open spec fn fault(self) -> Option<Fault> {
        if self.top > 16_384 {
            Some(Fault::MarginTooLarge { edge: "top", pixels: self.top })
        } else if self.right > 16_384 {
            Some(Fault::MarginTooLarge { edge: "right", pixels: self.right })
        } else if self.bottom > 16_384 {
            Some(Fault::MarginTooLarge { edge: "bottom", pixels: self.bottom })
        } else if self.left > 16_384 {
            Some(Fault::MarginTooLarge { edge: "left", pixels: self.left })
        } else {
            None
        }
    }

    /// Checks the margins' bounds.
    ///
    /// # Errors
    ///
    /// Returns the first problem found.
    pub fn validate(&self) -> (outcome: Result<(), ConfigError>)
        ensures
            error::fault_in(outcome) == self.fault(),
    {
        if self.top > 16_384 {
            return Err(ConfigError::MarginTooLarge { edge: "top", pixels: self.top });
        }
        if self.right > 16_384 {
            return Err(ConfigError::MarginTooLarge { edge: "right", pixels: self.right });
        }
        if self.bottom > 16_384 {
            return Err(ConfigError::MarginTooLarge { edge: "bottom", pixels: self.bottom });
        }
        if self.left > 16_384 {
            return Err(ConfigError::MarginTooLarge { edge: "left", pixels: self.left });
        }
        Ok(())
    }
}

} // verus!
