//! Why configurations are refused.

use vstd::prelude::*;

use crate::config::panel::PanelItem;

verus! {

/// Why a configuration was refused.
///
/// `T` is how text is held: `String` in values that run, `Seq<char>` in the model.
#[derive(Debug)]
pub enum ConfigError<T = String> {
    /// The operating environment has no configuration home.
    NoConfigHome,
    /// Neither the XDG state base nor a home-directory fallback is available.
    NoStateHome,
    /// TOML could not be decoded.
    Toml(T),
    /// The privileged input-method command must identify one exact executable.
    InvalidInputMethodExecutable,
    /// Keep inherited process arguments bounded and free of NUL bytes.
    InvalidInputMethodArguments,
    /// Bound the process argument vector before launch.
    TooManyInputMethodArguments(usize),
    /// Keep the switcher readable without allowing oversized X11 requests.
    InvalidSwitcherWidth(u32),
    /// Keep rows readable and bound popup geometry.
    InvalidSwitcherRowHeight(u32),
    /// Bound rendering work and popup height.
    InvalidSwitcherRows(u32),
    /// Keep menus readable without allowing oversized backend requests.
    InvalidMenuWidth(u32),
    /// Keep menu rows readable and bounded.
    InvalidMenuRowHeight(u32),
    /// Bound menu rendering work and popup height.
    InvalidMenuRows(u32),
    /// Bound how long command-backed menu creation may wait.
    InvalidMenuCommandTimeout(u32),
    /// Keep the optional panel usable and bound its reserved screen edge.
    InvalidPanelHeight(u32),
    /// Bound empty edge space and keep useful room for components.
    InvalidPanelPadding(u32),
    /// Bound gaps so configured components cannot trivially exhaust the panel.
    InvalidPanelSpacing(u32),
    /// Keep task buttons useful while bounding label rendering.
    InvalidPanelTaskWidth(u32),
    /// Require a small, useful ordered component list.
    InvalidPanelItems(usize),
    /// A component can occupy at most one position in the panel.
    DuplicatePanelItem(PanelItem),
    /// Keep clock formatting bounded and single-line.
    InvalidPanelClockFormat,
    /// Bound application discovery and launcher rendering work.
    TooManyPanelLaunchers(usize),
    /// Launcher references must be safe desktop-entry identifiers.
    InvalidPanelLauncher(T),
    /// Each application may appear only once in the launcher list.
    DuplicatePanelLauncher(T),
    /// Bound the number of persistent menu definitions.
    TooManyMenus(usize),
    /// A menu identifier is empty, too long, or not portable.
    InvalidMenuId(usize),
    /// Menu identifiers are stable lookup keys and must be unique.
    DuplicateMenuId(T),
    /// A menu title must contain bounded displayable text.
    InvalidMenuTitle(T),
    /// Command menus require one bounded non-empty shell command.
    InvalidMenuCommand(T),
    /// Only command-backed menus may configure a shell command.
    UnexpectedMenuCommand(T),
    /// Bound generated data before TOML parsing and menu allocation.
    CommandMenuOutputTooLarge(usize),
    /// Empty menus provide no useful interaction target.
    EmptyMenu(T),
    /// A separator-only menu cannot be navigated or activated.
    MenuHasNoSelectableEntry(T),
    /// Dynamic menu sources own their complete runtime entry list.
    DynamicMenuHasEntries(T),
    /// Bound one menu's rendering and traversal work.
    TooManyMenuEntries {
        /// Menu identifier.
        menu: T,
        /// Configured entry count.
        count: usize,
    },
    /// Item and separator text must be bounded and displayable.
    InvalidMenuLabel {
        /// Menu identifier.
        menu: T,
        /// One-based entry position.
        entry: usize,
    },
    /// Bound the ordered work triggered by one selection.
    TooManyMenuEntryActions {
        /// Menu identifier.
        menu: T,
        /// One-based entry position.
        entry: usize,
        /// Configured action count.
        count: usize,
    },
    /// Named menu references must resolve at validation time.
    UnknownMenu {
        /// Binding or menu entry that contains the reference.
        context: T,
        /// Missing menu identifier.
        menu: T,
    },
    /// Submenu graphs must terminate.
    CyclicMenu(T),
    /// Move and resize cannot use the same button.
    SameMouseButton(u8),
    /// X11 only has five conventional pointer buttons for these bindings.
    InvalidMouseButton(u8),
    /// Prevent a large resistance zone from making pointer operations unusable.
    EdgeResistanceTooStrong(u32),
    /// Keep gesture recognition responsive and arithmetic bounded.
    DragThresholdTooLarge(u32),
    /// Double-click recognition must remain useful and bounded.
    InvalidDoubleClickTime(u32),
    /// Keep passive grabs and gesture lookup bounded.
    TooManyMouseBindings(usize),
    /// Bound compatibility aliases before compiling passive grabs.
    TooManyMouseCompatibilityModifiers(usize),
    /// Keep ordered dispatch bounded for one pointer event.
    TooManyMouseBindingActions {
        /// Canonical context, chord, and trigger.
        binding: T,
        /// Configured action count.
        count: usize,
    },
    /// One gesture identity must have one unambiguous ordered action list.
    DuplicateMouseBinding(T),
    /// Keep inherited pointer-binding omissions bounded.
    TooManyDisabledMouseBindings(usize),
    /// One inherited pointer binding only needs to be omitted once.
    DuplicateDisabledMouseBinding(T),
    /// Key-chain timeouts must be responsive without permitting overflow-prone values.
    InvalidChainTimeout(u32),
    /// XKB names must remain bounded, printable strings safe to pass to xkbcommon.
    InvalidKeyboardXkbField(&'static str),
    /// Keep passive grabs and the compiled input tree bounded.
    TooManyKeyBindings(usize),
    /// Keep inherited-binding omissions bounded.
    TooManyDisabledKeyBindings(usize),
    /// Keep key-chain state and keycode expansion bounded.
    KeySequenceTooLong {
        /// Canonical sequence.
        key: T,
        /// Configured chord count.
        length: usize,
    },
    /// Keep ordered dispatch bounded for one input event.
    TooManyBindingActions {
        /// Canonical sequence.
        key: T,
        /// Configured action count.
        count: usize,
    },
    /// Prevent accidental unusable decoration.
    BorderTooWide(u32),
    /// Prevent accidental unusable titlebars.
    TitlebarTooTall(u32),
    /// Keep the X11 font request bounded and portable.
    InvalidThemeFont,
    /// Prevent title padding from consuming an entire normal titlebar.
    TitlePaddingTooWide(u32),
    /// At least one workspace must remain available.
    NoWorkspaces,
    /// Keep the policy state and EWMH properties at a practical size.
    TooManyWorkspaces(usize),
    /// A configured grid cannot have more columns than workspaces.
    TooManyWorkspaceColumns {
        /// Invalid column count.
        columns: u32,
        /// Configured workspace count.
        count: usize,
    },
    /// Workspace names must be visible and EWMH-safe.
    InvalidWorkspaceName(usize),
    /// The same key sequence appeared more than once.
    DuplicateKeyBinding(T),
    /// The same inherited key binding was disabled more than once.
    DuplicateDisabledKeyBinding(T),
    /// A complete binding cannot also be the prefix of another binding.
    ConflictingKeyBinding {
        /// Complete sequence that is also a prefix.
        first: T,
        /// Conflicting sequence.
        second: T,
    },
    /// The chain quit chord must remain unambiguous while a sequence is active.
    ConflictingChainQuitKey {
        /// Configured chain-cancellation chord.
        key: T,
        /// Sequence containing that chord after its prefix.
        binding: T,
    },
    /// Execute actions must contain one bounded, NUL-free command.
    InvalidCommand(T),
    /// Standard semantic actions require bounded shell commands.
    InvalidConfiguredCommand(&'static str),
    /// Execute confirmation text must fit the native prompt.
    InvalidExecutePrompt(T),
    /// Startup notification fields must be bounded displayable text.
    InvalidStartupNotification(T),
    /// Restart replacement commands must contain a command when specified.
    EmptyRestartCommand(T),
    /// Debug messages must be visible, bounded text.
    InvalidDebugMessage(T),
    /// Conditional action trees must contain at least one explicit query.
    EmptyActionQueries(T),
    /// Conditional matcher patterns cannot be empty.
    EmptyActionQueryPattern {
        /// Binding or menu location containing the invalid query.
        context: T,
        /// Query field containing the empty pattern.
        field: &'static str,
    },
    /// Conditional workspace predicates must reference configured workspaces.
    InvalidActionQueryWorkspace {
        /// Binding or menu location containing the invalid query.
        context: T,
        /// Invalid one-based workspace number.
        workspace: u32,
        /// Configured workspace count.
        count: usize,
    },
    /// Recursive action trees are bounded to keep parsing and dispatch safe.
    ActionNestingTooDeep {
        /// Binding or menu location containing the invalid tree.
        context: T,
        /// Observed zero-based nesting depth.
        depth: usize,
    },
    /// Recursive action trees have a strict total action limit.
    ActionTreeTooLarge(T),
    /// A binding references a workspace outside the configured set.
    InvalidWorkspaceBinding {
        /// Canonical key chord.
        key: T,
        /// Invalid one-based workspace number.
        workspace: u32,
        /// Configured workspace count.
        count: usize,
    },
    /// Rules without a matcher would unintentionally affect every client.
    EmptyApplicationMatcher(usize),
    /// Empty patterns are ambiguous and almost always accidental.
    EmptyApplicationPattern(usize),
    /// A size block without dimensions cannot change client geometry.
    EmptyApplicationSize(usize),
    /// An application rule references a workspace outside the configured set.
    InvalidApplicationWorkspace {
        /// One-based rule position.
        rule: usize,
        /// Invalid one-based workspace.
        workspace: u32,
        /// Configured workspace count.
        count: usize,
    },
    /// A socket path must be absolute for the manager to publish it.
    AgentSocketNotAbsolute(T),
    /// UNIX socket paths are bounded by the platform, not by nobox.
    AgentSocketTooLong {
        /// Configured path length.
        length: usize,
        /// Platform maximum.
        limit: usize,
    },
    /// Keep the human-suppression window usable.
    InvalidSuppressionWindow(u32),
    /// Bound the work a configuration reload performs.
    TooManyAgentGrants(usize),
    /// A grant binds to a verified executable, so it must name a real one.
    AgentGrantExecutable(usize),
    /// A grant that confers nothing is a configuration mistake, not a denial.
    AgentGrantWithoutCapabilities(usize),
    /// An empty scope would silently widen a grant to every client.
    EmptyAgentGrantScope(usize),
    /// Bound launch-policy list sizes.
    TooManyLaunchEntries(usize),
    /// Launch policy names catalog identifiers, never paths.
    InvalidLaunchEntry(T),
    /// The initial workspace must exist in the configured set.
    InvalidInitialWorkspace {
        /// Invalid one-based workspace number.
        workspace: u32,
        /// Configured workspace count.
        count: usize,
    },
    /// Bound reserved edges before they reach backend geometry.
    MarginTooLarge {
        /// Margin edge name.
        edge: &'static str,
        /// Invalid pixel count.
        pixels: u32,
    },
    /// Bound persistent connector rules and topology work.
    TooManyOutputs(usize),
    /// Connector names must be bounded portable lookup keys.
    InvalidOutputName(usize),
    /// One connector can have only one persistent rule.
    DuplicateOutputName(T),
    /// Primary selection is unambiguous.
    MultiplePrimaryOutputs {
        /// First one-based primary rule.
        first: usize,
        /// Conflicting one-based primary rule.
        second: usize,
    },
    /// A disabled connector cannot be the preferred primary.
    DisabledPrimaryOutput(T),
    /// Logical positions are bounded before backend arithmetic.
    OutputPositionOutOfRange(T),
}

/// The model of an error.
pub type Fault = ConfigError<Seq<char>>;

impl View for ConfigError<String> {
    type V = Fault;

    open spec fn view(&self) -> Fault {
        match *self {
            ConfigError::NoConfigHome => ConfigError::NoConfigHome,
            ConfigError::NoStateHome => ConfigError::NoStateHome,
            ConfigError::Toml(value) => ConfigError::Toml(value@),
            ConfigError::InvalidInputMethodExecutable => ConfigError::InvalidInputMethodExecutable,
            ConfigError::InvalidInputMethodArguments => ConfigError::InvalidInputMethodArguments,
            ConfigError::TooManyInputMethodArguments(value) => {
                ConfigError::TooManyInputMethodArguments(value)
            },
            ConfigError::InvalidSwitcherWidth(value) => ConfigError::InvalidSwitcherWidth(value),
            ConfigError::InvalidSwitcherRowHeight(value) => {
                ConfigError::InvalidSwitcherRowHeight(value)
            },
            ConfigError::InvalidSwitcherRows(value) => ConfigError::InvalidSwitcherRows(value),
            ConfigError::InvalidMenuWidth(value) => ConfigError::InvalidMenuWidth(value),
            ConfigError::InvalidMenuRowHeight(value) => ConfigError::InvalidMenuRowHeight(value),
            ConfigError::InvalidMenuRows(value) => ConfigError::InvalidMenuRows(value),
            ConfigError::InvalidMenuCommandTimeout(value) => {
                ConfigError::InvalidMenuCommandTimeout(value)
            },
            ConfigError::InvalidPanelHeight(value) => ConfigError::InvalidPanelHeight(value),
            ConfigError::InvalidPanelPadding(value) => ConfigError::InvalidPanelPadding(value),
            ConfigError::InvalidPanelSpacing(value) => ConfigError::InvalidPanelSpacing(value),
            ConfigError::InvalidPanelTaskWidth(value) => ConfigError::InvalidPanelTaskWidth(value),
            ConfigError::InvalidPanelItems(value) => ConfigError::InvalidPanelItems(value),
            ConfigError::DuplicatePanelItem(value) => ConfigError::DuplicatePanelItem(value),
            ConfigError::InvalidPanelClockFormat => ConfigError::InvalidPanelClockFormat,
            ConfigError::TooManyPanelLaunchers(value) => ConfigError::TooManyPanelLaunchers(value),
            ConfigError::InvalidPanelLauncher(value) => ConfigError::InvalidPanelLauncher(value@),
            ConfigError::DuplicatePanelLauncher(value) => {
                ConfigError::DuplicatePanelLauncher(value@)
            },
            ConfigError::TooManyMenus(value) => ConfigError::TooManyMenus(value),
            ConfigError::InvalidMenuId(value) => ConfigError::InvalidMenuId(value),
            ConfigError::DuplicateMenuId(value) => ConfigError::DuplicateMenuId(value@),
            ConfigError::InvalidMenuTitle(value) => ConfigError::InvalidMenuTitle(value@),
            ConfigError::InvalidMenuCommand(value) => ConfigError::InvalidMenuCommand(value@),
            ConfigError::UnexpectedMenuCommand(value) => ConfigError::UnexpectedMenuCommand(value@),
            ConfigError::CommandMenuOutputTooLarge(value) => {
                ConfigError::CommandMenuOutputTooLarge(value)
            },
            ConfigError::EmptyMenu(value) => ConfigError::EmptyMenu(value@),
            ConfigError::MenuHasNoSelectableEntry(value) => {
                ConfigError::MenuHasNoSelectableEntry(value@)
            },
            ConfigError::DynamicMenuHasEntries(value) => ConfigError::DynamicMenuHasEntries(value@),
            ConfigError::TooManyMenuEntries { menu, count } => ConfigError::TooManyMenuEntries {
                menu: menu@,
                count,
            },
            ConfigError::InvalidMenuLabel { menu, entry } => ConfigError::InvalidMenuLabel {
                menu: menu@,
                entry,
            },
            ConfigError::TooManyMenuEntryActions { menu, entry, count } => ConfigError::TooManyMenuEntryActions {
                menu: menu@,
                entry,
                count,
            },
            ConfigError::UnknownMenu { context, menu } => ConfigError::UnknownMenu {
                context: context@,
                menu: menu@,
            },
            ConfigError::CyclicMenu(value) => ConfigError::CyclicMenu(value@),
            ConfigError::SameMouseButton(value) => ConfigError::SameMouseButton(value),
            ConfigError::InvalidMouseButton(value) => ConfigError::InvalidMouseButton(value),
            ConfigError::EdgeResistanceTooStrong(value) => {
                ConfigError::EdgeResistanceTooStrong(value)
            },
            ConfigError::DragThresholdTooLarge(value) => ConfigError::DragThresholdTooLarge(value),
            ConfigError::InvalidDoubleClickTime(value) => {
                ConfigError::InvalidDoubleClickTime(value)
            },
            ConfigError::TooManyMouseBindings(value) => ConfigError::TooManyMouseBindings(value),
            ConfigError::TooManyMouseCompatibilityModifiers(value) => {
                ConfigError::TooManyMouseCompatibilityModifiers(value)
            },
            ConfigError::TooManyMouseBindingActions { binding, count } => ConfigError::TooManyMouseBindingActions {
                binding: binding@,
                count,
            },
            ConfigError::DuplicateMouseBinding(value) => ConfigError::DuplicateMouseBinding(value@),
            ConfigError::TooManyDisabledMouseBindings(value) => {
                ConfigError::TooManyDisabledMouseBindings(value)
            },
            ConfigError::DuplicateDisabledMouseBinding(value) => {
                ConfigError::DuplicateDisabledMouseBinding(value@)
            },
            ConfigError::InvalidChainTimeout(value) => ConfigError::InvalidChainTimeout(value),
            ConfigError::InvalidKeyboardXkbField(value) => {
                ConfigError::InvalidKeyboardXkbField(value)
            },
            ConfigError::TooManyKeyBindings(value) => ConfigError::TooManyKeyBindings(value),
            ConfigError::TooManyDisabledKeyBindings(value) => {
                ConfigError::TooManyDisabledKeyBindings(value)
            },
            ConfigError::KeySequenceTooLong { key, length } => ConfigError::KeySequenceTooLong {
                key: key@,
                length,
            },
            ConfigError::TooManyBindingActions { key, count } => ConfigError::TooManyBindingActions {
                key: key@,
                count,
            },
            ConfigError::BorderTooWide(value) => ConfigError::BorderTooWide(value),
            ConfigError::TitlebarTooTall(value) => ConfigError::TitlebarTooTall(value),
            ConfigError::InvalidThemeFont => ConfigError::InvalidThemeFont,
            ConfigError::TitlePaddingTooWide(value) => ConfigError::TitlePaddingTooWide(value),
            ConfigError::NoWorkspaces => ConfigError::NoWorkspaces,
            ConfigError::TooManyWorkspaces(value) => ConfigError::TooManyWorkspaces(value),
            ConfigError::TooManyWorkspaceColumns { columns, count } => ConfigError::TooManyWorkspaceColumns {
                columns,
                count,
            },
            ConfigError::InvalidWorkspaceName(value) => ConfigError::InvalidWorkspaceName(value),
            ConfigError::DuplicateKeyBinding(value) => ConfigError::DuplicateKeyBinding(value@),
            ConfigError::DuplicateDisabledKeyBinding(value) => {
                ConfigError::DuplicateDisabledKeyBinding(value@)
            },
            ConfigError::ConflictingKeyBinding { first, second } => ConfigError::ConflictingKeyBinding {
                first: first@,
                second: second@,
            },
            ConfigError::ConflictingChainQuitKey { key, binding } => ConfigError::ConflictingChainQuitKey {
                key: key@,
                binding: binding@,
            },
            ConfigError::InvalidCommand(value) => ConfigError::InvalidCommand(value@),
            ConfigError::InvalidConfiguredCommand(value) => {
                ConfigError::InvalidConfiguredCommand(value)
            },
            ConfigError::InvalidExecutePrompt(value) => ConfigError::InvalidExecutePrompt(value@),
            ConfigError::InvalidStartupNotification(value) => {
                ConfigError::InvalidStartupNotification(value@)
            },
            ConfigError::EmptyRestartCommand(value) => ConfigError::EmptyRestartCommand(value@),
            ConfigError::InvalidDebugMessage(value) => ConfigError::InvalidDebugMessage(value@),
            ConfigError::EmptyActionQueries(value) => ConfigError::EmptyActionQueries(value@),
            ConfigError::EmptyActionQueryPattern { context, field } => ConfigError::EmptyActionQueryPattern {
                context: context@,
                field,
            },
            ConfigError::InvalidActionQueryWorkspace { context, workspace, count } => ConfigError::InvalidActionQueryWorkspace {
                context: context@,
                workspace,
                count,
            },
            ConfigError::ActionNestingTooDeep { context, depth } => ConfigError::ActionNestingTooDeep {
                context: context@,
                depth,
            },
            ConfigError::ActionTreeTooLarge(value) => ConfigError::ActionTreeTooLarge(value@),
            ConfigError::InvalidWorkspaceBinding { key, workspace, count } => ConfigError::InvalidWorkspaceBinding {
                key: key@,
                workspace,
                count,
            },
            ConfigError::EmptyApplicationMatcher(value) => {
                ConfigError::EmptyApplicationMatcher(value)
            },
            ConfigError::EmptyApplicationPattern(value) => {
                ConfigError::EmptyApplicationPattern(value)
            },
            ConfigError::EmptyApplicationSize(value) => ConfigError::EmptyApplicationSize(value),
            ConfigError::InvalidApplicationWorkspace { rule, workspace, count } => ConfigError::InvalidApplicationWorkspace {
                rule,
                workspace,
                count,
            },
            ConfigError::AgentSocketNotAbsolute(value) => {
                ConfigError::AgentSocketNotAbsolute(value@)
            },
            ConfigError::AgentSocketTooLong { length, limit } => ConfigError::AgentSocketTooLong {
                length,
                limit,
            },
            ConfigError::InvalidSuppressionWindow(value) => {
                ConfigError::InvalidSuppressionWindow(value)
            },
            ConfigError::TooManyAgentGrants(value) => ConfigError::TooManyAgentGrants(value),
            ConfigError::AgentGrantExecutable(value) => ConfigError::AgentGrantExecutable(value),
            ConfigError::AgentGrantWithoutCapabilities(value) => {
                ConfigError::AgentGrantWithoutCapabilities(value)
            },
            ConfigError::EmptyAgentGrantScope(value) => ConfigError::EmptyAgentGrantScope(value),
            ConfigError::TooManyLaunchEntries(value) => ConfigError::TooManyLaunchEntries(value),
            ConfigError::InvalidLaunchEntry(value) => ConfigError::InvalidLaunchEntry(value@),
            ConfigError::InvalidInitialWorkspace { workspace, count } => ConfigError::InvalidInitialWorkspace {
                workspace,
                count,
            },
            ConfigError::MarginTooLarge { edge, pixels } => ConfigError::MarginTooLarge {
                edge,
                pixels,
            },
            ConfigError::TooManyOutputs(value) => ConfigError::TooManyOutputs(value),
            ConfigError::InvalidOutputName(value) => ConfigError::InvalidOutputName(value),
            ConfigError::DuplicateOutputName(value) => ConfigError::DuplicateOutputName(value@),
            ConfigError::MultiplePrimaryOutputs { first, second } => ConfigError::MultiplePrimaryOutputs {
                first,
                second,
            },
            ConfigError::DisabledPrimaryOutput(value) => ConfigError::DisabledPrimaryOutput(value@),
            ConfigError::OutputPositionOutOfRange(value) => {
                ConfigError::OutputPositionOutOfRange(value@)
            },
        }
    }
}

/// The fault that an outcome reports, if it reports one.
pub open spec fn fault_in(outcome: Result<(), ConfigError>) -> Option<Fault> {
    match outcome {
        Ok(_) => None,
        Err(error) => Some(error@),
    }
}

/// The first of two faults.
pub open spec fn first(earlier: Option<Fault>, later: Option<Fault>) -> Option<Fault> {
    if earlier is Some {
        earlier
    } else {
        later
    }
}

/// A fault that comes up under a condition.
pub open spec fn fault_when(condition: bool, fault: Fault) -> Option<Fault> {
    if condition {
        Some(fault)
    } else {
        None
    }
}

/// The first fault among numbered checks.
pub open spec fn first_fault(count: nat, check: spec_fn(int) -> Option<Fault>) -> Option<Fault>
    decreases count,
{
    if count == 0 {
        None
    } else {
        first(first_fault((count - 1) as nat, check), check(count - 1))
    }
}

/// A fault found among fewer checks is the first one among more.
pub proof fn lemma_first_fault(fewer: nat, count: nat, check: spec_fn(int) -> Option<Fault>)
    requires
        fewer <= count,
        first_fault(fewer, check) is Some,
    ensures
        first_fault(count, check) == first_fault(fewer, check),
    decreases count - fewer,
{
    if fewer < count {
        lemma_first_fault(fewer, (count - 1) as nat, check);
    }
}

/// Where there is no first fault, every check passed.
pub proof fn lemma_checks_passed(count: nat, check: spec_fn(int) -> Option<Fault>, i: int)
    requires
        first_fault(count, check) is None,
        0 <= i < count,
    ensures
        check(i) is None,
    decreases count,
{
    if i < count - 1 {
        lemma_checks_passed((count - 1) as nat, check, i);
    }
}

} // verus!
