//! The optional panel.

use vstd::prelude::*;

use crate::config::agent;
use crate::config::agent::is_desktop_entry_id;
use crate::config::color::RgbColor;
use crate::config::error;
use crate::config::error::{ConfigError, Fault};
use crate::text;
use crate::text::{byte_size, holds_char, same};

verus! {

/// Maximum number of application launchers shown by the panel.
pub const MAX_PANEL_LAUNCHERS: usize = 32;

/// Maximum number of ordered components in the panel layout.
pub const MAX_PANEL_ITEMS: usize = 16;

/// Screen edge used by the optional panel.
#[derive(Clone, Copy, Debug, PartialEq, Eq, Structural)]
pub enum PanelPosition {
    /// Place the panel along the top screen edge.
    Top,
    /// Place the panel along the bottom screen edge.
    Bottom,
}

impl Default for PanelPosition {
    /// The bottom edge.
    fn default() -> (position: Self)
        ensures
            position == PanelPosition::Bottom,
    {
        PanelPosition::Bottom
    }
}

/// One component in the panel's left-to-right layout.
#[derive(Clone, Copy, Debug, PartialEq, Eq, PartialOrd, Ord, Structural)]
pub enum PanelItem {
    /// Buttons for configured desktop-entry launchers.
    Launchers,
    /// Buttons for switching workspaces.
    Workspaces,
    /// Buttons for managed application windows.
    Tasks,
    /// Flexible space that pushes later components to the trailing edge.
    Spacer,
    /// Local time formatted with [`PanelConfig::clock_format`].
    Clock,
}

impl PanelItem {
    /// The configuration spelling.
    pub open spec fn name(self) -> Seq<char> {
        match self {
            PanelItem::Launchers => "launchers"@,
            PanelItem::Workspaces => "workspaces"@,
            PanelItem::Tasks => "tasks"@,
            PanelItem::Spacer => "spacer"@,
            PanelItem::Clock => "clock"@,
        }
    }

    /// Stable TOML spelling used by Settings and documentation.
    #[must_use]
    pub fn as_str(self) -> (name: &'static str)
        ensures
            name@ == self.name(),
    {
        match self {
            PanelItem::Launchers => "launchers",
            PanelItem::Workspaces => "workspaces",
            PanelItem::Tasks => "tasks",
            PanelItem::Spacer => "spacer",
            PanelItem::Clock => "clock",
        }
    }
}

/// Which managed windows the panel task list shows.
#[derive(Clone, Copy, Debug, PartialEq, Eq, Structural)]
pub enum PanelTaskScope {
    /// Only windows on the active workspace, plus sticky windows.
    CurrentWorkspace,
    /// Windows from every workspace.
    AllWorkspaces,
}

impl Default for PanelTaskScope {
    /// The active workspace.
    fn default() -> (scope: Self)
        ensures
            scope == PanelTaskScope::CurrentWorkspace,
    {
        PanelTaskScope::CurrentWorkspace
    }
}

/// Configuration for the separate optional panel process.
#[derive(Clone, Debug, PartialEq, Eq)]
pub struct PanelConfig {
    /// Start the panel with the nobox session.
    pub enabled: bool,
    /// Screen edge occupied by the panel.
    pub position: PanelPosition,
    /// Panel height in pixels.
    pub height: u32,
    /// Panel background color.
    pub background: RgbColor,
    /// Text color used by every panel component.
    pub foreground: RgbColor,
    /// Background for the active workspace and task.
    pub active_background: RgbColor,
    /// Background for applications requesting attention.
    pub urgent_background: RgbColor,
    /// Outer panel padding in pixels.
    pub padding: u32,
    /// Gap between adjacent panel components in pixels.
    pub spacing: u32,
    /// Maximum width of one task button in pixels.
    pub task_max_width: u32,
    /// Which workspaces contribute task buttons.
    pub task_scope: PanelTaskScope,
    /// Left-to-right component order; `spacer` consumes remaining room.
    pub items: Vec<PanelItem>,
    /// Ordered desktop-entry identifiers shown as launchers.
    pub launchers: Vec<String>,
    /// `strftime`-style local clock format.
    pub clock_format: String,
    /// Show buttons for switching workspaces.
    pub show_workspaces: bool,
    /// Show buttons for windows on the current workspace.
    pub show_tasks: bool,
    /// Show the local time at the trailing edge.
    pub show_clock: bool,
}

impl PanelConfig {
    /// Whether these are the values that nobox ships with.
    pub open spec fn is_standard(self) -> bool {
        &&& !self.enabled
        &&& self.position == PanelPosition::Bottom
        &&& self.height == 30
        &&& self.background.packed() == 0x1f2228
        &&& self.foreground.packed() == 0xf2f2f2
        &&& self.active_background.packed() == 0x4c78a8
        &&& self.urgent_background.packed() == 0xb84242
        &&& self.padding == 4
        &&& self.spacing == 4
        &&& self.task_max_width == 220
        &&& self.task_scope == PanelTaskScope::CurrentWorkspace
        &&& self.items@ == seq![
            PanelItem::Launchers,
            PanelItem::Workspaces,
            PanelItem::Tasks,
            PanelItem::Spacer,
            PanelItem::Clock,
        ]
        &&& self.launchers@.len() == 0
        &&& self.clock_format@ == "%H:%M"@
        &&& self.show_workspaces
        &&& self.show_tasks
        &&& self.show_clock
    }
}

impl Default for PanelConfig {
    /// A disabled panel with every component.
    fn default() -> (panel: Self)
        ensures
            panel.is_standard(),
    {
        let items = vec![
            PanelItem::Launchers,
            PanelItem::Workspaces,
            PanelItem::Tasks,
            PanelItem::Spacer,
            PanelItem::Clock,
        ];
        assert(items@ =~= seq![
            PanelItem::Launchers,
            PanelItem::Workspaces,
            PanelItem::Tasks,
            PanelItem::Spacer,
            PanelItem::Clock,
        ]);
        PanelConfig {
            enabled: false,
            position: PanelPosition::Bottom,
            height: 30,
            background: RgbColor::new(0x1f, 0x22, 0x28),
            foreground: RgbColor::new(0xf2, 0xf2, 0xf2),
            active_background: RgbColor::new(0x4c, 0x78, 0xa8),
            urgent_background: RgbColor::new(0xb8, 0x42, 0x42),
            padding: 4,
            spacing: 4,
            task_max_width: 220,
            task_scope: PanelTaskScope::CurrentWorkspace,
            items,
            launchers: Vec::new(),
            clock_format: "%H:%M".to_owned(),
            show_workspaces: true,
            show_tasks: true,
            show_clock: true,
        }
    }
}

/// Whether a clock format holds a specifier that `chrono` does not know.
pub uninterp spec fn malformed_clock(format: Seq<char>) -> bool;

/// `chrono::format::StrftimeItems::parse` refuses a format with an invalid or unknown
/// specifier. Which specifiers it knows is left to `chrono`; text without a percent sign holds
/// none.
#[verifier::external_body]
pub(crate) fn is_malformed_clock(format: &str) -> (r: bool)
    ensures
        r == malformed_clock(format@),
        !format@.contains('%') ==> !r,
{
    chrono::format::StrftimeItems::new(format).parse().is_err()
}

/// The check of one component: it comes up only once.
pub open spec fn item_check(items: Seq<PanelItem>) -> spec_fn(int) -> Option<Fault> {
    |i: int| error::fault_when(
        items.take(i).contains(items[i]),
        Fault::DuplicatePanelItem(items[i]),
    )
}

/// The check of one launcher: it names a desktop entry, and comes up only once.
pub open spec fn launcher_check(launchers: Seq<Seq<char>>) -> spec_fn(int) -> Option<Fault> {
    |i: int|
        error::first(
            error::fault_when(
                !agent::entry_id(launchers[i]),
                Fault::InvalidPanelLauncher(launchers[i]),
            ),
            error::fault_when(
                launchers.take(i).contains(launchers[i]),
                Fault::DuplicatePanelLauncher(launchers[i]),
            ),
        )
}

/// Whether a clock format is unusable, given whether it holds an unknown specifier.
pub open spec fn bad_clock(format: Seq<char>, malformed: bool) -> bool {
    ||| format.len() == 0
    ||| text::size(format) > 128
    ||| format.contains('\0')
    ||| format.contains('\n')
    ||| format.contains('\r')
    ||| malformed
}

impl PanelConfig {
    /// The first thing wrong with the panel, given whether its clock format holds an unknown
    /// specifier.
    pub open spec fn fault(self, malformed: bool) -> Option<Fault> {
        let launchers = text::lines_of(self.launchers@);
        if !(20 <= self.height <= 96) {
            Some(Fault::InvalidPanelHeight(self.height))
        } else if self.padding > 48 {
            Some(Fault::InvalidPanelPadding(self.padding))
        } else if self.spacing > 32 {
            Some(Fault::InvalidPanelSpacing(self.spacing))
        } else if !(80 <= self.task_max_width <= 512) {
            Some(Fault::InvalidPanelTaskWidth(self.task_max_width))
        } else if self.items@.len() == 0 || self.items@.len() > MAX_PANEL_ITEMS {
            Some(Fault::InvalidPanelItems(self.items@.len() as usize))
        } else if error::first_fault(self.items@.len(), item_check(self.items@)) is Some {
            error::first_fault(self.items@.len(), item_check(self.items@))
        } else if bad_clock(self.clock_format@, malformed) {
            Some(Fault::InvalidPanelClockFormat)
        } else if launchers.len() > MAX_PANEL_LAUNCHERS {
            Some(Fault::TooManyPanelLaunchers(launchers.len() as usize))
        } else {
            error::first_fault(launchers.len(), launcher_check(launchers))
        }
    }

    fn validate_items(&self) -> (outcome: Result<(), ConfigError>)
        ensures
            error::fault_in(outcome) == error::first_fault(
                self.items@.len(),
                item_check(self.items@),
            ),
    {
        let ghost check = item_check(self.items@);
        let mut index: usize = 0;
        while index < self.items.len()
            invariant
                index <= self.items.len(),
                check == item_check(self.items@),
                error::first_fault(index as nat, check) is None,
            decreases self.items.len() - index,
        {
            let item = self.items[index];
            let mut earlier: usize = 0;
            while earlier < index
                invariant
                    earlier <= index < self.items.len(),
                    item == self.items@[index as int],
                    check == item_check(self.items@),
                    error::first_fault(index as nat, check) is None,
                    forall|i: int| 0 <= i < earlier ==> self.items@[i] != item,
                decreases index - earlier,
            {
                if self.items[earlier] == item {
                    proof {
                        assert(self.items@.take(index as int)[earlier as int] == item);
                        assert(check(index as int) is Some);
                        error::lemma_first_fault((index + 1) as nat, self.items@.len(), check);
                    }
                    return Err(ConfigError::DuplicatePanelItem(item));
                }
                earlier = earlier + 1;
            }
            assert(check(index as int) is None);
            index = index + 1;
        }
        Ok(())
    }

    fn validate_launchers(&self) -> (outcome: Result<(), ConfigError>)
        ensures
            error::fault_in(outcome) == error::first_fault(
                self.launchers@.len(),
                launcher_check(text::lines_of(self.launchers@)),
            ),
    {
        let ghost launchers = text::lines_of(self.launchers@);
        let ghost check = launcher_check(launchers);
        let mut index: usize = 0;
        while index < self.launchers.len()
            invariant
                index <= self.launchers.len(),
                launchers == text::lines_of(self.launchers@),
                check == launcher_check(launchers),
                error::first_fault(index as nat, check) is None,
            decreases self.launchers.len() - index,
        {
            let launcher = &self.launchers[index];
            assert(launchers[index as int] == launcher@);
            if !is_desktop_entry_id(launcher.as_str()) {
                proof {
                    assert(check(index as int) is Some);
                    error::lemma_first_fault((index + 1) as nat, self.launchers@.len(), check);
                }
                return Err(ConfigError::InvalidPanelLauncher(launcher.clone()));
            }
            let mut earlier: usize = 0;
            while earlier < index
                invariant
                    earlier <= index < self.launchers.len(),
                    launchers == text::lines_of(self.launchers@),
                    launcher == self.launchers@[index as int],
                    agent::entry_id(launcher@),
                    check == launcher_check(launchers),
                    error::first_fault(index as nat, check) is None,
                    forall|i: int| 0 <= i < earlier ==> launchers[i] != launcher@,
                decreases index - earlier,
            {
                if same(self.launchers[earlier].as_str(), launcher.as_str()) {
                    proof {
                        assert(launchers.take(index as int)[earlier as int] == launcher@);
                        assert(check(index as int) is Some);
                        error::lemma_first_fault((index + 1) as nat, self.launchers@.len(), check);
                    }
                    return Err(ConfigError::DuplicatePanelLauncher(launcher.clone()));
                }
                earlier = earlier + 1;
            }
            assert(check(index as int) is None);
            index = index + 1;
        }
        Ok(())
    }

    /// Checks the panel, given whether its clock format holds an unknown specifier.
    ///
    /// # Errors
    ///
    /// Returns the first problem found.
    pub fn validate_given(&self, malformed: bool) -> (outcome: Result<(), ConfigError>)
        ensures
            error::fault_in(outcome) == self.fault(malformed),
    {
        if self.height < 20 || self.height > 96 {
            return Err(ConfigError::InvalidPanelHeight(self.height));
        }
        if self.padding > 48 {
            return Err(ConfigError::InvalidPanelPadding(self.padding));
        }
        if self.spacing > 32 {
            return Err(ConfigError::InvalidPanelSpacing(self.spacing));
        }
        if self.task_max_width < 80 || self.task_max_width > 512 {
            return Err(ConfigError::InvalidPanelTaskWidth(self.task_max_width));
        }
        if self.items.len() == 0 || self.items.len() > MAX_PANEL_ITEMS {
            return Err(ConfigError::InvalidPanelItems(self.items.len()));
        }
        if let Err(error) = self.validate_items() {
            return Err(error);
        }
        let format = self.clock_format.as_str();
        if format.is_empty() || byte_size(format) > 128 || holds_char(format, '\0')
            || holds_char(format, '\n') || holds_char(format, '\r') || malformed {
            return Err(ConfigError::InvalidPanelClockFormat);
        }
        if self.launchers.len() > MAX_PANEL_LAUNCHERS {
            return Err(ConfigError::TooManyPanelLaunchers(self.launchers.len()));
        }
        self.validate_launchers()
    }

    /// Checks the panel.
    ///
    /// # Errors
    ///
    /// Returns the first problem found.
    pub fn validate(&self) -> (outcome: Result<(), ConfigError>)
        ensures
            error::fault_in(outcome) == self.fault(malformed_clock(self.clock_format@)),
    {
        self.validate_given(is_malformed_clock(self.clock_format.as_str()))
    }
}

/// In an accepted panel no component and no launcher comes up twice, and every launcher names a
/// desktop entry.
pub proof fn law_accepted_panels_repeat_nothing(panel: PanelConfig, malformed: bool)
    requires
        panel.fault(malformed) is None,
    ensures
        panel.items@.no_duplicates(),
        text::lines_of(panel.launchers@).no_duplicates(),
        forall|i: int|
            0 <= i < panel.launchers@.len() ==> agent::entry_id(
                #[trigger] text::lines_of(panel.launchers@)[i],
            ),
{
    let items = panel.items@;
    let launchers = text::lines_of(panel.launchers@);
    assert forall|i: int, j: int| 0 <= i < j < items.len() implies items[i] != items[j] by {
        let check = item_check(items);
        error::lemma_checks_passed(items.len(), check, j);
        assert(check(j) is None);
        assert(items.take(j)[i] == items[i]);
    }
    assert forall|i: int| 0 <= i < launchers.len() implies agent::entry_id(
        #[trigger] launchers[i],
    ) && !launchers.take(i).contains(launchers[i]) by {
        let check = launcher_check(launchers);
        error::lemma_checks_passed(launchers.len(), check, i);
        assert(check(i) is None);
    }
    assert forall|i: int, j: int| 0 <= i < j < launchers.len() implies launchers[i]
        != launchers[j] by {
        assert(!launchers.take(j).contains(launchers[j]));
        assert(launchers.take(j)[i] == launchers[i]);
    }
}

} // verus!
