//! Menus.

use vstd::prelude::*;

use crate::config::action;
use crate::config::action::{copy_actions, copy_text, Action, ActionModel};
use crate::text;

verus! {

/// Source used to populate a named menu when it opens.
#[derive(Clone, Copy, Debug, PartialEq, Eq, Structural)]
pub enum MenuSource {
    /// Use the configured entries verbatim.
    Static,
    /// Execute a bounded command and parse its TOML entry document when opened.
    Command,
    /// Discover installed XDG desktop applications and group them by category.
    Applications,
    /// Generate operations for the target or focused client.
    Client,
    /// Generate destinations for the target client's workspace assignment.
    ClientWorkspaces,
    /// Generate a combined workspace-grouped list of managed clients.
    Windows,
}

impl Default for MenuSource {
    /// Configured entries.
    fn default() -> (source: Self)
        ensures
            source == MenuSource::Static,
    {
        MenuSource::Static
    }
}

/// One entry in a named menu.
#[derive(Debug, PartialEq, Eq)]
pub enum MenuEntry {
    /// A selectable entry that runs one or more actions.
    Item {
        /// User-visible entry text.
        label: String,
        /// Ordered actions run after dismissing the menu.
        actions: Vec<Action>,
    },
    /// A selectable link to another named menu.
    Submenu {
        /// User-visible entry text.
        label: String,
        /// Referenced menu identifier.
        menu: String,
    },
    /// A non-selectable visual separator with an optional heading.
    Separator {
        /// Optional text rendered on the separator row.
        label: Option<String>,
    },
}

/// One named menu that may be opened directly or as a submenu.
#[derive(Debug, PartialEq, Eq)]
pub struct MenuDefinition {
    /// Stable identifier used by `show_menu` actions and submenu entries.
    pub id: String,
    /// Heading rendered above the entries.
    pub title: String,
    /// Static or backend-populated menu content.
    pub source: MenuSource,
    /// Shell command producing strict command-menu TOML when `source = "command"`.
    pub command: Option<String>,
    /// Ordered interactive items, submenu links, and separators.
    pub entries: Vec<MenuEntry>,
}

/// What a menu entry is.
pub ghost enum EntryModel {
    /// Runs actions.
    Item { label: Seq<char>, actions: Seq<ActionModel> },
    /// Leads to another menu.
    Submenu { label: Seq<char>, menu: Seq<char> },
    /// Separates entries.
    Separator { label: Option<Seq<char>> },
}

/// What a menu is.
pub ghost struct MenuModel {
    pub id: Seq<char>,
    pub title: Seq<char>,
    pub source: MenuSource,
    pub command: Option<Seq<char>>,
    pub entries: Seq<EntryModel>,
}

impl MenuEntry {
    /// What the entry is.
    pub open spec fn model(self) -> EntryModel {
        match self {
            MenuEntry::Item { label, actions } => EntryModel::Item {
                label: label@,
                actions: action::action_models(actions@),
            },
            MenuEntry::Submenu { label, menu } => EntryModel::Submenu {
                label: label@,
                menu: menu@,
            },
            MenuEntry::Separator { label } => EntryModel::Separator { label: text::maybe(label) },
        }
    }
}

impl Clone for MenuEntry {
    fn clone(&self) -> (copied: Self)
        ensures
            copied.model() == self.model(),
    {
        match self {
            MenuEntry::Item { label, actions } => MenuEntry::Item {
                label: label.clone(),
                actions: copy_actions(actions),
            },
            MenuEntry::Submenu { label, menu } => MenuEntry::Submenu {
                label: label.clone(),
                menu: menu.clone(),
            },
            MenuEntry::Separator { label } => MenuEntry::Separator { label: copy_text(label) },
        }
    }
}

/// The models of entries.
pub open spec fn entry_models(entries: Seq<MenuEntry>) -> Seq<EntryModel> {
    Seq::new(entries.len(), |i: int| entries[i].model())
}

impl MenuDefinition {
    /// What the menu is.
    pub open spec fn model(self) -> MenuModel {
        MenuModel {
            id: self.id@,
            title: self.title@,
            source: self.source,
            command: text::maybe(self.command),
            entries: entry_models(self.entries@),
        }
    }
}

impl Clone for MenuDefinition {
    fn clone(&self) -> (copied: Self)
        ensures
            copied.model() == self.model(),
    {
        let mut entries: Vec<MenuEntry> = Vec::new();
        let mut index: usize = 0;
        while index < self.entries.len()
            invariant
                index <= self.entries.len(),
                entries.len() == index,
                forall|i: int|
                    0 <= i < index ==> (#[trigger] entries@[i]).model() == self.entries@[i].model(),
            decreases self.entries.len() - index,
        {
            entries.push(self.entries[index].clone());
            index = index + 1;
        }
        assert(entry_models(entries@) =~= entry_models(self.entries@));
        MenuDefinition {
            id: self.id.clone(),
            title: self.title.clone(),
            source: self.source,
            command: copy_text(&self.command),
            entries,
        }
    }
}

/// The models of menus.
pub open spec fn menu_models(menus: Seq<MenuDefinition>) -> Seq<MenuModel> {
    Seq::new(menus.len(), |i: int| menus[i].model())
}

/// The identifiers of menus.
pub open spec fn menu_ids(menus: Seq<MenuDefinition>) -> Seq<Seq<char>> {
    Seq::new(menus.len(), |i: int| menus[i].id@)
}

} // verus!
