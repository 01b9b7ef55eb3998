//! The menu section: shared menu definitions and presentation bounds.

use vstd::prelude::*;

use crate::config::action::{Action, ActionModel};
use crate::config::action;
use crate::config::error;
use crate::config::error::{ConfigError, Fault};
use crate::config::menu;
use crate::config::menu::{EntryModel, MenuDefinition, MenuEntry, MenuModel, MenuSource};
use crate::config::menu_graph;
use crate::config::menu_graph::visit;
use crate::config::tree;
use crate::config::tree::{Surroundings, SurroundingsModel};
use crate::text;
use crate::text::{byte_size, characters, decimal_text, holds_char, is_blank, is_trimmed, same};

verus! {

/// Menu presentation bounds and named definitions shared by every backend.
#[derive(Clone, Debug, PartialEq, Eq)]
pub struct MenuConfig {
    /// Preferred menu width in pixels, clamped to the selected output.
    pub width: u32,
    /// Height of each title, item, and separator row in pixels.
    pub row_height: u32,
    /// Maximum entries per page, counting an overflow continuation entry.
    pub max_rows: u32,
    /// Maximum time a command-backed menu may run before it is killed.
    pub command_timeout_ms: u32,
    /// Named menus referenced by bindings, actions, and submenus.
    pub definitions: Vec<MenuDefinition>,
}

/// What the menu section says.
pub ghost struct MenusModel {
    pub width: u32,
    pub row_height: u32,
    pub max_rows: u32,
    pub command_timeout_ms: u32,
    pub menus: Seq<MenuModel>,
}

impl View for MenuConfig {
    type V = MenusModel;

    open spec fn view(&self) -> MenusModel {
        MenusModel {
            width: self.width,
            row_height: self.row_height,
            max_rows: self.max_rows,
            command_timeout_ms: self.command_timeout_ms,
            menus: menu::menu_models(self.definitions@),
        }
    }
}

/// An item that runs one action.
pub open spec fn item(label: Seq<char>, action: ActionModel) -> EntryModel {
    EntryModel::Item { label, actions: seq![action] }
}

/// A menu with a source that fills it.
pub open spec fn filled(id: Seq<char>, title: Seq<char>, source: MenuSource) -> MenuModel {
    MenuModel { id, title, source, command: None, entries: Seq::empty() }
}

/// A menu with the given entries.
pub open spec fn fixed(id: Seq<char>, title: Seq<char>, entries: Seq<EntryModel>) -> MenuModel {
    MenuModel { id, title, source: MenuSource::Static, command: None, entries }
}

/// The menus that nobox ships with.
pub open spec fn standard_menus() -> Seq<MenuModel> {
    seq![
        fixed(
            "root"@,
            "nobox"@,
            seq![
                EntryModel::Submenu { label: "_Applications"@, menu: "applications"@ },
                item("_Terminal"@, ActionModel::Plain(Action::LaunchTerminal)),
                EntryModel::Submenu { label: "_Windows"@, menu: "windows"@ },
                EntryModel::Submenu { label: "_Session"@, menu: "session"@ },
                EntryModel::Separator { label: None },
                item("_Exit nobox"@, ActionModel::Plain(Action::Exit { prompt: true })),
            ],
        ),
        filled("applications"@, "Applications"@, MenuSource::Applications),
        filled("windows"@, "Windows"@, MenuSource::Windows),
        filled("client"@, "Window"@, MenuSource::Client),
        filled("client-workspaces"@, "Send to workspace"@, MenuSource::ClientWorkspaces),
        fixed(
            "session"@,
            "Session"@,
            seq![
                item("_Reconfigure"@, ActionModel::Plain(Action::Reconfigure)),
                item("_Restart nobox"@, ActionModel::Restart { command: None }),
                EntryModel::Separator { label: None },
                item("_Log out"@, ActionModel::Plain(Action::SessionLogout { prompt: true })),
            ],
        ),
    ]
}

fn new_item(label: &str, action: Action) -> (entry: MenuEntry)
    ensures
        entry.model() == item(label@, action.model()),
{
    let mut actions: Vec<Action> = Vec::new();
    actions.push(action);
    proof {
        action::lemma_action_models(actions@);
        assert(action::action_models(actions@) =~= seq![action.model()]);
    }
    MenuEntry::Item { label: label.to_owned(), actions }
}

fn new_submenu(label: &str, menu: &str) -> (entry: MenuEntry)
    ensures
        entry.model() == (EntryModel::Submenu { label: label@, menu: menu@ }),
{
    MenuEntry::Submenu { label: label.to_owned(), menu: menu.to_owned() }
}

fn new_separator() -> (entry: MenuEntry)
    ensures
        entry.model() == (EntryModel::Separator { label: None }),
{
    MenuEntry::Separator { label: None }
}

fn new_filled(id: &str, title: &str, source: MenuSource) -> (definition: MenuDefinition)
    ensures
        definition.model() == filled(id@, title@, source),
{
    let definition = MenuDefinition {
        id: id.to_owned(),
        title: title.to_owned(),
        source,
        command: None,
        entries: Vec::new(),
    };
    assert(definition.model().entries =~= Seq::empty());
    definition
}

fn new_fixed(id: &str, title: &str, entries: Vec<MenuEntry>) -> (definition: MenuDefinition)
    ensures
        definition.model() == fixed(id@, title@, menu::entry_models(entries@)),
{
    MenuDefinition {
        id: id.to_owned(),
        title: title.to_owned(),
        source: MenuSource::Static,
        command: None,
        entries,
    }
}

impl Default for MenuConfig {
    /// The menus that nobox ships with.
    fn default() -> (menus: Self)
        ensures
            menus@ == MenusModel::standard(),
    {
        let root = vec![
            new_submenu("_Applications", "applications"),
            new_item("_Terminal", Action::LaunchTerminal),
            new_submenu("_Windows", "windows"),
            new_submenu("_Session", "session"),
            new_separator(),
            new_item("_Exit nobox", Action::Exit { prompt: true }),
        ];
        let session = vec![
            new_item("_Reconfigure", Action::Reconfigure),
            new_item("_Restart nobox", Action::Restart { command: None }),
            new_separator(),
            new_item("_Log out", Action::SessionLogout { prompt: true }),
        ];
        assert(menu::entry_models(root@) =~= standard_menus()[0].entries);
        assert(menu::entry_models(session@) =~= standard_menus()[5].entries);
        let definitions = vec![
            new_fixed("root", "nobox", root),
            new_filled("applications", "Applications", MenuSource::Applications),
            new_filled("windows", "Windows", MenuSource::Windows),
            new_filled("client", "Window", MenuSource::Client),
            new_filled("client-workspaces", "Send to workspace", MenuSource::ClientWorkspaces),
            new_fixed("session", "Session", session),
        ];
        assert(menu::menu_models(definitions@) =~= standard_menus());
        MenuConfig {
            width: 260,
            row_height: 26,
            max_rows: 20,
            command_timeout_ms: 1_000,
            definitions,
        }
    }
}

/// Whether text is visible, free of NUL, and at most 256 bytes.
pub open spec fn menu_text(value: Seq<char>) -> bool {
    !text::blank(value) && !value.contains('\0') && text::size(value) <= 256
}

/// Whether a character may stand in a menu identifier.
pub open spec fn id_char(c: char) -> bool {
    text::letter(c) || text::digit(c) || c == '-' || c == '_'
}

/// Whether text is a bounded portable menu identifier.
pub open spec fn menu_id(id: Seq<char>) -> bool {
    &&& menu_text(id)
    &&& text::size(id) <= 64
    &&& forall|i: int| 0 <= i < id.len() ==> id_char(#[trigger] id[i])
}

/// Whether a command menu's command is usable.
pub open spec fn menu_command(command: Seq<char>) -> bool {
    &&& text::trimmed(command)
    &&& command.len() > 0
    &&& text::size(command) <= 4_096
    &&& !command.contains('\0')
}

/// The identifiers of menus.
pub open spec fn ids(menus: Seq<MenuModel>) -> Seq<Seq<char>> {
    Seq::new(menus.len(), |i: int| menus[i].id)
}

/// Whether an entry can be selected.
pub open spec fn selectable(entry: EntryModel) -> bool {
    !(entry is Separator)
}

/// Where an entry of a menu stands.
pub open spec fn entry_context(id: Seq<char>, number: nat) -> Seq<char> {
    "menu "@ + id + " entry "@ + text::decimal(number)
}

/// The fault of a menu's source: what it needs, and what it must not have.
pub open spec fn source_fault(menu: MenuModel) -> Option<Fault> {
    match menu.source {
        MenuSource::Static => {
            if menu.command is Some {
                Some(Fault::UnexpectedMenuCommand(menu.id))
            } else if menu.entries.len() == 0 {
                Some(Fault::EmptyMenu(menu.id))
            } else if !exists|i: int|
                0 <= i < menu.entries.len() && selectable(#[trigger] menu.entries[i]) {
                Some(Fault::MenuHasNoSelectableEntry(menu.id))
            } else {
                None
            }
        },
        MenuSource::Command => {
            if menu.command is None || !menu_command(menu.command->Some_0) {
                Some(Fault::InvalidMenuCommand(menu.id))
            } else if menu.entries.len() > 0 {
                Some(Fault::DynamicMenuHasEntries(menu.id))
            } else {
                None
            }
        },
        _ => {
            if menu.command is Some {
                Some(Fault::UnexpectedMenuCommand(menu.id))
            } else if menu.entries.len() > 0 {
                Some(Fault::DynamicMenuHasEntries(menu.id))
            } else {
                None
            }
        },
    }
}

/// The fault of one entry of a menu.
pub open spec fn entry_fault(
    around: SurroundingsModel,
    id: Seq<char>,
    entry: EntryModel,
    number: nat,
) -> Option<Fault> {
    let bad_label = Fault::InvalidMenuLabel { menu: id, entry: number as usize };
    match entry {
        EntryModel::Item { label, actions } => {
            if !menu_text(label) {
                Some(bad_label)
            } else if actions.len() > 16 {
                Some(
                    Fault::TooManyMenuEntryActions {
                        menu: id,
                        entry: number as usize,
                        count: actions.len() as usize,
                    },
                )
            } else {
                tree::actions_fault(around, entry_context(id, number), actions)
            }
        },
        EntryModel::Submenu { label, menu } => {
            if !menu_text(label) {
                Some(bad_label)
            } else {
                error::fault_when(
                    !around.menus.contains(menu),
                    Fault::UnknownMenu { context: entry_context(id, number), menu },
                )
            }
        },
        EntryModel::Separator { label } => error::fault_when(
            label is Some && !menu_text(label->Some_0),
            bad_label,
        ),
    }
}

/// The check of one entry of a menu.
pub open spec fn entry_check(around: SurroundingsModel, menu: MenuModel) -> spec_fn(int) -> Option<
    Fault,
> {
    |j: int| entry_fault(around, menu.id, menu.entries[j], (j + 1) as nat)
}

/// The check of one menu against those before it.
pub open spec fn menu_check(around: SurroundingsModel, menus: Seq<MenuModel>) -> spec_fn(
    int,
) -> Option<Fault> {
    |i: int|
        {
            let menu = menus[i];
            if !menu_id(menu.id) {
                Some(Fault::InvalidMenuId((i + 1) as usize))
            } else if !menu_text(menu.title) {
                Some(Fault::InvalidMenuTitle(menu.id))
            } else if ids(menus.take(i)).contains(menu.id) {
                Some(Fault::DuplicateMenuId(menu.id))
            } else if source_fault(menu) is Some {
                source_fault(menu)
            } else if menu.entries.len() > 256 {
                Some(
                    Fault::TooManyMenuEntries { menu: menu.id, count: menu.entries.len() as usize },
                )
            } else {
                error::first_fault(menu.entries.len(), entry_check(around, menu))
            }
        }
}

/// The position of an identifier.
pub open spec fn position(ids: Seq<Seq<char>>, id: Seq<char>) -> Option<int>
    decreases ids.len(),
{
    if ids.len() == 0 {
        None
    } else {
        match position(ids.drop_last(), id) {
            Some(found) => Some(found),
            None => if ids.last() == id {
                Some(ids.len() - 1)
            } else {
                None
            },
        }
    }
}

/// The menus that entries lead to, in order.
pub open spec fn targets(ids: Seq<Seq<char>>, entries: Seq<EntryModel>) -> Seq<int>
    decreases entries.len(),
{
    if entries.len() == 0 {
        Seq::empty()
    } else {
        let before = targets(ids, entries.drop_last());
        match entries.last() {
            EntryModel::Submenu { menu, .. } => match position(ids, menu) {
                Some(found) => before.push(found),
                None => before,
            },
            _ => before,
        }
    }
}

/// For each menu, the menus that it leads to.
pub open spec fn graph(menus: Seq<MenuModel>) -> Seq<Seq<int>> {
    Seq::new(menus.len(), |i: int| targets(ids(menus), menus[i].entries))
}

/// Among the first menus, the alphabetically first one from which a loop can be met.
pub open spec fn first_looping(menus: Seq<MenuModel>, count: nat) -> Option<int>
    decreases count,
{
    if count == 0 {
        None
    } else {
        let here = count - 1;
        let before = first_looping(menus, (count - 1) as nat);
        if menu_graph::loop_from(graph(menus), Seq::empty(), here) is None {
            before
        } else if before is Some && !text::precedes(menus[here].id, menus[before->Some_0].id) {
            before
        } else {
            Some(here)
        }
    }
}

/// The fault of menus that lead back to themselves: it names the menu that comes up twice first
/// on the way from the alphabetically first menu from which a loop can be met.
pub open spec fn cycle_fault(menus: Seq<MenuModel>) -> Option<Fault> {
    match first_looping(menus, menus.len()) {
        Some(root) => match menu_graph::loop_from(graph(menus), Seq::empty(), root) {
            Some(found) => Some(Fault::CyclicMenu(menus[found].id)),
            None => None,
        },
        None => None,
    }
}

impl MenusModel {
    /// The menu section that nobox ships with.
    pub open spec fn standard() -> MenusModel {
        MenusModel {
            width: 260,
            row_height: 26,
            max_rows: 20,
            command_timeout_ms: 1_000,
            menus: standard_menus(),
        }
    }

    /// What actions in a configuration with these menus may refer to.
    pub open spec fn surroundings(self, workspaces: nat) -> SurroundingsModel {
        SurroundingsModel { menus: ids(self.menus), workspaces }
    }

    /// The first thing wrong with the menus, with the given number of workspaces.
    pub open spec fn fault(self, workspaces: nat) -> Option<Fault> {
        let check = menu_check(self.surroundings(workspaces), self.menus);
        if !(160 <= self.width <= 1_024) {
            Some(Fault::InvalidMenuWidth(self.width))
        } else if !(16 <= self.row_height <= 64) {
            Some(Fault::InvalidMenuRowHeight(self.row_height))
        } else if !(2 <= self.max_rows <= 32) {
            Some(Fault::InvalidMenuRows(self.max_rows))
        } else if !(50 <= self.command_timeout_ms <= 5_000) {
            Some(Fault::InvalidMenuCommandTimeout(self.command_timeout_ms))
        } else if self.menus.len() > 64 {
            Some(Fault::TooManyMenus(self.menus.len() as usize))
        } else if error::first_fault(self.menus.len(), check) is Some {
            error::first_fault(self.menus.len(), check)
        } else {
            cycle_fault(self.menus)
        }
    }
}

fn is_menu_text(value: &str) -> (r: bool)
    ensures
        r == menu_text(value@),
{
    !is_blank(value) && !holds_char(value, '\0') && byte_size(value) <= 256
}

fn is_menu_id(id: &str) -> (r: bool)
    ensures
        r == menu_id(id@),
{
    if !is_menu_text(id) || byte_size(id) > 64 {
        return false;
    }
    let chars = characters(id);
    let mut index: usize = 0;
    while index < chars.len()
        invariant
            index <= chars.len(),
            chars@ == id@,
            forall|i: int| 0 <= i < index ==> id_char(#[trigger] id@[i]),
        decreases chars.len() - index,
    {
        let c = chars[index];
        if !(text::is_letter(c) || text::is_digit(c) || c == '-' || c == '_') {
            assert(!id_char(id@[index as int]));
            return false;
        }
        index = index + 1;
    }
    true
}

fn context_of(id: &String, number: usize) -> (context: String)
    ensures
        context@ == entry_context(id@, number as nat),
{
    let mut context = "menu ".to_owned();
    context.append(id.as_str());
    context.append(" entry ");
    let number = decimal_text(number as u64);
    context.append(number.as_str());
    context
}

proof fn lemma_position(ids: Seq<Seq<char>>, id: Seq<char>)
    ensures
        match position(ids, id) {
            Some(found) => 0 <= found < ids.len() && ids[found] == id,
            None => !ids.contains(id),
        },
    decreases ids.len(),
{
    if ids.len() > 0 {
        lemma_position(ids.drop_last(), id);
        if position(ids, id) is None {
            assert forall|i: int| 0 <= i < ids.len() implies ids[i] != id by {
                if i < ids.len() - 1 {
                    assert(ids.drop_last()[i] == ids[i]);
                }
            }
        }
    }
}

proof fn lemma_position_prefix(ids: Seq<Seq<char>>, id: Seq<char>, length: int)
    requires
        0 <= length <= ids.len(),
        position(ids.take(length), id) is Some,
    ensures
        position(ids, id) == position(ids.take(length), id),
    decreases ids.len(),
{
    if length < ids.len() {
        assert(ids.drop_last().take(length) =~= ids.take(length));
        lemma_position_prefix(ids.drop_last(), id, length);
    } else {
        assert(ids.take(length) =~= ids);
    }
}

proof fn lemma_targets(ids: Seq<Seq<char>>, entries: Seq<EntryModel>)
    ensures
        forall|j: int|
            0 <= j < targets(ids, entries).len() ==> 0 <= #[trigger] targets(ids, entries)[j]
                < ids.len(),
    decreases entries.len(),
{
    if entries.len() > 0 {
        lemma_targets(ids, entries.drop_last());
        let before = targets(ids, entries.drop_last());
        match entries.last() {
            EntryModel::Submenu { menu, .. } => {
                lemma_position(ids, menu);
            },
            _ => {},
        }
        assert forall|j: int| 0 <= j < targets(ids, entries).len() implies 0 <= #[trigger] targets(
            ids,
            entries,
        )[j] < ids.len() by {
            if j < before.len() {
                assert(targets(ids, entries)[j] == before[j]);
            }
        }
    }
}

/// Links lead to menus.
pub proof fn lemma_graph_is_closed(menus: Seq<MenuModel>)
    ensures
        menu_graph::closed_graph(graph(menus)),
        graph(menus).len() == menus.len(),
{
    assert forall|i: int, j: int|
        0 <= i < graph(menus).len() && 0 <= j < graph(menus)[i].len() implies 0
        <= #[trigger] graph(menus)[i][j] < graph(menus).len() by {
        lemma_targets(ids(menus), menus[i].entries);
        assert(graph(menus)[i] == targets(ids(menus), menus[i].entries));
        assert(0 <= targets(ids(menus), menus[i].entries)[j] < ids(menus).len());
    }
}

impl MenuConfig {
    pub(crate) fn find(&self, id: &str) -> (found: Option<usize>)
        ensures
            match found {
                Some(index) => position(ids(self@.menus), id@) == Some(index as int) && index
                    < self.definitions@.len(),
                None => position(ids(self@.menus), id@) is None,
            },
    {
        let ghost all = ids(self@.menus);
        let mut index: usize = 0;
        while index < self.definitions.len()
            invariant
                index <= self.definitions.len(),
                all == ids(self@.menus),
                position(all.take(index as int), id@) is None,
            decreases self.definitions.len() - index,
        {
            assert(all.take(index + 1).drop_last() =~= all.take(index as int));
            assert(all[index as int] == self.definitions@[index as int].id@);
            if same(self.definitions[index].id.as_str(), id) {
                assert(position(all.take(index + 1), id@) == Some(index as int));
                proof {
                    lemma_position_prefix(all, id@, index + 1);
                }
                return Some(index);
            }
            index = index + 1;
        }
        assert(all.take(index as int) =~= all);
        None
    }

    fn links_of(&self, entries: &Vec<MenuEntry>) -> (links: Vec<usize>)
        ensures
            menu_graph::numbers(links@) == targets(
                ids(self@.menus),
                menu::entry_models(entries@),
            ),
    {
        let ghost all = ids(self@.menus);
        let ghost models = menu::entry_models(entries@);
        let mut links: Vec<usize> = Vec::new();
        let mut index: usize = 0;
        assert(menu_graph::numbers(links@) =~= targets(all, models.take(0)));
        while index < entries.len()
            invariant
                index <= entries.len(),
                all == ids(self@.menus),
                models == menu::entry_models(entries@),
                menu_graph::numbers(links@) == targets(all, models.take(index as int)),
            decreases entries.len() - index,
        {
            assert(models.take(index + 1).drop_last() =~= models.take(index as int));
            assert(models[index as int] == entries@[index as int].model());
            if let MenuEntry::Submenu { menu, .. } = &entries[index] {
                if let Some(found) = self.find(menu.as_str()) {
                    let ghost longer = links@.push(found);
                    assert(menu_graph::numbers(longer) =~= menu_graph::numbers(links@).push(
                        found as int,
                    ));
                    links.push(found);
                }
            }
            index = index + 1;
        }
        assert(models.take(index as int) =~= models);
        links
    }

    fn links(&self) -> (links: Vec<Vec<usize>>)
        ensures
            menu_graph::graph_of(links@) == graph(self@.menus),
    {
        let mut links: Vec<Vec<usize>> = Vec::new();
        let mut index: usize = 0;
        while index < self.definitions.len()
            invariant
                index <= self.definitions.len(),
                links.len() == index,
                forall|i: int|
                    0 <= i < index ==> menu_graph::numbers((#[trigger] links@[i])@) == graph(
                        self@.menus,
                    )[i],
            decreases self.definitions.len() - index,
        {
            let next = self.links_of(&self.definitions[index].entries);
            links.push(next);
            index = index + 1;
        }
        assert(menu_graph::graph_of(links@) =~= graph(self@.menus));
        links
    }

    fn validate_acyclic(&self) -> (outcome: Result<(), ConfigError>)
        ensures
            error::fault_in(outcome) == cycle_fault(self@.menus),
    {
        let ghost menus = self@.menus;
        let links = self.links();
        let count = self.definitions.len();
        let mut complete: Vec<bool> = Vec::new();
        let mut index: usize = 0;
        while index < count
            invariant
                index <= count,
                complete.len() == index,
                forall|i: int| 0 <= i < index ==> !(#[trigger] complete@[i]),
            decreases count - index,
        {
            complete.push(false);
            index = index + 1;
        }
        proof {
            lemma_graph_is_closed(menus);
        }
        let mut first: Option<(usize, usize)> = None;
        let mut root: usize = 0;
        while root < count
            invariant
                root <= count,
                count == self.definitions@.len(),
                menus == self@.menus,
                menu_graph::graph_of(links@) == graph(menus),
                links@.len() == count,
                menu_graph::closed_graph(graph(menus)),
                menu_graph::marks_hold(graph(menus), complete@),
                match first {
                    Some((found_root, found)) => found_root < count && found < count
                        && first_looping(menus, root as nat) == Some(found_root as int)
                        && menu_graph::loop_from(graph(menus), Seq::empty(), found_root as int)
                        == Some(found as int),
                    None => first_looping(menus, root as nat) is None,
                },
            decreases count - root,
        {
            let mut trail: Vec<usize> = Vec::new();
            assert(menu_graph::numbers(trail@) =~= Seq::empty());
            match visit(&links, root, &mut trail, &mut complete) {
                Some(found) => {
                    let replace = match first {
                        Some((earlier, _)) => text::comes_before(
                            self.definitions[root].id.as_str(),
                            self.definitions[earlier].id.as_str(),
                        ),
                        None => true,
                    };
                    if replace {
                        first = Some((root, found));
                    }
                },
                None => {},
            }
            root = root + 1;
        }
        match first {
            Some((_, found)) => Err(ConfigError::CyclicMenu(self.definitions[found].id.clone())),
            None => Ok(()),
        }
    }

    fn defined_before(&self, index: usize, id: &str) -> (r: bool)
        requires
            index <= self.definitions@.len(),
        ensures
            r == ids(self@.menus.take(index as int)).contains(id@),
    {
        let ghost before = ids(self@.menus.take(index as int));
        let mut earlier: usize = 0;
        while earlier < index
            invariant
                earlier <= index <= self.definitions@.len(),
                before == ids(self@.menus.take(index as int)),
                forall|i: int| 0 <= i < earlier ==> before[i] != id@,
            decreases index - earlier,
        {
            assert(before[earlier as int] == self.definitions@[earlier as int].id@);
            if same(self.definitions[earlier].id.as_str(), id) {
                return true;
            }
            earlier = earlier + 1;
        }
        false
    }

    /// Checks the menus, with the given number of workspaces.
    ///
    /// # Errors
    ///
    /// Returns the first problem found.
    pub fn validate(&self, workspaces: usize) -> (outcome: Result<(), ConfigError>)
        ensures
            error::fault_in(outcome) == self@.fault(workspaces as nat),
    {
        if self.width < 160 || self.width > 1_024 {
            return Err(ConfigError::InvalidMenuWidth(self.width));
        }
        if self.row_height < 16 || self.row_height > 64 {
            return Err(ConfigError::InvalidMenuRowHeight(self.row_height));
        }
        if self.max_rows < 2 || self.max_rows > 32 {
            return Err(ConfigError::InvalidMenuRows(self.max_rows));
        }
        if self.command_timeout_ms < 50 || self.command_timeout_ms > 5_000 {
            return Err(ConfigError::InvalidMenuCommandTimeout(self.command_timeout_ms));
        }
        if self.definitions.len() > 64 {
            return Err(ConfigError::TooManyMenus(self.definitions.len()));
        }
        let around = Surroundings { menus: &self.definitions, workspaces };
        assert(around@.menus =~= ids(self@.menus));
        if let Err(error) = self.validate_definitions(&around) {
            return Err(error);
        }
        self.validate_acyclic()
    }

    fn validate_definitions(&self, around: &Surroundings<'_>) -> (outcome: Result<(), ConfigError>)
        ensures
            error::fault_in(outcome) == error::first_fault(
                self@.menus.len(),
                menu_check(around@, self@.menus),
            ),
    {
        let ghost menus = self@.menus;
        let ghost check = menu_check(around@, menus);
        let mut index: usize = 0;
        while index < self.definitions.len()
            invariant
                index <= self.definitions.len(),
                menus == self@.menus,
                check == menu_check(around@, menus),
                error::first_fault(index as nat, check) is None,
            decreases self.definitions.len() - index,
        {
            let definition = &self.definitions[index];
            assert(menus[index as int] == definition.model());
            proof {
                if check(index as int) is Some {
                    error::lemma_first_fault((index + 1) as nat, menus.len(), check);
                }
            }
            if !is_menu_id(definition.id.as_str()) {
                return Err(ConfigError::InvalidMenuId(index + 1));
            }
            if !is_menu_text(definition.title.as_str()) {
                return Err(ConfigError::InvalidMenuTitle(definition.id.clone()));
            }
            if self.defined_before(index, definition.id.as_str()) {
                return Err(ConfigError::DuplicateMenuId(definition.id.clone()));
            }
            if let Err(error) = validate_source(definition) {
                return Err(error);
            }
            if definition.entries.len() > 256 {
                return Err(
                    ConfigError::TooManyMenuEntries {
                        menu: definition.id.clone(),
                        count: definition.entries.len(),
                    },
                );
            }
            if let Err(error) = validate_entries(definition, around) {
                return Err(error);
            }
            assert(check(index as int) is None);
            index = index + 1;
        }
        Ok(())
    }
}

fn validate_source(definition: &MenuDefinition) -> (outcome: Result<(), ConfigError>)
    ensures
        error::fault_in(outcome) == source_fault(definition.model()),
{
    match definition.source {
        MenuSource::Static => {
            if definition.command.is_some() {
                return Err(ConfigError::UnexpectedMenuCommand(definition.id.clone()));
            }
            if definition.entries.len() == 0 {
                return Err(ConfigError::EmptyMenu(definition.id.clone()));
            }
            if !has_selectable(&definition.entries) {
                return Err(ConfigError::MenuHasNoSelectableEntry(definition.id.clone()));
            }
            Ok(())
        },
        MenuSource::Command => {
            let valid = match &definition.command {
                Some(command) => is_trimmed(command.as_str()) && !command.as_str().is_empty()
                    && byte_size(command.as_str()) <= 4_096 && !holds_char(command.as_str(), '\0'),
                None => false,
            };
            if !valid {
                return Err(ConfigError::InvalidMenuCommand(definition.id.clone()));
            }
            if definition.entries.len() > 0 {
                return Err(ConfigError::DynamicMenuHasEntries(definition.id.clone()));
            }
            Ok(())
        },
        MenuSource::Applications | MenuSource::Client | MenuSource::ClientWorkspaces
        | MenuSource::Windows => {
            if definition.command.is_some() {
                return Err(ConfigError::UnexpectedMenuCommand(definition.id.clone()));
            }
            if definition.entries.len() > 0 {
                return Err(ConfigError::DynamicMenuHasEntries(definition.id.clone()));
            }
            Ok(())
        },
    }
}

fn has_selectable(entries: &Vec<MenuEntry>) -> (r: bool)
    ensures
        r == exists|i: int|
            0 <= i < entries@.len() && selectable(#[trigger] menu::entry_models(entries@)[i]),
{
    let ghost models = menu::entry_models(entries@);
    let mut index: usize = 0;
    while index < entries.len()
        invariant
            index <= entries.len(),
            models == menu::entry_models(entries@),
            forall|i: int| 0 <= i < index ==> !selectable(#[trigger] models[i]),
        decreases entries.len() - index,
    {
        assert(models[index as int] == entries@[index as int].model());
        match &entries[index] {
            MenuEntry::Separator { .. } => {},
            _ => {
                assert(selectable(models[index as int]));
                return true;
            },
        }
        index = index + 1;
    }
    false
}

fn validate_entry(
    id: &String,
    entry: &MenuEntry,
    number: usize,
    around: &Surroundings<'_>,
) -> (outcome: Result<(), ConfigError>)
    ensures
        error::fault_in(outcome) == entry_fault(around@, id@, entry.model(), number as nat),
{
    match entry {
        MenuEntry::Item { label, actions } => {
            if !is_menu_text(label.as_str()) {
                return Err(ConfigError::InvalidMenuLabel { menu: id.clone(), entry: number });
            }
            proof {
                action::lemma_action_models(actions@);
            }
            if actions.len() > 16 {
                return Err(
                    ConfigError::TooManyMenuEntryActions {
                        menu: id.clone(),
                        entry: number,
                        count: actions.len(),
                    },
                );
            }
            let context = context_of(id, number);
            around.validate_actions(actions, &context)
        },
        MenuEntry::Submenu { label, menu } => {
            if !is_menu_text(label.as_str()) {
                return Err(ConfigError::InvalidMenuLabel { menu: id.clone(), entry: number });
            }
            if !around.knows_menu(menu.as_str()) {
                return Err(
                    ConfigError::UnknownMenu {
                        context: context_of(id, number),
                        menu: menu.clone(),
                    },
                );
            }
            Ok(())
        },
        MenuEntry::Separator { label } => {
            if let Some(label) = label {
                if !is_menu_text(label.as_str()) {
                    return Err(ConfigError::InvalidMenuLabel { menu: id.clone(), entry: number });
                }
            }
            Ok(())
        },
    }
}

fn validate_entries(definition: &MenuDefinition, around: &Surroundings<'_>) -> (outcome: Result<
    (),
    ConfigError,
>)
    ensures
        error::fault_in(outcome) == error::first_fault(
            definition.model().entries.len(),
            entry_check(around@, definition.model()),
        ),
{
    let ghost menu = definition.model();
    let ghost check = entry_check(around@, menu);
    let mut index: usize = 0;
    while index < definition.entries.len()
        invariant
            index <= definition.entries.len(),
            menu == definition.model(),
            check == entry_check(around@, menu),
            error::first_fault(index as nat, check) is None,
        decreases definition.entries.len() - index,
    {
        assert(menu.entries[index as int] == definition.entries@[index as int].model());
        if let Err(error) = validate_entry(
            &definition.id,
            &definition.entries[index],
            index + 1,
            around,
        ) {
            proof {
                assert(check(index as int) == Some(error@));
                error::lemma_first_fault((index + 1) as nat, menu.entries.len(), check);
            }
            return Err(error);
        }
        assert(check(index as int) is None);
        index = index + 1;
    }
    Ok(())
}

proof fn lemma_first_looping(menus: Seq<MenuModel>, count: nat, i: int)
    requires
        0 <= i < count,
        first_looping(menus, count) is None,
    ensures
        menu_graph::loop_from(graph(menus), Seq::empty(), i) is None,
    decreases count,
{
    if i < count - 1 {
        lemma_first_looping(menus, (count - 1) as nat, i);
    }
}

proof fn lemma_looping_root(menus: Seq<MenuModel>, count: nat)
    ensures
        first_looping(menus, count) matches Some(root) ==> 0 <= root < count
            && menu_graph::loop_from(graph(menus), Seq::empty(), root) is Some,
    decreases count,
{
    if count > 0 {
        lemma_looping_root(menus, (count - 1) as nat);
    }
}

/// Menus are refused as cyclic exactly if following submenus from some menu can meet a menu
/// twice.
pub proof fn law_menus_terminate(menus: Seq<MenuModel>)
    ensures
        cycle_fault(menus) is None <==> forall|i: int|
            0 <= i < menus.len() ==> #[trigger] menu_graph::loop_free(graph(menus), i),
{
    lemma_graph_is_closed(menus);
    lemma_looping_root(menus, menus.len());
    if cycle_fault(menus) is None {
        assert forall|i: int| 0 <= i < menus.len() implies #[trigger] menu_graph::loop_free(
            graph(menus),
            i,
        ) by {
            lemma_first_looping(menus, menus.len(), i);
            menu_graph::law_loops_are_found(graph(menus), i);
        }
    } else {
        let root = first_looping(menus, menus.len())->Some_0;
        menu_graph::law_loops_are_found(graph(menus), root);
        assert(!menu_graph::loop_free(graph(menus), root));
    }
}

/// Accepted menus have distinct identifiers, and every submenu entry leads to one of them.
pub proof fn law_accepted_menus_are_linked(section: MenusModel, workspaces: nat)
    requires
        section.fault(workspaces) is None,
    ensures
        ids(section.menus).no_duplicates(),
        forall|i: int, j: int|
            0 <= i < section.menus.len() && 0 <= j < section.menus[i].entries.len() ==> (
            #[trigger] section.menus[i].entries[j] matches EntryModel::Submenu { menu, .. }
                ==> ids(section.menus).contains(menu)),
        forall|i: int|
            0 <= i < section.menus.len() ==> #[trigger] menu_graph::loop_free(
                graph(section.menus),
                i,
            ),
{
    let menus = section.menus;
    let around = section.surroundings(workspaces);
    let check = menu_check(around, menus);
    assert forall|i: int| 0 <= i < menus.len() implies #[trigger] check(i) is None by {
        error::lemma_checks_passed(menus.len(), check, i);
    }
    assert forall|i: int, j: int| 0 <= i < j < menus.len() implies ids(menus)[i] != ids(
        menus,
    )[j] by {
        assert(check(j) is None);
        assert(ids(menus.take(j))[i] == menus[i].id);
    }
    assert forall|i: int, j: int|
        0 <= i < menus.len() && 0 <= j < menus[i].entries.len() implies (
    #[trigger] menus[i].entries[j] matches EntryModel::Submenu { menu, .. } ==> ids(
        menus,
    ).contains(menu)) by {
        assert(check(i) is None);
        error::lemma_checks_passed(menus[i].entries.len(), entry_check(around, menus[i]), j);
        assert(entry_check(around, menus[i])(j) is None);
    }
    law_menus_terminate(menus);
}

} // verus!
