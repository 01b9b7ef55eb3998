//! User configuration: values, their validation, and what they resolve to.

pub mod action;
pub mod agent;
pub mod amounts;
pub mod bindings;
pub mod color;
pub mod display;
pub mod document;
pub mod error;
pub mod input;
pub mod keys;
pub mod limit_laws;
pub mod match_laws;
pub mod menu;
pub mod menu_graph;
pub mod menus;
pub mod openbox_color;
pub mod openbox_color_laws;
pub mod openbox_theme;
pub mod openbox_theme_laws;
pub mod panel;
pub mod paths;
pub mod pointer;
pub mod rules;
pub mod section_laws;
pub mod setting_key;
pub mod settings;
pub mod spelling_laws;
pub mod theme;
pub mod theme_document;
pub mod tree;
pub mod wildcard;

use vstd::prelude::*;

use crate::config::action::{Action, ActionModel};
use crate::config::agent::AgentConfig;
use crate::config::bindings::KeyBinding;
use crate::config::display::OutputsConfig;
use crate::config::error::{ConfigError, Fault};
use crate::config::input::{KeyboardConfig, MouseConfig};
use crate::config::menu::{EntryModel, MenuDefinition, MenuEntry, MenuModel, MenuSource};
use crate::config::menus::{MenuConfig, MenusModel};
use crate::config::panel::{is_malformed_clock, PanelConfig};
use crate::config::rules::{
    ApplicationIdentity, ApplicationRule, ApplicationSettings, ApplicationWorkspace,
};
use crate::config::settings::{
    CommandsConfig, FocusConfig, MarginConfig, PlacementConfig, ShortcutsConfig, SwitcherConfig,
    WaylandConfig, WorkspaceConfig,
};
use crate::config::theme::ThemeConfig;
use crate::config::tree::Surroundings;
use crate::text;
use crate::text::{byte_size, same};

verus! {

/// Maximum UTF-8 output accepted from a command-backed menu.
pub const MAX_COMMAND_MENU_BYTES: usize = 65_536;

/// Complete user configuration.
#[derive(Clone, Debug, PartialEq, Eq)]
pub struct Config {
    /// Focus behavior.
    pub focus: FocusConfig,
    /// On-screen focus-cycle presentation.
    pub switcher: SwitcherConfig,
    /// Shared menu definitions and presentation bounds.
    pub menu: MenuConfig,
    /// Optional external panel presentation and components.
    pub panel: PanelConfig,
    /// Commands used by standard semantic actions.
    pub commands: CommandsConfig,
    /// User-facing shortcuts for common semantic actions.
    pub shortcuts: ShortcutsConfig,
    /// Initial window placement behavior.
    pub placement: PlacementConfig,
    /// User-reserved screen edges shared by every workspace.
    pub margins: MarginConfig,
    /// Display-server-neutral connector preferences used by direct backends.
    pub outputs: OutputsConfig,
    /// Native Wayland session helpers and privileged protocol owners.
    pub wayland: WaylandConfig,
    /// Protocol-neutral workspace names and count.
    pub workspaces: WorkspaceConfig,
    /// Minimal client decoration.
    pub theme: ThemeConfig,
    /// Mouse actions.
    pub mouse: MouseConfig,
    /// Global keyboard actions.
    pub keyboard: KeyboardConfig,
    /// Ordered application-specific policy overrides.
    pub applications: Vec<ApplicationRule>,
    /// WM-mediated agent access, off unless explicitly enabled.
    pub agent: AgentConfig,
}

impl Default for Config {
    /// The configuration that nobox ships with, section by section.
    fn default() -> (config: Self)
        ensures
            config.focus == (FocusConfig {
                focus_new: true,
                follow_mouse: false,
                prevent_focus_stealing: true,
                raise_on_focus: true,
            }),
            config.switcher == (SwitcherConfig {
                enabled: true,
                width: 420,
                row_height: 28,
                max_rows: 8,
            }),
            config.menu@ == MenusModel::standard(),
            config.panel.is_standard(),
            config.commands.is_standard(),
            config.shortcuts@ == settings::ShortcutsModel::standard(),
            config.placement.center_free_space,
            config.margins == (MarginConfig { top: 0, right: 0, bottom: 0, left: 0 }),
            config.outputs.entries@.len() == 0,
            config.wayland.is_standard(),
            config.workspaces.is_standard(),
            config.theme@ == theme::ThemeModel::standard(),
            config.mouse.is_standard(),
            config.keyboard.is_standard(),
            config.applications@.len() == 0,
            config.agent.is_standard(),
    {
        Config {
            focus: FocusConfig::default(),
            switcher: SwitcherConfig::default(),
            menu: MenuConfig::default(),
            panel: PanelConfig::default(),
            commands: CommandsConfig::default(),
            shortcuts: ShortcutsConfig::default(),
            placement: PlacementConfig::default(),
            margins: MarginConfig::default(),
            outputs: OutputsConfig::default(),
            wayland: WaylandConfig::default(),
            workspaces: WorkspaceConfig::default(),
            theme: ThemeConfig::default(),
            mouse: MouseConfig::default(),
            keyboard: KeyboardConfig::default(),
            applications: Vec::new(),
            agent: AgentConfig::default(),
        }
    }
}

/// The check of one application rule, with the given number of workspaces.
pub open spec fn rule_check(rules: Seq<ApplicationRule>, workspaces: nat) -> spec_fn(
    int,
) -> Option<Fault> {
    |i: int|
        {
            let rule = rules[i];
            let position = (i + 1) as usize;
            if rule.matcher.unset() {
                Some(Fault::EmptyApplicationMatcher(position))
            } else if rule.matcher.has_empty_pattern() {
                Some(Fault::EmptyApplicationPattern(position))
            } else if rule.settings.workspace matches Some(ApplicationWorkspace::Index(index))
                && index.value() > workspaces {
                Some(
                    Fault::InvalidApplicationWorkspace {
                        rule: position,
                        workspace: rule.settings.workspace->Some_0->Index_0.value(),
                        count: workspaces as usize,
                    },
                )
            } else if rule.settings.size is Some && rule.settings.size->Some_0.width is None
                && rule.settings.size->Some_0.height is None {
                Some(Fault::EmptyApplicationSize(position))
            } else {
                None
            }
        }
}

/// Whether actions are the one that terminal entries ran before the terminal was configurable.
pub open spec fn legacy_terminal(actions: Seq<ActionModel>) -> bool {
    actions == seq![
        ActionModel::Execute { command: "xterm"@, prompt: None, startup: None },
    ]
}

/// An entry with a terminal entry's fixed command replaced by the configured terminal.
pub open spec fn promoted_entry(entry: EntryModel) -> EntryModel {
    match entry {
        EntryModel::Item { label, actions } => {
            if label == "_Terminal"@ && legacy_terminal(actions) {
                EntryModel::Item {
                    label,
                    actions: seq![ActionModel::Plain(Action::LaunchTerminal)],
                }
            } else {
                entry
            }
        },
        _ => entry,
    }
}

/// Entries with fixed terminal commands replaced.
pub open spec fn promoted_entries(entries: Seq<EntryModel>) -> Seq<EntryModel> {
    Seq::new(entries.len(), |i: int| promoted_entry(entries[i]))
}

/// Menus with fixed terminal commands replaced in the root menu.
pub open spec fn promoted(menus: Seq<MenuModel>) -> Seq<MenuModel> {
    match menus::position(menus::ids(menus), "root"@) {
        Some(root) => menus.update(
            root,
            MenuModel { entries: promoted_entries(menus[root].entries), ..menus[root] },
        ),
        None => menus,
    }
}

/// Menus with generated entries in one of them.
pub open spec fn generated(menus: Seq<MenuModel>, index: int, entries: Seq<EntryModel>) -> Seq<
    MenuModel,
> {
    menus.update(
        index,
        MenuModel { source: MenuSource::Static, command: None, entries, ..menus[index] },
    )
}

impl Config {
    /// The first thing wrong with the configuration, with the given menus in place of its own,
    /// and given whether the clock format holds an unknown specifier.
    pub open spec fn fault_with(self, menus: MenusModel, malformed: bool) -> Option<Fault> {
        let count = self.workspaces.names@.len();
        let around = menus.surroundings(count);
        if self.wayland.fault() is Some {
            self.wayland.fault()
        } else if self.commands.fault() is Some {
            self.commands.fault()
        } else if self.mouse.move_button == self.mouse.resize_button {
            Some(Fault::SameMouseButton(self.mouse.move_button))
        } else if self.switcher.fault() is Some {
            self.switcher.fault()
        } else if menus.fault(count) is Some {
            menus.fault(count)
        } else if self.panel.fault(malformed) is Some {
            self.panel.fault(malformed)
        } else if self.mouse.fault(around) is Some {
            self.mouse.fault(around)
        } else if self.keyboard.bounds_fault(self.shortcuts@) is Some {
            self.keyboard.bounds_fault(self.shortcuts@)
        } else if self.theme@.fault() is Some {
            self.theme@.fault()
        } else if self.outputs.fault() is Some {
            self.outputs.fault()
        } else if self.workspaces.count_fault() is Some {
            self.workspaces.count_fault()
        } else if self.margins.fault() is Some {
            self.margins.fault()
        } else if self.workspaces.name_fault() is Some {
            self.workspaces.name_fault()
        } else if self.application_fault() is Some {
            self.application_fault()
        } else if self.agent.fault() is Some {
            self.agent.fault()
        } else {
            self.keyboard.binding_fault(self.shortcuts@, around)
        }
    }

    /// The first thing wrong with the application rules.
    pub open spec fn application_fault(self) -> Option<Fault> {
        error::first_fault(
            self.applications@.len(),
            rule_check(self.applications@, self.workspaces.names@.len()),
        )
    }

    /// The first thing wrong with the configuration.
    pub open spec fn fault(self) -> Option<Fault> {
        self.fault_with(self.menu@, panel::malformed_clock(self.panel.clock_format@))
    }

    /// Whether a configuration is another one with fixed terminal commands replaced.
    pub open spec fn promotes(self, before: Config) -> bool {
        &&& self == (Config { menu: self.menu, ..before })
        &&& self.menu@ == (MenusModel { menus: promoted(before.menu@.menus), ..before.menu@ })
    }

    /// Resolves the standard shortcut policy and explicit keyboard overrides.
    #[must_use]
    pub fn effective_key_bindings(&self) -> (effective: Vec<KeyBinding>)
        ensures
            bindings::key_models(effective@) == self.keyboard.effective(self.shortcuts@),
    {
        self.keyboard.effective_bindings_with(&self.shortcuts)
    }

    /// Resolves ordered matching application rules; later values override earlier ones.
    #[must_use]
    pub fn application_settings(&self, identity: ApplicationIdentity<'_>) -> (settings:
        ApplicationSettings)
        ensures
            settings == rules::settled(self.applications@, identity),
    {
        rules::settle(&self.applications, identity)
    }

    fn validate_applications(&self) -> (outcome: Result<(), ConfigError>)
        ensures
            error::fault_in(outcome) == self.application_fault(),
    {
        let count = self.workspaces.names.len();
        let ghost check = rule_check(self.applications@, count as nat);
        let mut index: usize = 0;
        while index < self.applications.len()
            invariant
                index <= self.applications.len(),
                count == self.workspaces.names@.len(),
                check == rule_check(self.applications@, count as nat),
                error::first_fault(index as nat, check) is None,
            decreases self.applications.len() - index,
        {
            let rule = &self.applications[index];
            proof {
                if check(index as int) is Some {
                    error::lemma_first_fault((index + 1) as nat, self.applications@.len(), check);
                }
            }
            if rule.matcher.is_empty() {
                return Err(ConfigError::EmptyApplicationMatcher(index + 1));
            }
            if rule.matcher.holds_empty_pattern() {
                return Err(ConfigError::EmptyApplicationPattern(index + 1));
            }
            if let Some(ApplicationWorkspace::Index(workspace)) = rule.settings.workspace {
                let workspace = workspace.get();
                if workspace as u64 > count as u64 {
                    return Err(
                        ConfigError::InvalidApplicationWorkspace {
                            rule: index + 1,
                            workspace,
                            count,
                        },
                    );
                }
            }
            if let Some(size) = rule.settings.size {
                if size.width.is_none() && size.height.is_none() {
                    return Err(ConfigError::EmptyApplicationSize(index + 1));
                }
            }
            assert(check(index as int) is None);
            index = index + 1;
        }
        Ok(())
    }

    fn validate_with(&self, menu: &MenuConfig, malformed: bool) -> (outcome: Result<
        (),
        ConfigError,
    >)
        ensures
            error::fault_in(outcome) == self.fault_with(menu@, malformed),
    {
        let count = self.workspaces.names.len();
        let around = Surroundings { menus: &menu.definitions, workspaces: count };
        assert(around@.menus =~= menus::ids(menu@.menus));
        if let Err(error) = self.wayland.validate() {
            return Err(error);
        }
        if let Err(error) = self.commands.validate() {
            return Err(error);
        }
        if self.mouse.move_button == self.mouse.resize_button {
            return Err(ConfigError::SameMouseButton(self.mouse.move_button));
        }
        if let Err(error) = self.switcher.validate() {
            return Err(error);
        }
        if let Err(error) = menu.validate(count) {
            return Err(error);
        }
        if let Err(error) = self.panel.validate_given(malformed) {
            return Err(error);
        }
        if let Err(error) = self.mouse.validate(&around) {
            return Err(error);
        }
        if let Err(error) = self.keyboard.validate_bounds(&self.shortcuts) {
            return Err(error);
        }
        if let Err(error) = self.theme.validate() {
            return Err(error);
        }
        if let Err(error) = self.outputs.validate() {
            return Err(error);
        }
        if let Err(error) = self.workspaces.validate_count() {
            return Err(error);
        }
        if let Err(error) = self.margins.validate() {
            return Err(error);
        }
        if let Err(error) = self.workspaces.validate_names() {
            return Err(error);
        }
        if let Err(error) = self.validate_applications() {
            return Err(error);
        }
        if let Err(error) = self.agent.validate() {
            return Err(error);
        }
        self.keyboard.validate_bindings(&self.shortcuts, &around)
    }

    /// Validates the configuration, given whether its clock format holds an unknown specifier.
    ///
    /// # Errors
    ///
    /// Returns the first problem found.
    pub fn validate_given(&self, malformed: bool) -> (outcome: Result<(), ConfigError>)
        ensures
            error::fault_in(outcome) == self.fault_with(self.menu@, malformed),
    {
        self.validate_with(&self.menu, malformed)
    }

    /// Validates relationships between values.
    ///
    /// # Errors
    ///
    /// Returns the first problem found.
    pub fn validate(&self) -> (outcome: Result<(), ConfigError>)
        ensures
            error::fault_in(outcome) == self.fault(),
    {
        self.validate_given(is_malformed_clock(self.panel.clock_format.as_str()))
    }
}

/// Why a binding's actions were refused.
#[derive(Clone, Copy, Debug, PartialEq, Eq, Structural)]
pub enum BindingActionsError {
    /// One action and a list of actions are both given.
    Both,
    /// No action is given.
    Missing,
}

/// Reads the actions of a binding that gives either one action or a list of them.
///
/// # Errors
///
/// Returns an error when both are given, and when neither is.
pub fn binding_actions(single: Option<Action>, several: Vec<Action>) -> (actions: Result<
    Vec<Action>,
    BindingActionsError,
>)
    ensures
        match actions {
            Ok(actions) => match single {
                Some(action) => several@.len() == 0 && actions@ == seq![action],
                None => several@.len() > 0 && actions == several,
            },
            Err(BindingActionsError::Both) => single is Some && several@.len() > 0,
            Err(BindingActionsError::Missing) => single is None && several@.len() == 0,
        },
{
    match single {
        Some(action) => {
            if several.len() > 0 {
                return Err(BindingActionsError::Both);
            }
            let actions = vec![action];
            assert(actions@ =~= seq![action]);
            Ok(actions)
        },
        None => {
            if several.len() == 0 {
                return Err(BindingActionsError::Missing);
            }
            Ok(several)
        },
    }
}

fn is_legacy_terminal(actions: &Vec<Action>) -> (r: bool)
    ensures
        r == legacy_terminal(action::action_models(actions@)),
{
    proof {
        action::lemma_action_models(actions@);
    }
    let ghost models = action::action_models(actions@);
    let ghost legacy = ActionModel::Execute { command: "xterm"@, prompt: None, startup: None };
    if actions.len() != 1 {
        return false;
    }
    assert(models[0] == actions@[0].model());
    match &actions[0] {
        Action::Execute { command, prompt: None, startup_notify: None } => {
            if same(command.as_str(), "xterm") {
                assert(models =~= seq![legacy]);
                true
            } else {
                assert(models[0] != legacy);
                false
            }
        },
        _ => {
            assert(models[0] != legacy);
            false
        },
    }
}

fn promote_entries(entries: Vec<MenuEntry>) -> (result: Vec<MenuEntry>)
    ensures
        menu::entry_models(result@) == promoted_entries(menu::entry_models(entries@)),
{
    let ghost models = menu::entry_models(entries@);
    let mut rest = entries;
    let mut result: Vec<MenuEntry> = Vec::new();
    let ghost all = entries@;
    while rest.len() > 0
        invariant
            models == menu::entry_models(all),
            result@.len() + rest@.len() == all.len(),
            rest@ == all.skip(result@.len() as int),
            forall|i: int|
                0 <= i < result@.len() ==> (#[trigger] result@[i]).model() == promoted_entry(
                    models[i],
                ),
        decreases rest.len(),
    {
        let ghost at = result@.len() as int;
        let entry = rest.remove(0);
        assert(entry == all[at]);
        assert(models[at] == entry.model());
        assert(rest@ =~= all.skip(at + 1));
        let legacy = match &entry {
            MenuEntry::Item { label, actions } => same(label.as_str(), "_Terminal")
                && is_legacy_terminal(actions),
            _ => false,
        };
        if legacy {
            let actions = vec![Action::LaunchTerminal];
            let replaced = MenuEntry::Item { label: "_Terminal".to_owned(), actions };
            proof {
                action::lemma_action_models(actions@);
                assert(action::action_models(actions@) =~= seq![
                    ActionModel::Plain(Action::LaunchTerminal),
                ]);
            }
            result.push(replaced);
        } else {
            result.push(entry);
        }
    }
    assert(menu::entry_models(result@) =~= promoted_entries(models));
    result
}

impl Config {
    fn promote_legacy_standard_actions(self) -> (config: Self)
        ensures
            config.promotes(self),
    {
        let mut config = self;
        match config.menu.find("root") {
            Some(root) => {
                let ghost before = config.menu.definitions@;
                let mut definitions = config.menu.definitions;
                let definition = definitions.remove(root);
                let entries = promote_entries(definition.entries);
                let changed = MenuDefinition {
                    id: definition.id,
                    title: definition.title,
                    source: definition.source,
                    command: definition.command,
                    entries,
                };
                let ghost model = changed.model();
                definitions.insert(root, changed);
                assert(menu::menu_models(definitions@) =~= menu::menu_models(before).update(
                    root as int,
                    model,
                ));
                config.menu = MenuConfig {
                    width: config.menu.width,
                    row_height: config.menu.row_height,
                    max_rows: config.menu.max_rows,
                    command_timeout_ms: config.menu.command_timeout_ms,
                    definitions,
                };
                config
            },
            None => config,
        }
    }

    /// Completes a decoded configuration: replaces fixed terminal commands in the root menu,
    /// and validates the result.
    ///
    /// # Errors
    ///
    /// Returns the first problem found.
    pub fn complete(self) -> (completed: Result<Self, ConfigError>)
        ensures
            exists|promoted: Config| #[trigger]
                promoted.promotes(self) && match completed {
                    Ok(config) => config == promoted && promoted.fault() is None,
                    Err(error) => promoted.fault() == Some(error@),
                },
    {
        let config = self.promote_legacy_standard_actions();
        match config.validate() {
            Ok(_) => Ok(config),
            Err(error) => Err(error),
        }
    }

    /// Parses and validates configuration text, with a decoder that turns the text into values.
    ///
    /// # Errors
    ///
    /// Returns the decoder's error for text that it refuses, and otherwise the first problem
    /// found.
    pub fn parse<F: Fn(&str) -> Result<Config, ConfigError>>(
        source: &str,
        decode: &F,
    ) -> (parsed: Result<Self, ConfigError>)
        requires
            call_requires(*decode, (source,)),
        ensures
            exists|decoded: Result<Config, ConfigError>| #[trigger]
                call_ensures(*decode, (source,), decoded) && Config::parsed_from(decoded, parsed),
    {
        match decode(source) {
            Ok(config) => {
                let completed = config.complete();
                assert(Config::parsed_from(Ok(config), completed));
                completed
            },
            Err(error) => {
                assert(Config::parsed_from(Err(error), Err(error)));
                Err(error)
            },
        }
    }

    /// Whether an outcome is what parsing makes of a decoded configuration.
    pub open spec fn parsed_from(
        decoded: Result<Config, ConfigError>,
        outcome: Result<Config, ConfigError>,
    ) -> bool {
        match decoded {
            Ok(config) => exists|promoted: Config| #[trigger]
                promoted.promotes(config) && match outcome {
                    Ok(config) => config == promoted && promoted.fault() is None,
                    Err(error) => promoted.fault() == Some(error@),
                },
            Err(error) => outcome == Err::<Config, ConfigError>(error),
        }
    }

    /// What becomes of entries generated for a menu: the fault, if there is one.
    pub open spec fn command_menu_fault(
        self,
        menu: Seq<char>,
        entries: Seq<EntryModel>,
    ) -> Option<Fault> {
        match menus::position(menus::ids(self.menu@.menus), menu) {
            Some(index) => self.fault_with(
                MenusModel {
                    menus: generated(self.menu@.menus, index, entries),
                    ..self.menu@
                },
                panel::malformed_clock(self.panel.clock_format@),
            ),
            None => Some(Fault::UnknownMenu { context: "command menu output"@, menu }),
        }
    }

    fn menus_with(&self, index: usize, entries: Vec<MenuEntry>) -> (menu: MenuConfig)
        requires
            index < self.menu.definitions@.len(),
        ensures
            menu@ == (MenusModel {
                menus: generated(self.menu@.menus, index as int, menu::entry_models(entries@)),
                ..self.menu@
            }),
            menu.definitions@.len() == self.menu.definitions@.len(),
            menu.definitions@[index as int].entries == entries,
    {
        let ghost target = generated(self.menu@.menus, index as int, menu::entry_models(entries@));
        let mut definitions: Vec<MenuDefinition> = Vec::new();
        let mut next: usize = 0;
        while next < self.menu.definitions.len()
            invariant
                next <= self.menu.definitions.len(),
                definitions.len() == next,
                forall|i: int|
                    0 <= i < next ==> (#[trigger] definitions@[i]).model()
                        == self.menu.definitions@[i].model(),
            decreases self.menu.definitions.len() - next,
        {
            definitions.push(self.menu.definitions[next].clone());
            next = next + 1;
        }
        let replaced = &self.menu.definitions[index];
        let changed = MenuDefinition {
            id: replaced.id.clone(),
            title: replaced.title.clone(),
            source: MenuSource::Static,
            command: None,
            entries,
        };
        definitions.set(index, changed);
        assert(menu::menu_models(definitions@) =~= target);
        MenuConfig {
            width: self.menu.width,
            row_height: self.menu.row_height,
            max_rows: self.menu.max_rows,
            command_timeout_ms: self.menu.command_timeout_ms,
            definitions,
        }
    }

    /// Accepts the entries that a command generated for a menu, if the complete configuration
    /// with them in place is valid.
    ///
    /// # Errors
    ///
    /// Returns an error for an unknown menu, and otherwise the first problem found.
    pub fn accept_command_menu(&self, menu: &str, entries: Vec<MenuEntry>) -> (accepted: Result<
        Vec<MenuEntry>,
        ConfigError,
    >)
        ensures
            match accepted {
                Ok(accepted) => accepted == entries && self.command_menu_fault(
                    menu@,
                    menu::entry_models(entries@),
                ) is None,
                Err(error) => self.command_menu_fault(menu@, menu::entry_models(entries@)) == Some(
                    error@,
                ),
            },
    {
        match self.menu.find(menu) {
            Some(index) => {
                let mut candidate = self.menus_with(index, entries);
                let malformed = is_malformed_clock(self.panel.clock_format.as_str());
                match self.validate_with(&candidate, malformed) {
                    Ok(_) => Ok(candidate.definitions.remove(index).entries),
                    Err(error) => Err(error),
                }
            },
            None => Err(
                ConfigError::UnknownMenu {
                    context: "command menu output".to_owned(),
                    menu: menu.to_owned(),
                },
            ),
        }
    }

    /// Parses command-menu text and validates it against this complete configuration, with a
    /// decoder that turns the text into entries.
    ///
    /// # Errors
    ///
    /// Returns an error for oversized text, the decoder's error for text that it refuses, and
    /// otherwise the first problem found.
    pub fn parse_command_menu<F: Fn(&str) -> Result<Vec<MenuEntry>, ConfigError>>(
        &self,
        menu: &str,
        source: &str,
        decode: &F,
    ) -> (entries: Result<Vec<MenuEntry>, ConfigError>)
        requires
            call_requires(*decode, (source,)),
        ensures
            text::size(source@) > MAX_COMMAND_MENU_BYTES ==> entries is Err && entries->Err_0@
                == Fault::CommandMenuOutputTooLarge(text::size(source@) as usize),
            text::size(source@) <= MAX_COMMAND_MENU_BYTES ==> exists|
                decoded: Result<Vec<MenuEntry>, ConfigError>,
            | #[trigger]
                call_ensures(*decode, (source,), decoded) && match decoded {
                    Ok(generated) => match entries {
                        Ok(entries) => entries == generated && self.command_menu_fault(
                            menu@,
                            menu::entry_models(generated@),
                        ) is None,
                        Err(error) => self.command_menu_fault(
                            menu@,
                            menu::entry_models(generated@),
                        ) == Some(error@),
                    },
                    Err(error) => entries == Err::<Vec<MenuEntry>, ConfigError>(error),
                },
    {
        let size = byte_size(source);
        if size > MAX_COMMAND_MENU_BYTES {
            return Err(ConfigError::CommandMenuOutputTooLarge(size));
        }
        match decode(source) {
            Ok(generated) => self.accept_command_menu(menu, generated),
            Err(error) => Err(error),
        }
    }
}

/// A configuration without a fault has none with another valid theme.
#[verifier::spinoff_prover]
proof fn lemma_valid_themes_fit(before: Config, after: Config)
    requires
        before.fault() is None,
        after == (Config { theme: after.theme, menu: after.menu, ..before }),
        after.menu@ == before.menu@,
        after.theme@.fault() is None,
    ensures
        after.fault() is None,
{
    assert(after.application_fault() == before.application_fault());
}

/// An imported theme survives its document: whatever decoder takes the fields of the rendered
/// document for what they spell, and leaves the rest of a configuration that is accepted without
/// it, parsing accepts the document and gives the imported theme.
pub proof fn law_rendered_imports_parse_back(
    source: Seq<char>,
    rest: Config,
    accepted: Config,
    decoded: Config,
    outcome: Result<Config, ConfigError>,
)
    requires
        openbox_theme::import_of(source) is Ok,
        Config::parsed_from(Ok::<Config, ConfigError>(rest), Ok::<Config, ConfigError>(accepted)),
        decoded == (Config { theme: decoded.theme, ..rest }),
        theme_document::spells(
            openbox_theme::import_of(source)->Ok_0.theme.document(),
            decoded.theme@,
        ),
        decoded.theme@.agent_marker == theme::ThemeModel::standard().agent_marker,
        Config::parsed_from(Ok::<Config, ConfigError>(decoded), outcome),
    ensures
        outcome matches Ok(config) && config.theme@ == openbox_theme::import_of(source)->Ok_0.theme,
{
    let import = openbox_theme::import_of(source)->Ok_0;
    theme_document::lemma_spelled_imports(source, decoded.theme@);
    let promoted = choose|promoted: Config| #[trigger]
        promoted.promotes(decoded) && match outcome {
            Ok(config) => config == promoted && promoted.fault() is None,
            Err(error) => promoted.fault() == Some(error@),
        };
    assert(accepted.promotes(rest));
    assert(promoted.menu@ == accepted.menu@);
    lemma_valid_themes_fit(accepted, promoted);
}

} // verus!
