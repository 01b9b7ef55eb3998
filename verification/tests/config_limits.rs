//! What a configuration is refused for, one value at a time.

use nobox::config::document::check_source;
use nobox::config::paths::state_path_beside;
use nobox::{
    config_dir, config_path, state_path, Action, ActionQuery, ActionQueryWorkspace, AgentGrant,
    Capability, Config, ConfigError, GrantedCapability, KeyBinding, KeyChord, KeySequence,
    MenuDefinition, MenuEntry, MenuSource, MouseBinding, MouseBindingSelector, MouseButton,
    MouseChord, MouseContext, MouseTrigger, OutputConfig, OutputPosition, PanelItem, Positive,
    SettingsError, StartupNotification,
};

fn refused(change: impl FnOnce(&mut Config)) -> ConfigError {
    let mut config = Config::default();
    change(&mut config);
    config.validate().expect_err("refused")
}

fn accepted(change: impl FnOnce(&mut Config)) {
    let mut config = Config::default();
    change(&mut config);
    config.validate().expect("accepted");
}

fn key(sequence: &str) -> KeySequence {
    sequence.parse().expect("key sequence")
}

fn bind(config: &mut Config, action: Action) {
    config.keyboard.bindings = vec![KeyBinding { key: key("W-F12"), actions: vec![action] }];
}

fn menu(id: &str, entries: Vec<MenuEntry>) -> MenuDefinition {
    MenuDefinition {
        id: id.to_owned(),
        title: "Title".to_owned(),
        source: MenuSource::Static,
        command: None,
        entries,
    }
}

fn item(label: &str, actions: Vec<Action>) -> MenuEntry {
    MenuEntry::Item { label: label.to_owned(), actions }
}

/// Adds a menu beside those that the standard bindings lead to.
fn add_menu(config: &mut Config, definition: MenuDefinition) {
    config.menu.definitions.push(definition);
}

fn grant() -> AgentGrant {
    AgentGrant {
        label: String::new(),
        executable: "/usr/bin/agent".to_owned(),
        uid: None,
        capabilities: vec![GrantedCapability::Atom(
            "observe.titles".to_owned(),
            Capability::ObserveTitles,
        )],
        scope: None,
    }
}

fn output(name: &str) -> OutputConfig {
    OutputConfig { name: name.to_owned(), ..OutputConfig::default() }
}

#[test]
fn the_values_that_nobox_ships_with_are_valid() {
    accepted(|_| {});
}

#[test]
fn menus_are_bounded() {
    assert!(matches!(refused(|c| c.menu.width = 159), ConfigError::InvalidMenuWidth(159)));
    assert!(matches!(refused(|c| c.menu.row_height = 15), ConfigError::InvalidMenuRowHeight(15)));
    assert!(matches!(
        refused(|c| add_menu(c, menu("bad id", vec![item("x", vec![Action::Close])]))),
        ConfigError::InvalidMenuId(_)
    ));
    assert!(matches!(
        refused(|c| {
            add_menu(c, menu("twice", vec![item("x", vec![Action::Close])]));
            add_menu(c, menu("twice", vec![item("x", vec![Action::Close])]));
        }),
        ConfigError::DuplicateMenuId(id) if id == "twice"
    ));
    assert!(matches!(
        refused(|c| {
            let mut untitled = menu("untitled", vec![item("x", vec![Action::Close])]);
            untitled.title = "  ".to_owned();
            add_menu(c, untitled);
        }),
        ConfigError::InvalidMenuTitle(id) if id == "untitled"
    ));
    assert!(matches!(
        refused(|c| add_menu(c, menu("empty", Vec::new()))),
        ConfigError::EmptyMenu(id) if id == "empty"
    ));
    assert!(matches!(
        refused(|c| {
            let entries = (0..257).map(|_| item("x", vec![Action::Close])).collect();
            add_menu(c, menu("long", entries));
        }),
        ConfigError::TooManyMenuEntries { menu, count: 257 } if menu == "long"
    ));
    assert!(matches!(
        refused(|c| add_menu(c, menu("label", vec![item("", vec![Action::Close])]))),
        ConfigError::InvalidMenuLabel { menu, entry: 1 } if menu == "label"
    ));
    assert!(matches!(
        refused(|c| {
            let actions = (0..17).map(|_| Action::Close).collect();
            add_menu(c, menu("busy", vec![item("x", actions)]));
        }),
        ConfigError::TooManyMenuEntryActions { menu, entry: 1, count: 17 } if menu == "busy"
    ));
    assert!(matches!(
        refused(|c| {
            for index in 0..65 {
                let id = format!("menu{index}");
                add_menu(c, menu(&id, vec![item("x", vec![Action::Close])]));
            }
        }),
        ConfigError::TooManyMenus(_)
    ));
}

#[test]
fn panels_are_bounded() {
    assert!(matches!(refused(|c| c.panel.padding = 49), ConfigError::InvalidPanelPadding(49)));
    assert!(matches!(refused(|c| c.panel.spacing = 33), ConfigError::InvalidPanelSpacing(33)));
    assert!(matches!(refused(|c| c.panel.items = Vec::new()), ConfigError::InvalidPanelItems(0)));
    assert!(matches!(
        refused(|c| c.panel.launchers = (0..33).map(|i| format!("{i}.desktop")).collect()),
        ConfigError::TooManyPanelLaunchers(33)
    ));
    assert!(matches!(
        refused(|c| c.panel.launchers = vec!["a.desktop".to_owned(), "a.desktop".to_owned()]),
        ConfigError::DuplicatePanelLauncher(name) if name == "a.desktop"
    ));
    for format in ["%", "%H:%M:%Q", "%:", "%-"] {
        assert!(matches!(
            refused(|c| c.panel.clock_format = format.to_owned()),
            ConfigError::InvalidPanelClockFormat
        ));
    }
    for format in ["%H:%M", "%Y-%m-%d %T", "plain", "100%%"] {
        accepted(|c| c.panel.clock_format = format.to_owned());
    }
    accepted(|c| c.panel.items = vec![PanelItem::Clock]);
}

#[test]
fn pointer_bindings_are_bounded() {
    assert!(matches!(refused(|c| c.mouse.move_button = 6), ConfigError::InvalidMouseButton(6)));
    let binding = |index: usize| MouseBinding {
        context: MouseContext::Root,
        button: MouseChord::new(&[], MouseButton::Left),
        trigger: MouseTrigger::Press,
        actions: (0..index).map(|_| Action::Close).collect(),
    };
    assert!(matches!(
        refused(|c| c.mouse.bindings = (0..257).map(|_| binding(1)).collect()),
        ConfigError::TooManyMouseBindings(257)
    ));
    assert!(matches!(
        refused(|c| c.mouse.bindings = vec![binding(17)]),
        ConfigError::TooManyMouseBindingActions { count: 17, .. }
    ));
    assert!(matches!(
        refused(|c| {
            c.mouse.disabled_bindings = (0..257)
                .map(|_| MouseBindingSelector {
                    context: MouseContext::Root,
                    button: MouseChord::new(&[], MouseButton::Left),
                    trigger: MouseTrigger::Press,
                })
                .collect();
        }),
        ConfigError::TooManyDisabledMouseBindings(257)
    ));
}

#[test]
fn key_bindings_are_bounded() {
    assert!(matches!(
        refused(|c| {
            c.keyboard.bindings = (0..257)
                .map(|index| KeyBinding {
                    key: key(&format!("W-k{index}")),
                    actions: vec![Action::Close],
                })
                .collect();
        }),
        ConfigError::TooManyKeyBindings(_)
    ));
    assert!(matches!(
        refused(|c| c.keyboard.disabled_bindings = (0..257).map(|_| key("W-F12")).collect()),
        ConfigError::TooManyDisabledKeyBindings(257)
    ));
    assert!(matches!(
        refused(|c| c.keyboard.disabled_bindings = vec![key("W-F12"), key("Super-F12")]),
        ConfigError::DuplicateDisabledKeyBinding(name) if name == "W-F12"
    ));
    assert!(matches!(
        refused(|c| {
            c.keyboard.bindings = vec![KeyBinding {
                key: key("W-a b c d e f g h i"),
                actions: vec![Action::Close],
            }];
        }),
        ConfigError::KeySequenceTooLong { length: 9, .. }
    ));
    assert!(matches!(
        refused(|c| {
            c.keyboard.bindings = vec![KeyBinding {
                key: key("W-F12"),
                actions: (0..17).map(|_| Action::Close).collect(),
            }];
        }),
        ConfigError::TooManyBindingActions { count: 17, .. }
    ));
}

#[test]
fn actions_are_checked_where_they_stand() {
    let execute = |command: &str, prompt: Option<&str>, class: Option<&str>| Action::Execute {
        command: command.to_owned(),
        prompt: prompt.map(str::to_owned),
        startup_notify: class.map(|class| StartupNotification {
            name: None,
            icon: None,
            wm_class: Some(class.to_owned()),
        }),
    };
    assert!(matches!(
        refused(|c| bind(c, execute(" ", None, None))),
        ConfigError::InvalidCommand(_)
    ));
    assert!(matches!(
        refused(|c| bind(c, execute("nul\0", None, None))),
        ConfigError::InvalidCommand(_)
    ));
    assert!(matches!(
        refused(|c| bind(c, execute("x", Some(""), None))),
        ConfigError::InvalidExecutePrompt(_)
    ));
    assert!(matches!(
        refused(|c| bind(c, execute("x", None, Some("")))),
        ConfigError::InvalidStartupNotification(_)
    ));
    let query = ActionQuery {
        workspace: Positive::new(9).map(ActionQueryWorkspace::Number),
        ..ActionQuery::default()
    };
    assert!(matches!(
        refused(|c| bind(
            c,
            Action::If {
                queries: vec![query],
                then_actions: vec![Action::Close],
                else_actions: Vec::new(),
            }
        )),
        ConfigError::InvalidActionQueryWorkspace { workspace: 9, .. }
    ));
    accepted(|c| bind(c, execute("xterm", Some("Sure?"), Some("XTerm"))));
}

#[test]
fn themes_and_workspaces_are_bounded() {
    assert!(matches!(refused(|c| c.theme.border_width = 65), ConfigError::BorderTooWide(65)));
    assert!(matches!(
        refused(|c| c.workspaces.names = Vec::new()),
        ConfigError::NoWorkspaces
    ));
    assert!(matches!(
        refused(|c| c.workspaces.names = (0..33).map(|i| i.to_string()).collect()),
        ConfigError::TooManyWorkspaces(33)
    ));
    assert!(matches!(
        refused(|c| c.workspaces.names[1] = "\t".to_owned()),
        ConfigError::InvalidWorkspaceName(2)
    ));
}

#[test]
fn outputs_are_bounded_and_unambiguous() {
    assert!(matches!(
        refused(|c| c.outputs.entries = (0..33).map(|i| output(&format!("DP-{i}"))).collect()),
        ConfigError::TooManyOutputs(33)
    ));
    assert!(matches!(
        refused(|c| c.outputs.entries = vec![output("DP/1")]),
        ConfigError::InvalidOutputName(1)
    ));
    assert!(matches!(
        refused(|c| c.outputs.entries = vec![output("DP-1"), output("DP-1")]),
        ConfigError::DuplicateOutputName(name) if name == "DP-1"
    ));
    assert!(matches!(
        refused(|c| {
            c.outputs.entries = vec![output("DP-1"), output("DP-2")];
            c.outputs.entries[0].primary = true;
            c.outputs.entries[1].primary = true;
        }),
        ConfigError::MultiplePrimaryOutputs { .. }
    ));
    assert!(matches!(
        refused(|c| {
            c.outputs.entries = vec![output("DP-1")];
            c.outputs.entries[0].primary = true;
            c.outputs.entries[0].enabled = false;
        }),
        ConfigError::DisabledPrimaryOutput(name) if name == "DP-1"
    ));
    assert!(matches!(
        refused(|c| {
            c.outputs.entries = vec![output("DP-1")];
            c.outputs.entries[0].position = Some(OutputPosition { x: 0, y: -1_000_001 });
        }),
        ConfigError::OutputPositionOutOfRange(name) if name == "DP-1"
    ));
}

#[test]
fn agent_lists_are_bounded() {
    assert!(matches!(
        refused(|c| c.agent.grants = (0..65).map(|_| grant()).collect()),
        ConfigError::TooManyAgentGrants(65)
    ));
    assert!(matches!(
        refused(|c| c.agent.launch.allow = (0..257).map(|i| format!("{i}.desktop")).collect()),
        ConfigError::TooManyLaunchEntries(257)
    ));
    accepted(|c| c.agent.grants = vec![grant()]);
    assert_eq!(grant().capabilities[0].as_str(), "observe.titles");
}

#[test]
fn key_chords_that_differ_only_in_spelling_are_one_binding() {
    let chord: KeyChord = "W-F12".parse().expect("chord");
    assert_eq!(chord, "Super-F12".parse().expect("chord"));
    assert!(matches!(
        refused(|c| {
            c.keyboard.bindings = vec![
                KeyBinding { key: key("W-F12"), actions: vec![Action::Close] },
                KeyBinding { key: key("super-F12"), actions: vec![Action::Kill] },
            ];
        }),
        ConfigError::DuplicateKeyBinding(name) if name == "W-F12"
    ));
}

#[test]
fn configuration_and_state_have_homes() {
    assert_eq!(config_dir(Some("/cfg"), Some("/home/me")).expect("set"), "/cfg/nobox");
    assert_eq!(config_dir(None, Some("/home/me")).expect("set"), "/home/me/.config/nobox");
    assert_eq!(config_dir(Some(""), Some("/home/me")).expect("set"), "/home/me/.config/nobox");
    assert!(matches!(config_dir(None, Some("")), Err(ConfigError::NoConfigHome)));
    assert_eq!(config_path(None, Some("/cfg"), None).expect("set"), "/cfg/nobox/config.toml");
    assert_eq!(config_path(Some("/x.toml"), None, None).expect("set"), "/x.toml");
    assert!(matches!(config_path(None, None, None), Err(ConfigError::NoConfigHome)));
    assert!(matches!(state_path(None, None, None, None), Err(ConfigError::NoStateHome)));
    assert_eq!(
        state_path(Some("/s.toml"), Some("/etc/nobox.toml"), None, None).expect("set"),
        "/s.toml"
    );
    assert_eq!(
        state_path(None, Some("/etc/nobox/config.toml"), Some("/state"), None).expect("set"),
        "/etc/nobox/session.toml"
    );
    assert_eq!(state_path(None, Some("config.toml"), None, None).expect("set"), "session.toml");
    assert_eq!(
        state_path(None, Some(""), Some("/state"), None).expect("set"),
        "/state/nobox/session.toml"
    );
    assert_eq!(
        state_path(None, None, None, Some("/home/me")).expect("set"),
        "/home/me/.local/state/nobox/session.toml"
    );
    assert_eq!(
        state_path_beside(None, Some("/x"), Some("/srv"), None, None).expect("set"),
        "/srv/session.toml"
    );
}

#[test]
fn sources_are_checked_for_their_size_first() {
    let decode = |_: &str| -> Result<Config, ConfigError> { Ok(Config::default()) };
    assert!(check_source(&"#".repeat(1_048_576), &decode).is_ok());
    assert!(matches!(
        check_source(&"#".repeat(1_048_577), &decode),
        Err(SettingsError::TooLarge(1_048_577))
    ));
    let broken = |_: &str| -> Result<Config, ConfigError> {
        Err(ConfigError::Toml("broken".to_owned()))
    };
    assert!(matches!(
        check_source("", &broken),
        Err(SettingsError::Config(ConfigError::Toml(message))) if message == "broken"
    ));
}
