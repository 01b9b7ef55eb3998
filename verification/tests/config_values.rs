//! Spellings, documents, and imported themes, on values of their own.

use nobox::config::document::{parent_directory, reselect, resize_names, temporary_name};
use nobox::config::openbox_color::parse_openbox_color;
use nobox::config::openbox_theme::{invalid_value_note, unsupported_color_note};
use nobox::config::wildcard::wildcard_matches;
use nobox::{
    standard_key_bindings, standard_mouse_bindings, Action, ApplicationIdentity, ApplicationKind,
    ApplicationMatcher, ApplicationRule, ApplicationSettings, AxisPosition, Config, ConfigError,
    KeyBinding, KeyChord, KeySequence, LaunchPolicy, MouseButton, MouseChord, MouseModifier,
    OpenboxThemeImport, OpenboxThemeImportError, OutputModeConfig, OutputTarget, Positive,
    PositiveRelativeAmount, RelativeAmount, RgbColor, SettingKey, SettingValue, SettingsDocument,
    SettingsError, ShortcutsConfig, ThemeConfig,
};

fn fraction(numerator: i32, denominator: u32) -> RelativeAmount {
    RelativeAmount::Fraction {
        numerator,
        denominator: Positive::new(denominator).expect("positive"),
    }
}

/// A decoder that takes everything but text in which the word `refused` stands.
fn lenient(source: &str) -> Result<Config, ConfigError> {
    if source.contains("refused") {
        Err(ConfigError::Toml("refused".to_owned()))
    } else {
        Ok(Config::default())
    }
}

#[test]
fn colors_print_as_they_parse() {
    let color: RgbColor = "#0aBc09".parse().expect("color");
    assert_eq!(color.pixel(), 0x000a_bc09);
    assert_eq!(color, RgbColor::new(0x0a, 0xbc, 0x09));
    assert_eq!(color.text(), "#0abc09");
    assert_eq!(color.text().parse::<RgbColor>().expect("color"), color);
    for malformed in ["", "#", "0abc09", "#0abc0", "#0abc099", "#0abc0g", "#+abc09"] {
        assert!(malformed.parse::<RgbColor>().is_err(), "{malformed}");
    }
}

#[test]
fn chords_and_sequences_print_as_they_parse() {
    for (spelling, canonical) in [
        ("Super-Shift-Left", "S-W-Left"),
        ("Ctrl-Alt-Delete", "C-A-Delete"),
        ("a", "a"),
    ] {
        let chord: KeyChord = spelling.parse().expect("chord");
        assert_eq!(chord.text(), canonical);
        assert_eq!(chord.text().parse::<KeyChord>().expect("chord"), chord);
    }
    let sequence: KeySequence = "  W-x   C-c ".parse().expect("sequence");
    assert_eq!(sequence.text(), "W-x C-c");
    assert_eq!(sequence.chords().len(), 2);
    assert_eq!(sequence.text().parse::<KeySequence>().expect("sequence"), sequence);
    assert!("".parse::<KeySequence>().is_err());
    assert!("W-".parse::<KeyChord>().is_err());

    let chord: MouseChord = "Super-Left".parse().expect("mouse chord");
    assert_eq!(chord.button(), MouseButton::Left);
    assert_eq!(chord.text(), "W-Left");
    assert_eq!(chord.text().parse::<MouseChord>().expect("mouse chord"), chord);
}

#[test]
fn amounts_are_whole_numbers_percentages_or_fractions() {
    assert_eq!(RelativeAmount::parse("12").expect("amount"), RelativeAmount::Pixels(12));
    assert_eq!(RelativeAmount::parse("-50%").expect("amount"), fraction(-50, 100));
    assert_eq!(RelativeAmount::parse("2/3").expect("amount"), fraction(2, 3));
    assert!(RelativeAmount::parse("2/0").is_err());
    assert!(RelativeAmount::parse("half").is_err());
    assert_eq!(fraction(2, 3).resolve(100), 66);
    assert_eq!(fraction(-1, 3).resolve(100), -33);
    assert_eq!(fraction(i32::MAX, 1).resolve(u32::MAX), i32::MAX);
    assert_eq!(RelativeAmount::Pixels(-7).resolve(0), -7);
    assert!(PositiveRelativeAmount::try_from(RelativeAmount::Pixels(0)).is_err());
    let quarter = PositiveRelativeAmount::try_from(fraction(1, 4)).expect("positive");
    assert_eq!(quarter.resolve(10), 2);
    assert_eq!(quarter.resolve(1), 1);
}

#[test]
fn positions_and_targets_are_typed() {
    assert_eq!(AxisPosition::parse("center").expect("position"), AxisPosition::Center);
    assert_eq!(
        AxisPosition::parse("10").expect("position"),
        AxisPosition::Start(RelativeAmount::Pixels(10))
    );
    assert_eq!(
        AxisPosition::parse("-10%").expect("position"),
        AxisPosition::End(fraction(10, 100))
    );
    assert!(AxisPosition::parse("middle").is_err());
    assert_eq!(OutputTarget::parse("primary").expect("target"), OutputTarget::Primary);
    assert_eq!(
        OutputTarget::parse("2").expect("target"),
        OutputTarget::Index(Positive::new(2).expect("positive"))
    );
    assert!(OutputTarget::parse("0").is_err());
}

#[test]
fn modes_print_as_they_parse() {
    let mode = OutputModeConfig::parse("2560x1440@59.951", Some(59_951)).expect("mode");
    assert_eq!((mode.width, mode.height), (2_560, 1_440));
    assert_eq!(mode.text(), "2560x1440@59.951");
    let plain = OutputModeConfig::parse("800x600", None).expect("mode");
    assert_eq!(plain.text(), "800x600");
    assert_eq!(OutputModeConfig::refresh_text("800x600@60").as_deref(), Some("60"));
    assert_eq!(OutputModeConfig::refresh_text("800x600"), None);
    for malformed in ["", "800", "800x", "0x600", "800x600x1"] {
        assert!(OutputModeConfig::parse(malformed, None).is_err(), "{malformed}");
    }
}

#[test]
fn wildcards_span_and_ignore_case() {
    assert!(wildcard_matches("*", ""));
    assert!(wildcard_matches("Firefox", "fireFOX"));
    assert!(wildcard_matches("*term?", "xterms"));
    assert!(wildcard_matches("a*b*c", "axxbyyc"));
    assert!(!wildcard_matches("a*b*c", "axxcyyb"));
    assert!(!wildcard_matches("?", ""));
    assert!(!wildcard_matches("term", "xterm"));
}

#[test]
fn later_rules_override_earlier_ones() {
    let rule = |class: &str, shaded: Option<bool>, focus: Option<bool>| ApplicationRule {
        matcher: ApplicationMatcher {
            class: Some(class.to_owned()),
            ..ApplicationMatcher::default()
        },
        settings: ApplicationSettings { shaded, focus, ..ApplicationSettings::default() },
    };
    let mut config = Config::default();
    config.applications = vec![
        rule("*", Some(true), Some(false)),
        rule("xterm", None, Some(true)),
        rule("other", Some(false), None),
    ];
    let identity = ApplicationIdentity {
        name: "",
        class: "XTerm",
        group_name: "",
        group_class: "",
        role: "",
        title: "",
        kind: ApplicationKind::Normal,
    };
    let settings = config.application_settings(identity);
    assert_eq!(settings.shaded, Some(true));
    assert_eq!(settings.focus, Some(true));
    assert_eq!(settings.decorated, None);
}

#[test]
fn own_bindings_replace_inherited_ones() {
    let mut config = Config::default();
    let inherited = standard_key_bindings(&ShortcutsConfig::default());
    assert_eq!(config.effective_key_bindings().len(), inherited.len());
    let replaced = inherited[0].key.clone();
    config.keyboard.bindings = vec![
        KeyBinding { key: replaced.clone(), actions: vec![Action::Kill] },
        KeyBinding { key: "W-F24".parse().expect("key"), actions: vec![Action::Close] },
    ];
    let effective = config.effective_key_bindings();
    assert_eq!(effective.len(), inherited.len() + 1);
    let found: Vec<&KeyBinding> =
        effective.iter().filter(|binding| binding.key == replaced).collect();
    assert_eq!(found.len(), 1);
    assert_eq!(found[0].actions, vec![Action::Kill]);

    config.keyboard.inherit_defaults = false;
    assert_eq!(config.effective_key_bindings().len(), 2);

    let one = standard_mouse_bindings(&[MouseModifier::Super]).len();
    let both = standard_mouse_bindings(&[MouseModifier::Super, MouseModifier::Alt]).len();
    assert!(one < both);
}

#[test]
fn workspace_names_are_kept_or_numbered() {
    let names = vec!["web".to_owned(), "mail".to_owned()];
    assert_eq!(resize_names(&names, 1), ["web"]);
    assert_eq!(resize_names(&names, 4), ["web", "mail", "3", "4"]);
}

#[test]
fn selections_touch_one_entry() {
    let entries = vec!["a.desktop".to_owned(), "b.desktop".to_owned()];
    assert_eq!(
        reselect(&entries, "c.desktop", true).expect("room"),
        ["a.desktop", "b.desktop", "c.desktop"]
    );
    assert_eq!(reselect(&entries, "a.desktop", true).expect("there"), entries);
    assert_eq!(reselect(&entries, "a.desktop", false).expect("gone"), ["b.desktop"]);
    let full: Vec<String> = (0..256).map(|index| format!("{index}.desktop")).collect();
    assert!(matches!(
        reselect(&full, "c.desktop", true),
        Err(ConfigError::TooManyLaunchEntries(257))
    ));
}

#[test]
fn files_are_replaced_from_beside_them() {
    assert_eq!(parent_directory("/etc/nobox/config.toml").expect("parent"), "/etc/nobox");
    assert!(matches!(parent_directory("/"), Err(SettingsError::NoParent(path)) if path == "/"));
    assert_eq!(temporary_name(Some("my.toml"), 42), ".my.toml.nobox-settings-42.tmp");
    assert_eq!(temporary_name(None, 7), ".config.toml.nobox-settings-7.tmp");
}

#[test]
fn edits_keep_comments_and_print_values() {
    let source = "# mine\n[focus] # section\nfocus_new = true # keep\n";
    let mut document = SettingsDocument::parse(source, &lenient).expect("document");
    assert_eq!(document.source(), source);
    document.set(SettingKey::FocusNew, SettingValue::Boolean(false), &lenient).expect("boolean");
    document.set(SettingKey::MarginTop, SettingValue::Integer(7), &lenient).expect("integer");
    document
        .set(SettingKey::TerminalCommand, SettingValue::Text("xterm".to_owned()), &lenient)
        .expect("text");
    document
        .set(
            SettingKey::PanelLaunchers,
            SettingValue::TextList(vec!["a.desktop".to_owned()]),
            &lenient,
        )
        .expect("list");
    let written = document.source();
    assert!(written.contains("# mine"));
    assert!(written.contains("[focus] # section"));
    assert!(written.contains("focus_new = false"));
    assert!(written.contains("top = 7"));
    assert!(written.contains("terminal = \"xterm\""));
    assert!(written.contains("launchers = [\"a.desktop\"]"));
}

#[test]
fn grants_are_appended_and_removed_by_position() {
    let atoms = vec!["observe".to_owned()];
    let mut document = SettingsDocument::parse("# mine\n", &lenient).expect("document");
    document.append_agent_grant("one", "/bin/one", None, &atoms, &lenient).expect("first");
    document.append_agent_grant("two", "/bin/two", Some(5), &atoms, &lenient).expect("second");
    let written = document.source();
    assert!(written.contains("enabled = true"));
    assert_eq!(written.matches("[[agent.grants]]").count(), 2);
    assert!(written.contains("uid = 5"));
    document.remove_agent_grant(0, &lenient).expect("removed");
    let written = document.source();
    assert!(!written.contains("/bin/one"));
    assert!(written.contains("/bin/two"));
    assert!(matches!(
        document.remove_agent_grant(1, &lenient),
        Err(SettingsError::Config(ConfigError::AgentGrantExecutable(2)))
    ));
    assert!(matches!(
        document.append_agent_grant("x", "bin/x", None, &atoms, &lenient),
        Err(SettingsError::Config(ConfigError::AgentGrantExecutable(0)))
    ));
    assert!(matches!(
        document.append_agent_grant("x", "/bin/x", None, &Vec::new(), &lenient),
        Err(SettingsError::Config(ConfigError::AgentGrantWithoutCapabilities(0)))
    ));
    assert_eq!(document.source(), written);
}

#[test]
fn launch_tables_are_made_where_they_are_missing() {
    let mut document = SettingsDocument::parse("", &lenient).expect("document");
    document.set_agent_launch_policy(LaunchPolicy::AllowInstalled, &lenient).expect("policy");
    document.set_agent_launch_user_entries(true, &lenient).expect("user entries");
    let written = document.source();
    assert!(written.contains("[agent.launch]"));
    assert!(written.contains("user_entries = true"));
}

#[test]
fn refused_edits_leave_documents_alone() {
    let source = "commands = 5\nagent = 6\n";
    let mut document = SettingsDocument::parse(source, &lenient).expect("document");
    assert!(matches!(
        document.set(SettingKey::TerminalCommand, SettingValue::Boolean(true), &lenient),
        Err(SettingsError::WrongValueType(SettingKey::TerminalCommand))
    ));
    assert!(matches!(
        document.set(SettingKey::TerminalCommand, SettingValue::Text(String::new()), &lenient),
        Err(SettingsError::NotATable("commands"))
    ));
    assert!(matches!(
        document.set_agent_launch_user_entries(true, &lenient),
        Err(SettingsError::NotATable("agent"))
    ));
    assert!(matches!(
        document.set(SettingKey::Font, SettingValue::Text("refused".to_owned()), &lenient),
        Err(SettingsError::Config(ConfigError::Toml(_)))
    ));
    assert!(matches!(
        document.set_agent_launch_selection("a.desktop", true, &lenient),
        Err(SettingsError::LaunchSelectionWhileDenied)
    ));
    assert!(matches!(
        document.replace_source("not [ toml", &lenient),
        Err(SettingsError::Toml(_))
    ));
    assert!(matches!(
        document.replace_source("refused", &lenient),
        Err(SettingsError::Config(_))
    ));
    assert_eq!(document.source(), source);
    assert!(document.config(&lenient).is_ok());
}

#[test]
fn openbox_colors_come_in_several_forms() {
    assert_eq!(parse_openbox_color("#123").expect("short").pixel(), 0x0011_2233);
    assert_eq!(parse_openbox_color("#a0b0c0").expect("long").pixel(), 0x00a0_b0c0);
    assert_eq!(parse_openbox_color("rgb:ff/00/80").expect("channels").pixel(), 0x00ff_0080);
    assert_eq!(parse_openbox_color("nonsense"), None);
}

#[test]
fn openbox_themes_are_read_line_by_line() {
    let source = "\
! a comment
window.active.border.color: #010203
Border.Width: 3
border.width: 5
unheard.of: 1
no colon here
";
    let import = OpenboxThemeImport::parse(source).expect("import");
    assert_eq!(import.theme.border_width, 5);
    assert_eq!(import.theme.active_border.pixel(), 0x0001_0203);
    assert!(import.theme.validate().is_ok());
    assert!(!import.warnings.is_empty());
    let document = import.to_toml();
    assert!(document.contains("border_width = 5"));
    assert!(document.contains("active_border = \"#010203\""));
    assert!(document.parse::<toml::Table>().is_ok());

    assert!(matches!(
        OpenboxThemeImport::parse(""),
        Err(OpenboxThemeImportError::NoProperties)
    ));
    assert!(matches!(
        OpenboxThemeImport::parse(&"\n".repeat(10_001)),
        Err(OpenboxThemeImportError::TooManyLines(_))
    ));
    assert!(matches!(
        OpenboxThemeImport::parse(&"x".repeat(1_048_577)),
        Err(OpenboxThemeImportError::SourceTooLarge(1_048_577))
    ));
}

#[test]
fn openbox_notes_quote_what_they_refuse() {
    assert_eq!(
        invalid_value_note("border.width", "\"x\""),
        "ignored invalid border.width value \"x\""
    );
    assert_eq!(
        unsupported_color_note("border.color", "\"x\""),
        "ignored unsupported border.color color \"x\""
    );
    let import = OpenboxThemeImport::parse(
        "border.width: a\"b\nwindow.active.border.color: re\\d\nwindow.label.text.justify: left\n",
    )
    .expect("import");
    assert!(import.warnings.contains(&"ignored invalid border.width value \"a\\\"b\"".to_owned()));
    assert!(import.warnings.contains(
        &"ignored unsupported window.active.border.color color \"re\\\\d\"".to_owned()
    ));
}

#[test]
fn themes_print_their_fonts_as_toml_text() {
    let mut theme = ThemeConfig::default();
    theme.font = "a \"quoted\" \\ font".to_owned();
    let import = OpenboxThemeImport { theme, mapped_properties: 1, warnings: Vec::new() };
    let table: toml::Table = import.to_toml().parse().expect("TOML");
    let section = table.get("theme").and_then(toml::Value::as_table).expect("section");
    assert_eq!(
        section.get("font").and_then(toml::Value::as_str),
        Some("a \"quoted\" \\ font")
    );
}

#[test]
fn a_star_accepts_stars_and_everything_else() {
    assert!(wildcard_matches("*", "*scratch*"));
    assert!(wildcard_matches("*", "***"));
    assert!(wildcard_matches("*pad", "*scratch*pad"));
    assert!(wildcard_matches("a*z", "a*z"));
    assert!(wildcard_matches("a*z", "az"));
    assert!(!wildcard_matches("a*z", "a*y"));
}

#[test]
fn only_properties_that_change_the_theme_are_counted() {
    let refused = OpenboxThemeImport::parse("border.width: 999\n").expect("one property");
    assert_eq!(refused.theme, ThemeConfig::default());
    assert_eq!(refused.mapped_properties, 0);
    assert_eq!(refused.warnings.len(), 2);
    assert_eq!(refused.warnings[0], "ignored invalid border.width value \"999\"");
    assert!(refused.warnings[1].starts_with("kept nobox defaults"));

    let import = OpenboxThemeImport::parse(
        "border.width: 3\npadding.width: 65\n*.justify: middle\nborder.color: nonsense\n\
         window.active.label.text.color: white\nwindow.inactive.label.text.color: black\n",
    )
    .expect("properties");
    assert_eq!(import.mapped_properties, 2);
    assert_eq!(import.theme.border_width, 3);
    assert_eq!(import.theme.title_text.pixel(), 0x00ff_ffff);
    assert_eq!(import.theme.agent_marker, ThemeConfig::default().agent_marker);
    assert!(import.warnings.iter().all(|note| !note.contains("without a nobox equivalent")));

    let compared =
        OpenboxThemeImport::parse("window.inactive.label.text.color: black\n").expect("one");
    assert_eq!(compared.mapped_properties, 0);
    assert_eq!(compared.warnings.len(), 2);
    assert!(compared.warnings[0].starts_with("window.inactive.label.text.color differs"));

    let unknown = OpenboxThemeImport::parse(
        "window.*.border.color: #010203\nborder.color: #040506\nmenu.items.bg.color: grey85\n",
    )
    .expect("three properties");
    assert_eq!(unknown.mapped_properties, 1);
    assert!(unknown
        .warnings
        .contains(&"ignored 2 Openbox property/properties without a nobox equivalent".to_owned()));

    let shared = OpenboxThemeImport::parse("border.color: #010203\n").expect("one property");
    assert_eq!(shared.mapped_properties, 1);
    assert_eq!(shared.theme.active_border, shared.theme.inactive_border);
}

#[test]
fn rendered_themes_differ_where_imported_themes_do() {
    let render = |source: &str| OpenboxThemeImport::parse(source).expect("import").to_toml();
    let plain = render("border.width: 2\n");
    assert_ne!(plain, render("border.width: 3\n"));
    assert_ne!(plain, render("*.justify: right\n"));
    assert_ne!(plain, render("window.active.label.text.color: black\n"));
    assert_eq!(plain, render("unheard.of: 1\n"));
}
