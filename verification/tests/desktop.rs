//! Desktop entries and the catalog of applications.

use nobox::desktop::command::parse_exec;
use nobox::desktop::entry::{unescape_string, DesktopEntry};
use nobox::desktop::environment::{
    current_desktops, data_directories, desktop_id, executable_candidates, locale_candidates,
};
use nobox::{ApplicationCatalog, ApplicationCategory, DesktopFile};

/// The files of one applications directory, by their paths below it.
fn directory(files: &[(&str, &str)]) -> Vec<DesktopFile> {
    let mut files: Vec<(&str, &str)> = files.to_vec();
    files.sort();
    files
        .into_iter()
        .map(|(relative, source)| DesktopFile {
            desktop_id: Some(desktop_id(relative)),
            path: Some(format!("/apps/{relative}")),
            source: Some(source.to_owned()),
            available: false,
        })
        .collect()
}

fn catalog(directories: &[Vec<DesktopFile>]) -> ApplicationCatalog {
    ApplicationCatalog::from_directories(
        directories,
        &["nb_NO".to_owned(), "nb".to_owned()],
        &["nobox".to_owned()],
    )
}

#[test]
fn localized_entries_are_categorized_sorted_and_expanded_without_a_shell() {
    let catalog = catalog(&[directory(&[
        (
            "z.desktop",
            "[Desktop Entry]\nType=Application\nName=Zulu\nExec=viewer %F\nCategories=Graphics;\n",
        ),
        (
            "a.desktop",
            "[Desktop Entry]\nType=Application\nName=Alpha\nName[nb]=Alfa\nIcon=alpha\nExec=alpha --name %c %i %%\nCategories=Utility;\nStartupNotify=true\nStartupWMClass=Alpha\n",
        ),
    ])]);

    assert_eq!(catalog.application_count(), 2);
    assert_eq!(
        catalog.groups()[0].category,
        ApplicationCategory::Accessories
    );
    let application = &catalog.groups()[0].applications[0];
    assert_eq!(application.name, "Alfa");
    assert_eq!(
        application.command.argv(),
        ["alpha", "--name", "Alfa", "--icon", "alpha", "%"]
    );
    assert!(application.startup_notify);
    assert_eq!(application.startup_wm_class.as_deref(), Some("Alpha"));
    assert_eq!(catalog.groups()[1].category, ApplicationCategory::Graphics);
}

#[test]
fn user_hidden_entry_shadows_a_system_application() {
    let user = directory(&[(
        "nested/tool.desktop",
        "[Desktop Entry]\nType=Application\nName=Hidden\nExec=hidden\nHidden=true\n",
    )]);
    let system = directory(&[(
        "nested/tool.desktop",
        "[Desktop Entry]\nType=Application\nName=Visible\nExec=visible\n",
    )]);

    let catalog = catalog(&[user, system]);

    assert_eq!(catalog.application_count(), 0);
    assert_eq!(catalog.skipped_files(), 1);
}

#[test]
fn visibility_and_try_exec_are_enforced() {
    let catalog = catalog(&[directory(&[
        (
            "allowed.desktop",
            "[Desktop Entry]\nType=Application\nName=Allowed\nExec=allowed\nOnlyShowIn=nobox;\n",
        ),
        (
            "blocked.desktop",
            "[Desktop Entry]\nType=Application\nName=Blocked\nExec=blocked\nNotShowIn=nobox;\n",
        ),
        (
            "missing.desktop",
            "[Desktop Entry]\nType=Application\nName=Missing\nExec=missing\nTryExec=definitely-not-installed\n",
        ),
    ])]);

    assert_eq!(catalog.application_count(), 1);
    assert_eq!(catalog.groups()[0].applications[0].name, "Allowed");
}

#[test]
fn malformed_or_hostile_exec_values_are_rejected() {
    let catalog = catalog(&[directory(&[
        (
            "quote.desktop",
            "[Desktop Entry]\nType=Application\nName=Quote\nExec=tool \"unterminated\n",
        ),
        (
            "field.desktop",
            "[Desktop Entry]\nType=Application\nName=Field\nExec=tool %Z\n",
        ),
    ])]);

    assert_eq!(catalog.application_count(), 0);
    assert_eq!(catalog.skipped_files(), 2);
}

#[test]
fn applications_are_sorted_by_name_whatever_its_case() {
    let entry = |name: &str| format!("[Desktop Entry]\nType=Application\nName={name}\nExec=x\n");
    let sources = [entry("beta"), entry("Alpha"), entry("ÉTUDE"), entry("étage"), entry("alpha")];
    let files: Vec<DesktopFile> = sources
        .iter()
        .enumerate()
        .map(|(index, source)| DesktopFile {
            desktop_id: Some(format!("{index}.desktop")),
            path: None,
            source: Some(source.clone()),
            available: true,
        })
        .collect();
    let catalog = catalog(&[files]);
    let names: Vec<&str> = catalog.groups()[0]
        .applications
        .iter()
        .map(|application| application.name.as_str())
        .collect();
    assert_eq!(names, ["Alpha", "alpha", "beta", "étage", "ÉTUDE"]);
    assert_eq!(catalog.groups()[0].category, ApplicationCategory::Other);
    assert_eq!(catalog.groups()[0].category.title(), "Other");
}

#[test]
fn files_that_cannot_be_read_are_counted() {
    let mut files = directory(&[(
        "tool.desktop",
        "[Desktop Entry]\nType=Application\nName=Tool\nExec=tool\n",
    )]);
    files.push(DesktopFile { desktop_id: None, path: None, source: None, available: false });
    files.push(DesktopFile {
        desktop_id: Some("unreadable.desktop".to_owned()),
        path: None,
        source: None,
        available: false,
    });
    let catalog = catalog(&[files]);
    assert_eq!(catalog.application_count(), 1);
    assert_eq!(catalog.skipped_files(), 2);
    assert_eq!(ApplicationCatalog::default().application_count(), 0);
}

#[test]
fn no_more_files_are_looked_at_than_the_limit() {
    let source = "[Desktop Entry]\nType=Application\nName=Tool\nExec=tool\n";
    let files = |from: usize, count: usize| -> Vec<DesktopFile> {
        (from..from + count)
            .map(|index| DesktopFile {
                desktop_id: Some(format!("{index:05}.desktop")),
                path: None,
                source: Some(source.to_owned()),
                available: true,
            })
            .collect()
    };
    let catalog = catalog(&[files(0, 4_000), files(4_000, 200), files(5_000, 5)]);
    assert_eq!(catalog.application_count(), 4_096);
}

#[test]
fn commands_are_cut_like_command_lines() {
    let argv = |value: &str| parse_exec(value, "Name", Some("icon"), Some("/apps/x.desktop"));
    assert_eq!(
        argv("tool \"two words\" back\\ slash %k").expect("valid"),
        ["tool", "two words", "back slash", "/apps/x.desktop"]
    );
    assert_eq!(argv("tool  plain\twords").expect("valid"), ["tool", "plain", "words"]);
    assert_eq!(argv("tool %U %i").expect("valid"), ["tool", "--icon", "icon"]);
    assert_eq!(argv("tool a%%b%cc").expect("valid"), ["tool", "a%bNamec"]);
    assert_eq!(argv("tool trailing\\"), None);
    assert_eq!(argv("tool 100%"), None);
    assert_eq!(argv("tool x%i"), None);
    assert_eq!(argv(""), None);
    assert_eq!(argv("%f"), None);
    assert_eq!(parse_exec("tool %k", "Name", None, None), None);
    assert_eq!(parse_exec("tool %i", "Name", None, None).expect("valid"), ["tool"]);
}

#[test]
fn commands_are_bounded() {
    let many = "a ".repeat(257);
    assert_eq!(parse_exec(&many, "Name", None, None), None);
    assert_eq!(parse_exec(&"a ".repeat(256), "Name", None, None).expect("valid").len(), 256);
    let long = format!("tool {}", "x".repeat(16_381));
    assert_eq!(parse_exec(&long, "Name", None, None), None);
    let fits = format!("tool {}", "x".repeat(16_380));
    assert!(parse_exec(&fits, "Name", None, None).is_some());
}

#[test]
fn entries_keep_the_first_definition_of_their_own_group() {
    let entry = DesktopEntry::parse(
        "# comment\n[Other]\nName=Elsewhere\nnot a field\n[Desktop Entry]\r\nName=First\r\nName=Second\r\n\n[More]\nName=Third\n",
    )
    .expect("valid entry");
    assert_eq!(entry.get("Name"), Some("First"));
    assert_eq!(entry.get("Exec"), None);
    assert!(DesktopEntry::parse("[Desktop Entry]\nno field\n").is_none());
    assert!(DesktopEntry::parse("[Desktop Entry]\n=value\n").is_none());
    let long = format!("[Desktop Entry]\n{}=value\n", "k".repeat(256));
    assert!(DesktopEntry::parse(&long).is_none());
}

#[test]
fn names_are_translated_and_unescaped() {
    let entry = DesktopEntry::parse(
        "[Desktop Entry]\nName=Plain\\sname\nName[nb]=Norsk\\tnavn\nComment=bad\\q\n",
    )
    .expect("valid entry");
    let locales = ["nb_NO".to_owned(), "nb".to_owned()];
    assert_eq!(entry.localized_value("Name", &locales).as_deref(), Some("Norsk\tnavn"));
    assert_eq!(entry.localized_value("Name", &[]).as_deref(), Some("Plain name"));
    assert_eq!(entry.localized_value("Comment", &locales), None);
    assert_eq!(unescape_string("a\\\\b\\n\\r"), Some("a\\b\n\r".to_owned()));
    assert_eq!(unescape_string("open\\"), None);
    assert_eq!(unescape_string("untouched"), Some("untouched".to_owned()));
}

#[test]
fn entries_are_hidden_unless_they_are_visible_applications() {
    let base = "[Desktop Entry]\nType=Application\nName=Tool\nExec=tool\n";
    let application = |more: &str, available: bool| {
        DesktopEntry::parse(&format!("{base}{more}")).expect("valid entry").application(
            "tool.desktop".to_owned(),
            None,
            &[],
            &["nobox".to_owned()],
            available,
        )
    };
    assert!(application("", false).is_some());
    assert!(application("NoDisplay=TRUE\n", false).is_none());
    assert!(application("Hidden=true\n", false).is_none());
    assert!(application("OnlyShowIn=GNOME;KDE;\n", false).is_none());
    assert!(application("OnlyShowIn=;\n", false).is_some());
    assert!(application("OnlyShowIn=GNOME;NoBox;\n", false).is_some());
    assert!(application("NotShowIn=GNOME;\n", false).is_some());
    assert!(application("TryExec=tool\n", false).is_none());
    let found = application("TryExec=tool\nTerminal=true\nPath=/srv\n", true).expect("visible");
    assert!(found.command.requires_terminal());
    assert_eq!(found.command.working_directory(), Some("/srv"));
    assert_eq!(found.icon, None);
}

#[test]
fn the_environment_names_directories_desktops_and_languages() {
    assert_eq!(
        data_directories(None, Some("/home/me"), None),
        [
            "/home/me/.local/share/applications",
            "/usr/local/share/applications",
            "/usr/share/applications",
        ]
    );
    assert_eq!(
        data_directories(Some("/data/"), Some("/home/me"), Some("/a:/b")),
        ["/data/applications", "/a/applications", "/b/applications"]
    );
    assert_eq!(
        data_directories(Some(""), Some("/home/me"), Some("")),
        ["/usr/local/share/applications", "/usr/share/applications"]
    );
    assert_eq!(current_desktops(None), ["nobox"]);
    assert_eq!(current_desktops(Some("GNOME::X")), ["GNOME", "X", "nobox"]);
    assert_eq!(current_desktops(Some("NoBox:X")), ["NoBox", "X"]);
    assert_eq!(locale_candidates(None, Some(""), Some("nb_NO.UTF-8")), ["nb_NO", "nb"]);
    assert_eq!(
        locale_candidates(Some("sr_RS.UTF-8@latin"), Some("de"), None),
        ["sr_RS@latin", "sr_RS", "sr@latin", "sr"]
    );
    assert_eq!(locale_candidates(None, None, Some("C")), ["C"]);
    assert!(locale_candidates(None, None, None).is_empty());
}

#[test]
fn programs_are_looked_for_where_they_can_be() {
    let directories = ["/bin".to_owned(), "/usr/bin/".to_owned()];
    assert_eq!(executable_candidates("tool", &directories), ["/bin/tool", "/usr/bin/tool"]);
    assert_eq!(executable_candidates("/opt/tool", &directories), ["/opt/tool"]);
    assert_eq!(executable_candidates("./tool", &directories), ["./tool"]);
    assert!(executable_candidates("tool", &[]).is_empty());
    assert_eq!(desktop_id("a/b//c.desktop"), "a-b-c.desktop");
    assert_eq!(desktop_id("tool.desktop"), "tool.desktop");
}
