//! Applications that desktop entries describe.

use vstd::prelude::*;

use crate::desktop::command;
use crate::desktop::command::parse_exec;
use crate::desktop::entry;
use crate::desktop::entry::{desktop_list, DesktopEntry, Values};
use crate::text;
use crate::text::{byte_size, has_control, spells};

verus! {

/// Maximum number of bytes in a desktop file.
pub const MAX_DESKTOP_FILE_BYTES: u64 = 262_144;

/// One conventional top-level application category.
#[derive(Clone, Copy, Debug, PartialEq, Eq, PartialOrd, Ord, Structural)]
pub enum ApplicationCategory {
    /// Utilities and accessories.
    Accessories,
    /// Software development tools.
    Development,
    /// Educational applications.
    Education,
    /// Games.
    Games,
    /// Graphics applications.
    Graphics,
    /// Network and Internet applications.
    Internet,
    /// Audio and video applications.
    Multimedia,
    /// Office applications.
    Office,
    /// Scientific applications.
    Science,
    /// Settings and system administration.
    System,
    /// Applications without a recognized main category.
    Other,
}

impl ApplicationCategory {
    /// The user-visible title.
    pub open spec fn name(self) -> Seq<char> {
        match self {
            ApplicationCategory::Accessories => "Accessories"@,
            ApplicationCategory::Development => "Development"@,
            ApplicationCategory::Education => "Education"@,
            ApplicationCategory::Games => "Games"@,
            ApplicationCategory::Graphics => "Graphics"@,
            ApplicationCategory::Internet => "Internet"@,
            ApplicationCategory::Multimedia => "Multimedia"@,
            ApplicationCategory::Office => "Office"@,
            ApplicationCategory::Science => "Science"@,
            ApplicationCategory::System => "System"@,
            ApplicationCategory::Other => "Other"@,
        }
    }

    /// The place of the category among all.
    pub open spec fn order(self) -> int {
        match self {
            ApplicationCategory::Accessories => 0,
            ApplicationCategory::Development => 1,
            ApplicationCategory::Education => 2,
            ApplicationCategory::Games => 3,
            ApplicationCategory::Graphics => 4,
            ApplicationCategory::Internet => 5,
            ApplicationCategory::Multimedia => 6,
            ApplicationCategory::Office => 7,
            ApplicationCategory::Science => 8,
            ApplicationCategory::System => 9,
            ApplicationCategory::Other => 10,
        }
    }

    /// Returns the stable user-visible category title.
    #[must_use]
    pub fn title(self) -> (title: &'static str)
        ensures
            title@ == self.name(),
    {
        match self {
            ApplicationCategory::Accessories => "Accessories",
            ApplicationCategory::Development => "Development",
            ApplicationCategory::Education => "Education",
            ApplicationCategory::Games => "Games",
            ApplicationCategory::Graphics => "Graphics",
            ApplicationCategory::Internet => "Internet",
            ApplicationCategory::Multimedia => "Multimedia",
            ApplicationCategory::Office => "Office",
            ApplicationCategory::Science => "Science",
            ApplicationCategory::System => "System",
            ApplicationCategory::Other => "Other",
        }
    }

    /// Returns the place of the category among all.
    pub(crate) fn place(self) -> (place: u8)
        ensures
            place == self.order(),
    {
        match self {
            ApplicationCategory::Accessories => 0,
            ApplicationCategory::Development => 1,
            ApplicationCategory::Education => 2,
            ApplicationCategory::Games => 3,
            ApplicationCategory::Graphics => 4,
            ApplicationCategory::Internet => 5,
            ApplicationCategory::Multimedia => 6,
            ApplicationCategory::Office => 7,
            ApplicationCategory::Science => 8,
            ApplicationCategory::System => 9,
            ApplicationCategory::Other => 10,
        }
    }
}

/// The category that the first known name of a list gives, in the order of the names here.
pub open spec fn category_of(categories: Seq<Seq<char>>) -> ApplicationCategory {
    if categories.contains("Utility"@) {
        ApplicationCategory::Accessories
    } else if categories.contains("Development"@) {
        ApplicationCategory::Development
    } else if categories.contains("Education"@) {
        ApplicationCategory::Education
    } else if categories.contains("Game"@) {
        ApplicationCategory::Games
    } else if categories.contains("Graphics"@) {
        ApplicationCategory::Graphics
    } else if categories.contains("Network"@) {
        ApplicationCategory::Internet
    } else if categories.contains("AudioVideo"@) || categories.contains("Audio"@)
        || categories.contains("Video"@) {
        ApplicationCategory::Multimedia
    } else if categories.contains("Office"@) {
        ApplicationCategory::Office
    } else if categories.contains("Science"@) {
        ApplicationCategory::Science
    } else if categories.contains("Settings"@) || categories.contains("System"@) {
        ApplicationCategory::System
    } else {
        ApplicationCategory::Other
    }
}

/// What an application is.
pub ghost struct ApplicationModel {
    pub desktop_id: Seq<char>,
    pub name: Seq<char>,
    pub icon: Option<Seq<char>>,
    pub category: ApplicationCategory,
    pub argv: Seq<Seq<char>>,
    pub terminal: bool,
    pub working_directory: Option<Seq<char>>,
    pub startup_notify: bool,
    pub startup_wm_class: Option<Seq<char>>,
}

/// Text that is there and not empty, up to a number of bytes.
pub open spec fn bounded(value: Option<Seq<char>>, limit: nat) -> Option<Seq<char>> {
    match value {
        Some(value) => if value.len() > 0 && text::size(value) <= limit {
            Some(value)
        } else {
            None
        },
        None => None,
    }
}

/// Text that is there and not empty.
pub open spec fn nonempty(value: Option<Seq<char>>) -> Option<Seq<char>> {
    match value {
        Some(value) => if value.len() > 0 {
            Some(value)
        } else {
            None
        },
        None => None,
    }
}

/// Whether a name can be shown.
pub open spec fn is_name(name: Seq<char>) -> bool {
    &&& name.len() > 0
    &&& text::size(name) <= 255
    &&& !exists|i: int| 0 <= i < name.len() && text::control(#[trigger] name[i])
}

/// The localized name of an application, where it can be shown.
pub open spec fn name_of(values: Values, locales: Seq<Seq<char>>) -> Option<Seq<char>> {
    match entry::localized(values, "Name"@, locales) {
        Some(value) => match entry::unescaped(value) {
            Some(name) => if is_name(name) {
                Some(name)
            } else {
                None
            },
            None => None,
        },
        None => None,
    }
}

/// Whether an entry describes an application that is meant to be seen.
pub open spec fn is_offered(values: Values, desktops: Seq<Seq<char>>, available: bool) -> bool {
    &&& entry::value_of(values, "Type"@) == Some("Application"@)
    &&& !entry::truth(entry::value_of(values, "Hidden"@))
    &&& !entry::truth(entry::value_of(values, "NoDisplay"@))
    &&& entry::visible(values, desktops)
    &&& entry::value_of(values, "TryExec"@) is Some ==> available
}

/// The application that an entry describes.
pub open spec fn application_of(
    values: Values,
    desktop_id: Seq<char>,
    path: Option<Seq<char>>,
    locales: Seq<Seq<char>>,
    desktops: Seq<Seq<char>>,
    available: bool,
) -> Option<ApplicationModel> {
    let icon = bounded(entry::text_value(values, "Icon"@), 4_096);
    match (
        is_offered(values, desktops, available),
        name_of(values, locales),
        entry::value_of(values, "Exec"@),
    ) {
        (true, Some(name), Some(exec)) => match command::arguments(exec, name, icon, path) {
            Some(argv) => Some(
                ApplicationModel {
                    desktop_id,
                    name,
                    icon,
                    category: category_of(
                        match entry::value_of(values, "Categories"@) {
                            Some(categories) => entry::items(categories),
                            None => Seq::empty(),
                        },
                    ),
                    argv,
                    terminal: entry::truth(entry::value_of(values, "Terminal"@)),
                    working_directory: nonempty(entry::text_value(values, "Path"@)),
                    startup_notify: entry::truth(entry::value_of(values, "StartupNotify"@)),
                    startup_wm_class: bounded(entry::text_value(values, "StartupWMClass"@), 255),
                },
            ),
            None => None,
        },
        _ => None,
    }
}

/// A direct process invocation parsed from a desktop entry.
#[derive(Clone, Debug, PartialEq, Eq)]
pub struct LaunchCommand {
    argv: Vec<String>,
    terminal: bool,
    working_directory: Option<String>,
}

impl LaunchCommand {
    /// The executable followed by its arguments.
    pub closed spec fn arguments(self) -> Seq<Seq<char>> {
        text::lines_of(self.argv@)
    }

    /// Whether the application should be wrapped in a terminal.
    pub closed spec fn terminal(self) -> bool {
        self.terminal
    }

    /// The requested working directory.
    pub closed spec fn directory(self) -> Option<Seq<char>> {
        text::maybe(self.working_directory)
    }

    /// Returns the executable followed by its arguments.
    #[must_use]
    pub fn argv(&self) -> (argv: &[String])
        ensures
            text::lines_of(argv@) == self.arguments(),
    {
        self.argv.as_slice()
    }

    /// Returns whether the application should be wrapped in a terminal.
    #[must_use]
    pub fn requires_terminal(&self) -> (terminal: bool)
        ensures
            terminal == self.terminal(),
    {
        self.terminal
    }

    /// Returns the requested working directory, when present.
    #[must_use]
    pub fn working_directory(&self) -> (directory: Option<&str>)
        ensures
            command::given(directory) == self.directory(),
    {
        match &self.working_directory {
            Some(directory) => Some(directory.as_str()),
            None => None,
        }
    }
}

/// One visible application from an XDG desktop entry.
#[derive(Clone, Debug, PartialEq, Eq)]
pub struct DesktopApplication {
    /// Desktop-file identifier after XDG precedence and de-duplication.
    pub desktop_id: String,
    /// Localized user-visible name.
    pub name: String,
    /// Optional icon name or path.
    pub icon: Option<String>,
    /// Conventional category selected from the entry's category list.
    pub category: ApplicationCategory,
    /// Direct process invocation.
    pub command: LaunchCommand,
    /// Whether the application requests startup notification.
    pub startup_notify: bool,
    /// Expected application window class, when declared.
    pub startup_wm_class: Option<String>,
}

impl View for DesktopApplication {
    type V = ApplicationModel;

    open spec fn view(&self) -> ApplicationModel {
        ApplicationModel {
            desktop_id: self.desktop_id@,
            name: self.name@,
            icon: text::maybe(self.icon),
            category: self.category,
            argv: self.command.arguments(),
            terminal: self.command.terminal(),
            working_directory: self.command.directory(),
            startup_notify: self.startup_notify,
            startup_wm_class: text::maybe(self.startup_wm_class),
        }
    }
}

/// Returns whether a file is a desktop file that is read: a regular file within the limit.
#[must_use]
pub fn is_readable(bytes: u64, regular: bool) -> (r: bool)
    ensures
        r == (regular && bytes <= MAX_DESKTOP_FILE_BYTES),
{
    regular && bytes <= MAX_DESKTOP_FILE_BYTES
}

fn lists(categories: &Vec<Vec<char>>, name: &str) -> (r: bool)
    ensures
        r == text::texts(categories@).contains(name@),
{
    let ghost all = text::texts(categories@);
    let mut index: usize = 0;
    while index < categories.len()
        invariant
            index <= categories.len(),
            all == text::texts(categories@),
            forall|i: int| 0 <= i < index ==> all[i] != name@,
        decreases categories.len() - index,
    {
        assert(all[index as int] == categories@[index as int]@);
        if spells(categories[index].as_slice(), name) {
            return true;
        }
        index = index + 1;
    }
    false
}

fn application_category(categories: &Vec<Vec<char>>) -> (category: ApplicationCategory)
    ensures
        category == category_of(text::texts(categories@)),
{
    if lists(categories, "Utility") {
        ApplicationCategory::Accessories
    } else if lists(categories, "Development") {
        ApplicationCategory::Development
    } else if lists(categories, "Education") {
        ApplicationCategory::Education
    } else if lists(categories, "Game") {
        ApplicationCategory::Games
    } else if lists(categories, "Graphics") {
        ApplicationCategory::Graphics
    } else if lists(categories, "Network") {
        ApplicationCategory::Internet
    } else if lists(categories, "AudioVideo") || lists(categories, "Audio") || lists(
        categories,
        "Video",
    ) {
        ApplicationCategory::Multimedia
    } else if lists(categories, "Office") {
        ApplicationCategory::Office
    } else if lists(categories, "Science") {
        ApplicationCategory::Science
    } else if lists(categories, "Settings") || lists(categories, "System") {
        ApplicationCategory::System
    } else {
        ApplicationCategory::Other
    }
}

fn within(value: Option<String>, limit: usize) -> (kept: Option<String>)
    ensures
        text::maybe(kept) == bounded(text::maybe(value), limit as nat),
{
    match value {
        Some(value) => if !value.as_str().is_empty() && byte_size(value.as_str()) <= limit {
            Some(value)
        } else {
            None
        },
        None => None,
    }
}

impl DesktopEntry {
    /// Returns the program that must be there for the application to be offered, when declared.
    #[must_use]
    pub fn try_exec(&self) -> (program: Option<&str>)
        ensures
            command::given(program) == entry::value_of(self@, "TryExec"@),
    {
        self.get("TryExec")
    }

    fn is_offered(&self, desktops: &[String], available: bool) -> (r: bool)
        ensures
            r == is_offered(self@, text::lines_of(desktops@), available),
    {
        let typed = match self.get("Type") {
            Some(value) => text::same(value, "Application"),
            None => false,
        };
        typed && !self.flag("Hidden") && !self.flag("NoDisplay") && self.is_visible(desktops) && (
        available || self.get("TryExec").is_none())
    }

    /// Returns the application that the entry describes, given its identifier, the path of its
    /// file where that is text, and whether the program that it tries is there.
    ///
    /// There is none where the entry is hidden, unavailable or invalid.
    #[must_use]
    pub fn application(
        &self,
        desktop_id: String,
        path: Option<&str>,
        locales: &[String],
        desktops: &[String],
        available: bool,
    ) -> (application: Option<DesktopApplication>)
        ensures
            match application {
                Some(application) => application_of(
                    self@,
                    desktop_id@,
                    command::given(path),
                    text::lines_of(locales@),
                    text::lines_of(desktops@),
                    available,
                ) == Some(application@),
                None => application_of(
                    self@,
                    desktop_id@,
                    command::given(path),
                    text::lines_of(locales@),
                    text::lines_of(desktops@),
                    available,
                ) is None,
            },
    {
        if !self.is_offered(desktops, available) {
            return None;
        }
        let name = match self.localized_value("Name", locales) {
            Some(name) => name,
            None => return None,
        };
        if name.as_str().is_empty() || byte_size(name.as_str()) > 255 || has_control(
            name.as_str(),
        ) {
            return None;
        }
        let icon = within(self.text_value("Icon"), 4_096);
        let exec = match self.get("Exec") {
            Some(exec) => exec,
            None => return None,
        };
        let icon_text = match &icon {
            Some(icon) => Some(icon.as_str()),
            None => None,
        };
        let argv = match parse_exec(exec, name.as_str(), icon_text, path) {
            Some(argv) => argv,
            None => return None,
        };
        let categories = match self.get("Categories") {
            Some(categories) => desktop_list(categories),
            None => Vec::new(),
        };
        assert(entry::value_of(self@, "Categories"@) is None ==> text::texts(categories@)
            =~= Seq::empty());
        let working_directory = match self.text_value("Path") {
            Some(directory) => if directory.as_str().is_empty() {
                None
            } else {
                Some(directory)
            },
            None => None,
        };
        Some(
            DesktopApplication {
                desktop_id,
                name,
                icon,
                category: application_category(&categories),
                command: LaunchCommand {
                    argv,
                    terminal: self.flag("Terminal"),
                    working_directory,
                },
                startup_notify: self.flag("StartupNotify"),
                startup_wm_class: within(self.text_value("StartupWMClass"), 255),
            },
        )
    }
}

} // verus!
