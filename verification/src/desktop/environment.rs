//! What the environment says about applications.

use vstd::prelude::*;

use crate::path;
use crate::text;
use crate::text::{characters, collected, cut, cut_filled, find, lower_chars, same, spells, stretch};

verus! {

/// A variable's value.
pub open spec fn set_to(value: Option<&str>) -> Option<Seq<char>> {
    match value {
        Some(value) => Some(value@),
        None => None,
    }
}

/// The directory of the user's own data, where there is one.
pub open spec fn data_home(data_home: Option<Seq<char>>, home: Option<Seq<char>>) -> Option<
    Seq<char>,
> {
    let directory = match data_home {
        Some(data_home) => Some(data_home),
        None => match home {
            Some(home) => Some(path::joined(home, ".local/share"@)),
            None => None,
        },
    };
    match directory {
        Some(directory) => if directory.len() == 0 {
            None
        } else {
            Some(directory)
        },
        None => None,
    }
}

/// The list of the system's data directories.
pub open spec fn data_dirs(data_dirs: Option<Seq<char>>) -> Seq<char> {
    match data_dirs {
        Some(data_dirs) => if data_dirs.len() == 0 {
            "/usr/local/share:/usr/share"@
        } else {
            data_dirs
        },
        None => "/usr/local/share:/usr/share"@,
    }
}

/// Where applications are, the most important directory first.
pub open spec fn application_directories(
    home_data: Option<Seq<char>>,
    home: Option<Seq<char>>,
    system_data: Option<Seq<char>>,
) -> Seq<Seq<char>> {
    let own = match data_home(home_data, home) {
        Some(directory) => seq![path::joined(directory, "applications"@)],
        None => Seq::empty(),
    };
    let system = text::pieces(data_dirs(system_data), ':');
    own + Seq::new(system.len(), |i: int| path::joined(system[i], "applications"@))
}

/// Returns where applications are, the most important directory first, given the values of
/// `XDG_DATA_HOME`, `HOME` and `XDG_DATA_DIRS`.
#[must_use]
pub fn data_directories(home_data: Option<&str>, home: Option<&str>, system_data: Option<&str>) -> (
directories: Vec<String>)
    ensures
        text::lines_of(directories@) == application_directories(
            set_to(home_data),
            set_to(home),
            set_to(system_data),
        ),
{
    let mut directories: Vec<String> = Vec::new();
    let own = match home_data {
        Some(home_data) => Some(home_data.to_owned()),
        None => match home {
            Some(home) => Some(path::join(home, ".local/share")),
            None => None,
        },
    };
    if let Some(own) = own {
        if !own.as_str().is_empty() {
            directories.push(path::join(own.as_str(), "applications"));
        }
    }
    let ghost first = text::lines_of(directories@);
    assert(first =~= application_directories(
        set_to(home_data),
        set_to(home),
        set_to(system_data),
    ).take(first.len() as int));
    let list = match system_data {
        Some(system_data) if !system_data.is_empty() => system_data,
        _ => "/usr/local/share:/usr/share",
    };
    let chars = characters(list);
    let parts = cut(chars.as_slice(), ':');
    let ghost system = text::pieces(data_dirs(set_to(system_data)), ':');
    assert(text::texts(parts@) == system);
    let mut index: usize = 0;
    while index < parts.len()
        invariant
            index <= parts.len(),
            text::texts(parts@) == system,
            text::lines_of(directories@) =~= first + Seq::new(
                index as nat,
                |i: int| path::joined(system[i], "applications"@),
            ),
        decreases parts.len() - index,
    {
        let ghost before = directories@;
        assert(system[index as int] == parts@[index as int]@);
        let directory = collected(parts[index].as_slice());
        directories.push(path::join(directory.as_str(), "applications"));
        assert(text::lines_of(directories@) =~= text::lines_of(before).push(
            path::joined(system[index as int], "applications"@),
        ));
        index = index + 1;
    }
    assert(text::texts(parts@).len() == parts@.len());
    directories
}

/// Whether a list names nobox.
pub open spec fn names_nobox(desktops: Seq<Seq<char>>) -> bool {
    exists|i: int| 0 <= i < desktops.len() && text::lower(#[trigger] desktops[i]) == "nobox"@
}

/// The names of the current desktop, nobox among them.
pub open spec fn desktops(value: Option<Seq<char>>) -> Seq<Seq<char>> {
    let named = match value {
        Some(value) => text::filled(text::pieces(value, ':')),
        None => Seq::empty(),
    };
    if names_nobox(named) {
        named
    } else {
        named.push("nobox"@)
    }
}

/// Returns the names of the current desktop, given the value of `XDG_CURRENT_DESKTOP`.
#[must_use]
pub fn current_desktops(value: Option<&str>) -> (names: Vec<String>)
    ensures
        text::lines_of(names@) == desktops(set_to(value)),
{
    let parts = match value {
        Some(value) => {
            let chars = characters(value);
            cut_filled(chars.as_slice(), ':')
        },
        None => Vec::new(),
    };
    let ghost named = text::texts(parts@);
    assert(value is None ==> named =~= Seq::empty());
    let mut names: Vec<String> = Vec::new();
    let mut found = false;
    let mut index: usize = 0;
    assert(text::lines_of(names@) =~= named.take(0));
    while index < parts.len()
        invariant
            index <= parts.len(),
            named == text::texts(parts@),
            text::lines_of(names@) == named.take(index as int),
            found == names_nobox(named.take(index as int)),
        decreases parts.len() - index,
    {
        let ghost before = names@;
        let ghost so_far = named.take(index as int);
        let ghost next = named.take(index + 1);
        assert(named[index as int] == parts@[index as int]@);
        assert(next =~= so_far.push(named[index as int]));
        let lower = lower_chars(parts[index].as_slice());
        let hit = spells(lower.as_slice(), "nobox");
        proof {
            if names_nobox(so_far) {
                let i = choose|i: int|
                    0 <= i < so_far.len() && text::lower(#[trigger] so_far[i]) == "nobox"@;
                assert(text::lower(next[i]) == "nobox"@);
            }
            if hit {
                assert(text::lower(next[index as int]) == "nobox"@);
            }
            if names_nobox(next) && !hit {
                let i = choose|i: int|
                    0 <= i < next.len() && text::lower(#[trigger] next[i]) == "nobox"@;
                assert(text::lower(so_far[i]) == "nobox"@);
            }
        }
        if hit {
            found = true;
        }
        names.push(collected(parts[index].as_slice()));
        assert(text::lines_of(names@) =~= text::lines_of(before).push(named[index as int]));
        index = index + 1;
    }
    assert(named.take(index as int) =~= named);
    if !found {
        let ghost before = names@;
        names.push("nobox".to_owned());
        assert(text::lines_of(names@) =~= text::lines_of(before).push("nobox"@));
    }
    names
}

/// The text up to the first occurrence of a character, all of it where there is none.
pub open spec fn up_to(value: Seq<char>, end: char) -> Seq<char> {
    match text::position(value, end) {
        Some(at) => value.take(at),
        None => value,
    }
}

/// The first of two values that is set and not empty.
pub open spec fn first_set(first: Option<Seq<char>>, second: Option<Seq<char>>) -> Option<
    Seq<char>,
> {
    match first {
        Some(value) => if value.len() == 0 {
            second
        } else {
            Some(value)
        },
        None => second,
    }
}

/// A list without entries that repeat the one before.
pub open spec fn deduplicated(list: Seq<Seq<char>>) -> Seq<Seq<char>>
    decreases list.len(),
{
    if list.len() == 0 {
        Seq::empty()
    } else {
        let before = deduplicated(list.drop_last());
        if before.len() > 0 && before.last() == list.last() {
            before
        } else {
            before.push(list.last())
        }
    }
}

/// The languages of a locale, the most specific first.
pub open spec fn locales_of(locale: Seq<char>) -> Seq<Seq<char>> {
    let base = up_to(up_to(locale, '@'), '.');
    let language = up_to(base, '_');
    match text::position(locale, '@') {
        Some(at) => {
            let modifier = locale.skip(at + 1);
            deduplicated(
                seq![
                    base.push('@') + modifier,
                    base,
                    language.push('@') + modifier,
                    language,
                ],
            )
        },
        None => deduplicated(seq![base, language]),
    }
}

/// The languages of the environment, the most specific first.
pub open spec fn locales(
    everything: Option<Seq<char>>,
    messages: Option<Seq<char>>,
    language: Option<Seq<char>>,
) -> Seq<Seq<char>> {
    match first_set(everything, first_set(messages, first_set(language, None))) {
        Some(locale) => locales_of(locale),
        None => Seq::empty(),
    }
}

fn chars_up_to(chars: &[char], end: char) -> (start: Vec<char>)
    ensures
        start@ == up_to(chars@, end),
{
    let length: usize = match find(chars, end) {
        Some(at) => at,
        None => chars.len(),
    };
    let start = stretch(chars, 0, length);
    assert(start@ =~= up_to(chars@, end));
    start
}

fn push_new(list: &mut Vec<String>, entry: String)
    ensures
        forall|before: Seq<Seq<char>>|
            text::lines_of(old(list)@) == deduplicated(before) ==> text::lines_of(final(list)@)
                == #[trigger] deduplicated(before.push(entry@)),
{
    let ghost earlier = list@;
    let repeated = list.len() > 0 && same(list[list.len() - 1].as_str(), entry.as_str());
    let ghost added = entry@;
    assert(earlier.len() > 0 ==> text::lines_of(earlier).last() == earlier.last()@);
    if !repeated {
        list.push(entry);
        assert(text::lines_of(list@) =~= text::lines_of(earlier).push(added));
    }
    assert forall|before: Seq<Seq<char>>|
        text::lines_of(earlier) == deduplicated(before) implies text::lines_of(list@)
        == #[trigger] deduplicated(before.push(added)) by {
        assert(before.push(added).drop_last() =~= before);
    }
}

fn with_modifier(name: &[char], modifier: &[char]) -> (text: String)
    ensures
        text@ == name@.push('@') + modifier@,
{
    let mut text = collected(name);
    text.push('@');
    text.append(collected(modifier).as_str());
    text
}

/// Returns the languages of the environment, the most specific first, given the values of
/// `LC_ALL`, `LC_MESSAGES` and `LANG`.
#[must_use]
pub fn locale_candidates(
    everything: Option<&str>,
    messages: Option<&str>,
    language: Option<&str>,
) -> (candidates: Vec<String>)
    ensures
        text::lines_of(candidates@) == locales(
            set_to(everything),
            set_to(messages),
            set_to(language),
        ),
{
    let mut candidates: Vec<String> = Vec::new();
    let locale = match (everything, messages, language) {
        (Some(value), _, _) if !value.is_empty() => value,
        (_, Some(value), _) if !value.is_empty() => value,
        (_, _, Some(value)) if !value.is_empty() => value,
        _ => {
            assert(text::lines_of(candidates@) =~= Seq::empty());
            return candidates;
        },
    };
    let chars = characters(locale);
    let start = chars_up_to(chars.as_slice(), '@');
    let base = chars_up_to(start.as_slice(), '.');
    let language = chars_up_to(base.as_slice(), '_');
    let ghost none: Seq<Seq<char>> = Seq::empty();
    assert(text::lines_of(candidates@) =~= deduplicated(none));
    let length: usize = chars.len();
    match find(chars.as_slice(), '@') {
        Some(at) => {
            let modifier = stretch(chars.as_slice(), at + 1, length);
            assert(modifier@ =~= chars@.skip(at + 1));
            let ghost list = seq![
                base@.push('@') + modifier@,
                base@,
                language@.push('@') + modifier@,
                language@,
            ];
            push_new(&mut candidates, with_modifier(base.as_slice(), modifier.as_slice()));
            push_new(&mut candidates, collected(base.as_slice()));
            push_new(&mut candidates, with_modifier(language.as_slice(), modifier.as_slice()));
            push_new(&mut candidates, collected(language.as_slice()));
            assert(none.push(list[0]).push(list[1]).push(list[2]).push(list[3]) =~= list);
        },
        None => {
            push_new(&mut candidates, collected(base.as_slice()));
            push_new(&mut candidates, collected(language.as_slice()));
            assert(none.push(base@).push(language@) =~= seq![base@, language@]);
        },
    }
    candidates
}

/// The number of components of a path, of which a root is one.
pub open spec fn component_count(path: Seq<char>) -> nat {
    let parts = path::path_parts(text::pieces(path, '/'), path::absolute(path));
    if path::absolute(path) {
        parts.len() + 1
    } else {
        parts.len()
    }
}

/// The files of which one must be executable for a program to be there.
pub open spec fn program_files(program: Seq<char>, directories: Seq<Seq<char>>) -> Seq<Seq<char>> {
    if component_count(program) > 1 {
        seq![program]
    } else {
        Seq::new(directories.len(), |i: int| path::joined(directories[i], program))
    }
}

/// Returns the files of which one must be executable for a program to be there: the program
/// itself where it is a path, or else one in each directory of programs.
#[must_use]
pub fn executable_candidates(program: &str, directories: &[String]) -> (files: Vec<String>)
    ensures
        text::lines_of(files@) == program_files(program@, text::lines_of(directories@)),
{
    let mut files: Vec<String> = Vec::new();
    let parts = path::parts_of(program);
    assert(text::texts(parts@).len() == parts@.len());
    let rooted = path::is_absolute(program);
    if parts.len() > 1 || (rooted && parts.len() > 0) {
        files.push(program.to_owned());
        assert(text::lines_of(files@) =~= seq![program@]);
        return files;
    }
    let ghost all = text::lines_of(directories@);
    while files.len() < directories.len()
        invariant
            files.len() <= directories.len(),
            all == text::lines_of(directories@),
            forall|i: int|
                0 <= i < files@.len() ==> (#[trigger] files@[i])@ == path::joined(all[i], program@),
        decreases directories.len() - files.len(),
    {
        assert(all[files@.len() as int] == directories@[files@.len() as int]@);
        files.push(path::join(directories[files.len()].as_str(), program));
    }
    assert(text::lines_of(files@) =~= program_files(program@, all));
    files
}

/// Parts with a hyphen between them.
pub open spec fn hyphenated(parts: Seq<Seq<char>>) -> Seq<char>
    decreases parts.len(),
{
    if parts.len() == 0 {
        Seq::empty()
    } else if parts.len() == 1 {
        parts[0]
    } else {
        hyphenated(parts.drop_last()).push('-') + parts.last()
    }
}

/// The identifier of a desktop file, given its path below the applications directory.
pub open spec fn id_of(relative: Seq<char>) -> Seq<char> {
    hyphenated(path::path_parts(text::pieces(relative, '/'), path::absolute(relative)))
}

/// Returns the identifier of a desktop file, given its path below the applications directory:
/// the parts of the path with hyphens between them.
#[must_use]
pub fn desktop_id(relative: &str) -> (id: String)
    ensures
        id@ == id_of(relative@),
{
    let parts = path::parts_of(relative);
    let ghost all = text::texts(parts@);
    let mut id = String::new();
    let mut index: usize = 0;
    assert(id@ =~= hyphenated(all.take(0)));
    while index < parts.len()
        invariant
            index <= parts.len(),
            all == text::texts(parts@),
            id@ == hyphenated(all.take(index as int)),
        decreases parts.len() - index,
    {
        assert(all.take(index + 1).drop_last() =~= all.take(index as int));
        assert(all.take(index + 1).last() == parts@[index as int]@);
        let ghost before = id@;
        if index > 0 {
            id.push('-');
        } else {
            assert(all.take(1)[0] == parts@[0]@);
            assert(before =~= Seq::empty());
            assert(before + parts@[0]@ =~= parts@[0]@);
        }
        id.append(collected(parts[index].as_slice()).as_str());
        index = index + 1;
    }
    assert(all.take(index as int) =~= all);
    id
}

/// An application directory of the user comes before those of the system.
pub proof fn law_own_applications_come_first(
    home_data: Seq<char>,
    home: Option<Seq<char>>,
    system_data: Option<Seq<char>>,
)
    requires
        home_data.len() > 0,
    ensures
        application_directories(Some(home_data), home, system_data).len() > 0,
        application_directories(Some(home_data), home, system_data)[0] == path::joined(
            home_data,
            "applications"@,
        ),
{
}

/// Nobox is always one of the current desktops.
pub proof fn law_nobox_is_a_current_desktop(value: Option<Seq<char>>)
    ensures
        names_nobox(desktops(value)),
{
    let named = match value {
        Some(value) => text::filled(text::pieces(value, ':')),
        None => Seq::empty(),
    };
    reveal_strlit("nobox");
    assert(text::lower("nobox"@) =~= "nobox"@);
    let all = named.push("nobox"@);
    assert(text::lower(all[named.len() as int]) == "nobox"@);
}

} // verus!
