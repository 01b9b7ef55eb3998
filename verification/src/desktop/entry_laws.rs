//! Laws of desktop entries: what their lines, fields, and values mean.

use vstd::prelude::*;

use crate::desktop::application;
use crate::desktop::application::ApplicationCategory;
use crate::desktop::command;
use crate::desktop::entry;
use crate::desktop::entry::{EntryReading, Values};
use crate::desktop::environment;
use crate::text;

verus! {

/// Whether text does not end with a carriage return.
pub open spec fn is_unended(line: Seq<char>) -> bool {
    line.len() == 0 || line[line.len() - 1] != '\r'
}

proof fn lemma_unended(line: Seq<char>)
    requires
        is_unended(line),
    ensures
        text::without_trailing(line, '\r') == line,
{
}

/// In the group of the entry, a line of a name, an equals sign, and a value defines that field, if
/// the name has no equals sign in it, does not look like a comment or a group, and neither is too
/// long. The first definition of a field stays.
pub proof fn law_lines_define_fields(reading: EntryReading, key: Seq<char>, value: Seq<char>)
    requires
        reading.inside,
        key.len() > 0,
        !key.contains('='),
        key[0] != '#',
        key[0] != '[',
        text::size(key) <= 255,
        text::size(value) <= 16_384,
        value.len() == 0 || value[value.len() - 1] != '\r',
    ensures
        !reading.values.contains_key(key) ==> entry::line_read(
            reading,
            key + seq!['='] + value,
        ) == Some(EntryReading { values: reading.values.insert(key, value), inside: true }),
        reading.values.contains_key(key) ==> entry::line_read(reading, key + seq!['='] + value)
            == Some(reading),
{
    let line = key + seq!['='] + value;
    assert(line[0] == key[0]);
    assert(is_unended(line)) by {
        if value.len() > 0 {
            assert(line[line.len() - 1] == value[value.len() - 1]);
        } else {
            assert(line[line.len() - 1] == '=');
        }
    }
    lemma_unended(line);
    text::lemma_position(line, '=');
    assert(line[key.len() as int] == '=');
    assert(text::position(line, '=') == Some(key.len() as int)) by {
        let found = text::position(line, '=');
        assert(found is Some) by {
            if found is None {
                assert(line.contains('='));
            }
        }
        let at = found->Some_0;
        if at < key.len() {
            assert(key[at] == '=');
        }
        if at > key.len() {
            assert(line.take(at)[key.len() as int] == '=');
        }
    }
    assert(line.take(key.len() as int) =~= key);
    assert(line.skip(key.len() as int + 1) =~= value);
}

/// The group of the entry begins with its name in brackets and ends where another group begins.
/// Comments, empty lines, and the lines of other groups are passed over; another line of the group
/// of the entry that has no equals sign spoils it.
pub proof fn law_only_the_entry_is_read(reading: EntryReading, line: Seq<char>)
    requires
        is_unended(line),
    ensures
        line == "[Desktop Entry]"@ ==> entry::line_read(reading, line) == Some(
            EntryReading { values: reading.values, inside: true },
        ),
        line.len() > 0 && line[0] == '[' && line[line.len() - 1] == ']' && line
            != "[Desktop Entry]"@ ==> entry::line_read(reading, line) == Some(
            EntryReading { values: reading.values, inside: false },
        ),
        line.len() == 0 ==> entry::line_read(reading, line) == Some(reading),
        line.len() > 0 && line[0] == '#' ==> entry::line_read(reading, line) == Some(reading),
        !reading.inside && (line.len() == 0 || line[0] != '[') ==> entry::line_read(reading, line)
            == Some(reading),
        reading.inside && line.len() > 0 && line[0] != '[' && line[0] != '#' && !line.contains('=')
            ==> entry::line_read(reading, line) is None,
{
    lemma_unended(line);
    reveal_strlit("[Desktop Entry]");
    text::lemma_position(line, '=');
}

proof fn lemma_plain_start(plain: Seq<char>, rest: Seq<char>)
    requires
        !plain.contains('\\'),
    ensures
        entry::unescaped(plain + rest) == entry::before(plain, entry::unescaped(rest)),
    decreases plain.len(),
{
    let all = plain + rest;
    if plain.len() == 0 {
        assert(all =~= rest);
        if let Some(tail) = entry::unescaped(rest) {
            assert(plain + tail =~= tail);
        }
    } else {
        assert(plain.contains(plain[0]));
        assert(all[0] == plain[0]);
        assert(all.skip(1) =~= plain.skip(1) + rest);
        assert forall|i: int| 0 <= i < plain.skip(1).len() implies plain.skip(1)[i] != '\\' by {
            assert(plain.contains(plain[i + 1]));
        }
        lemma_plain_start(plain.skip(1), rest);
        if let Some(tail) = entry::unescaped(rest) {
            assert(seq![plain[0]] + (plain.skip(1) + tail) =~= plain + tail);
        }
    }
}

/// A backslash with `s`, `n`, `t`, or `r` behind it stands for a space, a line feed, a tab, or a
/// carriage return, and two backslashes stand for one; nothing comes of text with another escape.
pub proof fn law_escapes_are_resolved(plain: Seq<char>, c: char, rest: Seq<char>)
    requires
        !plain.contains('\\'),
    ensures
        ({
            let resolved = entry::unescaped(plain + seq!['\\', c] + rest);
            match entry::unescaped(rest) {
                None => resolved is None,
                Some(end) => {
                    &&& c == 's' ==> resolved == Some(plain + seq![' '] + end)
                    &&& c == 'n' ==> resolved == Some(plain + seq!['\n'] + end)
                    &&& c == 't' ==> resolved == Some(plain + seq!['\t'] + end)
                    &&& c == 'r' ==> resolved == Some(plain + seq!['\r'] + end)
                    &&& c == '\\' ==> resolved == Some(plain + seq!['\\'] + end)
                    &&& c != 's' && c != 'n' && c != 't' && c != 'r' && c != '\\' ==> resolved
                        is None
                },
            }
        }),
        entry::unescaped(plain + seq!['\\']) is None,
{
    let coded = seq!['\\', c] + rest;
    assert(plain + seq!['\\', c] + rest =~= plain + coded);
    lemma_plain_start(plain, coded);
    lemma_plain_start(plain, seq!['\\']);
    assert(coded[0] == '\\' && coded[1] == c);
    assert(coded.skip(2) =~= rest);
    if let (Some(resolved), Some(end)) = (entry::escape(c), entry::unescaped(rest)) {
        assert(plain + (seq![resolved] + end) =~= plain + seq![resolved] + end);
    }
}

/// A field is read in the first language that it is translated to: its name followed by that
/// language in brackets. Where it is translated to none it is read without a language.
pub proof fn law_the_first_language_wins(
    values: Values,
    key: Seq<char>,
    locales: Seq<Seq<char>>,
    at: int,
)
    requires
        forall|i: int|
            0 <= i < at && i < locales.len() ==> !values.contains_key(
                key + seq!['['] + #[trigger] locales[i] + seq![']'],
            ),
        0 <= at <= locales.len(),
        at < locales.len() ==> values.contains_key(key + seq!['['] + locales[at] + seq![']']),
    ensures
        at < locales.len() ==> entry::localized(values, key, locales) == Some(
            values[key + seq!['['] + locales[at] + seq![']']],
        ),
        at == locales.len() && values.contains_key(key) ==> entry::localized(values, key, locales)
            == Some(values[key]),
        at == locales.len() && !values.contains_key(key) ==> entry::localized(values, key, locales)
            is None,
    decreases locales.len(),
{
    if locales.len() > 0 {
        let name = entry::translated(key, locales[0]);
        assert(name =~= key + seq!['['] + locales[0] + seq![']']);
        if at > 0 {
            assert(!values.contains_key(key + seq!['['] + locales[0] + seq![']']));
            let rest = locales.skip(1);
            assert forall|i: int| 0 <= i < at - 1 && i < rest.len() implies !values.contains_key(
                key + seq!['['] + #[trigger] rest[i] + seq![']'],
            ) by {
                assert(rest[i] == locales[i + 1]);
                assert(!values.contains_key(key + seq!['['] + locales[i + 1] + seq![']']));
            }
            if at < locales.len() {
                assert(rest[at - 1] == locales[at]);
            }
            law_the_first_language_wins(values, key, rest, at - 1);
        }
    }
}

/// An entry for certain desktops only is visible where one of them is the current one, an entry
/// against certain desktops where none of them is, and an entry that says neither everywhere.
/// Names of desktops ignore case.
pub proof fn law_entries_show_on_their_desktops(
    values: Values,
    desktops: Seq<Seq<char>>,
    desktop: int,
    item: int,
)
    ensures
        !values.contains_key("OnlyShowIn"@) && !values.contains_key("NotShowIn"@)
            ==> entry::visible(values, desktops),
        values.contains_key("NotShowIn"@) && 0 <= item < entry::items(
            values["NotShowIn"@],
        ).len() && 0 <= desktop < desktops.len() && text::lower(desktops[desktop]) == text::lower(
            entry::items(values["NotShowIn"@])[item],
        ) ==> !entry::visible(values, desktops),
        values.contains_key("OnlyShowIn"@) && !values.contains_key("NotShowIn"@) && 0 <= item
            < entry::items(values["OnlyShowIn"@]).len() && 0 <= desktop < desktops.len()
            && text::lower(desktops[desktop]) == text::lower(
            entry::items(values["OnlyShowIn"@])[item],
        ) ==> entry::visible(values, desktops),
        values.contains_key("OnlyShowIn"@) && entry::items(values["OnlyShowIn"@]).len() > 0
            && entry::visible(values, desktops) ==> exists|i: int, j: int|
            0 <= i < desktops.len() && 0 <= j < entry::items(values["OnlyShowIn"@]).len()
                && text::lower(#[trigger] desktops[i]) == text::lower(
                #[trigger] entry::items(values["OnlyShowIn"@])[j],
            ),
{
    if values.contains_key("NotShowIn"@) && 0 <= item < entry::items(values["NotShowIn"@]).len()
        && 0 <= desktop < desktops.len() && text::lower(desktops[desktop]) == text::lower(
        entry::items(values["NotShowIn"@])[item],
    ) {
        assert(entry::names_desktop(desktops, entry::items(values["NotShowIn"@])[item]));
        assert(entry::name_desktop(desktops, entry::items(values["NotShowIn"@])));
    }
    if values.contains_key("OnlyShowIn"@) && 0 <= item < entry::items(values["OnlyShowIn"@]).len()
        && 0 <= desktop < desktops.len() && text::lower(desktops[desktop]) == text::lower(
        entry::items(values["OnlyShowIn"@])[item],
    ) {
        assert(entry::names_desktop(desktops, entry::items(values["OnlyShowIn"@])[item]));
        assert(entry::name_desktop(desktops, entry::items(values["OnlyShowIn"@])));
    }
    if values.contains_key("OnlyShowIn"@) && entry::items(values["OnlyShowIn"@]).len() > 0
        && entry::visible(values, desktops) {
        let items = entry::items(values["OnlyShowIn"@]);
        let j = choose|j: int|
            0 <= j < items.len() && entry::names_desktop(desktops, #[trigger] items[j]);
        let i = choose|i: int|
            0 <= i < desktops.len() && text::lower(#[trigger] desktops[i]) == text::lower(items[j]);
        assert(text::lower(desktops[i]) == text::lower(items[j]));
    }
}

/// A field is true where its value is `true` in any case, and not where it is anything else or is
/// missing.
pub proof fn law_only_true_is_true(value: Seq<char>)
    ensures
        entry::truth(Some(value)) <==> text::lower(value) == "true"@,
        !entry::truth(None),
{
}

/// What an entry takes to be an application: it says that it is one, gives a name and a command,
/// is neither hidden nor kept from menus, is meant for the current desktop, and the program that it
/// says to try is there.
pub proof fn law_hidden_applications_are_left_out(
    values: Values,
    id: Seq<char>,
    path: Option<Seq<char>>,
    locales: Seq<Seq<char>>,
    desktops: Seq<Seq<char>>,
    available: bool,
)
    ensures
        application::application_of(values, id, path, locales, desktops, available) is Some ==> {
            &&& values.contains_key("Type"@) && values["Type"@] == "Application"@
            &&& values.contains_key("Hidden"@) ==> text::lower(values["Hidden"@]) != "true"@
            &&& values.contains_key("NoDisplay"@) ==> text::lower(values["NoDisplay"@]) != "true"@
            &&& values.contains_key("TryExec"@) ==> available
            &&& entry::visible(values, desktops)
            &&& values.contains_key("Exec"@)
            &&& entry::localized(values, "Name"@, locales) is Some
        },
        values.contains_key("Type"@) && values["Type"@] == "Application"@ && (values.contains_key(
            "Hidden"@,
        ) ==> text::lower(values["Hidden"@]) != "true"@) && (values.contains_key("NoDisplay"@)
            ==> text::lower(values["NoDisplay"@]) != "true"@) && (values.contains_key("TryExec"@)
            ==> available) && entry::visible(values, desktops) ==> application::is_offered(
            values,
            desktops,
            available,
        ),
{
}

/// The parts of an application are those that the fields of its entry give.
pub proof fn law_applications_have_the_fields_of_their_entries(
    values: Values,
    id: Seq<char>,
    path: Option<Seq<char>>,
    locales: Seq<Seq<char>>,
    desktops: Seq<Seq<char>>,
    available: bool,
)
    requires
        application::application_of(values, id, path, locales, desktops, available) is Some,
    ensures
        ({
            let found = application::application_of(
                values,
                id,
                path,
                locales,
                desktops,
                available,
            )->Some_0;
            &&& found.desktop_id == id
            &&& Some(found.name) == entry::unescaped(
                entry::localized(values, "Name"@, locales)->Some_0,
            )
            &&& Some(found.argv) == command::arguments(
                values["Exec"@],
                found.name,
                found.icon,
                path,
            )
            &&& found.terminal == entry::truth(entry::value_of(values, "Terminal"@))
            &&& found.startup_notify == entry::truth(entry::value_of(values, "StartupNotify"@))
            &&& !values.contains_key("Icon"@) ==> found.icon is None
            &&& found.icon matches Some(icon) ==> values.contains_key("Icon"@) && Some(icon)
                == entry::unescaped(values["Icon"@]) && 0 < icon.len() && text::size(icon) <= 4_096
            &&& found.working_directory matches Some(directory) ==> values.contains_key("Path"@)
                && Some(directory) == entry::unescaped(values["Path"@])
            &&& values.contains_key("Path"@) && (entry::unescaped(
                values["Path"@],
            ) matches Some(directory) && directory.len() > 0) ==> found.working_directory is Some
            &&& found.startup_wm_class matches Some(class) ==> values.contains_key(
                "StartupWMClass"@,
            ) && Some(class) == entry::unescaped(values["StartupWMClass"@])
            &&& values.contains_key("StartupWMClass"@) && (entry::unescaped(
                values["StartupWMClass"@],
            ) matches Some(class) && class.len() > 0 && text::size(class) <= 255)
                ==> found.startup_wm_class is Some
            &&& values.contains_key("Categories"@) ==> found.category == application::category_of(
                entry::items(values["Categories"@]),
            )
            &&& !values.contains_key("Categories"@) ==> found.category
                == ApplicationCategory::Other
            &&& 0 < found.name.len() && text::size(found.name) <= 255
        }),
{
}

/// The main categories that decide where an application is listed, the decisive one first.
pub proof fn law_main_categories_decide(list: Seq<Seq<char>>)
    ensures
        list.contains("Utility"@)
            ==> application::category_of(list) == ApplicationCategory::Accessories,
        list.contains("Development"@) && !list.contains("Utility"@)
            ==> application::category_of(list) == ApplicationCategory::Development,
        list.contains("Education"@) && !list.contains("Utility"@) && !list.contains("Development"@)
            ==> application::category_of(list) == ApplicationCategory::Education,
        list.contains("Game"@) && !list.contains("Utility"@) && !list.contains("Development"@)
            && !list.contains("Education"@)
            ==> application::category_of(list) == ApplicationCategory::Games,
        list.contains("Graphics"@) && !list.contains("Utility"@) && !list.contains("Development"@)
            && !list.contains("Education"@) && !list.contains("Game"@)
            ==> application::category_of(list) == ApplicationCategory::Graphics,
        list.contains("Network"@) && !list.contains("Utility"@) && !list.contains("Development"@)
            && !list.contains("Education"@) && !list.contains("Game"@)
            && !list.contains("Graphics"@)
            ==> application::category_of(list) == ApplicationCategory::Internet,
        (list.contains("AudioVideo"@) || list.contains("Audio"@) || list.contains("Video"@))
            && !list.contains("Utility"@) && !list.contains("Development"@)
            && !list.contains("Education"@) && !list.contains("Game"@)
            && !list.contains("Graphics"@) && !list.contains("Network"@)
            ==> application::category_of(list) == ApplicationCategory::Multimedia,
        list.contains("Office"@) && !list.contains("Utility"@) && !list.contains("Development"@)
            && !list.contains("Education"@) && !list.contains("Game"@)
            && !list.contains("Graphics"@) && !list.contains("Network"@)
            && !list.contains("AudioVideo"@) && !list.contains("Audio"@) && !list.contains("Video"@)
            ==> application::category_of(list) == ApplicationCategory::Office,
        list.contains("Science"@) && !list.contains("Utility"@) && !list.contains("Development"@)
            && !list.contains("Education"@) && !list.contains("Game"@)
            && !list.contains("Graphics"@) && !list.contains("Network"@)
            && !list.contains("AudioVideo"@) && !list.contains("Audio"@) && !list.contains("Video"@)
            && !list.contains("Office"@)
            ==> application::category_of(list) == ApplicationCategory::Science,
        (list.contains("Settings"@) || list.contains("System"@)) && !list.contains("Utility"@)
            && !list.contains("Development"@) && !list.contains("Education"@)
            && !list.contains("Game"@) && !list.contains("Graphics"@) && !list.contains("Network"@)
            && !list.contains("AudioVideo"@) && !list.contains("Audio"@) && !list.contains("Video"@)
            && !list.contains("Office"@) && !list.contains("Science"@)
            ==> application::category_of(list) == ApplicationCategory::System,
        !list.contains("Utility"@) && !list.contains("Development"@) && !list.contains("Education"@)
            && !list.contains("Game"@) && !list.contains("Graphics"@) && !list.contains("Network"@)
            && !list.contains("AudioVideo"@) && !list.contains("Audio"@) && !list.contains("Video"@)
            && !list.contains("Office"@) && !list.contains("Science"@)
            && !list.contains("Settings"@) && !list.contains("System"@)
            ==> application::category_of(list) == ApplicationCategory::Other,
{
}

/// Without a list of data directories, or with an empty one, applications are looked for where they
/// are with the two usual directories.
pub proof fn law_usual_directories_are_searched(
    home_data: Option<Seq<char>>,
    home: Option<Seq<char>>,
)
    ensures
        environment::application_directories(home_data, home, None)
            == environment::application_directories(
            home_data,
            home,
            Some("/usr/local/share:/usr/share"@),
        ),
        environment::application_directories(home_data, home, Some(Seq::empty()))
            == environment::application_directories(
            home_data,
            home,
            Some("/usr/local/share:/usr/share"@),
        ),
{
    reveal_strlit("/usr/local/share:/usr/share");
}

/// The first of the settings that is there and not empty decides on the languages: the one for
/// everything, then the one for messages, then the general one.
pub proof fn law_language_settings_have_an_order(
    everything: Option<Seq<char>>,
    messages: Option<Seq<char>>,
    language: Option<Seq<char>>,
    locale: Seq<char>,
)
    requires
        locale.len() > 0,
    ensures
        environment::locales(Some(locale), messages, language) == environment::locales_of(locale),
        everything is None || everything == Some(Seq::<char>::empty()) ==> environment::locales(
            everything,
            Some(locale),
            language,
        ) == environment::locales_of(locale),
        (everything is None || everything == Some(Seq::<char>::empty())) && (messages is None
            || messages == Some(Seq::<char>::empty())) ==> environment::locales(
            everything,
            messages,
            Some(locale),
        ) == environment::locales_of(locale),
        environment::locales(None, None, None).len() == 0,
{
}

/// Where text is cut at the first occurrence of a character behind a part without it.
proof fn lemma_cut_at(start: Seq<char>, end: char, rest: Seq<char>)
    requires
        !start.contains(end),
    ensures
        text::position(start, end) is None,
        text::position(start + seq![end] + rest, end) == Some(start.len() as int),
        environment::up_to(start, end) == start,
        environment::up_to(start + seq![end] + rest, end) == start,
        (start + seq![end] + rest).skip(start.len() as int + 1) == rest,
{
    let all = start + seq![end] + rest;
    text::lemma_position(all, end);
    text::lemma_position(start, end);
    assert(all[start.len() as int] == end);
    let found = text::position(all, end);
    assert(found is Some) by {
        if found is None {
            assert(all.contains(end));
        }
    }
    let at = found->Some_0;
    if at < start.len() {
        assert(start[at] == end);
    }
    if at > start.len() {
        assert(all.take(at)[start.len() as int] == end);
    }
    assert(all.take(start.len() as int) =~= start);
    assert(all.skip(start.len() as int + 1) =~= rest);
    if let Some(found) = text::position(start, end) {
        assert(start[found] == end);
    }
}

/// The languages of a locale with a country and a modifier are both together, the country without
/// the modifier, the language with the modifier, and the language alone; an encoding behind the
/// country changes nothing.
pub proof fn law_locales_go_from_specific_to_general(
    language: Seq<char>,
    country: Seq<char>,
    modifier: Seq<char>,
    encoding: Seq<char>,
)
    requires
        !language.contains('_'),
        !language.contains('.'),
        !language.contains('@'),
        !country.contains('.'),
        !country.contains('@'),
        !encoding.contains('@'),
    ensures
        environment::locales_of(language + seq!['_'] + country + seq!['@'] + modifier) == seq![
            language + seq!['_'] + country + seq!['@'] + modifier,
            language + seq!['_'] + country,
            language + seq!['@'] + modifier,
            language,
        ],
        environment::locales_of(language + seq!['_'] + country) == seq![
            language + seq!['_'] + country,
            language,
        ],
        environment::locales_of(language + seq!['_'] + country + seq!['.'] + encoding)
            == environment::locales_of(language + seq!['_'] + country),
{
    let base = language + seq!['_'] + country;
    assert(!base.contains('.') && !base.contains('@')) by {
        assert forall|i: int| 0 <= i < base.len() implies base[i] != '.' && base[i] != '@' by {
            if i < language.len() {
                assert(language.contains(language[i]));
            } else if i > language.len() {
                assert(base[i] == country[i - language.len() - 1]);
                assert(country.contains(country[i - language.len() - 1]));
            }
        }
    }
    lemma_cut_at(base, '@', modifier);
    lemma_cut_at(base, '.', encoding);
    lemma_cut_at(language, '_', country);
    let marked = base + seq!['@'] + modifier;
    let encoded = base + seq!['.'] + encoding;
    assert(!encoded.contains('@')) by {
        assert forall|i: int| 0 <= i < encoded.len() implies encoded[i] != '@' by {
            if i < base.len() {
                assert(base.contains(base[i]));
            } else if i > base.len() {
                assert(encoded[i] == encoding[i - base.len() - 1]);
                assert(encoding.contains(encoding[i - base.len() - 1]));
            }
        }
    }
    lemma_cut_at(encoded, '@', modifier);
    assert(base.push('@') + modifier =~= marked);
    assert(language.push('@') + modifier =~= language + seq!['@'] + modifier);
    assert(base.len() > language.len());
    lemma_distinct_pair(base, language);
    let four = seq![marked, base, language + seq!['@'] + modifier, language];
    assert(environment::deduplicated(four) =~= four) by {
        let one = four.take(1);
        let two = four.take(2);
        let three = four.take(3);
        assert(one.drop_last() =~= Seq::empty());
        assert(two.drop_last() =~= one);
        assert(three.drop_last() =~= two);
        assert(four.drop_last() =~= three);
        assert(environment::deduplicated(Seq::<Seq<char>>::empty()) =~= Seq::empty());
        assert(environment::deduplicated(one) =~= one);
        assert(marked.len() != base.len());
        assert(environment::deduplicated(two) =~= two);
        assert((language + seq!['@'] + modifier)[language.len() as int] == '@');
        assert(base[language.len() as int] == '_');
        assert(environment::deduplicated(three) =~= three);
        assert((language + seq!['@'] + modifier).len() != language.len());
    }
}

proof fn lemma_distinct_pair(first: Seq<char>, second: Seq<char>)
    requires
        first.len() != second.len(),
    ensures
        environment::deduplicated(seq![first, second]) == seq![first, second],
{
    let both = seq![first, second];
    let one = both.take(1);
    assert(one.drop_last() =~= Seq::empty());
    assert(both.drop_last() =~= one);
    assert(environment::deduplicated(Seq::<Seq<char>>::empty()) =~= Seq::empty());
    assert(environment::deduplicated(one) =~= one);
    assert(environment::deduplicated(both) =~= both);
}

/// The identifier of a file in a directory below the applications is the directory and the file
/// with a hyphen between them.
pub proof fn law_identifiers_join_with_hyphens(parts: Seq<Seq<char>>, part: Seq<char>)
    ensures
        environment::hyphenated(seq![part]) == part,
        parts.len() > 0 ==> environment::hyphenated(parts.push(part)) == environment::hyphenated(
            parts,
        ) + seq!['-'] + part,
{
    assert(parts.push(part).drop_last() =~= parts);
    assert(environment::hyphenated(parts).push('-') + part =~= environment::hyphenated(parts)
        + seq!['-'] + part);
}

} // verus!
