//! Command lines of desktop entries, run directly and never by a shell.

use vstd::prelude::*;

use crate::desktop::entry;
use crate::desktop::entry::MAX_ARGUMENT_BYTES;
use crate::text;
use crate::text::{byte_size, characters, collected, is_white_space, spells};

verus! {

/// Maximum number of arguments of a command.
pub const MAX_ARGUMENTS: usize = 256;

/// How far a command line has been cut.
pub ghost struct Cutting {
    /// The finished arguments.
    pub tokens: Seq<Seq<char>>,
    /// The unfinished argument.
    pub token: Seq<char>,
    /// Whether a quotation mark is open.
    pub quoted: bool,
    /// Whether the next character stands for itself.
    pub escaped: bool,
}

/// How far a command line is cut after another character.
pub open spec fn character_cut(before: Cutting, c: char) -> Cutting {
    if before.escaped {
        Cutting { token: before.token.push(c), escaped: false, ..before }
    } else if c == '\\' {
        Cutting { escaped: true, ..before }
    } else if c == '"' {
        Cutting { quoted: !before.quoted, ..before }
    } else if text::white_space(c) && !before.quoted {
        if before.token.len() == 0 {
            before
        } else {
            Cutting { tokens: before.tokens.push(before.token), token: Seq::empty(), ..before }
        }
    } else {
        Cutting { token: before.token.push(c), ..before }
    }
}

/// How far a command line is cut after all of its characters.
pub open spec fn cutting(value: Seq<char>) -> Cutting
    decreases value.len(),
{
    if value.len() == 0 {
        Cutting { tokens: Seq::empty(), token: Seq::empty(), quoted: false, escaped: false }
    } else {
        character_cut(cutting(value.drop_last()), value.last())
    }
}

/// The arguments of a command line, or nothing where a quotation mark or an escape is left open.
pub open spec fn tokens(value: Seq<char>) -> Option<Seq<Seq<char>>> {
    let cut = cutting(value);
    if cut.escaped || cut.quoted {
        None
    } else if cut.token.len() == 0 {
        Some(cut.tokens)
    } else {
        Some(cut.tokens.push(cut.token))
    }
}

/// Whether a field code stands for files, addresses or something obsolete, of which there is
/// none.
pub open spec fn is_dropped(code: char) -> bool {
    code == 'f' || code == 'F' || code == 'u' || code == 'U' || code == 'd' || code == 'D' || code
        == 'n' || code == 'N' || code == 'v' || code == 'm'
}

/// What a field code within an argument stands for.
pub open spec fn field_code(code: char, name: Seq<char>, path: Option<Seq<char>>) -> Option<
    Seq<char>,
> {
    if code == '%' {
        Some(seq!['%'])
    } else if code == 'c' {
        Some(name)
    } else if code == 'k' {
        path
    } else if is_dropped(code) {
        Some(Seq::empty())
    } else {
        None
    }
}

/// An argument with its field codes resolved.
pub open spec fn expanded(token: Seq<char>, name: Seq<char>, path: Option<Seq<char>>) -> Option<
    Seq<char>,
>
    decreases token.len(),
{
    if token.len() == 0 {
        Some(Seq::empty())
    } else if token[0] != '%' {
        entry::before(seq![token[0]], expanded(token.skip(1), name, path))
    } else if token.len() == 1 {
        None
    } else {
        match field_code(token[1], name, path) {
            Some(start) => entry::before(start, expanded(token.skip(2), name, path)),
            None => None,
        }
    }
}

/// The number of bytes of all arguments.
pub open spec fn total_size(argv: Seq<Seq<char>>) -> nat
    decreases argv.len(),
{
    if argv.len() == 0 {
        0
    } else {
        total_size(argv.drop_last()) + text::size(argv.last())
    }
}

/// Whether arguments are too many or too long.
pub open spec fn is_excessive(argv: Seq<Seq<char>>) -> bool {
    argv.len() > MAX_ARGUMENTS || total_size(argv) > MAX_ARGUMENT_BYTES
}

/// The arguments once another token was resolved.
pub open spec fn token_resolved(
    argv: Seq<Seq<char>>,
    token: Seq<char>,
    name: Seq<char>,
    icon: Option<Seq<char>>,
    path: Option<Seq<char>>,
) -> Option<Seq<Seq<char>>> {
    if token == "%i"@ {
        match icon {
            Some(icon) => Some(argv.push("--icon"@).push(icon)),
            None => Some(argv),
        }
    } else {
        match expanded(token, name, path) {
            Some(argument) => {
                let next = if argument.len() == 0 {
                    argv
                } else {
                    argv.push(argument)
                };
                if is_excessive(next) {
                    None
                } else {
                    Some(next)
                }
            },
            None => None,
        }
    }
}

/// The arguments that tokens stand for.
pub open spec fn resolved(
    tokens: Seq<Seq<char>>,
    name: Seq<char>,
    icon: Option<Seq<char>>,
    path: Option<Seq<char>>,
) -> Option<Seq<Seq<char>>>
    decreases tokens.len(),
{
    if tokens.len() == 0 {
        Some(Seq::empty())
    } else {
        match resolved(tokens.drop_last(), name, icon, path) {
            Some(argv) => token_resolved(argv, tokens.last(), name, icon, path),
            None => None,
        }
    }
}

/// The arguments of a command, the executable first.
pub open spec fn arguments(
    value: Seq<char>,
    name: Seq<char>,
    icon: Option<Seq<char>>,
    path: Option<Seq<char>>,
) -> Option<Seq<Seq<char>>> {
    match tokens(value) {
        Some(tokens) => match resolved(tokens, name, icon, path) {
            Some(argv) => if argv.len() > 0 && argv[0].len() > 0 {
                Some(argv)
            } else {
                None
            },
            None => None,
        },
        None => None,
    }
}

/// The characters of an optional text.
pub open spec fn given(value: Option<&str>) -> Option<Seq<char>> {
    match value {
        Some(value) => Some(value@),
        None => None,
    }
}

/// The characters of lists.
pub open spec fn listed(list: Option<Vec<Vec<char>>>) -> Option<Seq<Seq<char>>> {
    match list {
        Some(list) => Some(text::texts(list@)),
        None => None,
    }
}

/// The texts of an optional list of strings.
pub open spec fn strings(list: Option<Vec<String>>) -> Option<Seq<Seq<char>>> {
    match list {
        Some(list) => Some(text::lines_of(list@)),
        None => None,
    }
}

/// Cuts a command line into arguments.
fn tokenize_exec(value: &str) -> (found: Option<Vec<Vec<char>>>)
    ensures
        listed(found) == tokens(value@),
{
    let chars = characters(value);
    let mut done: Vec<Vec<char>> = Vec::new();
    let mut token: Vec<char> = Vec::new();
    let mut quoted = false;
    let mut escaped = false;
    let mut index: usize = 0;
    assert(text::texts(done@) =~= Seq::empty());
    while index < chars.len()
        invariant
            index <= chars.len(),
            chars@ == value@,
            cutting(chars@.take(index as int)) == (Cutting {
                tokens: text::texts(done@),
                token: token@,
                quoted,
                escaped,
            }),
        decreases chars.len() - index,
    {
        assert(chars@.take(index + 1).drop_last() =~= chars@.take(index as int));
        let c = chars[index];
        if escaped {
            token.push(c);
            escaped = false;
        } else if c == '\\' {
            escaped = true;
        } else if c == '"' {
            quoted = !quoted;
        } else if is_white_space(c) && !quoted {
            if token.len() > 0 {
                let ghost before = done@;
                let ghost finished = token@;
                done.push(token);
                assert(text::texts(done@) =~= text::texts(before).push(finished));
                token = Vec::new();
            }
        } else {
            token.push(c);
        }
        index = index + 1;
    }
    assert(chars@.take(index as int) =~= chars@);
    if escaped || quoted {
        return None;
    }
    if token.len() > 0 {
        let ghost before = done@;
        let ghost finished = token@;
        done.push(token);
        assert(text::texts(done@) =~= text::texts(before).push(finished));
    }
    Some(done)
}

/// Appends characters to others.
fn extend(target: &mut Vec<char>, more: &str)
    ensures
        final(target)@ == old(target)@ + more@,
{
    let chars = characters(more);
    let ghost before = target@;
    let mut index: usize = 0;
    assert(before + chars@.take(0) =~= before);
    while index < chars.len()
        invariant
            index <= chars.len(),
            target@ == before + chars@.take(index as int),
        decreases chars.len() - index,
    {
        assert(before + chars@.take(index + 1) =~= (before + chars@.take(index as int)).push(
            chars@[index as int],
        ));
        target.push(chars[index]);
        index = index + 1;
    }
    assert(chars@.take(index as int) =~= chars@);
}

/// Resolves the field codes of an argument.
fn expand(token: &[char], name: &str, path: Option<&str>) -> (argument: Option<String>)
    ensures
        text::maybe(argument) == expanded(token@, name@, given(path)),
{
    let ghost wanted = expanded(token@, name@, given(path));
    let mut output: Vec<char> = Vec::new();
    let mut index: usize = 0;
    assert(token@.skip(0) =~= token@);
    assert(entry::before(output@, wanted) == wanted) by {
        if let Some(rest) = wanted {
            assert(output@ + rest =~= rest);
        }
    }
    while index < token.len()
        invariant
            index <= token.len(),
            wanted == expanded(token@, name@, given(path)),
            wanted == entry::before(
                output@,
                expanded(token@.skip(index as int), name@, given(path)),
            ),
        decreases token.len() - index,
    {
        let ghost rest = token@.skip(index as int);
        let ghost done = output@;
        let c = token[index];
        assert(rest[0] == c);
        if c != '%' {
            output.push(c);
            assert(rest.skip(1) =~= token@.skip(index + 1));
            proof {
                if let Some(tail) = expanded(rest.skip(1), name@, given(path)) {
                    assert(done + (seq![c] + tail) =~= output@ + tail);
                }
            }
            index = index + 1;
        } else {
            if index + 1 == token.len() {
                return None;
            }
            let code = token[index + 1];
            assert(rest[1] == code);
            match code {
                '%' => output.push('%'),
                'c' => extend(&mut output, name),
                'k' => match path {
                    Some(path) => extend(&mut output, path),
                    None => return None,
                },
                'f' | 'F' | 'u' | 'U' | 'd' | 'D' | 'n' | 'N' | 'v' | 'm' => {},
                _ => return None,
            }
            let ghost start = field_code(code, name@, given(path))->Some_0;
            assert(output@ =~= done + start);
            assert(rest.skip(2) =~= token@.skip(index + 2));
            proof {
                if let Some(tail) = expanded(rest.skip(2), name@, given(path)) {
                    assert(done + (start + tail) =~= output@ + tail);
                }
            }
            index = index + 2;
        }
    }
    assert(token@.skip(index as int).len() == 0);
    assert(output@ + Seq::<char>::empty() =~= output@);
    Some(collected(output.as_slice()))
}

/// More arguments never take fewer bytes.
proof fn lemma_size_grows(argv: Seq<Seq<char>>, length: int)
    requires
        0 <= length <= argv.len(),
    ensures
        total_size(argv.take(length)) <= total_size(argv),
    decreases argv.len() - length,
{
    if length < argv.len() {
        assert(argv.take(length + 1).drop_last() =~= argv.take(length));
        lemma_size_grows(argv, length + 1);
    } else {
        assert(argv.take(length) =~= argv);
    }
}

/// Returns whether arguments are too many or too long.
fn exceeds(argv: &Vec<String>) -> (r: bool)
    ensures
        r == is_excessive(text::lines_of(argv@)),
{
    let ghost all = text::lines_of(argv@);
    if argv.len() > MAX_ARGUMENTS {
        return true;
    }
    let mut total: usize = 0;
    let mut index: usize = 0;
    assert(all.take(0) =~= Seq::empty());
    while index < argv.len()
        invariant
            index <= argv.len(),
            all == text::lines_of(argv@),
            total <= MAX_ARGUMENT_BYTES,
            total == total_size(all.take(index as int)),
        decreases argv.len() - index,
    {
        assert(all.take(index + 1).drop_last() =~= all.take(index as int));
        assert(all[index as int] == argv@[index as int]@);
        let size = byte_size(argv[index].as_str());
        if size > MAX_ARGUMENT_BYTES - total {
            proof {
                lemma_size_grows(all, index + 1);
            }
            return true;
        }
        total = total + size;
        index = index + 1;
    }
    assert(all.take(index as int) =~= all);
    false
}

/// Once a token cannot be resolved, there is no command.
proof fn lemma_unresolved(
    tokens: Seq<Seq<char>>,
    name: Seq<char>,
    icon: Option<Seq<char>>,
    path: Option<Seq<char>>,
    length: int,
)
    requires
        0 <= length <= tokens.len(),
        resolved(tokens.take(length), name, icon, path) is None,
    ensures
        resolved(tokens, name, icon, path) is None,
    decreases tokens.len() - length,
{
    if length < tokens.len() {
        assert(tokens.take(length + 1).drop_last() =~= tokens.take(length));
        lemma_unresolved(tokens, name, icon, path, length + 1);
    } else {
        assert(tokens.take(length) =~= tokens);
    }
}

/// Parses the command line of a desktop entry into an executable and its arguments.
///
/// Field codes for files and addresses stand for nothing, since nothing is opened. There is no
/// command where a quotation mark or an escape is left open, a field code is unknown, or the
/// arguments are too many or too long.
#[must_use]
pub fn parse_exec(value: &str, name: &str, icon: Option<&str>, path: Option<&str>) -> (argv: Option<
    Vec<String>,
>)
    ensures
        strings(argv) == arguments(value@, name@, given(icon), given(path)),
{
    let found = match tokenize_exec(value) {
        Some(found) => found,
        None => return None,
    };
    let ghost all = text::texts(found@);
    let mut argv: Vec<String> = Vec::new();
    let mut index: usize = 0;
    assert(all.take(0) =~= Seq::empty());
    assert(text::lines_of(argv@) =~= Seq::empty());
    while index < found.len()
        invariant
            index <= found.len(),
            all == text::texts(found@),
            tokens(value@) == Some(all),
            resolved(all.take(index as int), name@, given(icon), given(path)) == Some(
                text::lines_of(argv@),
            ),
        decreases found.len() - index,
    {
        assert(all.take(index + 1).drop_last() =~= all.take(index as int));
        assert(all.take(index + 1).last() == found@[index as int]@);
        let ghost before = argv@;
        if spells(found[index].as_slice(), "%i") {
            if let Some(icon) = icon {
                argv.push("--icon".to_owned());
                argv.push(icon.to_owned());
                assert(text::lines_of(argv@) =~= text::lines_of(before).push("--icon"@).push(
                    icon@,
                ));
            }
        } else {
            match expand(found[index].as_slice(), name, path) {
                Some(argument) => {
                    if !argument.as_str().is_empty() {
                        argv.push(argument);
                        assert(text::lines_of(argv@) =~= text::lines_of(before).push(argument@));
                    }
                },
                None => {
                    proof {
                        lemma_unresolved(all, name@, given(icon), given(path), index + 1);
                    }
                    return None;
                },
            }
            if exceeds(&argv) {
                proof {
                    lemma_unresolved(all, name@, given(icon), given(path), index + 1);
                }
                return None;
            }
        }
        index = index + 1;
    }
    assert(all.take(index as int) =~= all);
    if argv.len() > 0 && !argv[0].as_str().is_empty() {
        Some(argv)
    } else {
        None
    }
}

/// A command line without quotation marks and backslashes is cut into its words.
pub proof fn law_plain_command_lines_are_cut_into_words(value: Seq<char>)
    requires
        !value.contains('"'),
        !value.contains('\\'),
    ensures
        tokens(value) == Some(text::words(value)),
    decreases value.len(),
{
    lemma_plain_cutting(value);
}

proof fn lemma_plain_cutting(value: Seq<char>)
    requires
        !value.contains('"'),
        !value.contains('\\'),
    ensures
        ({
            let cut = cutting(value);
            &&& !cut.quoted
            &&& !cut.escaped
            &&& (cut.token.len() > 0) == (value.len() > 0 && !text::white_space(value.last()))
            &&& text::words(value) == (if cut.token.len() == 0 {
                cut.tokens
            } else {
                cut.tokens.push(cut.token)
            })
        }),
    decreases value.len(),
{
    if value.len() > 0 {
        let rest = value.drop_last();
        assert forall|i: int| 0 <= i < rest.len() implies rest[i] != '"' && rest[i] != '\\' by {
            assert(value[i] == rest[i]);
        }
        lemma_plain_cutting(rest);
        assert(value.last() != '"' && value.last() != '\\') by {
            assert(value[value.len() - 1] == value.last());
        }
        let before = cutting(rest);
        if !text::white_space(value.last()) {
            if value.len() == 1 || text::white_space(value[value.len() - 2]) {
                assert(rest.len() == 0 || rest.last() == value[value.len() - 2]);
                assert(before.token.push(value.last()) =~= seq![value.last()]);
            } else {
                assert(rest.last() == value[value.len() - 2]);
                assert(before.tokens.push(before.token).drop_last() =~= before.tokens);
            }
        }
    }
}

/// A command has an executable.
pub proof fn law_commands_name_an_executable(
    value: Seq<char>,
    name: Seq<char>,
    icon: Option<Seq<char>>,
    path: Option<Seq<char>>,
)
    requires
        arguments(value, name, icon, path) is Some,
    ensures
        arguments(value, name, icon, path)->Some_0.len() > 0,
        arguments(value, name, icon, path)->Some_0[0].len() > 0,
{
}

} // verus!
