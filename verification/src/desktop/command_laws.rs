//! Laws of command lines: what field codes, quotation marks, and escapes stand for.

use vstd::prelude::*;

use crate::desktop::command;
use crate::desktop::command::Cutting;
use crate::desktop::entry;
use crate::text;

verus! {

/// What a field code stands for, of which there is nothing for an unknown one.
pub open spec fn meaning(code: char, name: Seq<char>, path: Option<Seq<char>>) -> Option<
    Seq<char>,
> {
    if [
        'f',
        'F',
        'u',
        'U',
        'd',
        'D',
        'n',
        'N',
        'v',
        'm',
    ]@.contains(code) {
        Some(Seq::empty())
    } else if code == '%' {
        Some(seq!['%'])
    } else if code == 'c' {
        Some(name)
    } else if code == 'k' {
        path
    } else {
        None
    }
}

/// The codes for files, addresses, and what is obsolete stand for nothing, a doubled percent sign
/// stands for one, `c` for the name, and `k` for the path; there is no other code.
pub proof fn law_codes_are_resolved(code: char, name: Seq<char>, path: Option<Seq<char>>)
    ensures
        code == 'f' || code == 'F' || code == 'u' || code == 'U' || code == 'd' || code == 'D'
            || code == 'n' || code == 'N' || code == 'v' || code == 'm' ==> command::expanded(
            seq!['%', code],
            name,
            path,
        ) == Some(Seq::<char>::empty()),
        code == '%' ==> command::expanded(seq!['%', code], name, path) == Some(seq!['%']),
        code == 'c' ==> command::expanded(seq!['%', code], name, path) == Some(name),
        code == 'k' ==> command::expanded(seq!['%', code], name, path) == path,
        code != 'f' && code != 'F' && code != 'u' && code != 'U' && code != 'd' && code != 'D'
            && code != 'n' && code != 'N' && code != 'v' && code != 'm' && code != '%' && code
            != 'c' && code != 'k' ==> command::expanded(seq!['%', code], name, path) is None,
        command::expanded(seq!['%'], name, path) is None,
{
    let token = seq!['%', code];
    assert(token.skip(2) =~= Seq::empty());
    assert(command::expanded(token.skip(2), name, path) == Some(Seq::<char>::empty()));
    if let Some(start) = command::field_code(code, name, path) {
        assert(start + Seq::<char>::empty() =~= start);
    }
}

/// Text without percent signs stands for itself, whatever follows it.
proof fn lemma_plain_text_is_kept(
    plain: Seq<char>,
    rest: Seq<char>,
    name: Seq<char>,
    path: Option<Seq<char>>,
)
    requires
        !plain.contains('%'),
    ensures
        command::expanded(plain + rest, name, path) == entry::before(
            plain,
            command::expanded(rest, name, path),
        ),
    decreases plain.len(),
{
    let all = plain + rest;
    if plain.len() == 0 {
        assert(all =~= rest);
        if let Some(tail) = command::expanded(rest, name, path) {
            assert(plain + tail =~= tail);
        }
    } else {
        assert(plain.contains(plain[0]));
        assert(all[0] == plain[0]);
        assert(all.skip(1) =~= plain.skip(1) + rest);
        assert(!plain.skip(1).contains('%')) by {
            assert forall|i: int| 0 <= i < plain.skip(1).len() implies plain.skip(1)[i] != '%' by {
                assert(plain.contains(plain[i + 1]));
            }
        }
        lemma_plain_text_is_kept(plain.skip(1), rest, name, path);
        if let Some(tail) = command::expanded(rest, name, path) {
            assert(seq![plain[0]] + (plain.skip(1) + tail) =~= plain + tail);
        }
    }
}

/// An argument stands for its text up to the first percent sign, what the code behind that stands
/// for, and what the rest of the argument stands for. Nothing comes of an argument with an unknown
/// code.
pub proof fn law_codes_are_replaced_in_place(
    plain: Seq<char>,
    code: char,
    rest: Seq<char>,
    name: Seq<char>,
    path: Option<Seq<char>>,
)
    requires
        !plain.contains('%'),
    ensures
        command::expanded(plain, name, path) == Some(plain),
        command::expanded(plain + seq!['%', code] + rest, name, path) == match (
            meaning(code, name, path),
            command::expanded(rest, name, path),
        ) {
            (Some(start), Some(end)) => Some(plain + start + end),
            _ => None,
        },
{
    assert(plain + Seq::<char>::empty() =~= plain);
    lemma_plain_text_is_kept(plain, Seq::empty(), name, path);
    let coded = seq!['%', code] + rest;
    assert(plain + seq!['%', code] + rest =~= plain + coded);
    lemma_plain_text_is_kept(plain, coded, name, path);
    assert(coded[0] == '%' && coded[1] == code);
    assert(coded.skip(2) =~= rest);
    assert(meaning(code, name, path) == command::field_code(code, name, path)) by {
        let dropped = ['f', 'F', 'u', 'U', 'd', 'D', 'n', 'N', 'v', 'm']@;
        assert(dropped[0] == 'f' && dropped[1] == 'F' && dropped[2] == 'u' && dropped[3] == 'U'
            && dropped[4] == 'd' && dropped[5] == 'D' && dropped[6] == 'n' && dropped[7] == 'N'
            && dropped[8] == 'v' && dropped[9] == 'm');
    }
    if let (Some(start), Some(end)) = (
        command::field_code(code, name, path),
        command::expanded(rest, name, path),
    ) {
        assert(plain + (start + end) =~= plain + start + end);
    }
}

proof fn lemma_step(value: Seq<char>, c: char)
    ensures
        command::cutting(value.push(c)) == command::character_cut(command::cutting(value), c),
{
    assert(value.push(c).drop_last() =~= value);
}

/// A space closes the last argument of a command line.
proof fn lemma_space(value: Seq<char>)
    requires
        command::tokens(value) is Some,
    ensures
        command::cutting(value + seq![' ']) == (Cutting {
            tokens: command::tokens(value)->Some_0,
            token: Seq::empty(),
            quoted: false,
            escaped: false,
        }),
{
    let spaced = value + seq![' '];
    assert(spaced.drop_last() =~= value);
    assert(spaced.last() == ' ');
    if command::cutting(value).token.len() == 0 {
        assert(command::cutting(value).token =~= Seq::empty());
    }
}

/// What a further word does to a command line that is closed.
proof fn lemma_further_word(value: Seq<char>, word: Seq<char>)
    requires
        command::tokens(value) is Some,
        word.len() > 0,
        forall|i: int|
            0 <= i < word.len() ==> (#[trigger] word[i]) != '"' && word[i] != '\\'
                && !text::white_space(word[i]),
    ensures
        command::cutting(value + seq![' '] + word) == (Cutting {
            tokens: command::tokens(value)->Some_0,
            token: word,
            quoted: false,
            escaped: false,
        }),
    decreases word.len(),
{
    let spaced = value + seq![' '];
    let all = spaced + word;
    lemma_space(value);
    assert(all.drop_last() =~= spaced + word.drop_last());
    assert(all.last() == word[word.len() - 1]);
    if word.len() == 1 {
        assert(spaced + word.drop_last() =~= spaced);
        assert(Seq::<char>::empty().push(word[0]) =~= word);
    } else {
        let shorter = word.drop_last();
        assert forall|i: int| 0 <= i < shorter.len() implies (#[trigger] shorter[i]) != '"'
            && shorter[i] != '\\' && !text::white_space(shorter[i]) by {
            assert(shorter[i] == word[i]);
        }
        lemma_further_word(value, shorter);
        assert(shorter.push(word[word.len() - 1]) =~= word);
    }
}

/// A further word of a command line is a further argument to resolve.
pub proof fn law_words_are_separate(value: Seq<char>, word: Seq<char>)
    requires
        command::tokens(value) is Some,
        word.len() > 0,
        forall|i: int|
            0 <= i < word.len() ==> (#[trigger] word[i]) != '"' && word[i] != '\\'
                && !text::white_space(word[i]),
    ensures
        command::tokens(value + seq![' '] + word)
            == Some(command::tokens(value)->Some_0.push(word)),
{
    lemma_further_word(value, word);
}

/// Whether no percent sign is in what was cut so far.
spec fn is_free_of_codes(cut: Cutting) -> bool {
    &&& !cut.token.contains('%')
    &&& forall|i: int| 0 <= i < cut.tokens.len() ==> !(#[trigger] cut.tokens[i]).contains('%')
}

proof fn lemma_no_codes_are_cut(value: Seq<char>)
    requires
        !value.contains('%'),
    ensures
        is_free_of_codes(command::cutting(value)),
    decreases value.len(),
{
    if value.len() > 0 {
        let shorter = value.drop_last();
        assert forall|i: int| 0 <= i < shorter.len() implies shorter[i] != '%' by {
            assert(value[i] == shorter[i]);
        }
        lemma_no_codes_are_cut(shorter);
        let before = command::cutting(shorter);
        assert(value[value.len() - 1] == value.last());
        assert(!before.token.push(value.last()).contains('%')) by {
            let longer = before.token.push(value.last());
            assert forall|i: int| 0 <= i < longer.len() implies longer[i] != '%' by {
                if i < before.token.len() {
                    assert(before.token.contains(before.token[i]));
                }
            }
        }
    }
}

proof fn lemma_no_codes_in_tokens(value: Seq<char>)
    requires
        !value.contains('%'),
        command::tokens(value) is Some,
    ensures
        forall|i: int|
            0 <= i < command::tokens(value)->Some_0.len() ==> !(#[trigger] command::tokens(
                value,
            )->Some_0[i]).contains('%'),
{
    lemma_no_codes_are_cut(value);
}

/// What is resolved without icons is within the limits.
proof fn lemma_resolved_is_bounded(
    tokens: Seq<Seq<char>>,
    name: Seq<char>,
    icon: Option<Seq<char>>,
    path: Option<Seq<char>>,
)
    requires
        forall|i: int| 0 <= i < tokens.len() ==> !(#[trigger] tokens[i]).contains('%'),
    ensures
        command::resolved(tokens, name, icon, path) matches Some(argv) ==> !command::is_excessive(
            argv,
        ),
{
    if tokens.len() > 0 {
        assert(!tokens[tokens.len() - 1].contains('%'));
        assert("%i"@.contains('%')) by {
            reveal_strlit("%i");
            assert("%i"@[0] == '%');
        }
    }
}

/// A code for files, addresses, or what is obsolete adds no argument: a command line without
/// percent signs, followed by such a code alone, has the same arguments as without it.
pub proof fn law_dropped_codes_add_no_argument(
    value: Seq<char>,
    code: char,
    name: Seq<char>,
    icon: Option<Seq<char>>,
    path: Option<Seq<char>>,
)
    requires
        !value.contains('%'),
        command::tokens(value) is Some,
        code == 'f' || code == 'F' || code == 'u' || code == 'U' || code == 'd' || code == 'D'
            || code == 'n' || code == 'N' || code == 'v' || code == 'm',
    ensures
        command::arguments(value + seq![' ', '%', code], name, icon, path) == command::arguments(
            value,
            name,
            icon,
            path,
        ),
{
    let word = seq!['%', code];
    let tokens = command::tokens(value)->Some_0;
    assert(value + seq![' ', '%', code] =~= value + seq![' '] + word);
    law_words_are_separate(value, word);
    lemma_no_codes_in_tokens(value);
    lemma_resolved_is_bounded(tokens, name, icon, path);
    law_codes_are_resolved(code, name, path);
    assert(tokens.push(word).drop_last() =~= tokens);
    assert(word != "%i"@) by {
        reveal_strlit("%i");
        assert("%i"@[1] == 'i');
        assert(word[1] == code);
    }
}

/// The code for the icon, alone at the end of a command line without percent signs, adds the
/// option and the icon to the arguments, and nothing where there is no icon.
pub proof fn law_icons_become_an_option(
    value: Seq<char>,
    name: Seq<char>,
    icon: Option<Seq<char>>,
    path: Option<Seq<char>>,
)
    requires
        !value.contains('%'),
        command::arguments(value, name, icon, path) is Some,
    ensures
        command::arguments(value + seq![' ', '%', 'i'], name, icon, path) == match icon {
            Some(icon) => Some(
                command::arguments(value, name, Some(icon), path)->Some_0.push(
                    seq!['-', '-', 'i', 'c', 'o', 'n'],
                ).push(icon),
            ),
            None => command::arguments(value, name, icon, path),
        },
{
    let word = seq!['%', 'i'];
    let tokens = command::tokens(value)->Some_0;
    assert(value + seq![' ', '%', 'i'] =~= value + seq![' '] + word);
    law_words_are_separate(value, word);
    assert(tokens.push(word).drop_last() =~= tokens);
    reveal_strlit("%i");
    reveal_strlit("--icon");
    assert(word =~= "%i"@);
    assert(seq!['-', '-', 'i', 'c', 'o', 'n'] =~= "--icon"@);
}

/// Text between quotation marks is one argument, white space and all.
pub proof fn law_quoted_text_is_one_argument(value: Seq<char>, quoted: Seq<char>)
    requires
        command::tokens(value) is Some,
        quoted.len() > 0,
        !quoted.contains('"'),
        !quoted.contains('\\'),
    ensures
        command::tokens(value + seq![' ', '"'] + quoted + seq!['"']) == Some(
            command::tokens(value)->Some_0.push(quoted),
        ),
{
    let open = value + seq![' ', '"'] + quoted;
    let closed = open + seq!['"'];
    lemma_quoted_text(value, quoted);
    assert(closed.drop_last() =~= open);
    assert(closed.last() == '"');
}

proof fn lemma_quoted_text(value: Seq<char>, quoted: Seq<char>)
    requires
        command::tokens(value) is Some,
        !quoted.contains('"'),
        !quoted.contains('\\'),
    ensures
        command::cutting(value + seq![' ', '"'] + quoted) == (Cutting {
            tokens: command::tokens(value)->Some_0,
            token: quoted,
            quoted: true,
            escaped: false,
        }),
    decreases quoted.len(),
{
    let spaced = value + seq![' '];
    let open = value + seq![' ', '"'];
    lemma_space(value);
    assert(open.drop_last() =~= spaced);
    assert(open.last() == '"');
    if quoted.len() == 0 {
        assert(open + quoted =~= open);
        assert(quoted =~= Seq::empty());
    } else {
        let shorter = quoted.drop_last();
        let last = quoted[quoted.len() - 1];
        assert(quoted.contains(last));
        assert forall|i: int| 0 <= i < shorter.len() implies shorter[i] != '"' && shorter[i]
            != '\\' by {
            assert(quoted.contains(quoted[i]));
        }
        lemma_quoted_text(value, shorter);
        assert((open + quoted).drop_last() =~= open + shorter);
        assert((open + quoted).last() == last);
        assert(shorter.push(last) =~= quoted);
    }
}

/// A character behind a backslash stands for itself, in quotation marks and outside of them; a
/// backslash or a quotation mark that is left open leaves no arguments.
pub proof fn law_escaped_characters_stand_for_themselves(value: Seq<char>, c: char)
    requires
        command::tokens(value) is Some,
    ensures
        command::tokens(value + seq![' ', '\\', c]) == Some(
            command::tokens(value)->Some_0.push(seq![c]),
        ),
        command::tokens(value + seq![' ', '"', '\\', c, '"']) == Some(
            command::tokens(value)->Some_0.push(seq![c]),
        ),
        command::tokens(value + seq!['\\']) is None,
        command::tokens(value + seq!['"']) is None,
{
    let spaced = value + seq![' '];
    lemma_space(value);
    assert(Seq::<char>::empty().push(c) =~= seq![c]);
    lemma_step(spaced, '\\');
    lemma_step(spaced.push('\\'), c);
    assert(value + seq![' ', '\\', c] =~= spaced.push('\\').push(c));
    lemma_step(spaced, '"');
    let open = spaced.push('"');
    lemma_step(open, '\\');
    lemma_step(open.push('\\'), c);
    lemma_step(open.push('\\').push(c), '"');
    assert(value + seq![' ', '"', '\\', c, '"'] =~= open.push('\\').push(c).push('"'));
    assert((value + seq!['\\']).drop_last() =~= value);
    assert((value + seq!['\\']).last() == '\\');
    assert((value + seq!['"']).drop_last() =~= value);
    assert((value + seq!['"']).last() == '"');
}

/// What resolving tokens without codes comes to: the tokens themselves.
proof fn lemma_plain_tokens(
    tokens: Seq<Seq<char>>,
    name: Seq<char>,
    icon: Option<Seq<char>>,
    path: Option<Seq<char>>,
)
    requires
        forall|i: int|
            0 <= i < tokens.len() ==> !(#[trigger] tokens[i]).contains('%') && tokens[i].len() > 0,
    ensures
        command::resolved(tokens, name, icon, path) == if tokens.len() > 256
            || command::total_size(tokens) > 16_384 {
            None
        } else {
            Some(tokens)
        },
    decreases tokens.len(),
{
    if tokens.len() == 0 {
        assert(tokens =~= Seq::empty());
    } else {
        let shorter = tokens.drop_last();
        let last = tokens[tokens.len() - 1];
        assert(!last.contains('%') && last.len() > 0);
        assert forall|i: int| 0 <= i < shorter.len() implies !(#[trigger] shorter[i]).contains('%')
            && shorter[i].len() > 0 by {
            assert(shorter[i] == tokens[i]);
        }
        lemma_plain_tokens(shorter, name, icon, path);
        assert(last != "%i"@) by {
            reveal_strlit("%i");
            assert("%i"@[0] == '%');
        }
        law_codes_are_replaced_in_place(last, 'c', Seq::empty(), name, path);
        assert(shorter.push(last) =~= tokens);
    }
}

/// A command line of words without quotation marks, backslashes, and percent signs has its words
/// for arguments, the executable first. There is no command without a word, with more than 256, or
/// where they take too many bytes together.
pub proof fn law_plain_words_are_the_arguments(
    value: Seq<char>,
    name: Seq<char>,
    icon: Option<Seq<char>>,
    path: Option<Seq<char>>,
)
    requires
        !value.contains('"'),
        !value.contains('\\'),
        !value.contains('%'),
    ensures
        command::arguments(value, name, icon, path) == if 1 <= text::words(value).len() <= 256
            && command::total_size(text::words(value)) <= 16_384 {
            Some(text::words(value))
        } else {
            None
        },
{
    let words = text::words(value);
    command::law_plain_command_lines_are_cut_into_words(value);
    lemma_no_codes_in_tokens(value);
    lemma_words_are_not_empty(value);
    lemma_plain_tokens(words, name, icon, path);
    if words.len() > 0 {
        assert(words[0].len() > 0);
    }
}

proof fn lemma_words_are_not_empty(value: Seq<char>)
    ensures
        forall|i: int|
            0 <= i < text::words(value).len() ==> (#[trigger] text::words(value)[i]).len() > 0,
        value.len() > 0 && !text::white_space(value.last()) ==> text::words(value).len() > 0,
    decreases value.len(),
{
    if value.len() > 0 {
        lemma_words_are_not_empty(value.drop_last());
        let before = text::words(value.drop_last());
        if value.len() > 1 {
            assert(value.drop_last().last() == value[value.len() - 2]);
        }
        assert forall|i: int| 0 <= i < text::words(value).len() implies (#[trigger] text::words(
            value,
        )[i]).len() > 0 by {
            if i < before.len() {
                assert(before[i].len() > 0);
            }
        }
    }
}

} // verus!
