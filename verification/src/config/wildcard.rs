//! Wildcard patterns.
//!
//! `?` stands for one byte and `*` for any number of bytes. Every other byte stands for itself,
//! in either case of an ASCII letter.

use vstd::prelude::*;

verus! {

/// The byte of an asterisk.
pub const STAR: u8 = 42;

/// The byte of a question mark.
pub const QUESTION_MARK: u8 = 63;

/// The lower-case form of an ASCII letter; any other byte itself.
pub open spec fn lowered_byte(byte: u8) -> u8 {
    if 65 <= byte <= 90 {
        (byte + 32) as u8
    } else {
        byte
    }
}

/// Whether a pattern byte other than an asterisk stands for this one byte.
pub open spec fn stands_for(pattern: u8, byte: u8) -> bool {
    pattern == QUESTION_MARK || lowered_byte(pattern) == lowered_byte(byte)
}

/// Whether the pattern from one position on accepts the value from another position on.
pub open spec fn accepts(pattern: Seq<u8>, from: int, value: Seq<u8>, at: int) -> bool
    decreases pattern.len() - from, 0int,
{
    if at >= value.len() {
        forall|i: int| from <= i < pattern.len() ==> pattern[i] == STAR
    } else if from >= pattern.len() {
        false
    } else if pattern[from] == STAR {
        accepts_later(pattern, from + 1, value, at)
    } else {
        stands_for(pattern[from], value[at]) && accepts(pattern, from + 1, value, at + 1)
    }
}

/// Whether the pattern from one position on accepts the value from another position on or from
/// some later one.
pub open spec fn accepts_later(pattern: Seq<u8>, from: int, value: Seq<u8>, at: int) -> bool
    decreases pattern.len() - from, value.len() - at + 1,
{
    at <= value.len() && (accepts(pattern, from, value, at) || (at < value.len() && accepts_later(
        pattern,
        from,
        value,
        at + 1,
    )))
}

/// A later position may be any one up to the end of the value.
proof fn lemma_later(pattern: Seq<u8>, from: int, value: Seq<u8>, at: int)
    requires
        at <= value.len(),
    ensures
        accepts_later(pattern, from, value, at) <==> exists|next: int|
            at <= next <= value.len() && #[trigger] accepts(pattern, from, value, next),
    decreases value.len() - at,
{
    if at < value.len() {
        lemma_later(pattern, from, value, at + 1);
    }
    assert(accepts_later(pattern, from, value, at) == (accepts(pattern, from, value, at) || (at
        < value.len() && accepts_later(pattern, from, value, at + 1))));
    if accepts_later(pattern, from, value, at) && !accepts(pattern, from, value, at) {
        let next = choose|next: int|
            at + 1 <= next <= value.len() && #[trigger] accepts(pattern, from, value, next);
        assert(at <= next <= value.len() && accepts(pattern, from, value, next));
    }
    if exists|next: int|
        at <= next <= value.len() && #[trigger] accepts(pattern, from, value, next) {
        let next = choose|next: int|
            at <= next <= value.len() && #[trigger] accepts(pattern, from, value, next);
        if next != at {
            assert(at + 1 <= next <= value.len() && accepts(pattern, from, value, next));
        }
    }
}

/// Whether a pattern accepts a text.
pub open spec fn accepted(pattern: Seq<char>, value: Seq<char>) -> bool {
    accepts(vstd::utf8::encode_utf8(pattern), 0, vstd::utf8::encode_utf8(value), 0)
}

/// Whether an optional pattern accepts a text; no pattern accepts every text.
pub open spec fn accepted_if_given(pattern: Option<String>, value: Seq<char>) -> bool {
    match pattern {
        Some(pattern) => accepted(pattern@, value),
        None => true,
    }
}

fn to_lower_byte(byte: u8) -> (r: u8)
    ensures
        r == lowered_byte(byte),
{
    if 65 <= byte && byte <= 90 {
        byte + 32
    } else {
        byte
    }
}

fn byte_stands_for(pattern: u8, byte: u8) -> (r: bool)
    ensures
        r == stands_for(pattern, byte),
{
    pattern == QUESTION_MARK || to_lower_byte(pattern) == to_lower_byte(byte)
}

/// Where one alignment has carried the pattern from `start` to `from` byte by byte, an
/// alignment that begins further on gets to `from` no earlier in the value.
proof fn lemma_first_alignment_is_earliest(
    pattern: Seq<u8>,
    start: int,
    from: int,
    value: Seq<u8>,
    begin: int,
    at: int,
    here: int,
    there: int,
)
    requires
        0 <= start <= here <= from <= pattern.len(),
        0 <= begin <= at <= value.len(),
        at - begin == from - start,
        forall|i: int|
            0 <= i < from - start ==> stands_for(#[trigger] pattern[start + i], value[begin + i])
                && pattern[start + i] != STAR,
        begin + (here - start) <= there <= value.len(),
        accepts(pattern, here, value, there),
    ensures
        exists|later: int| at <= later <= value.len() && #[trigger] accepts(pattern, from, value, later),
    decreases from - here,
{
    if here == from {
        assert(accepts(pattern, from, value, there));
    } else {
        let offset = here - start;
        assert(stands_for(pattern[start + offset], value[begin + offset]));
        if there >= value.len() {
            assert(accepts(pattern, from, value, value.len() as int));
        } else {
            assert(pattern[here] != STAR);
            lemma_first_alignment_is_earliest(
                pattern,
                start,
                from,
                value,
                begin,
                at,
                here + 1,
                there + 1,
            );
        }
    }
}

/// An asterisk lets the rest of the pattern go on from any later position.
proof fn lemma_star_goes_on(pattern: Seq<u8>, from: int, value: Seq<u8>, at: int)
    requires
        0 <= from < pattern.len(),
        0 <= at <= value.len(),
        pattern[from] == STAR,
        accepts(pattern, from, value, at),
    ensures
        exists|next: int|
            at <= next <= value.len() && #[trigger] accepts(pattern, from + 1, value, next),
{
    if at == value.len() {
        assert(accepts(pattern, from + 1, value, at));
    } else {
        lemma_later(pattern, from + 1, value, at);
    }
}

/// Returns whether a pattern accepts a text, ignoring the case of ASCII letters.
pub fn wildcard_matches(pattern: &str, value: &str) -> (matched: bool)
    ensures
        matched == accepted(pattern@, value@),
{
    let pattern_bytes = pattern.as_bytes();
    let value_bytes = value.as_bytes();
    matches_bytes(pattern_bytes, value_bytes)
}

/// Returns whether an optional pattern accepts a text.
pub(crate) fn matches_if_given(pattern: &Option<String>, value: &str) -> (matched: bool)
    ensures
        matched == accepted_if_given(*pattern, value@),
{
    match pattern {
        Some(pattern) => wildcard_matches(pattern.as_str(), value),
        None => true,
    }
}

fn matches_bytes(pattern: &[u8], value: &[u8]) -> (matched: bool)
    ensures
        matched == accepts(pattern@, 0, value@, 0),
{
    let ghost p = pattern@;
    let ghost v = value@;
    let mut from: usize = 0;
    let mut at: usize = 0;
    let mut starred = false;
    let mut star: usize = 0;
    let mut retry: usize = 0;
    while at < value.len()
        invariant
            p == pattern@,
            v == value@,
            from <= pattern.len(),
            at <= value.len(),
            !starred ==> star == 0 && retry == 0,
            !starred ==> accepts(p, 0, v, 0) == accepts(p, from as int, v, at as int),
            starred ==> {
                &&& star < from
                &&& retry <= at
                &&& at - retry == from - star - 1
                &&& forall|i: int|
                    0 <= i < from - star - 1 ==> stands_for(
                        #[trigger] p[star + 1 + i],
                        v[retry + i],
                    ) && p[star + 1 + i] != STAR
                &&& accepts(p, 0, v, 0) == (accepts(p, from as int, v, at as int) || exists|
                    next: int,
                |
                    retry < next <= v.len() && #[trigger] accepts(p, star + 1, v, next))
            },
        decreases value.len() - retry, pattern.len() - star + (if starred {
            0int
        } else {
            1int
        }), value.len() - at,
    {
        if from < pattern.len() && pattern[from] == STAR {
            proof {
                lemma_later(p, from + 1, v, at as int);
                if starred && exists|next: int|
                    retry < next <= v.len() && #[trigger] accepts(p, star + 1, v, next) {
                    let next = choose|next: int|
                        retry < next <= v.len() && #[trigger] accepts(p, star + 1, v, next);
                    lemma_first_alignment_is_earliest(
                        p,
                        star + 1,
                        from as int,
                        v,
                        retry as int,
                        at as int,
                        star + 1,
                        next,
                    );
                    let later = choose|later: int|
                        at <= later <= v.len() && #[trigger] accepts(p, from as int, v, later);
                    lemma_star_goes_on(p, from as int, v, later);
                    let resumed = choose|resumed: int|
                        later <= resumed <= v.len() && #[trigger] accepts(p, from + 1, v, resumed);
                    assert(accepts(p, from as int, v, at as int));
                }
                if accepts(p, from as int, v, at as int) {
                    let next = choose|next: int|
                        at <= next <= v.len() && #[trigger] accepts(p, from + 1, v, next);
                    assert(next == at || at < next);
                }
                if accepts(p, from + 1, v, at as int) {
                    assert(accepts(p, from as int, v, at as int));
                }
            }
            starred = true;
            star = from;
            from = from + 1;
            retry = at;
        } else if from < pattern.len() && byte_stands_for(pattern[from], value[at]) {
            proof {
                if starred {
                    assert forall|i: int| 0 <= i < from + 1 - star - 1 implies stands_for(
                        #[trigger] p[star + 1 + i],
                        v[retry + i],
                    ) && p[star + 1 + i] != STAR by {
                        if i == from - star - 1 {
                            assert(star + 1 + i == from);
                        }
                    }
                }
            }
            from = from + 1;
            at = at + 1;
        } else if starred {
            proof {
                assert(!accepts(p, from as int, v, at as int));
                if exists|next: int|
                    retry < next <= v.len() && #[trigger] accepts(p, star + 1, v, next) {
                    let next = choose|next: int|
                        retry < next <= v.len() && #[trigger] accepts(p, star + 1, v, next);
                    assert(next == retry + 1 || retry + 1 < next);
                }
            }
            from = star + 1;
            retry = retry + 1;
            at = retry;
        } else {
            return false;
        }
    }
    proof {
        if starred && exists|next: int|
            retry < next <= v.len() && #[trigger] accepts(p, star + 1, v, next) {
            let next = choose|next: int|
                retry < next <= v.len() && #[trigger] accepts(p, star + 1, v, next);
            lemma_first_alignment_is_earliest(
                p,
                star + 1,
                from as int,
                v,
                retry as int,
                at as int,
                star + 1,
                next,
            );
            let later = choose|later: int|
                at <= later <= v.len() && #[trigger] accepts(p, from as int, v, later);
            assert(later == at);
        }
        assert(accepts(p, 0, v, 0) == accepts(p, from as int, v, at as int));
    }
    let mut index: usize = from;
    while index < pattern.len()
        invariant
            p == pattern@,
            v == value@,
            from <= index <= pattern.len(),
            at == v.len(),
            accepts(p, 0, v, 0) == accepts(p, from as int, v, at as int),
            forall|i: int| from <= i < index ==> p[i] == STAR,
        decreases pattern.len() - index,
    {
        if pattern[index] != STAR {
            return false;
        }
        index = index + 1;
    }
    true
}

/// A pattern without wildcards accepts just the texts that differ from it in case at most.
pub proof fn law_plain_patterns_compare_ignoring_case(pattern: Seq<u8>, value: Seq<u8>)
    requires
        forall|i: int|
            0 <= i < pattern.len() ==> #[trigger] pattern[i] != STAR && pattern[i]
                != QUESTION_MARK,
    ensures
        accepts(pattern, 0, value, 0) <==> pattern.len() == value.len() && forall|i: int|
            0 <= i < pattern.len() ==> lowered_byte(#[trigger] pattern[i]) == lowered_byte(
                value[i],
            ),
{
    lemma_plain_from(pattern, value, 0);
}

proof fn lemma_plain_from(pattern: Seq<u8>, value: Seq<u8>, at: int)
    requires
        0 <= at <= pattern.len(),
        at <= value.len(),
        forall|i: int|
            0 <= i < pattern.len() ==> #[trigger] pattern[i] != STAR && pattern[i]
                != QUESTION_MARK,
    ensures
        accepts(pattern, at, value, at) <==> pattern.len() == value.len() && forall|i: int|
            at <= i < pattern.len() ==> lowered_byte(#[trigger] pattern[i]) == lowered_byte(
                value[i],
            ),
    decreases pattern.len() - at,
{
    if at < value.len() && at < pattern.len() {
        lemma_plain_from(pattern, value, at + 1);
    } else if at < pattern.len() {
        assert(pattern[at] != STAR);
    }
}

/// A lone asterisk accepts every text.
pub proof fn law_star_accepts_everything(value: Seq<char>)
    ensures
        accepted("*"@, value),
{
    reveal_strlit("*");
    let star = "*"@;
    let pattern = vstd::utf8::encode_utf8(star);
    assert(vstd::utf8::is_ascii_chars(star));
    vstd::utf8::is_ascii_chars_encode_utf8(star);
    assert(pattern =~= seq![STAR]);
    let bytes = vstd::utf8::encode_utf8(value);
    assert(accepts(pattern, 1, bytes, bytes.len() as int));
    lemma_later(pattern, 1, bytes, 0);
}

/// An asterisk in front of a pattern lets it accept every text that ends in one it accepts.
pub proof fn law_star_stands_for_any_number_of_bytes(
    pattern: Seq<u8>,
    from: int,
    value: Seq<u8>,
    at: int,
)
    requires
        0 <= from < pattern.len(),
        pattern[from] == STAR,
        0 <= at <= value.len(),
    ensures
        accepts(pattern, from, value, at) <==> exists|next: int|
            at <= next <= value.len() && #[trigger] accepts(pattern, from + 1, value, next),
{
    lemma_later(pattern, from + 1, value, at);
    if accepts(pattern, from, value, at) {
        lemma_star_goes_on(pattern, from, value, at);
    }
}

} // verus!
