//! Paths as text.

use vstd::prelude::*;

use crate::text;
use crate::text::{characters, cut, same_chars, stretch};

verus! {

/// Whether a path starts at the root directory.
pub open spec fn absolute(path: Seq<char>) -> bool {
    path.len() > 0 && path[0] == '/'
}

/// Returns whether a path starts at the root directory.
pub(crate) fn is_absolute(path: &str) -> (r: bool)
    ensures
        r == absolute(path@),
{
    let chars = characters(path);
    chars.len() > 0 && chars[0] == '/'
}

/// A path with another one appended; an absolute one takes its place.
pub open spec fn joined(base: Seq<char>, rest: Seq<char>) -> Seq<char> {
    if absolute(rest) {
        rest
    } else if base.len() == 0 || base.last() == '/' {
        base + rest
    } else {
        base.push('/') + rest
    }
}

/// Appends one path to another; an absolute one takes its place.
pub(crate) fn join(base: &str, rest: &str) -> (path: String)
    ensures
        path@ == joined(base@, rest@),
{
    if is_absolute(rest) {
        return rest.to_owned();
    }
    let chars = characters(base);
    let mut path = base.to_owned();
    if chars.len() > 0 && chars[chars.len() - 1] != '/' {
        path.push('/');
    }
    path.append(rest);
    path
}

/// The directory that holds a path, if there is one.
pub uninterp spec fn parent_of(path: Seq<char>) -> Option<Seq<char>>;

/// `std::path::Path::parent` gives a path without its final component, or nothing where the
/// path ends in a root or is empty. How it treats repeated separators is left to it.
#[verifier::external_body]
pub(crate) fn parent(path: &str) -> (found: Option<String>)
    ensures
        text::maybe(found) == parent_of(path@),
        path@.len() == 0 ==> found is None,
{
    std::path::Path::new(path).parent().map(|parent| parent.to_string_lossy().into_owned())
}

/// The named parts of a path. Repeated separators count once, and a part that stays in place is
/// left out, except at the start of a relative path.
pub open spec fn path_parts(pieces: Seq<Seq<char>>, rooted: bool) -> Seq<Seq<char>>
    decreases pieces.len(),
{
    if pieces.len() == 0 {
        Seq::empty()
    } else {
        let before = path_parts(pieces.drop_last(), rooted);
        let last = pieces.last();
        if last.len() == 0 || (last == seq!['.'] && (rooted || pieces.len() > 1)) {
            before
        } else {
            before.push(last)
        }
    }
}

/// Whether two paths name the same place part by part.
pub open spec fn same_path(left: Seq<char>, right: Seq<char>) -> bool {
    &&& absolute(left) == absolute(right)
    &&& path_parts(text::pieces(left, '/'), absolute(left)) == path_parts(
        text::pieces(right, '/'),
        absolute(right),
    )
}

/// The named parts of a path.
pub(crate) fn parts_of(path: &str) -> (parts: Vec<Vec<char>>)
    ensures
        text::texts(parts@) == path_parts(text::pieces(path@, '/'), absolute(path@)),
{
    let chars = characters(path);
    let rooted = is_absolute(path);
    let pieces = cut(chars.as_slice(), '/');
    let ghost all = text::texts(pieces@);
    let mut parts: Vec<Vec<char>> = Vec::new();
    let mut index: usize = 0;
    assert(text::texts(parts@) =~= path_parts(all.take(0), rooted));
    while index < pieces.len()
        invariant
            index <= pieces.len(),
            all == text::texts(pieces@),
            text::texts(parts@) == path_parts(all.take(index as int), rooted),
        decreases pieces.len() - index,
    {
        assert(all.take(index + 1).drop_last() =~= all.take(index as int));
        let piece = &pieces[index];
        assert(all[index as int] == piece@);
        let dot = piece.len() == 1 && piece[0] == '.';
        assert(dot == (piece@ == seq!['.'])) by {
            if dot {
                assert(piece@ =~= seq!['.']);
            }
        }
        if !(piece.len() == 0 || (dot && (rooted || index > 0))) {
            let ghost before = text::texts(parts@);
            let copy = stretch(piece.as_slice(), 0, piece.len());
            assert(copy@ =~= piece@);
            parts.push(copy);
            assert(text::texts(parts@) =~= before.push(piece@));
        }
        index = index + 1;
    }
    assert(all.take(index as int) =~= all);
    parts
}

/// Returns whether two paths name the same place part by part.
pub(crate) fn is_same_path(left: &str, right: &str) -> (r: bool)
    ensures
        r == same_path(left@, right@),
{
    if is_absolute(left) != is_absolute(right) {
        return false;
    }
    let left_parts = parts_of(left);
    let right_parts = parts_of(right);
    let ghost left_texts = text::texts(left_parts@);
    let ghost right_texts = text::texts(right_parts@);
    if left_parts.len() != right_parts.len() {
        assert(left_texts.len() != right_texts.len());
        return false;
    }
    let mut index: usize = 0;
    while index < left_parts.len()
        invariant
            index <= left_parts.len(),
            left_parts.len() == right_parts.len(),
            left_texts == text::texts(left_parts@),
            right_texts == text::texts(right_parts@),
            same_path(left@, right@) == (left_texts == right_texts),
            forall|i: int| 0 <= i < index ==> left_texts[i] == right_texts[i],
        decreases left_parts.len() - index,
    {
        assert(left_texts[index as int] == left_parts@[index as int]@);
        assert(right_texts[index as int] == right_parts@[index as int]@);
        if !same_chars(left_parts[index].as_slice(), right_parts[index].as_slice()) {
            return false;
        }
        index = index + 1;
    }
    assert(left_texts =~= right_texts);
    true
}

} // verus!
