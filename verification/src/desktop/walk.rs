//! The walk through a directory of desktop files: which directories are read, which files are
//! taken, and in what order.

use vstd::prelude::*;

verus! {

/// The number of directories below the first one that a walk goes down.
pub const MAX_DIRECTORY_DEPTH: usize = 8;

/// What is found in a directory.
#[derive(Clone, Copy, Debug, PartialEq, Eq, Structural)]
pub enum FoundKind {
    /// A directory, and no link to one.
    Directory,
    /// A regular file.
    File,
    /// Anything else.
    Other,
}

/// Something that is found on a walk.
#[derive(Debug, PartialEq, Eq)]
pub struct Found {
    /// The names that lead to it from the first directory, its own name last.
    pub path: Vec<Vec<u8>>,
    /// What it is.
    pub kind: FoundKind,
}

/// What is found, with its names.
pub ghost struct FoundModel {
    pub path: Seq<Seq<u8>>,
    pub kind: FoundKind,
}

impl View for Found {
    type V = FoundModel;

    open spec fn view(&self) -> FoundModel {
        FoundModel { path: names(self.path@), kind: self.kind }
    }
}

/// The bytes of names.
pub open spec fn names(path: Seq<Vec<u8>>) -> Seq<Seq<u8>> {
    Seq::new(path.len(), |i: int| path[i]@)
}

/// What things are.
pub open spec fn found_models(list: Seq<Found>) -> Seq<FoundModel> {
    Seq::new(list.len(), |i: int| list[i]@)
}

/// The ending of a desktop file's name.
pub open spec fn ending() -> Seq<u8> {
    seq![0x2eu8, 0x64, 0x65, 0x73, 0x6b, 0x74, 0x6f, 0x70]
}

/// Whether a file is a desktop file: its name has the ending `.desktop` and something before it.
pub open spec fn is_desktop_file(found: FoundModel) -> bool {
    &&& found.kind == FoundKind::File
    &&& found.path.len() > 0
    &&& found.path.last().len() > 8
    &&& found.path.last().skip(found.path.last().len() - 8) == ending()
}

/// Whether one name comes before another, byte by byte.
pub open spec fn name_precedes(left: Seq<u8>, right: Seq<u8>) -> bool
    decreases left.len(),
{
    if right.len() == 0 {
        false
    } else if left.len() == 0 {
        true
    } else if left[0] != right[0] {
        left[0] < right[0]
    } else {
        name_precedes(left.skip(1), right.skip(1))
    }
}

/// Whether one path comes before another, name by name.
pub open spec fn path_precedes(left: Seq<Seq<u8>>, right: Seq<Seq<u8>>) -> bool
    decreases left.len(),
{
    if right.len() == 0 {
        false
    } else if left.len() == 0 {
        true
    } else if left[0] != right[0] {
        name_precedes(left[0], right[0])
    } else {
        path_precedes(left.skip(1), right.skip(1))
    }
}

/// Whether nothing in a list belongs before what stands in front of it.
pub open spec fn is_sorted(list: Seq<FoundModel>) -> bool {
    forall|i: int, j: int|
        0 <= i < j < list.len() ==> !path_precedes(
            (#[trigger] list[j]).path,
            (#[trigger] list[i]).path,
        )
}

/// Whether a list holds the same things as another, in order.
pub open spec fn sorts(found: Seq<FoundModel>, list: Seq<FoundModel>) -> bool {
    is_sorted(list) && list.to_multiset() == found.to_multiset()
}

/// How far a walk has come.
pub ghost struct Walk {
    /// The directories to read, the next one last.
    pub pending: Seq<Seq<Seq<u8>>>,
    /// The desktop files found.
    pub files: Seq<FoundModel>,
    /// The number of files at which the walk ends.
    pub limit: nat,
}

impl Walk {
    /// A walk from the first directory on.
    pub open spec fn start(limit: nat) -> Walk {
        Walk { pending: seq![Seq::empty()], files: Seq::empty(), limit }
    }

    /// Whether enough files have been found.
    pub open spec fn is_full(self) -> bool {
        self.files.len() >= self.limit
    }

    /// The directory to read next, if there is any: the last one that is not too deep.
    pub open spec fn next_directory(self) -> Option<Seq<Seq<u8>>>
        decreases self.pending.len(),
    {
        if self.is_full() || self.pending.len() == 0 {
            None
        } else if self.pending.last().len() > MAX_DIRECTORY_DEPTH {
            (Walk { pending: self.pending.drop_last(), ..self }).next_directory()
        } else {
            Some(self.pending.last())
        }
    }

    /// The walk without the directory to read next and without those that are too deep behind
    /// it.
    pub open spec fn advanced(self) -> Walk
        decreases self.pending.len(),
    {
        if self.is_full() || self.pending.len() == 0 {
            self
        } else if self.pending.last().len() > MAX_DIRECTORY_DEPTH {
            (Walk { pending: self.pending.drop_last(), ..self }).advanced()
        } else {
            Walk { pending: self.pending.drop_last(), ..self }
        }
    }

    /// The walk with one thing found: a directory is read later, a desktop file is taken.
    pub open spec fn noted(self, found: FoundModel) -> Walk {
        if found.kind == FoundKind::Directory {
            Walk { pending: self.pending.push(found.path), ..self }
        } else if is_desktop_file(found) {
            Walk { files: self.files.push(found), ..self }
        } else {
            self
        }
    }

    /// The walk with the contents of a directory, the last one first, until there are enough
    /// files.
    pub open spec fn visited(self, order: Seq<FoundModel>) -> Walk
        decreases order.len(),
    {
        if self.is_full() || order.len() == 0 {
            self
        } else {
            self.noted(order.last()).visited(order.drop_last())
        }
    }
}

/// A bounded walk through a directory and the directories in it.
///
/// Whoever walks asks for the next directory, reads it, and hands in what is there, until there
/// is no next directory.
#[derive(Debug)]
pub struct FileWalk {
    pending: Vec<Vec<Vec<u8>>>,
    files: Vec<Found>,
    limit: usize,
}

/// The names of paths.
spec fn paths(list: Seq<Vec<Vec<u8>>>) -> Seq<Seq<Seq<u8>>> {
    Seq::new(list.len(), |i: int| names(list[i]@))
}

impl View for FileWalk {
    type V = Walk;

    closed spec fn view(&self) -> Walk {
        Walk {
            pending: paths(self.pending@),
            files: found_models(self.files@),
            limit: self.limit as nat,
        }
    }
}

impl FileWalk {
    /// Starts a walk that ends at a number of files.
    #[must_use]
    pub fn new(limit: usize) -> (walk: Self)
        ensures
            walk@ == Walk::start(limit as nat),
    {
        let first: Vec<Vec<u8>> = Vec::new();
        assert(names(first@) =~= Seq::empty());
        let pending = vec![first];
        let walk = FileWalk { pending, files: Vec::new(), limit };
        assert(walk@.pending =~= seq![Seq::empty()]);
        assert(walk@.files =~= Seq::empty());
        walk
    }

    /// Returns the directory to read next, by the names that lead to it.
    pub fn next_directory(&mut self) -> (directory: Option<Vec<Vec<u8>>>)
        ensures
            match directory {
                Some(directory) => old(self)@.next_directory() == Some(names(directory@)),
                None => old(self)@.next_directory() is None,
            },
            final(self)@ == old(self)@.advanced(),
    {
        while self.files.len() < self.limit
            invariant
                self@.next_directory() == old(self)@.next_directory(),
                self@.advanced() == old(self)@.advanced(),
            decreases self.pending.len(),
        {
            let ghost before = self@;
            match self.pending.pop() {
                Some(directory) => {
                    proof {
                        assert(before.pending.last() == names(directory@));
                        assert(self@.pending =~= before.pending.drop_last());
                        assert(self@ == (Walk { pending: before.pending.drop_last(), ..before }));
                    }
                    if directory.len() <= MAX_DIRECTORY_DEPTH {
                        return Some(directory);
                    }
                },
                None => {
                    assert(self@ == before);
                    return None;
                },
            }
        }
        None
    }

    /// Takes in the contents of a directory.
    pub fn visit(&mut self, entries: Vec<Found>)
        ensures
            exists|order: Seq<FoundModel>| #[trigger]
                sorts(found_models(entries@), order) && final(self)@ == old(self)@.visited(order),
    {
        let ghost given = found_models(entries@);
        let mut rest = sort_found(entries);
        let ghost order = found_models(rest@);
        while self.files.len() < self.limit
            invariant
                given == found_models(entries@),
                sorts(given, order),
                self@.visited(found_models(rest@)) == old(self)@.visited(order),
            decreases rest.len(),
        {
            let ghost before = self@;
            let ghost left = found_models(rest@);
            match rest.pop() {
                Some(found) => {
                    let ghost model = found@;
                    assert(left.last() == model);
                    assert(found_models(rest@) =~= left.drop_last());
                    self.note(found);
                    assert(self@ == before.noted(model));
                },
                None => {
                    assert(left.len() == 0);
                    return;
                },
            }
        }
    }

    fn note(&mut self, found: Found)
        ensures
            final(self)@ == old(self)@.noted(found@),
    {
        let ghost before = self@;
        let ghost model = found@;
        match found.kind {
            FoundKind::Directory => {
                self.pending.push(found.path);
                assert(self@.pending =~= before.pending.push(model.path));
            },
            FoundKind::File => {
                if has_ending(&found) {
                    self.files.push(found);
                    assert(self@.files =~= before.files.push(model));
                }
            },
            FoundKind::Other => {},
        }
    }

    /// Returns the desktop files that were found, in order.
    #[must_use]
    pub fn finish(self) -> (files: Vec<Found>)
        ensures
            sorts(self@.files, found_models(files@)),
    {
        sort_found(self.files)
    }
}

fn has_ending(found: &Found) -> (r: bool)
    requires
        found.kind == FoundKind::File,
    ensures
        r == is_desktop_file(found@),
{
    if found.path.len() == 0 {
        return false;
    }
    let name = &found.path[found.path.len() - 1];
    assert(found@.path.last() == name@);
    let length: usize = name.len();
    if length <= 8 {
        return false;
    }
    let wanted: [u8; 8] = [0x2e, 0x64, 0x65, 0x73, 0x6b, 0x74, 0x6f, 0x70];
    let ghost tail = name@.skip(length - 8);
    assert(wanted@ =~= ending());
    let mut index: usize = 0;
    while index < 8
        invariant
            index <= 8,
            length == name@.len(),
            length > 8,
            tail == name@.skip(length - 8),
            name@ == found@.path.last(),
            wanted@ == ending(),
            wanted@.len() == 8,
            forall|i: int| 0 <= i < index ==> tail[i] == #[trigger] wanted@[i],
        decreases 8 - index,
    {
        if name[length - 8 + index] != wanted[index] {
            assert(tail[index as int] != ending()[index as int]);
            return false;
        }
        index = index + 1;
    }
    assert(tail =~= ending());
    true
}

/// Whether one name comes before another, byte by byte.
fn name_comes_before(left: &Vec<u8>, right: &Vec<u8>) -> (r: bool)
    ensures
        r == name_precedes(left@, right@),
{
    let mut index: usize = 0;
    assert(left@.skip(0) =~= left@);
    assert(right@.skip(0) =~= right@);
    while index < left.len() && index < right.len()
        invariant
            index <= left@.len(),
            index <= right@.len(),
            name_precedes(left@, right@) == name_precedes(
                left@.skip(index as int),
                right@.skip(index as int),
            ),
        decreases left.len() - index,
    {
        assert(left@.skip(index as int).skip(1) =~= left@.skip(index + 1));
        assert(right@.skip(index as int).skip(1) =~= right@.skip(index + 1));
        if left[index] != right[index] {
            return left[index] < right[index];
        }
        index = index + 1;
    }
    index < right.len()
}

/// Whether one path comes before another, name by name.
fn path_comes_before(left: &Vec<Vec<u8>>, right: &Vec<Vec<u8>>) -> (r: bool)
    ensures
        r == path_precedes(names(left@), names(right@)),
{
    let ghost ours = names(left@);
    let ghost theirs = names(right@);
    let mut index: usize = 0;
    assert(ours.skip(0) =~= ours);
    assert(theirs.skip(0) =~= theirs);
    while index < left.len() && index < right.len()
        invariant
            index <= left@.len(),
            index <= right@.len(),
            ours == names(left@),
            theirs == names(right@),
            path_precedes(ours, theirs) == path_precedes(
                ours.skip(index as int),
                theirs.skip(index as int),
            ),
        decreases left.len() - index,
    {
        assert(ours.skip(index as int).skip(1) =~= ours.skip(index + 1));
        assert(theirs.skip(index as int).skip(1) =~= theirs.skip(index + 1));
        proof {
            lemma_name_precedes(ours[index as int], theirs[index as int], ours[index as int]);
        }
        if name_comes_before(&left[index], &right[index]) {
            return true;
        }
        if name_comes_before(&right[index], &left[index]) {
            return false;
        }
        index = index + 1;
    }
    index < right.len()
}

/// The order of names is total.
proof fn lemma_name_precedes(left: Seq<u8>, middle: Seq<u8>, right: Seq<u8>)
    ensures
        !name_precedes(left, left),
        name_precedes(left, middle) ==> !name_precedes(middle, left),
        name_precedes(left, middle) || left == middle || name_precedes(middle, left),
        name_precedes(left, middle) && name_precedes(middle, right) ==> name_precedes(left, right),
    decreases left.len() + middle.len() + right.len(),
{
    if left.len() > 0 && middle.len() > 0 {
        if left[0] == middle[0] && left.skip(1) == middle.skip(1) {
            assert(left =~= seq![left[0]] + left.skip(1));
            assert(middle =~= seq![middle[0]] + middle.skip(1));
        }
        if right.len() > 0 {
            lemma_name_precedes(left.skip(1), middle.skip(1), right.skip(1));
        } else {
            lemma_name_precedes(left.skip(1), middle.skip(1), Seq::empty());
        }
    } else if left.len() == 0 && middle.len() == 0 {
        assert(left =~= middle);
    } else if left.len() > 0 {
        lemma_name_precedes(left.skip(1), Seq::empty(), Seq::empty());
    }
}

/// The order of paths is total.
proof fn lemma_path_precedes(left: Seq<Seq<u8>>, middle: Seq<Seq<u8>>, right: Seq<Seq<u8>>)
    ensures
        !path_precedes(left, left),
        path_precedes(left, middle) ==> !path_precedes(middle, left),
        path_precedes(left, middle) || left == middle || path_precedes(middle, left),
        path_precedes(left, middle) && path_precedes(middle, right) ==> path_precedes(left, right),
    decreases left.len() + middle.len() + right.len(),
{
    if left.len() > 0 && middle.len() > 0 {
        if left[0] == middle[0] && left.skip(1) == middle.skip(1) {
            assert(left =~= seq![left[0]] + left.skip(1));
            assert(middle =~= seq![middle[0]] + middle.skip(1));
        }
        if right.len() > 0 {
            lemma_name_precedes(left[0], middle[0], right[0]);
            lemma_name_precedes(middle[0], right[0], left[0]);
            lemma_name_precedes(right[0], middle[0], left[0]);
            lemma_path_precedes(left.skip(1), middle.skip(1), right.skip(1));
        } else {
            lemma_name_precedes(left[0], middle[0], left[0]);
            lemma_path_precedes(left.skip(1), middle.skip(1), Seq::empty());
        }
    } else if left.len() == 0 && middle.len() == 0 {
        assert(left =~= middle);
    } else if left.len() > 0 {
        lemma_path_precedes(left.skip(1), Seq::empty(), Seq::empty());
    }
}

/// Puts one more element into a multiset.
proof fn lemma_inserted(list: Seq<FoundModel>, place: int, added: FoundModel)
    requires
        0 <= place <= list.len(),
    ensures
        list.insert(place, added).to_multiset() == list.to_multiset().insert(added),
{
    broadcast use vstd::seq_lib::group_to_multiset_ensures;

    let after = list.insert(place, added);
    assert(after.remove(place) =~= list);
    assert(after[place] == added);
    assert(after.remove(place).to_multiset() == after.to_multiset().remove(added));
    assert(after.to_multiset().contains(added)) by {
        assert(after.contains(added));
    }
    assert(after.to_multiset() =~= list.to_multiset().insert(added));
}

/// Puts what was found in order.
fn sort_found(found: Vec<Found>) -> (sorted: Vec<Found>)
    ensures
        sorts(found_models(found@), found_models(sorted@)),
{
    broadcast use vstd::seq_lib::group_to_multiset_ensures;

    let ghost all = found_models(found@);
    let mut rest = found;
    let mut list: Vec<Found> = Vec::new();
    assert(found_models(list@) =~= Seq::empty());
    assert(all.skip(all.len() as int) =~= Seq::empty());
    while rest.len() > 0
        invariant
            found_models(rest@) =~= all.take(rest@.len() as int),
            rest@.len() <= all.len(),
            is_sorted(found_models(list@)),
            found_models(list@).to_multiset() == all.skip(rest@.len() as int).to_multiset(),
        decreases rest.len(),
    {
        let ghost count = rest@.len() as int;
        assert(found_models(rest@)[count - 1] == all[count - 1]);
        if let Some(next) = rest.pop() {
            let ghost added = next@;
            insert_found(&mut list, next);
            proof {
                assert(all.skip(count - 1) =~= all.skip(count).insert(0, added));
                lemma_inserted(all.skip(count), 0, added);
                assert(found_models(rest@) =~= all.take(rest@.len() as int));
            }
        }
    }
    assert(all.skip(0) =~= all);
    list
}

/// Puts one thing where it belongs in a list in order.
fn insert_found(list: &mut Vec<Found>, found: Found)
    requires
        is_sorted(found_models(old(list)@)),
    ensures
        is_sorted(found_models(final(list)@)),
        found_models(final(list)@).to_multiset() == found_models(old(list)@).to_multiset().insert(
            found@,
        ),
{
    let ghost before = list@;
    let ghost models = found_models(before);
    let ghost added = found@;
    let mut place: usize = list.len();
    while place > 0 && path_comes_before(&found.path, &list[place - 1].path)
        invariant
            place <= list@.len(),
            list@ == before,
            models == found_models(before),
            found@ == added,
            forall|i: int|
                place <= i < models.len() ==> path_precedes(added.path, (#[trigger] models[i]).path),
        decreases place,
    {
        assert(models[place - 1] == before[place - 1]@);
        place = place - 1;
    }
    list.insert(place, found);
    proof {
        let after = found_models(list@);
        assert(after =~= models.insert(place as int, added));
        lemma_inserted(models, place as int, added);
        if place > 0 {
            assert(models[place - 1] == before[place - 1]@);
        }
        assert forall|i: int, j: int| 0 <= i < j < after.len() implies !path_precedes(
            (#[trigger] after[j]).path,
            (#[trigger] after[i]).path,
        ) by {
            if i < place && j < place {
                assert(!path_precedes(models[j].path, models[i].path));
            } else if i > place {
                assert(!path_precedes(models[j - 1].path, models[i - 1].path));
            } else if i == place {
                lemma_path_precedes(added.path, models[j - 1].path, added.path);
            } else if j == place {
                if i < place - 1 {
                    let near = models[place - 1].path;
                    let far = models[i].path;
                    assert(!path_precedes(near, far));
                    lemma_path_precedes(added.path, far, near);
                    lemma_path_precedes(far, near, added.path);
                }
            } else {
                assert(!path_precedes(models[j - 1].path, models[i].path));
            }
        }
    }
}

/// Things in one directory are in the order of their names.
pub proof fn law_siblings_are_ordered_by_name(
    directory: Seq<Seq<u8>>,
    left: Seq<u8>,
    right: Seq<u8>,
)
    ensures
        path_precedes(directory.push(left), directory.push(right)) == name_precedes(left, right),
    decreases directory.len(),
{
    lemma_name_precedes(left, right, left);
    if directory.len() == 0 {
        reveal_with_fuel(path_precedes, 2);
    } else {
        law_siblings_are_ordered_by_name(directory.skip(1), left, right);
        assert(directory.push(left).skip(1) =~= directory.skip(1).push(left));
        assert(directory.push(right).skip(1) =~= directory.skip(1).push(right));
    }
}

/// A walk takes no more files than its limit, however many there are in a directory.
pub proof fn law_walks_are_bounded(walk: Walk, order: Seq<FoundModel>)
    requires
        walk.files.len() <= walk.limit,
    ensures
        walk.visited(order).files.len() <= walk.visited(order).limit,
        walk.visited(order).limit == walk.limit,
        walk.advanced().files == walk.files,
        walk.next_directory() matches Some(directory) ==> directory.len() <= MAX_DIRECTORY_DEPTH,
    decreases order.len() + walk.pending.len(),
{
    if !walk.is_full() && order.len() > 0 {
        lemma_visited_is_bounded(walk, order);
    }
    lemma_advanced(walk);
}

proof fn lemma_visited_is_bounded(walk: Walk, order: Seq<FoundModel>)
    requires
        walk.files.len() <= walk.limit,
    ensures
        walk.visited(order).files.len() <= walk.limit,
        walk.visited(order).limit == walk.limit,
    decreases order.len(),
{
    if !walk.is_full() && order.len() > 0 {
        lemma_visited_is_bounded(walk.noted(order.last()), order.drop_last());
    }
}

proof fn lemma_advanced(walk: Walk)
    ensures
        walk.advanced().files == walk.files,
        walk.next_directory() matches Some(directory) ==> directory.len() <= MAX_DIRECTORY_DEPTH,
    decreases walk.pending.len(),
{
    if !walk.is_full() && walk.pending.len() > 0 {
        lemma_advanced(Walk { pending: walk.pending.drop_last(), ..walk });
    }
}

} // verus!
