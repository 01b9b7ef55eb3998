//! Text by name.

use vstd::prelude::*;

use crate::text::same;

verus! {

/// A name and its text.
struct Entry {
    key: String,
    value: String,
}

/// Text by name, each name once.
pub(crate) struct TextMap {
    entries: Vec<Entry>,
    model: Ghost<Map<Seq<char>, Seq<char>>>,
}

impl View for TextMap {
    type V = Map<Seq<char>, Seq<char>>;

    closed spec fn view(&self) -> Map<Seq<char>, Seq<char>> {
        self.model@
    }
}

impl TextMap {
    pub(crate) closed spec fn wf(self) -> bool {
        &&& self.model@.dom().finite()
        &&& self.model@.dom().len() == self.entries@.len()
        &&& forall|i: int|
            0 <= i < self.entries@.len() ==> self.model@.contains_key(
                (#[trigger] self.entries@[i]).key@,
            ) && self.model@[self.entries@[i].key@] == self.entries@[i].value@
        &&& forall|i: int, j: int|
            0 <= i < j < self.entries@.len() ==> (#[trigger] self.entries@[i]).key@ != (
            #[trigger] self.entries@[j]).key@
        &&& forall|key: Seq<char>| #[trigger]
            self.model@.contains_key(key) ==> exists|i: int|
                0 <= i < self.entries@.len() && (#[trigger] self.entries@[i]).key@ == key
    }

    /// The names in the order in which they came.
    pub(crate) closed spec fn names(self) -> Seq<Seq<char>> {
        Seq::new(self.entries@.len(), |i: int| self.entries@[i].key@)
    }

    pub(crate) fn new() -> (map: Self)
        ensures
            map.wf(),
            map@ == Map::<Seq<char>, Seq<char>>::empty(),
    {
        TextMap { entries: Vec::new(), model: Ghost(Map::empty()) }
    }

    /// The number of names.
    pub(crate) fn len(&self) -> (count: usize)
        requires
            self.wf(),
        ensures
            count == self@.dom().len(),
            count == self.names().len(),
    {
        self.entries.len()
    }

    /// One of the names.
    pub(crate) fn name(&self, index: usize) -> (name: &str)
        requires
            self.wf(),
            index < self.names().len(),
        ensures
            name@ == self.names()[index as int],
    {
        self.entries[index].key.as_str()
    }

    /// Exactly the names that came are there.
    pub(crate) proof fn lemma_names(self)
        requires
            self.wf(),
        ensures
            forall|key: Seq<char>| #[trigger]
                self@.contains_key(key) == self.names().contains(key),
    {
        assert forall|key: Seq<char>| #[trigger]
            self@.contains_key(key) == self.names().contains(key) by {
            if self@.contains_key(key) {
                let i = choose|i: int|
                    0 <= i < self.entries@.len() && (#[trigger] self.entries@[i]).key@ == key;
                assert(self.names()[i] == key);
            }
            if self.names().contains(key) {
                let i = choose|i: int| 0 <= i < self.names().len() && self.names()[i] == key;
                assert(self.entries@[i].key@ == key);
            }
        }
    }

    fn locate(&self, key: &str) -> (found: Option<usize>)
        requires
            self.wf(),
        ensures
            match found {
                Some(index) => index < self.entries@.len() && self.entries@[index as int].key@
                    == key@ && self@.contains_key(key@) && self@[key@]
                    == self.entries@[index as int].value@,
                None => !self@.contains_key(key@),
            },
    {
        let mut index: usize = 0;
        while index < self.entries.len()
            invariant
                index <= self.entries.len(),
                self.wf(),
                forall|i: int| 0 <= i < index ==> (#[trigger] self.entries@[i]).key@ != key@,
            decreases self.entries.len() - index,
        {
            if same(self.entries[index].key.as_str(), key) {
                return Some(index);
            }
            index = index + 1;
        }
        None
    }

    /// The text of a name.
    pub(crate) fn get(&self, key: &str) -> (found: Option<&str>)
        requires
            self.wf(),
        ensures
            match found {
                Some(value) => self@.contains_key(key@) && value@ == self@[key@],
                None => !self@.contains_key(key@),
            },
    {
        match self.locate(key) {
            Some(index) => Some(self.entries[index].value.as_str()),
            None => None,
        }
    }

    /// Gives a name its text, and says whether it had one before.
    pub(crate) fn insert(&mut self, key: String, value: String) -> (known: bool)
        requires
            old(self).wf(),
        ensures
            final(self).wf(),
            final(self)@ == old(self)@.insert(key@, value@),
            known == old(self)@.contains_key(key@),
    {
        let ghost before = self.entries@;
        match self.locate(key.as_str()) {
            Some(index) => {
                let entry = Entry { key, value };
                self.entries.set(index, entry);
                self.model = Ghost(self.model@.insert(entry.key@, entry.value@));
                assert(self.model@.dom() =~= old(self).model@.dom());
                proof {
                    assert forall|wanted: Seq<char>| #[trigger]
                        self.model@.contains_key(wanted) implies exists|i: int|
                        0 <= i < self.entries@.len() && (#[trigger] self.entries@[i]).key@
                            == wanted by {
                        assert(old(self).model@.contains_key(wanted));
                        let i = choose|i: int|
                            0 <= i < before.len() && (#[trigger] before[i]).key@ == wanted;
                        assert(self.entries@[i].key@ == wanted);
                    }
                }
                true
            },
            None => {
                let entry = Entry { key, value };
                self.model = Ghost(self.model@.insert(entry.key@, entry.value@));
                self.entries.push(entry);
                proof {
                    assert(self.model@.dom() =~= old(self).model@.dom().insert(entry.key@));
                    assert forall|wanted: Seq<char>| #[trigger]
                        self.model@.contains_key(wanted) implies exists|i: int|
                        0 <= i < self.entries@.len() && (#[trigger] self.entries@[i]).key@
                            == wanted by {
                        if wanted == entry.key@ {
                            assert(self.entries@[before.len() as int].key@ == wanted);
                        } else {
                            assert(old(self).model@.contains_key(wanted));
                            let i = choose|i: int|
                                0 <= i < before.len() && (#[trigger] before[i]).key@ == wanted;
                            assert(self.entries@[i].key@ == wanted);
                        }
                    }
                }
                false
            },
        }
    }
}

} // verus!
