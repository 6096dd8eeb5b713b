//! The translation table: which sharding attribute each vertex identifier
//! (`collection/key`) was given.
use vstd::prelude::*;
use crate::text::{chars_equal, chars_of, concat_sep, slice_chars, string_of};

verus! {

/// Maps vertex identifiers to the index of their attribute in a list of
/// distinct attribute strings, so that many vertices share one copy.
pub struct Translation {
    key_tab: Vec<(Vec<char>, usize)>,
    smart_attributes: Vec<Vec<char>>,
    model: Ghost<Map<Seq<char>, Seq<char>>>,
}

impl View for Translation {
    type V = Map<Seq<char>, Seq<char>>;

    closed spec fn view(&self) -> Map<Seq<char>, Seq<char>> {
        self.model@
    }
}

impl Translation {
    /// The entries and the attribute list agree with the map that the table stands for.
    pub closed spec fn wf(&self) -> bool {
        &&& forall|i: int|
            0 <= i < self.key_tab@.len() ==> #[trigger] self.key_tab@[i].1 < self.smart_attributes@.len()
        &&& forall|i: int|
            0 <= i < self.key_tab@.len() ==> self.model@.contains_key(#[trigger] self.key_tab@[i].0@)
                && self.model@[self.key_tab@[i].0@] == self.smart_attributes@[self.key_tab@[i].1 as int]@
        &&& forall|k: Seq<char>|
            #[trigger] self.model@.contains_key(k) ==> exists|i: int|
                0 <= i < self.key_tab@.len() && #[trigger] self.key_tab@[i].0@ == k
        &&& forall|i: int, j: int|
            0 <= i < j < self.key_tab@.len() ==> #[trigger] self.key_tab@[i].0@
                != #[trigger] self.key_tab@[j].0@
    }

    /// An empty table.
    pub fn new() -> (r: Translation)
        ensures
            r.wf(),
            r@ == Map::<Seq<char>, Seq<char>>::empty(),
    {
        Translation { key_tab: Vec::new(), smart_attributes: Vec::new(), model: Ghost(Map::empty()) }
    }

    /// Index of `att` in the attribute list, added if it is not there yet.
    fn attribute_index(&mut self, att: &Vec<char>) -> (r: usize)
        requires
            old(self).wf(),
        ensures
            final(self).wf(),
            final(self)@ == old(self)@,
            r < final(self).smart_attributes@.len(),
            final(self).smart_attributes@[r as int]@ == att@,
            final(self).key_tab@ == old(self).key_tab@,
    {
        let mut a: usize = 0;
        while a < self.smart_attributes.len()
            invariant
                a <= self.smart_attributes@.len(),
                self.wf(),
                self@ == old(self)@,
                self.key_tab@ == old(self).key_tab@,
            decreases self.smart_attributes@.len() - a,
        {
            if chars_equal(&self.smart_attributes[a], att) {
                return a;
            }
            a += 1;
        }
        let copy = slice_chars(att, 0, att.len());
        assert(att@.subrange(0, att@.len() as int) =~= att@);
        self.smart_attributes.push(copy);
        proof {
            assert forall|i: int| 0 <= i < self.key_tab@.len() implies self.model@[
                #[trigger] self.key_tab@[i].0@
            ] == self.smart_attributes@[self.key_tab@[i].1 as int]@ by {
                assert(self.key_tab@[i].1 < old(self).smart_attributes@.len());
            }
        }
        self.smart_attributes.len() - 1
    }

    pub fn insert_chars(&mut self, id: &Vec<char>, att: &Vec<char>)
        requires
            old(self).wf(),
        ensures
            final(self).wf(),
            final(self)@ == old(self)@.insert(id@, att@),
    {
        let idx = self.attribute_index(att);
        let ghost m0 = self.model@;
        let mut i: usize = 0;
        while i < self.key_tab.len()
            invariant
                self.wf(),
                self.model@ == m0,
                m0 == old(self)@,
                idx < self.smart_attributes@.len(),
                self.smart_attributes@[idx as int]@ == att@,
                i <= self.key_tab@.len(),
                forall|j: int| 0 <= j < i ==> self.key_tab@[j].0@ != id@,
            decreases self.key_tab@.len() - i,
        {
            if chars_equal(&self.key_tab[i].0, id) {
                let ghost old_tab = self.key_tab@;
                let entry = (slice_chars(id, 0, id.len()), idx);
                assert(id@.subrange(0, id@.len() as int) =~= id@);
                self.key_tab.set(i, entry);
                self.model = Ghost(m0.insert(id@, att@));
                proof {
                    assert forall|k: Seq<char>| #[trigger] self.model@.contains_key(k) implies exists|j: int|
                        0 <= j < self.key_tab@.len() && #[trigger] self.key_tab@[j].0@ == k by {
                        if k != id@ {
                            let j = choose|j: int| 0 <= j < old_tab.len() && #[trigger] old_tab[j].0@ == k;
                            assert(self.key_tab@[j].0@ == k);
                        } else {
                            assert(self.key_tab@[i as int].0@ == k);
                        }
                    }
                    assert forall|j1: int, j2: int|
                        0 <= j1 < j2 < self.key_tab@.len() implies #[trigger] self.key_tab@[j1].0@
                        != #[trigger] self.key_tab@[j2].0@ by {
                        assert(old_tab[j1].0@ != old_tab[j2].0@);
                    }
                }
                return;
            }
            i += 1;
        }
        let ghost old_tab = self.key_tab@;
        let entry = (slice_chars(id, 0, id.len()), idx);
        assert(id@.subrange(0, id@.len() as int) =~= id@);
        self.key_tab.push(entry);
        self.model = Ghost(m0.insert(id@, att@));
        proof {
            assert forall|k: Seq<char>| #[trigger] self.model@.contains_key(k) implies exists|j: int|
                0 <= j < self.key_tab@.len() && #[trigger] self.key_tab@[j].0@ == k by {
                if k != id@ {
                    let j = choose|j: int| 0 <= j < old_tab.len() && #[trigger] old_tab[j].0@ == k;
                    assert(self.key_tab@[j].0@ == k);
                } else {
                    assert(self.key_tab@[old_tab.len() as int].0@ == k);
                }
            }
            assert forall|j1: int, j2: int|
                0 <= j1 < j2 < self.key_tab@.len() implies #[trigger] self.key_tab@[j1].0@
                != #[trigger] self.key_tab@[j2].0@ by {
                if j2 < old_tab.len() {
                    assert(old_tab[j1].0@ != old_tab[j2].0@);
                }
            }
        }
    }

    /// Records that vertex `id` has sharding attribute `att`; a later insert of the same
    /// identifier wins.
    pub fn insert(&mut self, id: &str, att: &str)
        requires
            old(self).wf(),
        ensures
            final(self).wf(),
            final(self)@ == old(self)@.insert(id@, att@),
    {
        let i = chars_of(id);
        let a = chars_of(att);
        self.insert_chars(&i, &a);
    }

    /// Records the attribute of vertex `key` of `collection`, under `collection/key`.
    pub fn record_vertex(&mut self, collection: &str, key: &str, attribute: &str)
        requires
            old(self).wf(),
        ensures
            final(self).wf(),
            final(self)@ == old(self)@.insert(collection@ + seq!['/'] + key@, attribute@),
    {
        let c = chars_of(collection);
        let k = chars_of(key);
        let id = concat_sep(&c, '/', &k);
        let a = chars_of(attribute);
        self.insert_chars(&id, &a);
    }

    pub fn lookup_chars(&self, id: &Vec<char>) -> (r: Option<Vec<char>>)
        requires
            self.wf(),
        ensures
            match r {
                Some(a) => self@.contains_key(id@) && self@[id@] == a@,
                None => !self@.contains_key(id@),
            },
    {
        let mut i: usize = 0;
        while i < self.key_tab.len()
            invariant
                self.wf(),
                i <= self.key_tab@.len(),
                forall|j: int| 0 <= j < i ==> self.key_tab@[j].0@ != id@,
            decreases self.key_tab@.len() - i,
        {
            if chars_equal(&self.key_tab[i].0, id) {
                let a = &self.smart_attributes[self.key_tab[i].1];
                return Some(slice_chars(a, 0, a.len()));
            }
            i += 1;
        }
        None
    }

    /// The sharding attribute recorded for vertex `id`, if any.
    pub fn lookup(&self, id: &str) -> (r: Option<String>)
        requires
            self.wf(),
        ensures
            match r {
                Some(a) => self@.contains_key(id@) && self@[id@] == a@,
                None => !self@.contains_key(id@),
            },
    {
        let i = chars_of(id);
        match self.lookup_chars(&i) {
            Some(a) => Some(string_of(&a)),
            None => None,
        }
    }
}

} // verus!
