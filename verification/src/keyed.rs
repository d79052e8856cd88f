//! A map from strings that remembers the order in which its keys came.
use vstd::hash_map::StringHashMap;
use vstd::prelude::*;

verus! {

/// Values under string keys. A hash map finds the slot of a key; the slots are kept in the order
/// of first insertion.
pub struct StringMap<V> {
    entries: Vec<(String, V)>,
    slots: StringHashMap<usize>,
}

impl<V: View> View for StringMap<V> {
    type V = Map<Seq<char>, V::V>;

    closed spec fn view(&self) -> Map<Seq<char>, V::V> {
        Map::new(
            |k: Seq<char>| self.slots@.contains_key(k),
            |k: Seq<char>| self.entries@[self.slots@[k] as int].1@,
        )
    }
}

impl<V> StringMap<V> {
    #[verifier::type_invariant]
    spec fn slots_match(self) -> bool {
        &&& forall|k: Seq<char>| #[trigger]
            self.slots@.contains_key(k) ==> self.slots@[k] < self.entries@.len()
                && self.entries@[self.slots@[k] as int].0@ == k
        &&& forall|i: int|
            0 <= i < self.entries@.len() ==> self.slots@.contains_key(
                (#[trigger] self.entries@[i]).0@,
            ) && self.slots@[self.entries@[i].0@] == i
    }
}

impl<V: View> StringMap<V> {
    /// The empty map.
    pub fn new() -> (r: Self)
        ensures
            r@ == Map::<Seq<char>, V::V>::empty(),
    {
        let r = StringMap { entries: Vec::new(), slots: StringHashMap::new() };
        assert(r@ =~= Map::empty());
        r
    }

    /// The number of keys.
    pub fn len(&self) -> (r: usize)
        ensures
            r == self@.len(),
    {
        assert(self@.dom() =~= self.slots@.dom());
        self.slots.len()
    }

    pub fn contains_key(&self, key: &str) -> (r: bool)
        ensures
            r == self@.contains_key(key@),
    {
        self.slots.contains_key(key)
    }

    /// The value under a key.
    pub fn get(&self, key: &str) -> (r: Option<&V>)
        ensures
            match r {
                Some(v) => self@.contains_key(key@) && v@ == self@[key@],
                None => !self@.contains_key(key@),
            },
    {
        proof {
            use_type_invariant(self);
        }
        match self.slots.get(key) {
            Some(i) => Some(&self.entries[*i].1),
            None => None,
        }
    }

    /// All keys with their values, each key once.
    pub fn entries(&self) -> (r: &Vec<(String, V)>)
        ensures
            forall|i: int|
                0 <= i < r@.len() ==> self@.contains_key((#[trigger] r@[i]).0@) && self@[r@[i].0@]
                    == r@[i].1@,
            forall|i: int, j: int| 0 <= i < j < r@.len() ==> r@[i].0@ != r@[j].0@,
            forall|k: Seq<char>| #[trigger]
                self@.contains_key(k) ==> exists|i: int|
                    0 <= i < r@.len() && (#[trigger] r@[i]).0@ == k,
    {
        proof {
            use_type_invariant(self);
            assert forall|k: Seq<char>| #[trigger] self@.contains_key(k) implies exists|i: int|
                0 <= i < self.entries@.len() && (#[trigger] self.entries@[i]).0@ == k by {
                assert(self.entries@[self.slots@[k] as int].0@ == k);
            }
        }
        &self.entries
    }

    /// Puts a value under a key, in place of the one that was there.
    pub fn put(self, key: &str, value: V) -> (r: Self)
        ensures
            r@ == self@.insert(key@, value@),
    {
        proof {
            use_type_invariant(&self);
        }
        let ghost before = self;
        let StringMap { mut entries, mut slots } = self;
        match slots.get(key) {
            Some(i) => {
                let i: usize = *i;
                entries[i].1 = value;
            },
            None => {
                slots.insert(key.to_owned(), entries.len());
                entries.push((key.to_owned(), value));
            },
        }
        let r = StringMap { entries, slots };
        assert(r@ =~= before@.insert(key@, value@));
        r
    }
}

/// The group under `key`, empty if there is none.
pub open spec fn group(m: Map<Seq<char>, Seq<usize>>, key: Seq<char>) -> Seq<usize> {
    if m.contains_key(key) {
        m[key]
    } else {
        Seq::empty()
    }
}

impl StringMap<Vec<usize>> {
    /// Appends to the group under a key.
    pub fn push_to(self, key: &str, item: usize) -> (r: Self)
        ensures
            r@ == self@.insert(key@, group(self@, key@).push(item)),
    {
        proof {
            use_type_invariant(&self);
        }
        let ghost before = self;
        let StringMap { mut entries, mut slots } = self;
        match slots.get(key) {
            Some(i) => {
                let i: usize = *i;
                entries[i].1.push(item);
            },
            None => {
                slots.insert(key.to_owned(), entries.len());
                let mut one: Vec<usize> = Vec::new();
                one.push(item);
                assert(one@ =~= Seq::<usize>::empty().push(item));
                entries.push((key.to_owned(), one));
            },
        }
        let r = StringMap { entries, slots };
        assert(r@ =~= before@.insert(key@, group(before@, key@).push(item)));
        r
    }
}

} // verus!
