//! A small string-to-string mapping kept as a vector of entries in
//! insertion order, with unique keys and a later insert of the same key
//! overwriting in place. It models the header and query-parameter maps:
//! order of insertion is kept for serialization, while contracts speak of
//! the abstract [`Map`] it denotes.

use vstd::prelude::*;

use crate::strutil::str_eq;

verus! {

/// The abstract mapping an entry list denotes: later entries win.
pub open spec fn map_of(entries: Seq<(Seq<char>, Seq<char>)>) -> Map<Seq<char>, Seq<char>>
    decreases entries.len(),
{
    if entries.len() == 0 {
        Map::empty()
    } else {
        map_of(entries.drop_last()).insert(entries.last().0, entries.last().1)
    }
}

/// No two entries share a key.
pub open spec fn keys_distinct(entries: Seq<(Seq<char>, Seq<char>)>) -> bool {
    forall|i: int, j: int|
        0 <= i < j < entries.len() ==> entries[i].0 != entries[j].0
}

/// Whether some entry holds the key `k`.
pub open spec fn has_key(entries: Seq<(Seq<char>, Seq<char>)>, k: Seq<char>) -> bool {
    exists|i: int| 0 <= i < entries.len() && entries[i].0 == k
}

/// A string-keyed map that remembers insertion order.
#[derive(Debug)]
pub struct StringMap {
    entries: Vec<(String, String)>,
}

impl View for StringMap {
    type V = Seq<(Seq<char>, Seq<char>)>;

    closed spec fn view(&self) -> Seq<(Seq<char>, Seq<char>)> {
        Seq::new(self.entries@.len(), |i: int| (self.entries@[i].0@, self.entries@[i].1@))
    }
}

proof fn lemma_map_of_entry(entries: Seq<(Seq<char>, Seq<char>)>, i: int)
    requires
        keys_distinct(entries),
        0 <= i < entries.len(),
    ensures
        map_of(entries).contains_key(entries[i].0),
        map_of(entries)[entries[i].0] == entries[i].1,
    decreases entries.len(),
{
    if i == entries.len() - 1 {
    } else {
        lemma_map_of_entry(entries.drop_last(), i);
    }
}

proof fn lemma_map_of_no_key(entries: Seq<(Seq<char>, Seq<char>)>, k: Seq<char>)
    requires
        !has_key(entries, k),
    ensures
        !map_of(entries).contains_key(k),
    decreases entries.len(),
{
    if entries.len() > 0 {
        assert(!has_key(entries.drop_last(), k));
        lemma_map_of_no_key(entries.drop_last(), k);
    }
}

/// Overwriting the entry at `i` in place changes the denoted map as one
/// `insert` of its key would.
proof fn lemma_map_of_update(entries: Seq<(Seq<char>, Seq<char>)>, i: int, v: Seq<char>)
    requires
        keys_distinct(entries),
        0 <= i < entries.len(),
    ensures
        map_of(entries.update(i, (entries[i].0, v))) =~= map_of(entries).insert(entries[i].0, v),
    decreases entries.len(),
{
    let k = entries[i].0;
    let upd = entries.update(i, (k, v));
    if i == entries.len() - 1 {
        assert(upd.drop_last() =~= entries.drop_last());
        assert(map_of(upd) =~= map_of(entries).insert(k, v));
    } else {
        let d = entries.drop_last();
        assert(upd.drop_last() =~= d.update(i, (k, v)));
        assert(d[i] == entries[i]);
        lemma_map_of_update(d, i, v);
        assert(k != entries.last().0);
        assert(map_of(upd) =~= map_of(entries).insert(k, v));
    }
}

impl StringMap {
    /// Unique keys: what every constructor establishes and `insert` keeps.
    pub open spec fn wf(&self) -> bool {
        keys_distinct(self@)
    }

    /// The abstract mapping this value denotes.
    pub open spec fn as_map(&self) -> Map<Seq<char>, Seq<char>> {
        map_of(self@)
    }

    /// The empty map.
    pub fn new() -> (r: StringMap)
        ensures
            r@ =~= Seq::<(Seq<char>, Seq<char>)>::empty(),
            r.as_map() =~= Map::<Seq<char>, Seq<char>>::empty(),
            r.wf(),
    {
        StringMap { entries: Vec::new() }
    }

    /// How many entries the map holds.
    pub fn len(&self) -> (r: usize)
        ensures
            r == self@.len(),
    {
        self.entries.len()
    }

    /// The key of the entry at position `i`, in insertion order.
    pub fn key_at(&self, i: usize) -> (r: &String)
        requires
            i < self@.len(),
        ensures
            r@ == self@[i as int].0,
    {
        &self.entries[i].0
    }

    /// The value of the entry at position `i`, in insertion order.
    pub fn value_at(&self, i: usize) -> (r: &String)
        requires
            i < self@.len(),
        ensures
            r@ == self@[i as int].1,
    {
        &self.entries[i].1
    }

    /// Binds `k` to `v`: overwrites in place when `k` is present, appends
    /// otherwise. The denoted map gains exactly that binding.
    pub fn insert(&mut self, k: String, v: String)
        requires
            old(self).wf(),
        ensures
            final(self).wf(),
            final(self).as_map() =~= old(self).as_map().insert(k@, v@),
            !has_key(old(self)@, k@) ==> final(self)@ =~= old(self)@.push((k@, v@)),
            has_key(old(self)@, k@) ==> exists|i: int|
                0 <= i < old(self)@.len() && old(self)@[i].0 == k@ && final(self)@ =~= old(
                    self,
                )@.update(i, (k@, v@)),
    {
        let n = self.entries.len();
        let mut i: usize = 0;
        while i < n
            invariant
                old(self) == self,
                n == self@.len(),
                i <= n,
                old(self).wf(),
                forall|j: int| 0 <= j < i ==> self@[j].0 != k@,
            decreases n - i,
        {
            if str_eq(self.entries[i].0.as_str(), k.as_str()) {
                proof {
                    lemma_map_of_update(self@, i as int, v@);
                }
                let ghost pre = self@;
                self.entries.set(i, (k, v));
                proof {
                    assert(self@ =~= pre.update(i as int, (pre[i as int].0, v@)));
                }
                return ;
            }
            i += 1;
        }
        let ghost pre = self@;
        self.entries.push((k, v));
        proof {
            assert(self@ =~= pre.push((k@, v@)));
            assert(self@.drop_last() =~= pre);
            assert(final(self).as_map() =~= old(self).as_map().insert(k@, v@));
        }
    }

    /// An entry-for-entry copy.
    pub fn duplicate(&self) -> (r: StringMap)
        ensures
            r@ =~= self@,
    {
        let n = self.entries.len();
        let mut entries: Vec<(String, String)> = Vec::new();
        let mut i: usize = 0;
        while i < n
            invariant
                n == self@.len(),
                i <= n,
                entries@.len() == i,
                forall|j: int|
                    0 <= j < i ==> (#[trigger] entries@[j]).0@ == self@[j].0 && entries@[j].1@
                        == self@[j].1,
            decreases n - i,
        {
            let k = self.entries[i].0.clone();
            let v = self.entries[i].1.clone();
            entries.push((k, v));
            i += 1;
        }
        StringMap { entries }
    }

    /// Looks `k` up in the denoted map.
    pub fn get(&self, k: &str) -> (r: Option<String>)
        requires
            self.wf(),
        ensures
            r is Some <==> self.as_map().contains_key(k@),
            r is Some ==> r->0@ == self.as_map()[k@],
    {
        let n = self.entries.len();
        let mut i: usize = 0;
        while i < n
            invariant
                n == self@.len(),
                i <= n,
                self.wf(),
                forall|j: int| 0 <= j < i ==> self@[j].0 != k@,
            decreases n - i,
        {
            if str_eq(self.entries[i].0.as_str(), k) {
                proof {
                    lemma_map_of_entry(self@, i as int);
                }
                return Some(self.entries[i].1.clone());
            }
            i += 1;
        }
        proof {
            lemma_map_of_no_key(self@, k@);
        }
        None
    }
}

} // verus!
