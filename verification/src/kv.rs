//! Small verified string-keyed containers: an ordered association list with a
//! map view, and a key set.  They back the transaction log's overlay state.

use vstd::prelude::*;

verus! {

/// The map described by an association list, later entries winning.
pub open spec fn kv_map(s: Seq<(String, String)>) -> Map<Seq<char>, Seq<char>>
    decreases s.len(),
{
    if s.len() == 0 {
        Map::empty()
    } else {
        kv_map(s.drop_last()).insert(s.last().0@, s.last().1@)
    }
}

/// Keys are pairwise distinct.
pub open spec fn kv_wf(s: Seq<(String, String)>) -> bool {
    forall|i: int, j: int| 0 <= i < j < s.len() ==> s[i].0@ != s[j].0@
}

pub proof fn lemma_kv_map_contains(s: Seq<(String, String)>, k: Seq<char>)
    ensures
        kv_map(s).contains_key(k) <==> exists|i: int| 0 <= i < s.len() && s[i].0@ == k,
    decreases s.len(),
{
    if s.len() > 0 {
        lemma_kv_map_contains(s.drop_last(), k);
        if s.last().0@ != k && kv_map(s).contains_key(k) {
            let i = choose|i: int| 0 <= i < s.drop_last().len() && s.drop_last()[i].0@ == k;
            assert(s[i].0@ == k);
        }
        if s.last().0@ != k && (exists|i: int| 0 <= i < s.len() && s[i].0@ == k) {
            let i = choose|i: int| 0 <= i < s.len() && s[i].0@ == k;
            assert(s.drop_last()[i].0@ == k);
        }
    }
}

pub proof fn lemma_kv_map_index(s: Seq<(String, String)>, i: int)
    requires
        kv_wf(s),
        0 <= i < s.len(),
    ensures
        kv_map(s).contains_key(s[i].0@),
        kv_map(s)[s[i].0@] == s[i].1@,
    decreases s.len(),
{
    if i < s.len() - 1 {
        lemma_kv_map_index(s.drop_last(), i);
        assert(s.drop_last()[i] == s[i]);
        assert(s.last().0@ != s[i].0@);
    }
}

/// An association list of string pairs whose view is the map it describes.
pub struct KvStore {
    pub entries: Vec<(String, String)>,
}

impl View for KvStore {
    type V = Map<Seq<char>, Seq<char>>;

    open spec fn view(&self) -> Map<Seq<char>, Seq<char>> {
        kv_map(self.entries@)
    }
}

impl KvStore {
    pub open spec fn wf(&self) -> bool {
        kv_wf(self.entries@)
    }

    pub fn new() -> (r: Self)
        ensures
            r.wf(),
            r@ =~= Map::<Seq<char>, Seq<char>>::empty(),
            r.entries@ =~= Seq::<(String, String)>::empty(),
    {
        KvStore { entries: Vec::new() }
    }

    /// Index of the entry holding `key`, if any.
    pub fn index_of(&self, key: &String) -> (r: Option<usize>)
        requires
            self.wf(),
        ensures
            match r {
                Some(i) => i < self.entries@.len() && self.entries@[i as int].0@ == key@,
                None => forall|i: int| 0 <= i < self.entries@.len() ==> self.entries@[i].0@ != key@,
            },
    {
        let mut i: usize = 0;
        while i < self.entries.len()
            invariant
                i <= self.entries@.len(),
                forall|j: int| 0 <= j < i as int ==> self.entries@[j].0@ != key@,
            decreases self.entries@.len() - i,
        {
            if self.entries[i].0 == *key {
                return Some(i);
            }
            i = i + 1;
        }
        None
    }

    pub fn contains(&self, key: &String) -> (r: bool)
        requires
            self.wf(),
        ensures
            r == self@.contains_key(key@),
    {
        proof {
            lemma_kv_map_contains(self.entries@, key@);
        }
        self.index_of(key).is_some()
    }

    pub fn get<'a>(&'a self, key: &String) -> (r: Option<&'a String>)
        requires
            self.wf(),
        ensures
            r is Some <==> self@.contains_key(key@),
            r is Some ==> r.unwrap()@ == self@[key@],
    {
        proof {
            lemma_kv_map_contains(self.entries@, key@);
        }
        match self.index_of(key) {
            Some(i) => {
                proof {
                    lemma_kv_map_index(self.entries@, i as int);
                }
                Some(&self.entries[i].1)
            },
            None => None,
        }
    }

    /// Insert or overwrite.
    pub fn set(&mut self, key: String, val: String)
        requires
            old(self).wf(),
        ensures
            final(self).wf(),
            final(self)@ =~= old(self)@.insert(key@, val@),
            final(self).entries@.len() <= old(self).entries@.len() + 1,
    {
        proof {
            lemma_kv_map_contains(self.entries@, key@);
        }
        let ghost s0 = self.entries@;
        match self.index_of(&key) {
            Some(i) => {
                self.entries.set(i, (key, val));
                proof {
                    lemma_kv_set_updates(s0, i as int, self.entries@[i as int]);
                }
            },
            None => {
                self.entries.push((key, val));
                proof {
                    assert(self.entries@.drop_last() =~= s0);
                }
            },
        }
    }

    /// Remove the entry holding `key`, if any.
    pub fn remove(&mut self, key: &String)
        requires
            old(self).wf(),
        ensures
            final(self).wf(),
            final(self)@ =~= old(self)@.remove(key@),
            final(self).entries@.len() <= old(self).entries@.len(),
    {
        proof {
            lemma_kv_map_contains(self.entries@, key@);
        }
        let ghost s0 = self.entries@;
        match self.index_of(key) {
            Some(i) => {
                self.entries.remove(i);
                proof {
                    lemma_kv_remove_removes(s0, i as int);
                }
            },
            None => {
                proof {
                    lemma_kv_absent_remove(s0, key@);
                }
            },
        }
    }
}

proof fn lemma_kv_absent_remove(s: Seq<(String, String)>, k: Seq<char>)
    requires
        forall|i: int| 0 <= i < s.len() ==> s[i].0@ != k,
    ensures
        kv_map(s) =~= kv_map(s).remove(k),
{
    lemma_kv_map_contains(s, k);
}

proof fn lemma_kv_set_updates(s: Seq<(String, String)>, i: int, pr: (String, String))
    requires
        kv_wf(s),
        0 <= i < s.len(),
        pr.0@ == s[i].0@,
    ensures
        kv_wf(s.update(i, pr)),
        kv_map(s.update(i, pr)) =~= kv_map(s).insert(pr.0@, pr.1@),
    decreases s.len(),
{
    let t = s.update(i, pr);
    if i == s.len() - 1 {
        assert(t.drop_last() =~= s.drop_last());
    } else {
        lemma_kv_set_updates(s.drop_last(), i, pr);
        assert(t.drop_last() =~= s.drop_last().update(i, pr));
        assert(t.last() == s.last());
        assert(s.last().0@ != pr.0@);
    }
}

proof fn lemma_kv_remove_removes(s: Seq<(String, String)>, i: int)
    requires
        kv_wf(s),
        0 <= i < s.len(),
    ensures
        kv_wf(s.remove(i)),
        kv_map(s.remove(i)) =~= kv_map(s).remove(s[i].0@),
    decreases s.len(),
{
    let t = s.remove(i);
    if i == s.len() - 1 {
        assert(t =~= s.drop_last());
        lemma_kv_map_contains(s.drop_last(), s[i].0@);
    } else {
        lemma_kv_remove_removes(s.drop_last(), i);
        assert(t.drop_last() =~= s.drop_last().remove(i));
        assert(t.last() == s.last());
        assert(s.last().0@ != s[i].0@);
    }
}

/// The set of key views held by a vector of strings.
pub open spec fn key_set(s: Seq<String>) -> Set<Seq<char>> {
    Set::new(|k: Seq<char>| exists|i: int| 0 <= i < s.len() && s[i]@ == k)
}

/// A set of string keys.
pub struct KeySet {
    pub items: Vec<String>,
}

impl View for KeySet {
    type V = Set<Seq<char>>;

    open spec fn view(&self) -> Set<Seq<char>> {
        key_set(self.items@)
    }
}

impl KeySet {
    pub open spec fn wf(&self) -> bool {
        forall|i: int, j: int| 0 <= i < j < self.items@.len() ==> self.items@[i]@ != self.items@[j]@
    }

    pub fn new() -> (r: Self)
        ensures
            r.wf(),
            r@ =~= Set::<Seq<char>>::empty(),
    {
        KeySet { items: Vec::new() }
    }

    fn index_of(&self, key: &String) -> (r: Option<usize>)
        ensures
            match r {
                Some(i) => i < self.items@.len() && self.items@[i as int]@ == key@,
                None => forall|i: int| 0 <= i < self.items@.len() ==> self.items@[i]@ != key@,
            },
    {
        let mut i: usize = 0;
        while i < self.items.len()
            invariant
                i <= self.items@.len(),
                forall|j: int| 0 <= j < i as int ==> self.items@[j]@ != key@,
            decreases self.items@.len() - i,
        {
            if self.items[i] == *key {
                return Some(i);
            }
            i = i + 1;
        }
        None
    }

    pub fn contains(&self, key: &String) -> (r: bool)
        ensures
            r == self@.contains(key@),
    {
        self.index_of(key).is_some()
    }

    pub fn insert(&mut self, key: String)
        requires
            old(self).wf(),
        ensures
            final(self).wf(),
            final(self)@ =~= old(self)@.insert(key@),
            final(self).items@.len() <= old(self).items@.len() + 1,
    {
        let ghost s0 = self.items@;
        match self.index_of(&key) {
            Some(_) => {
                proof {
                    assert forall|k: Seq<char>| self@.contains(k) implies old(self)@.insert(
                        key@,
                    ).contains(k) by {}
                }
            },
            None => {
                self.items.push(key);
                proof {
                    assert forall|k: Seq<char>| old(self)@.insert(key@).contains(k) implies
                        self@.contains(k) by {
                        if k == key@ {
                            assert(self.items@[s0.len() as int]@ == k);
                        } else {
                            let i = choose|i: int| 0 <= i < s0.len() && s0[i]@ == k;
                            assert(self.items@[i]@ == k);
                        }
                    }
                }
            },
        }
    }

    pub fn remove(&mut self, key: &String)
        requires
            old(self).wf(),
        ensures
            final(self).wf(),
            final(self)@ =~= old(self)@.remove(key@),
            final(self).items@.len() <= old(self).items@.len(),
    {
        let ghost s0 = self.items@;
        match self.index_of(key) {
            Some(i) => {
                self.items.remove(i);
                proof {
                    assert forall|k: Seq<char>| old(self)@.remove(key@).contains(k) implies
                        self@.contains(k) by {
                        let j = choose|j: int| 0 <= j < s0.len() && s0[j]@ == k;
                        if j < i as int {
                            assert(self.items@[j]@ == k);
                        } else {
                            assert(j != i as int);
                            assert(self.items@[j - 1]@ == k);
                        }
                    }
                    assert forall|k: Seq<char>| self@.contains(k) implies old(self)@.remove(
                        key@,
                    ).contains(k) by {
                        let j = choose|j: int| 0 <= j < self.items@.len() && self.items@[j]@ == k;
                        if j < i as int {
                            assert(s0[j]@ == k);
                        } else {
                            assert(s0[j + 1]@ == k);
                            assert(k != key@);
                        }
                    }
                }
            },
            None => {},
        }
    }
}

} // verus!
