//! Maps keyed by strings and sets of strings, held in vectors so that
//! their contents can be specified: a `StrMap` is viewed as a `Map` from
//! the keys' characters to the values' views, a `StrSet` as a `Set` of
//! character sequences. Both keep each key (element) once.

use vstd::prelude::*;

verus! {

/// A map from strings to values, each key held once.
pub struct StrMap<V> {
    entries: Vec<(String, V)>,
}

/// A set of strings, each held once.
pub struct StrSet {
    items: Vec<String>,
}

/// The map that a sequence of entries with distinct keys stands for.
pub open spec fn pairs_map<V: View>(s: Seq<(String, V)>) -> Map<Seq<char>, V::V> {
    Map::new(
        |k: Seq<char>| exists|i: int| 0 <= i < s.len() && #[trigger] s[i].0@ == k,
        |k: Seq<char>| s[choose|i: int| 0 <= i < s.len() && #[trigger] s[i].0@ == k].1@,
    )
}

/// No two entries share a key.
pub open spec fn distinct_keys<V>(s: Seq<(String, V)>) -> bool {
    forall|i: int, j: int| 0 <= i < j < s.len() ==> #[trigger] s[i].0@ != #[trigger] s[j].0@
}

impl<V: View> StrMap<V> {
    /// The entries, in the order in which they are held.
    pub closed spec fn pairs(&self) -> Seq<(String, V)> {
        self.entries@
    }

    /// No key is held twice.
    pub open spec fn wf(&self) -> bool {
        forall|i: int, j: int|
            0 <= i < j < self.pairs().len() ==> #[trigger] self.pairs()[i].0@
                != #[trigger] self.pairs()[j].0@
    }

    /// Whether some entry has the key `k`.
    pub open spec fn has_key(&self, k: Seq<char>) -> bool {
        exists|i: int| 0 <= i < self.pairs().len() && #[trigger] self.pairs()[i].0@ == k
    }

    /// The position of the entry with key `k`.
    pub open spec fn index_of(&self, k: Seq<char>) -> int {
        choose|i: int| 0 <= i < self.pairs().len() && #[trigger] self.pairs()[i].0@ == k
    }

    /// The map that the entries stand for.
    pub open spec fn as_map(&self) -> Map<Seq<char>, V::V> {
        pairs_map(self.pairs())
    }

    /// Each entry is in the map, with its value.
    pub proof fn lemma_pairs_in_map(&self)
        requires
            self.wf(),
        ensures
            forall|i: int|
                0 <= i < self.pairs().len() ==> {
                    &&& #[trigger] self.as_map().contains_key(self.pairs()[i].0@)
                    &&& self.as_map()[self.pairs()[i].0@] == self.pairs()[i].1@
                    &&& self.index_of(self.pairs()[i].0@) == i
                },
            forall|k: Seq<char>|
                #[trigger] self.as_map().contains_key(k) ==> {
                    let i = self.index_of(k);
                    &&& 0 <= i < self.pairs().len()
                    &&& self.pairs()[i].0@ == k
                },
    {
        assert forall|i: int| 0 <= i < self.pairs().len() implies {
            &&& #[trigger] self.as_map().contains_key(self.pairs()[i].0@)
            &&& self.as_map()[self.pairs()[i].0@] == self.pairs()[i].1@
            &&& self.index_of(self.pairs()[i].0@) == i
        } by {
            let k = self.pairs()[i].0@;
            assert(self.has_key(k));
            let j = self.index_of(k);
            if j != i {
                if j < i {
                    assert(self.pairs()[j].0@ != self.pairs()[i].0@);
                } else {
                    assert(self.pairs()[i].0@ != self.pairs()[j].0@);
                }
            }
        }
    }

    /// The empty map.
    pub fn new() -> (r: Self)
        ensures
            r.wf(),
            r.pairs().len() == 0,
            r.as_map() == Map::<Seq<char>, V::V>::empty(),
    {
        let r = StrMap { entries: Vec::new() };
        assert(r.as_map() =~= Map::<Seq<char>, V::V>::empty());
        r
    }

    /// A map made of entries whose keys are distinct, kept in their order.
    pub fn from_pairs(entries: Vec<(String, V)>) -> (r: Self)
        requires
            distinct_keys(entries@),
        ensures
            r.wf(),
            r.pairs() == entries@,
            r.as_map() == pairs_map(entries@),
    {
        StrMap { entries }
    }

    /// The entries, in order.
    pub fn pairs_vec(&self) -> (r: &Vec<(String, V)>)
        ensures
            r@ == self.pairs(),
    {
        &self.entries
    }

    /// The number of entries.
    pub fn len(&self) -> (r: usize)
        ensures
            r == self.pairs().len(),
    {
        self.entries.len()
    }

    /// The position of the entry with key `k`, if there is one.
    pub fn find(&self, k: &str) -> (r: Option<usize>)
        requires
            self.wf(),
        ensures
            match r {
                Some(i) => i < self.pairs().len() && self.pairs()[i as int].0@ == k@
                    && self.index_of(k@) == i,
                None => !self.has_key(k@),
            },
    {
        let key = k.to_owned();
        let mut i: usize = 0;
        while i < self.entries.len()
            invariant
                key@ == k@,
                self.wf(),
                i <= self.pairs().len(),
                self.entries@ == self.pairs(),
                forall|j: int| 0 <= j < i ==> #[trigger] self.pairs()[j].0@ != k@,
            decreases self.entries.len() - i,
        {
            if self.entries[i].0 == key {
                proof {
                    self.lemma_pairs_in_map();
                }
                return Some(i);
            }
            i = i + 1;
        }
        None
    }

    /// Whether the map has the key `k`.
    pub fn contains_key(&self, k: &str) -> (r: bool)
        requires
            self.wf(),
        ensures
            r == self.as_map().contains_key(k@),
    {
        self.find(k).is_some()
    }

    /// The value under the key `k`.
    pub fn get(&self, k: &str) -> (r: Option<&V>)
        requires
            self.wf(),
        ensures
            match r {
                Some(v) => self.as_map().contains_key(k@) && v@ == self.as_map()[k@],
                None => !self.as_map().contains_key(k@),
            },
    {
        match self.find(k) {
            Some(i) => Some(&self.entries[i].1),
            None => None,
        }
    }

    /// Whether the map is empty.
    pub fn is_empty(&self) -> (r: bool)
        ensures
            r == (self.pairs().len() == 0),
            r == (self.as_map().dom() == Set::<Seq<char>>::empty()),
    {
        if self.entries.len() == 0 {
            assert(self.as_map().dom() =~= Set::<Seq<char>>::empty());
            true
        } else {
            assert(self.as_map().dom().contains(self.pairs()[0].0@));
            false
        }
    }

    /// Puts `v` under the key `k`, in place of a value already there.
    pub fn insert(&mut self, k: String, v: V)
        requires
            old(self).wf(),
        ensures
            final(self).wf(),
            final(self).as_map() == old(self).as_map().insert(k@, v@),
            final(self).pairs() == if old(self).has_key(k@) {
                old(self).pairs().update(old(self).index_of(k@), (k, v))
            } else {
                old(self).pairs().push((k, v))
            },
            forall|i: int|
                0 <= i < final(self).pairs().len() ==> #[trigger] final(self).pairs()[i] == (k, v)
                    || old(self).pairs().contains(final(self).pairs()[i]),
    {
        let ghost kv = k@;
        let ghost vv = v@;
        let ghost before = self.pairs();
        proof {
            self.lemma_pairs_in_map();
        }
        match self.find(k.as_str()) {
            Some(i) => {
                self.entries.set(i, (k, v));
                assert(self.pairs() == before.update(i as int, self.pairs()[i as int]));
                assert forall|j: int| 0 <= j < self.pairs().len() && j != i implies before.contains(
                    #[trigger] self.pairs()[j],
                ) by {
                    assert(before[j] == self.pairs()[j]);
                }
                proof {
                    self.lemma_pairs_in_map();
                }
                assert(self.as_map() =~= old(self).as_map().insert(kv, vv)) by {
                    assert forall|key: Seq<char>|
                        #[trigger] self.as_map().contains_key(key) <==> old(
                            self,
                        ).as_map().insert(kv, vv).contains_key(key) by {
                        if old(self).as_map().contains_key(key) {
                            let j = old(self).index_of(key);
                            assert(self.pairs()[j].0@ == key);
                        }
                        if self.as_map().contains_key(key) {
                            let j = self.index_of(key);
                            assert(j == i || before[j].0@ == key);
                        }
                    }
                    assert forall|key: Seq<char>| #[trigger]
                        self.as_map().contains_key(key) implies self.as_map()[key] == old(
                            self,
                        ).as_map().insert(kv, vv)[key] by {
                        let j = self.index_of(key);
                        if key != kv {
                            assert(j != i);
                            assert(before[j].0@ == key);
                            assert(old(self).index_of(key) == j);
                        }
                    }
                }
            },
            None => {
                self.entries.push((k, v));
                let ghost n = before.len();
                assert(self.pairs() == before.push(self.pairs()[n as int]));
                assert forall|j: int| 0 <= j < n implies before.contains(
                    #[trigger] self.pairs()[j],
                ) by {
                    assert(before[j] == self.pairs()[j]);
                }
                assert(self.wf()) by {
                    assert forall|a: int, b: int|
                        0 <= a < b < self.pairs().len() implies #[trigger] self.pairs()[a].0@
                        != #[trigger] self.pairs()[b].0@ by {
                        if b == n {
                            assert(before[a].0@ != kv);
                        } else {
                            assert(before[a].0@ != before[b].0@);
                        }
                    }
                }
                proof {
                    self.lemma_pairs_in_map();
                }
                assert(self.as_map() =~= old(self).as_map().insert(kv, vv)) by {
                    assert forall|key: Seq<char>|
                        #[trigger] self.as_map().contains_key(key) <==> old(
                            self,
                        ).as_map().insert(kv, vv).contains_key(key) by {
                        if old(self).as_map().contains_key(key) {
                            let j = old(self).index_of(key);
                            assert(self.pairs()[j].0@ == key);
                        }
                        if self.as_map().contains_key(key) && key != kv {
                            let j = self.index_of(key);
                            assert(j < n);
                            assert(before[j].0@ == key);
                        }
                        if key == kv {
                            assert(self.pairs()[n as int].0@ == kv);
                        }
                    }
                    assert forall|key: Seq<char>| #[trigger]
                        self.as_map().contains_key(key) implies self.as_map()[key] == old(
                            self,
                        ).as_map().insert(kv, vv)[key] by {
                        let j = self.index_of(key);
                        if key != kv {
                            assert(j < n);
                            assert(before[j].0@ == key);
                            assert(old(self).index_of(key) == j);
                        } else {
                            assert(self.pairs()[n as int].0@ == kv);
                        }
                    }
                }
            },
        }
    }

    /// Takes out the entry with key `k`, if there is one.
    pub fn remove(&mut self, k: &str) -> (r: Option<V>)
        requires
            old(self).wf(),
        ensures
            final(self).wf(),
            final(self).as_map() == old(self).as_map().remove(k@),
            match r {
                Some(v) => old(self).as_map().contains_key(k@) && v@ == old(self).as_map()[k@]
                    && old(self).pairs()[old(self).index_of(k@)].1 == v,
                None => !old(self).as_map().contains_key(k@),
            },
            final(self).pairs() == if old(self).has_key(k@) {
                old(self).pairs().remove(old(self).index_of(k@))
            } else {
                old(self).pairs()
            },
            forall|i: int|
                0 <= i < final(self).pairs().len() ==> old(self).pairs().contains(
                    #[trigger] final(self).pairs()[i],
                ),
    {
        let ghost before = self.pairs();
        proof {
            self.lemma_pairs_in_map();
        }
        match self.find(k) {
            Some(i) => {
                let (_, v) = self.entries.remove(i);
                assert(self.pairs() == before.remove(i as int));
                assert forall|j: int| 0 <= j < self.pairs().len() implies before.contains(
                    #[trigger] self.pairs()[j],
                ) by {
                    let j2 = if j < i {
                        j
                    } else {
                        j + 1
                    };
                    assert(before[j2] == self.pairs()[j]);
                }
                assert(self.wf()) by {
                    assert forall|a: int, b: int|
                        0 <= a < b < self.pairs().len() implies #[trigger] self.pairs()[a].0@
                        != #[trigger] self.pairs()[b].0@ by {
                        let a2 = if a < i {
                            a
                        } else {
                            a + 1
                        };
                        let b2 = if b < i {
                            b
                        } else {
                            b + 1
                        };
                        assert(self.pairs()[a] == before[a2]);
                        assert(self.pairs()[b] == before[b2]);
                    }
                }
                proof {
                    self.lemma_pairs_in_map();
                }
                assert(self.as_map() =~= old(self).as_map().remove(k@)) by {
                    assert forall|key: Seq<char>|
                        #[trigger] self.as_map().contains_key(key) <==> old(
                            self,
                        ).as_map().remove(k@).contains_key(key) by {
                        if old(self).as_map().contains_key(key) && key != k@ {
                            let j = old(self).index_of(key);
                            assert(j != i);
                            let j2 = if j < i {
                                j
                            } else {
                                j - 1
                            };
                            assert(self.pairs()[j2].0@ == key);
                        }
                        if self.as_map().contains_key(key) {
                            let j = self.index_of(key);
                            let j2 = if j < i {
                                j
                            } else {
                                j + 1
                            };
                            assert(before[j2].0@ == key);
                            assert(j2 != i);
                        }
                    }
                    assert forall|key: Seq<char>| #[trigger]
                        self.as_map().contains_key(key) implies self.as_map()[key] == old(
                            self,
                        ).as_map().remove(k@)[key] by {
                        let j = self.index_of(key);
                        let j2 = if j < i {
                            j
                        } else {
                            j + 1
                        };
                        assert(before[j2].0@ == key);
                        assert(old(self).index_of(key) == j2);
                    }
                }
                Some(v)
            },
            None => {
                assert(self.as_map() =~= old(self).as_map().remove(k@));
                None
            },
        }
    }
}

impl<V: View> View for StrMap<V> {
    type V = Map<Seq<char>, V::V>;

    open spec fn view(&self) -> Map<Seq<char>, V::V> {
        self.as_map()
    }
}

/// The views of the first `n` strings of `s`, as a set.
pub open spec fn prefix_set(s: Seq<String>, n: int) -> Set<Seq<char>> {
    Set::new(|x: Seq<char>| exists|j: int| 0 <= j < n && #[trigger] s[j]@ == x)
}

impl StrSet {
    /// The elements, in the order in which they are held.
    pub closed spec fn elems(&self) -> Seq<String> {
        self.items@
    }

    /// No element is held twice.
    pub open spec fn wf(&self) -> bool {
        forall|i: int, j: int|
            0 <= i < j < self.elems().len() ==> #[trigger] self.elems()[i]@
                != #[trigger] self.elems()[j]@
    }

    /// The set that the elements stand for.
    pub open spec fn as_set(&self) -> Set<Seq<char>> {
        Set::new(|x: Seq<char>| exists|i: int| 0 <= i < self.elems().len() && #[trigger] self.elems()[i]@ == x)
    }

    /// The empty set.
    pub fn new() -> (r: Self)
        ensures
            r.wf(),
            r.elems().len() == 0,
            r.as_set() == Set::<Seq<char>>::empty(),
    {
        let r = StrSet { items: Vec::new() };
        assert(r.as_set() =~= Set::<Seq<char>>::empty());
        r
    }

    /// The elements, in order.
    pub fn items_vec(&self) -> (r: &Vec<String>)
        ensures
            r@ == self.elems(),
    {
        &self.items
    }

    /// The number of elements.
    pub fn len(&self) -> (r: usize)
        ensures
            r == self.elems().len(),
    {
        self.items.len()
    }

    /// Whether the set is empty.
    pub fn is_empty(&self) -> (r: bool)
        ensures
            r == (self.elems().len() == 0),
            r == (self.as_set() == Set::<Seq<char>>::empty()),
    {
        if self.items.len() == 0 {
            assert(self.as_set() =~= Set::<Seq<char>>::empty());
            true
        } else {
            assert(self.as_set().contains(self.elems()[0]@));
            false
        }
    }

    /// The position of `x`, if it is held.
    fn position(&self, x: &str) -> (r: Option<usize>)
        ensures
            match r {
                Some(i) => i < self.elems().len() && self.elems()[i as int]@ == x@,
                None => !self.as_set().contains(x@),
            },
    {
        let key = x.to_owned();
        let mut i: usize = 0;
        while i < self.items.len()
            invariant
                key@ == x@,
                i <= self.elems().len(),
                self.items@ == self.elems(),
                forall|j: int| 0 <= j < i ==> #[trigger] self.elems()[j]@ != x@,
            decreases self.items.len() - i,
        {
            if self.items[i] == key {
                return Some(i);
            }
            i = i + 1;
        }
        None
    }

    /// Whether `x` is in the set.
    pub fn contains(&self, x: &str) -> (r: bool)
        ensures
            r == self.as_set().contains(x@),
    {
        self.position(x).is_some()
    }

    /// Adds `x`; true when it was not there before.
    pub fn insert(&mut self, x: String) -> (r: bool)
        requires
            old(self).wf(),
        ensures
            final(self).wf(),
            final(self).as_set() == old(self).as_set().insert(x@),
            r == !old(self).as_set().contains(x@),
            final(self).elems() == if r {
                old(self).elems().push(x)
            } else {
                old(self).elems()
            },
    {
        let ghost xv = x@;
        let ghost before = self.elems();
        match self.position(x.as_str()) {
            Some(i) => {
                assert(old(self).as_set().insert(xv) =~= old(self).as_set());
                false
            },
            None => {
                self.items.push(x);
                let ghost n = before.len();
                assert(self.elems() == before.push(self.elems()[n as int]));
                assert(self.wf()) by {
                    assert forall|a: int, b: int|
                        0 <= a < b < self.elems().len() implies #[trigger] self.elems()[a]@
                        != #[trigger] self.elems()[b]@ by {
                        if b == n {
                            assert(before[a]@ != xv);
                        } else {
                            assert(before[a]@ != before[b]@);
                        }
                    }
                }
                assert(self.as_set() =~= old(self).as_set().insert(xv)) by {
                    assert forall|y: Seq<char>| #[trigger]
                        self.as_set().contains(y) implies old(self).as_set().insert(
                            xv,
                        ).contains(y) by {
                        let j = choose|j: int|
                            0 <= j < self.elems().len() && #[trigger] self.elems()[j]@ == y;
                        if j < n {
                            assert(before[j]@ == y);
                        }
                    }
                    assert forall|y: Seq<char>| #[trigger]
                        old(self).as_set().insert(xv).contains(y) implies self.as_set().contains(
                            y,
                        ) by {
                        if y == xv {
                            assert(self.elems()[n as int]@ == y);
                        } else {
                            let j = choose|j: int|
                                0 <= j < before.len() && #[trigger] before[j]@ == y;
                            assert(self.elems()[j]@ == y);
                        }
                    }
                }
                true
            },
        }
    }

    /// Removes `x`; true when it was there.
    pub fn remove(&mut self, x: &str) -> (r: bool)
        requires
            old(self).wf(),
        ensures
            final(self).wf(),
            final(self).as_set() == old(self).as_set().remove(x@),
            r == old(self).as_set().contains(x@),
    {
        let ghost before = self.elems();
        match self.position(x) {
            Some(i) => {
                self.items.remove(i);
                assert(self.elems() == before.remove(i as int));
                assert(self.wf()) by {
                    assert forall|a: int, b: int|
                        0 <= a < b < self.elems().len() implies #[trigger] self.elems()[a]@
                        != #[trigger] self.elems()[b]@ by {
                        let a2 = if a < i {
                            a
                        } else {
                            a + 1
                        };
                        let b2 = if b < i {
                            b
                        } else {
                            b + 1
                        };
                        assert(self.elems()[a] == before[a2]);
                        assert(self.elems()[b] == before[b2]);
                    }
                }
                assert(self.as_set() =~= old(self).as_set().remove(x@)) by {
                    assert forall|y: Seq<char>| #[trigger]
                        self.as_set().contains(y) implies old(self).as_set().remove(
                            x@,
                        ).contains(y) by {
                        let j = choose|j: int|
                            0 <= j < self.elems().len() && #[trigger] self.elems()[j]@ == y;
                        let j2 = if j < i {
                            j
                        } else {
                            j + 1
                        };
                        assert(before[j2]@ == y);
                        assert(j2 != i);
                        if y == x@ {
                            if j2 < i {
                                assert(before[j2]@ != before[i as int]@);
                            } else {
                                assert(before[i as int]@ != before[j2]@);
                            }
                        }
                    }
                    assert forall|y: Seq<char>| #[trigger]
                        old(self).as_set().remove(x@).contains(y) implies self.as_set().contains(
                            y,
                        ) by {
                        let j = choose|j: int|
                            0 <= j < before.len() && #[trigger] before[j]@ == y;
                        assert(j != i);
                        let j2 = if j < i {
                            j
                        } else {
                            j - 1
                        };
                        assert(self.elems()[j2]@ == y);
                    }
                }
                true
            },
            None => {
                assert(self.as_set() =~= old(self).as_set().remove(x@));
                false
            },
        }
    }

    /// A set holding the given strings (each once).
    pub fn from_vec(v: Vec<String>) -> (r: Self)
        ensures
            r.wf(),
            r.as_set() == prefix_set(v@, v@.len() as int),
    {
        let mut r = StrSet::new();
        let mut i: usize = 0;
        while i < v.len()
            invariant
                i <= v@.len(),
                r.wf(),
                r.as_set() == prefix_set(v@, i as int),
            decreases v.len() - i,
        {
            let ghost prev = r.as_set();
            r.insert(v[i].clone());
            i = i + 1;
            assert(r.as_set() =~= prefix_set(v@, i as int)) by {
                assert forall|x: Seq<char>| #[trigger] r.as_set().contains(x) implies (exists|j: int| 0 <= j < i && #[trigger] v@[j]@ == x) by {
                    if x != v@[i - 1]@ {
                        assert(prev.contains(x));
                    }
                }
            }
        }
        r
    }

    /// A copy of the set, elements in the same order.
    pub fn duplicate(&self) -> (r: Self)
        ensures
            r.elems() =~~= self.elems(),
            r.as_set() == self.as_set(),
            self.wf() ==> r.wf(),
    {
        let mut items: Vec<String> = Vec::new();
        let mut i: usize = 0;
        while i < self.items.len()
            invariant
                i <= self.elems().len(),
                self.items@ == self.elems(),
                items@.len() == i,
                forall|j: int| 0 <= j < i ==> #[trigger] items@[j] == self.elems()[j],
            decreases self.items.len() - i,
        {
            items.push(self.items[i].clone());
            i = i + 1;
        }
        let r = StrSet { items };
        assert(r.elems() =~= self.elems());
        assert(r.as_set() =~= self.as_set());
        r
    }

    /// Adds every element of `other`.
    pub fn extend(&mut self, other: &StrSet)
        requires
            old(self).wf(),
        ensures
            final(self).wf(),
            final(self).as_set() == old(self).as_set().union(other.as_set()),
    {
        let ghost start = self.as_set();
        let mut i: usize = 0;
        while i < other.items.len()
            invariant
                i <= other.elems().len(),
                other.items@ == other.elems(),
                self.wf(),
                self.as_set() == start.union(prefix_set(other.elems(), i as int)),
            decreases other.items.len() - i,
        {
            let ghost prev = self.as_set();
            self.insert(other.items[i].clone());
            i = i + 1;
            assert(self.as_set() =~= start.union(prefix_set(other.elems(), i as int))) by {
                assert forall|x: Seq<char>| #[trigger] self.as_set().contains(x) implies start.union(prefix_set(other.elems(), i as int)).contains(x) by {
                    if x != other.elems()[i - 1]@ {
                        assert(prev.contains(x));
                    }
                }
                assert forall|x: Seq<char>| #[trigger] start.union(prefix_set(other.elems(), i as int)).contains(x) implies self.as_set().contains(x) by {
                    if !start.contains(x) {
                        let j = choose|j: int| 0 <= j < i && #[trigger] other.elems()[j]@ == x;
                        if j < i - 1 {
                            assert(prev.contains(x));
                        }
                    }
                }
            }
        }
        assert(self.as_set() =~= start.union(other.as_set()));
    }

    /// Removes every element that `other` holds.
    pub fn remove_all(&mut self, other: &StrSet)
        requires
            old(self).wf(),
        ensures
            final(self).wf(),
            final(self).as_set() == old(self).as_set().difference(other.as_set()),
    {
        let ghost start = self.as_set();
        let mut i: usize = 0;
        while i < other.items.len()
            invariant
                i <= other.elems().len(),
                other.items@ == other.elems(),
                self.wf(),
                self.as_set() == start.difference(prefix_set(other.elems(), i as int)),
            decreases other.items.len() - i,
        {
            let ghost prev = self.as_set();
            self.remove(other.items[i].as_str());
            i = i + 1;
            assert(self.as_set() =~= start.difference(prefix_set(other.elems(), i as int))) by {
                assert forall|x: Seq<char>| #[trigger] start.difference(prefix_set(other.elems(), i as int)).contains(x) implies self.as_set().contains(x) by {
                    assert(x != other.elems()[i - 1]@);
                    assert(prev.contains(x));
                }
                assert forall|x: Seq<char>| #[trigger] self.as_set().contains(x) implies start.difference(prefix_set(other.elems(), i as int)).contains(x) by {
                    assert(prev.contains(x));
                    if exists|j: int| 0 <= j < i && #[trigger] other.elems()[j]@ == x {
                        let j = choose|j: int| 0 <= j < i && #[trigger] other.elems()[j]@ == x;
                        assert(j == i - 1);
                    }
                }
            }
        }
        assert(self.as_set() =~= start.difference(other.as_set()));
    }
}

impl View for StrSet {
    type V = Set<Seq<char>>;

    open spec fn view(&self) -> Set<Seq<char>> {
        self.as_set()
    }
}

} // verus!
