//! A map keyed by strings, kept as an insertion-ordered list of entries with
//! distinct keys. Its view is that list of entries, each key by its characters.
use vstd::prelude::*;

verus! {

/// The value stored under `k` in an entry list, if any (the first match).
pub open spec fn lookup<W>(s: Seq<(Seq<char>, W)>, k: Seq<char>) -> Option<W>
    decreases s.len(),
{
    if s.len() == 0 {
        None
    } else if s[0].0 == k {
        Some(s[0].1)
    } else {
        lookup(s.drop_first(), k)
    }
}

/// Position of the first entry with key `k` (meaningful when `lookup` finds one).
pub open spec fn index_of<W>(s: Seq<(Seq<char>, W)>, k: Seq<char>) -> int
    decreases s.len(),
{
    if s.len() == 0 {
        0
    } else if s[0].0 == k {
        0
    } else {
        index_of(s.drop_first(), k) + 1
    }
}

/// No two entries share a key.
pub open spec fn unique_keys<W>(s: Seq<(Seq<char>, W)>) -> bool {
    forall|i: int, j: int| 0 <= i < j < s.len() ==> s[i].0 != s[j].0
}

/// The keys of an entry list, in order.
pub open spec fn keys_of<W>(s: Seq<(Seq<char>, W)>) -> Seq<Seq<char>> {
    s.map_values(|e: (Seq<char>, W)| e.0)
}

pub proof fn lemma_lookup_index<W>(s: Seq<(Seq<char>, W)>, k: Seq<char>)
    ensures
        lookup(s, k) is Some ==> {
            &&& 0 <= index_of(s, k) < s.len()
            &&& s[index_of(s, k)].0 == k
            &&& lookup(s, k) == Some(s[index_of(s, k)].1)
            &&& forall|j: int| 0 <= j < index_of(s, k) ==> s[j].0 != k
        },
        lookup(s, k) is None <==> forall|j: int| 0 <= j < s.len() ==> s[j].0 != k,
    decreases s.len(),
{
    if s.len() > 0 {
        lemma_lookup_index(s.drop_first(), k);
        if s[0].0 != k {
            assert forall|j: int| 0 <= j < s.len() && s[j].0 == k implies lookup(s, k) is Some by {
                assert(s.drop_first()[j - 1] == s[j]);
            }
            if lookup(s, k) is Some {
                assert forall|j: int| 0 <= j < index_of(s, k) implies s[j].0 != k by {
                    if j > 0 {
                        assert(s.drop_first()[j - 1] == s[j]);
                    }
                }
            }
        }
    }
}

/// With distinct keys, the entry at `i` is what `lookup` finds for its key.
pub proof fn lemma_lookup_at<W>(s: Seq<(Seq<char>, W)>, i: int)
    requires
        unique_keys(s),
        0 <= i < s.len(),
    ensures
        lookup(s, s[i].0) == Some(s[i].1),
        index_of(s, s[i].0) == i,
{
    lemma_lookup_index(s, s[i].0);
    let k = s[i].0;
    let m = index_of(s, k);
    if m < i {
    } else if m > i {
    }
}

proof fn lemma_lookup_push<W>(s: Seq<(Seq<char>, W)>, k: Seq<char>, v: W, j: Seq<char>)
    requires
        lookup(s, k) is None,
    ensures
        lookup(s.push((k, v)), j) == if j == k {
            Some(v)
        } else {
            lookup(s, j)
        },
    decreases s.len(),
{
    if s.len() > 0 {
        assert(s.push((k, v)).drop_first() =~= s.drop_first().push((k, v)));
        lemma_lookup_push(s.drop_first(), k, v, j);
    } else {
        assert(s.push((k, v)).drop_first() =~= s);
    }
}

proof fn lemma_lookup_update<W>(s: Seq<(Seq<char>, W)>, i: int, v: W, j: Seq<char>)
    requires
        unique_keys(s),
        0 <= i < s.len(),
    ensures
        lookup(s.update(i, (s[i].0, v)), j) == if j == s[i].0 {
            Some(v)
        } else {
            lookup(s, j)
        },
    decreases s.len(),
{
    if i > 0 {
        assert(s.update(i, (s[i].0, v)).drop_first() =~= s.drop_first().update(
            i - 1,
            (s[i].0, v),
        ));
        assert(s.drop_first()[i - 1] == s[i]);
        lemma_lookup_update(s.drop_first(), i - 1, v, j);
    } else {
        assert(s.update(i, (s[i].0, v)).drop_first() =~= s.drop_first());
        if j == s[0].0 {
        } else {
        }
    }
}

proof fn lemma_lookup_remove<W>(s: Seq<(Seq<char>, W)>, i: int, j: Seq<char>)
    requires
        unique_keys(s),
        0 <= i < s.len(),
    ensures
        lookup(s.remove(i), j) == if j == s[i].0 {
            None
        } else {
            lookup(s, j)
        },
    decreases s.len(),
{
    if i > 0 {
        assert(s.remove(i).drop_first() =~= s.drop_first().remove(i - 1));
        assert(s.drop_first()[i - 1] == s[i]);
        lemma_lookup_remove(s.drop_first(), i - 1, j);
    } else {
        assert(s.remove(0) =~= s.drop_first());
        if j == s[0].0 {
            lemma_lookup_index(s.drop_first(), j);
            assert forall|m: int| 0 <= m < s.drop_first().len() implies s.drop_first()[m].0 != j by {
                assert(s.drop_first()[m] == s[m + 1]);
            }
        }
    }
}

/// The map an entry list stands for.
pub open spec fn as_map<W>(s: Seq<(Seq<char>, W)>) -> Map<Seq<char>, W> {
    Map::new(|k: Seq<char>| lookup(s, k) is Some, |k: Seq<char>| lookup(s, k)->0)
}

/// An entry list that looks up like `old` with `k` set to `v` stands for
/// `as_map(old)` with `k` set to `v`.
pub proof fn lemma_as_map_insert<W>(
    old: Seq<(Seq<char>, W)>,
    new: Seq<(Seq<char>, W)>,
    k: Seq<char>,
    v: W,
)
    requires
        forall|j: Seq<char>|
            #![trigger lookup(new, j)]
            lookup(new, j) == if j == k {
                Some(v)
            } else {
                lookup(old, j)
            },
    ensures
        as_map(new) == as_map(old).insert(k, v),
{
    assert forall|j: Seq<char>| #[trigger] as_map(new).contains_key(j) == as_map(old).insert(
        k,
        v,
    ).contains_key(j) by {
        assert(lookup(new, j) == if j == k {
            Some(v)
        } else {
            lookup(old, j)
        });
    }
    assert(as_map(new) =~= as_map(old).insert(k, v)) by {
        assert forall|j: Seq<char>| as_map(new).contains_key(j) implies #[trigger] as_map(new)[j]
            == as_map(old).insert(k, v)[j] by {
            assert(lookup(new, j) == if j == k {
                Some(v)
            } else {
                lookup(old, j)
            });
        }
    }
}

/// An entry list that looks up like `old` without `k` stands for `as_map(old)`
/// without `k`.
pub proof fn lemma_as_map_remove<W>(old: Seq<(Seq<char>, W)>, new: Seq<(Seq<char>, W)>, k: Seq<char>)
    requires
        forall|j: Seq<char>|
            #![trigger lookup(new, j)]
            lookup(new, j) == if j == k {
                None
            } else {
                lookup(old, j)
            },
    ensures
        as_map(new) == as_map(old).remove(k),
{
    assert forall|j: Seq<char>| #[trigger] as_map(new).contains_key(j) == as_map(old).remove(
        k,
    ).contains_key(j) by {
        assert(lookup(new, j) == if j == k {
            None
        } else {
            lookup(old, j)
        });
    }
    assert(as_map(new) =~= as_map(old).remove(k)) by {
        assert forall|j: Seq<char>| as_map(new).contains_key(j) implies #[trigger] as_map(new)[j]
            == as_map(old).remove(k)[j] by {
            assert(lookup(new, j) == if j == k {
                None
            } else {
                lookup(old, j)
            });
        }
    }
}

/// The map an entry list with distinct keys stands for grows by its last entry.
pub proof fn lemma_as_map_push<W>(s: Seq<(Seq<char>, W)>, e: (Seq<char>, W))
    requires
        lookup(s, e.0) is None,
    ensures
        as_map(s.push(e)) == as_map(s).insert(e.0, e.1),
{
    assert forall|j: Seq<char>| #[trigger] lookup(s.push(e), j) == if j == e.0 {
        Some(e.1)
    } else {
        lookup(s, j)
    } by {
        assert(s.push(e) == s.push((e.0, e.1)));
        lemma_lookup_push(s, e.0, e.1, j);
    }
    lemma_as_map_insert(s, s.push(e), e.0, e.1);
}

/// The empty entry list stands for the empty map.
pub proof fn lemma_as_map_empty<W>()
    ensures
        as_map(Seq::<(Seq<char>, W)>::empty()) == Map::<Seq<char>, W>::empty(),
{
    assert(as_map(Seq::<(Seq<char>, W)>::empty()) =~= Map::<Seq<char>, W>::empty());
}

/// A map from strings to values: entries in insertion order, keys distinct.
#[derive(Debug)]
pub struct StringMap<V: View> {
    entries: Vec<(String, V)>,
}

impl<V: View> View for StringMap<V> {
    type V = Seq<(Seq<char>, V::V)>;

    closed spec fn view(&self) -> Seq<(Seq<char>, V::V)> {
        self.entries@.map_values(|e: (String, V)| (e.0@, e.1@))
    }
}

impl<V: View> StringMap<V> {
    #[verifier::type_invariant]
    closed spec fn distinct(self) -> bool {
        unique_keys(self@)
    }

    /// An empty map.
    pub fn new() -> (m: Self)
        ensures
            m@ == Seq::<(Seq<char>, V::V)>::empty(),
    {
        let m = StringMap { entries: Vec::new() };
        assert(m@ =~= Seq::<(Seq<char>, V::V)>::empty());
        m
    }

    /// Number of entries.
    pub fn len(&self) -> (n: usize)
        ensures
            n == self@.len(),
    {
        self.entries.len()
    }

    /// Whether the map has no entries.
    pub fn is_empty(&self) -> (b: bool)
        ensures
            b == (self@.len() == 0),
    {
        self.entries.len() == 0
    }

    /// Position of `key`, if present.
    pub fn position(&self, key: &str) -> (r: Option<usize>)
        ensures
            match r {
                Some(i) => lookup(self@, key@) is Some && i == index_of(self@, key@) && i
                    < self@.len() && self@[i as int].0 == key@,
                None => lookup(self@, key@) is None,
            },
    {
        proof {
            use_type_invariant(self);
            lemma_lookup_index(self@, key@);
        }
        let k: String = key.to_owned();
        let mut i: usize = 0;
        while i < self.entries.len()
            invariant
                i <= self@.len(),
                self@.len() == self.entries@.len(),
                k@ == key@,
                unique_keys(self@),
                forall|j: int| 0 <= j < i ==> self@[j].0 != key@,
            decreases self@.len() - i,
        {
            assert(self@[i as int].0 == self.entries@[i as int].0@);
            if self.entries[i].0 == k {
                proof {
                    lemma_lookup_at(self@, i as int);
                }
                return Some(i);
            }
            i += 1;
        }
        None
    }

    /// The value stored under `key`.
    pub fn get(&self, key: &str) -> (r: Option<&V>)
        ensures
            match r {
                Some(v) => lookup(self@, key@) == Some(v@),
                None => lookup(self@, key@) is None,
            },
    {
        proof {
            use_type_invariant(self);
        }
        match self.position(key) {
            Some(i) => {
                proof {
                    lemma_lookup_at(self@, i as int);
                    assert(self@[i as int] == (self.entries@[i as int].0@, self.entries@[i as int].1@));
                }
                let r = &self.entries[i].1;
                assert(r@ == self@[i as int].1);
                Some(r)
            },
            None => None,
        }
    }

    /// Whether `key` has an entry.
    pub fn contains_key(&self, key: &str) -> (b: bool)
        ensures
            b == lookup(self@, key@) is Some,
    {
        self.position(key).is_some()
    }

    /// The keys, in entry order.
    pub fn keys(&self) -> (r: Vec<String>)
        ensures
            crate::text::strs(r@) == keys_of(self@),
    {
        let mut r: Vec<String> = Vec::new();
        let mut i: usize = 0;
        while i < self.entries.len()
            invariant
                i <= self@.len(),
                self@.len() == self.entries@.len(),
                crate::text::strs(r@) == keys_of(self@).take(i as int),
            decreases self@.len() - i,
        {
            let ghost before = crate::text::strs(r@);
            r.push(self.entries[i].0.clone());
            assert(self@[i as int].0 == self.entries@[i as int].0@);
            assert(crate::text::strs(r@) =~= before.push(self@[i as int].0));
            assert(keys_of(self@).take(i + 1) =~= keys_of(self@).take(i as int).push(self@[i as int].0));
            i += 1;
        }
        assert(keys_of(self@).take(self@.len() as int) =~= keys_of(self@));
        r
    }

    /// The key and value of the entry at `i`.
    pub fn entry_at(&self, i: usize) -> (r: (&String, &V))
        requires
            i < self@.len(),
        ensures
            r.0@ == self@[i as int].0,
            r.1@ == self@[i as int].1,
            unique_keys(self@),
    {
        proof {
            use_type_invariant(self);
        }
        let e = &self.entries[i];
        (&e.0, &e.1)
    }

    /// Stores `value` under `key`: an existing entry is replaced in place,
    /// otherwise a new entry goes last.
    pub fn insert(&mut self, key: String, value: V)
        ensures
            lookup(old(self)@, key@) is Some ==> final(self)@ == old(self)@.update(
                index_of(old(self)@, key@),
                (key@, value@),
            ),
            lookup(old(self)@, key@) is None ==> final(self)@ == old(self)@.push((key@, value@)),
            forall|j: Seq<char>|
                #![trigger lookup(final(self)@, j)]
                lookup(final(self)@, j) == if j == key@ {
                    Some(value@)
                } else {
                    lookup(old(self)@, j)
                },
    {
        proof {
            use_type_invariant(&*self);
        }
        let ghost s = self@;
        let ghost kv = key@;
        let ghost vv = value@;
        match self.position(key.as_str()) {
            Some(i) => {
                proof {
                    lemma_lookup_at(s, i as int);
                    assert forall|j: Seq<char>| #[trigger]
                        lookup(s.update(i as int, (s[i as int].0, vv)), j) == if j == kv {
                            Some(vv)
                        } else {
                            lookup(s, j)
                        } by {
                        lemma_lookup_update(s, i as int, vv, j);
                    }
                    assert(unique_keys(s.update(i as int, (kv, vv))));
                }
                let mut es: Vec<(String, V)> = Vec::new();
                std::mem::swap(&mut es, &mut self.entries);
                es.set(i, (key, value));
                assert(es@.map_values(|e: (String, V)| (e.0@, e.1@)) =~= s.update(i as int, (kv, vv)));
                self.entries = es;
                assert(self@ =~= s.update(i as int, (kv, vv)));
            },
            None => {
                proof {
                    lemma_lookup_index(s, kv);
                    assert forall|j: Seq<char>| #[trigger]
                        lookup(s.push((kv, vv)), j) == if j == kv {
                            Some(vv)
                        } else {
                            lookup(s, j)
                        } by {
                        lemma_lookup_push(s, kv, vv, j);
                    }
                    assert(unique_keys(s.push((kv, vv))));
                }
                let mut es: Vec<(String, V)> = Vec::new();
                std::mem::swap(&mut es, &mut self.entries);
                es.push((key, value));
                assert(es@.map_values(|e: (String, V)| (e.0@, e.1@)) =~= s.push((kv, vv)));
                self.entries = es;
                assert(self@ =~= s.push((kv, vv)));
            },
        }
    }

    /// Takes out the entry for `key`, if present.
    pub fn remove(&mut self, key: &str) -> (r: Option<V>)
        ensures
            match r {
                Some(v) => {
                    &&& lookup(old(self)@, key@) == Some(v@)
                    &&& final(self)@ == old(self)@.remove(index_of(old(self)@, key@))
                },
                None => lookup(old(self)@, key@) is None && final(self)@ == old(self)@,
            },
            forall|j: Seq<char>|
                #![trigger lookup(final(self)@, j)]
                lookup(final(self)@, j) == if j == key@ {
                    None
                } else {
                    lookup(old(self)@, j)
                },
    {
        proof {
            use_type_invariant(&*self);
        }
        let ghost s = self@;
        match self.position(key) {
            Some(i) => {
                proof {
                    lemma_lookup_at(s, i as int);
                    assert forall|j: Seq<char>| #[trigger]
                        lookup(s.remove(i as int), j) == if j == key@ {
                            None
                        } else {
                            lookup(s, j)
                        } by {
                        lemma_lookup_remove(s, i as int, j);
                    }
                    assert forall|a: int, b: int|
                        0 <= a < b < s.remove(i as int).len() implies s.remove(i as int)[a].0
                        != s.remove(i as int)[b].0 by {
                        let aa = if a < i { a } else { a + 1 };
                        let bb = if b < i { b } else { b + 1 };
                        assert(s.remove(i as int)[a] == s[aa]);
                        assert(s.remove(i as int)[b] == s[bb]);
                    }
                }
                let mut es: Vec<(String, V)> = Vec::new();
                std::mem::swap(&mut es, &mut self.entries);
                let e = es.remove(i);
                assert(es@.map_values(|e: (String, V)| (e.0@, e.1@)) =~= s.remove(i as int));
                self.entries = es;
                assert(self@ =~= s.remove(i as int));
                Some(e.1)
            },
            None => None,
        }
    }
}

} // verus!
