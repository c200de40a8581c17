//! The shared store's data: a vector of key/value pairs with pairwise
//! distinct keys.  Specifications view it as a sequence of character-sequence
//! pairs, and derive from that sequence the mapping it represents.

use vstd::prelude::*;

verus! {

/// The specification-level content of a store: key/value pairs in insertion
/// order.
pub type Pairs = Seq<(Seq<char>, Seq<char>)>;

/// No key occurs twice.
pub open spec fn unique_keys(ps: Pairs) -> bool {
    forall|i: int, j: int| 0 <= i < j < ps.len() ==> ps[i].0 != ps[j].0
}

/// Some pair carries the key `k`.
pub open spec fn has_key(ps: Pairs, k: Seq<char>) -> bool {
    exists|i: int| 0 <= i < ps.len() && ps[i].0 == k
}

/// Index of the first pair carrying the key `k` (meaningful only when
/// `has_key(ps, k)`).
pub open spec fn first_key_index(ps: Pairs, k: Seq<char>) -> int
    decreases ps.len(),
{
    if ps.len() == 0 {
        0
    } else if ps[0].0 == k {
        0
    } else {
        1 + first_key_index(ps.drop_first(), k)
    }
}

/// The value stored under `k`, if any.
pub open spec fn lookup(ps: Pairs, k: Seq<char>) -> Option<Seq<char>> {
    if has_key(ps, k) {
        Some(ps[first_key_index(ps, k)].1)
    } else {
        None
    }
}

/// Insert or overwrite: replace the first pair carrying `k`, or append a new
/// pair at the end.
pub open spec fn upsert(ps: Pairs, k: Seq<char>, v: Seq<char>) -> Pairs {
    if has_key(ps, k) {
        ps.update(first_key_index(ps, k), (k, v))
    } else {
        ps.push((k, v))
    }
}

/// Remove the first pair carrying `k`; removing an absent key changes
/// nothing.
pub open spec fn remove_key(ps: Pairs, k: Seq<char>) -> Pairs {
    if has_key(ps, k) {
        ps.remove(first_key_index(ps, k))
    } else {
        ps
    }
}

/// The mapping a pair sequence represents; on a duplicate key the earliest
/// pair wins, so under `unique_keys` every pair is visible.
pub open spec fn as_map(ps: Pairs) -> Map<Seq<char>, Seq<char>>
    decreases ps.len(),
{
    if ps.len() == 0 {
        Map::empty()
    } else {
        as_map(ps.drop_first()).insert(ps[0].0, ps[0].1)
    }
}

/// `first_key_index` points at the first pair carrying `k`.
pub proof fn lemma_first_key_index(ps: Pairs, k: Seq<char>)
    requires
        has_key(ps, k),
    ensures
        0 <= first_key_index(ps, k) < ps.len(),
        ps[first_key_index(ps, k)].0 == k,
        forall|j: int| 0 <= j < first_key_index(ps, k) ==> ps[j].0 != k,
    decreases ps.len(),
{
    if ps.len() == 0 {
    } else if ps[0].0 == k {
    } else {
        let rest = ps.drop_first();
        assert(has_key(rest, k)) by {
            let i = choose|i: int| 0 <= i < ps.len() && ps[i].0 == k;
            assert(rest[i - 1] == ps[i]);
        }
        lemma_first_key_index(rest, k);
        assert forall|j: int| 0 <= j < first_key_index(ps, k) implies ps[j].0 != k by {
            if j > 0 {
                assert(ps[j] == rest[j - 1]);
            }
        }
    }
}

/// A key is in the represented mapping exactly when some pair carries it.
pub proof fn lemma_as_map_dom(ps: Pairs, k: Seq<char>)
    ensures
        as_map(ps).contains_key(k) <==> has_key(ps, k),
    decreases ps.len(),
{
    if ps.len() == 0 {
    } else {
        let rest = ps.drop_first();
        lemma_as_map_dom(rest, k);
        if ps[0].0 == k {
        } else if has_key(rest, k) {
            let i = choose|i: int| 0 <= i < rest.len() && rest[i].0 == k;
            assert(ps[i + 1] == rest[i]);
        } else if has_key(ps, k) {
            let i = choose|i: int| 0 <= i < ps.len() && ps[i].0 == k;
            assert(rest[i - 1] == ps[i]);
        }
    }
}

/// The represented mapping has a finite domain.
pub proof fn lemma_as_map_finite(ps: Pairs)
    ensures
        as_map(ps).dom().finite(),
    decreases ps.len(),
{
    if ps.len() == 0 {
        assert(as_map(ps).dom() =~= Set::<Seq<char>>::empty());
    } else {
        lemma_as_map_finite(ps.drop_first());
    }
}

/// The represented mapping agrees with `lookup`.
pub proof fn lemma_lookup_as_map(ps: Pairs, k: Seq<char>)
    ensures
        lookup(ps, k) matches Some(v) ==> as_map(ps).contains_key(k) && as_map(ps)[k] == v,
        lookup(ps, k) is None ==> !as_map(ps).contains_key(k),
    decreases ps.len(),
{
    lemma_as_map_dom(ps, k);
    if has_key(ps, k) {
        lemma_first_key_index(ps, k);
        if ps[0].0 == k {
        } else {
            let rest = ps.drop_first();
            assert(has_key(rest, k)) by {
                let i = choose|i: int| 0 <= i < ps.len() && ps[i].0 == k;
                assert(rest[i - 1] == ps[i]);
            }
            lemma_lookup_as_map(rest, k);
            lemma_first_key_index(rest, k);
            assert(ps[first_key_index(ps, k)] == rest[first_key_index(rest, k)]);
        }
    }
}

/// `upsert` keeps keys pairwise distinct and acts on the represented mapping
/// as `Map::insert`.
pub proof fn lemma_upsert(ps: Pairs, k: Seq<char>, v: Seq<char>)
    requires
        unique_keys(ps),
    ensures
        unique_keys(upsert(ps, k, v)),
        as_map(upsert(ps, k, v)) == as_map(ps).insert(k, v),
    decreases ps.len(),
{
    if has_key(ps, k) {
        lemma_first_key_index(ps, k);
        let i = first_key_index(ps, k);
        assert forall|a: int, b: int| 0 <= a < b < upsert(ps, k, v).len()
            implies upsert(ps, k, v)[a].0 != upsert(ps, k, v)[b].0 by {
            assert(ps[a].0 != ps[b].0);
        }
        lemma_as_map_update(ps, i, k, v);
    } else {
        let qs = ps.push((k, v));
        assert forall|a: int, b: int| 0 <= a < b < qs.len() implies qs[a].0 != qs[b].0 by {
            if b == ps.len() {
                assert(!(0 <= a < ps.len() && ps[a].0 == k));
            }
        }
        lemma_as_map_push(ps, k, v);
    }
}

/// Appending a pair with a fresh key inserts that key into the represented
/// mapping.
proof fn lemma_as_map_push(ps: Pairs, k: Seq<char>, v: Seq<char>)
    requires
        !has_key(ps, k),
    ensures
        as_map(ps.push((k, v))) == as_map(ps).insert(k, v),
    decreases ps.len(),
{
    let qs = ps.push((k, v));
    if ps.len() == 0 {
        reveal_with_fuel(as_map, 2);
        assert(qs[0] == (k, v));
        assert(qs.drop_first() =~= Seq::<(Seq<char>, Seq<char>)>::empty());
        assert(as_map(qs) =~= as_map(ps).insert(k, v));
    } else {
        let rest = ps.drop_first();
        assert(qs[0] == ps[0]);
        assert(qs.drop_first() =~= rest.push((k, v)));
        assert(!has_key(rest, k)) by {
            if has_key(rest, k) {
                let i = choose|i: int| 0 <= i < rest.len() && rest[i].0 == k;
                assert(ps[i + 1] == rest[i]);
            }
        }
        lemma_as_map_push(rest, k, v);
        assert(!(0 <= 0 < ps.len() && ps[0].0 == k));
        assert(as_map(qs) =~= as_map(ps).insert(k, v));
    }
}

/// Overwriting the pair that carries `k` updates the represented mapping at
/// `k` alone.
proof fn lemma_as_map_update(ps: Pairs, i: int, k: Seq<char>, v: Seq<char>)
    requires
        0 <= i < ps.len(),
        ps[i].0 == k,
        forall|a: int, b: int| 0 <= a < b < ps.len() ==> ps[a].0 != ps[b].0,
    ensures
        as_map(ps.update(i, (k, v))) == as_map(ps).insert(k, v),
    decreases ps.len(),
{
    let qs = ps.update(i, (k, v));
    if i == 0 {
        assert(qs.drop_first() =~= ps.drop_first());
        assert(as_map(qs) =~= as_map(ps).insert(k, v));
    } else {
        assert(qs.drop_first() =~= ps.drop_first().update(i - 1, (k, v)));
        assert(ps.drop_first()[i - 1].0 == k);
        assert forall|a: int, b: int| 0 <= a < b < ps.drop_first().len()
            implies ps.drop_first()[a].0 != ps.drop_first()[b].0 by {
            assert(ps[a + 1].0 != ps[b + 1].0);
        }
        lemma_as_map_update(ps.drop_first(), i - 1, k, v);
        assert(ps[0].0 != k);
        assert(as_map(qs) =~= as_map(ps).insert(k, v));
    }
}

/// `remove_key` keeps keys pairwise distinct and acts on the represented
/// mapping as `Map::remove`; an absent key leaves the sequence untouched.
pub proof fn lemma_remove_key(ps: Pairs, k: Seq<char>)
    requires
        unique_keys(ps),
    ensures
        unique_keys(remove_key(ps, k)),
        as_map(remove_key(ps, k)) == as_map(ps).remove(k),
        !has_key(ps, k) ==> remove_key(ps, k) == ps,
    decreases ps.len(),
{
    if has_key(ps, k) {
        lemma_first_key_index(ps, k);
        let i = first_key_index(ps, k);
        let qs = ps.remove(i);
        assert forall|a: int, b: int| 0 <= a < b < qs.len() implies qs[a].0 != qs[b].0 by {
            let a0: int = if a < i { a } else { a + 1 };
            let b0: int = if b < i { b } else { b + 1 };
            assert(qs[a] == ps[a0]);
            assert(qs[b] == ps[b0]);
        }
        lemma_as_map_remove_at(ps, i, k);
    } else {
        lemma_as_map_dom(ps, k);
        assert(as_map(ps) =~= as_map(ps).remove(k));
    }
}

/// Removing the pair that carries `k` removes `k` from the represented
/// mapping.
proof fn lemma_as_map_remove_at(ps: Pairs, i: int, k: Seq<char>)
    requires
        0 <= i < ps.len(),
        ps[i].0 == k,
        forall|a: int, b: int| 0 <= a < b < ps.len() ==> ps[a].0 != ps[b].0,
    ensures
        as_map(ps.remove(i)) == as_map(ps).remove(k),
    decreases ps.len(),
{
    let qs = ps.remove(i);
    if i == 0 {
        assert(qs =~= ps.drop_first());
        assert(!has_key(qs, k)) by {
            if has_key(qs, k) {
                let j = choose|j: int| 0 <= j < qs.len() && qs[j].0 == k;
                assert(ps[j + 1].0 == ps[0].0);
            }
        }
        lemma_as_map_dom(qs, k);
        assert(as_map(qs) =~= as_map(ps).remove(k));
    } else {
        assert(qs.drop_first() =~= ps.drop_first().remove(i - 1));
        assert(ps.drop_first()[i - 1].0 == k);
        assert forall|a: int, b: int| 0 <= a < b < ps.drop_first().len()
            implies ps.drop_first()[a].0 != ps.drop_first()[b].0 by {
            assert(ps[a + 1].0 != ps[b + 1].0);
        }
        lemma_as_map_remove_at(ps.drop_first(), i - 1, k);
        assert(ps[0].0 != k);
        assert(as_map(qs) =~= as_map(ps).remove(k));
    }
}

/// The in-memory store: key/value pairs in insertion order, keys pairwise
/// distinct.
pub struct Store {
    pub pairs: Vec<(String, String)>,
}

impl View for Store {
    type V = Pairs;

    open spec fn view(&self) -> Pairs {
        self.pairs.deep_view()
    }
}

impl Store {
    /// The store's invariant: no key occurs twice.
    pub open spec fn wf(&self) -> bool {
        unique_keys(self@)
    }

    /// An empty store.
    pub fn new() -> (s: Store)
        ensures
            s@ =~= Seq::<(Seq<char>, Seq<char>)>::empty(),
            s.wf(),
    {
        let s = Store { pairs: Vec::new() };
        proof {
            assert(s@ =~= Seq::<(Seq<char>, Seq<char>)>::empty());
        }
        s
    }

    /// Position of the first pair carrying `key`, if any.
    fn key_index(&self, key: &String) -> (r: Option<usize>)
        ensures
            match r {
                Some(i) => has_key(self@, key@) && i == first_key_index(self@, key@),
                None => !has_key(self@, key@),
            },
    {
        let n = self.pairs.len();
        let mut i: usize = 0;
        while i < n
            invariant
                n == self.pairs.len(),
                i <= n,
                forall|j: int| 0 <= j < i ==> self@[j].0 != key@,
            decreases n - i,
        {
            if self.pairs[i].0 == *key {
                proof {
                    assert(self@[i as int].0 == key@);
                    lemma_first_key_index(self@, key@);
                    assert forall|j: int| 0 <= j < self@.len() && self@[j].0 == key@
                        implies j >= i by {}
                    assert(first_key_index(self@, key@) == i as int) by {
                        let f = first_key_index(self@, key@);
                        assert(self@[f].0 == key@);
                    }
                }
                return Some(i);
            }
            i += 1;
        }
        proof {
            if has_key(self@, key@) {
                let j = choose|j: int| 0 <= j < self@.len() && self@[j].0 == key@;
                assert(self@[j].0 != key@);
            }
        }
        None
    }

    /// The value stored under `key`, if any, as a fresh string.
    pub fn get(&self, key: &String) -> (r: Option<String>)
        ensures
            r.deep_view() == lookup(self@, key@),
    {
        match self.key_index(key) {
            Some(i) => {
                proof {
                    lemma_first_key_index(self@, key@);
                }
                Some(self.pairs[i].1.clone())
            },
            None => None,
        }
    }

    /// Insert `key -> value`, overwriting any pair that already carries
    /// `key`.
    pub fn insert(&mut self, key: String, value: String)
        requires
            old(self).wf(),
        ensures
            final(self)@ == upsert(old(self)@, key@, value@),
            final(self).wf(),
    {
        proof {
            lemma_upsert(old(self)@, key@, value@);
        }
        match self.key_index(&key) {
            Some(i) => {
                proof {
                    lemma_first_key_index(self@, key@);
                }
                self.pairs[i] = (key, value);
                proof {
                    assert(self@ =~= upsert(old(self)@, key@, value@));
                }
            },
            None => {
                self.pairs.push((key, value));
                proof {
                    assert(self@ =~= upsert(old(self)@, key@, value@));
                }
            },
        }
    }

    /// Remove the pair carrying `key`; removing an absent key changes
    /// nothing.
    pub fn remove(&mut self, key: &String)
        requires
            old(self).wf(),
        ensures
            final(self)@ == remove_key(old(self)@, key@),
            final(self).wf(),
    {
        proof {
            lemma_remove_key(old(self)@, key@);
        }
        match self.key_index(key) {
            Some(i) => {
                proof {
                    lemma_first_key_index(self@, key@);
                }
                self.pairs.remove(i);
                proof {
                    assert(self@ =~= remove_key(old(self)@, key@));
                }
            },
            None => {},
        }
    }

    /// Empty the store.
    pub fn clear(&mut self)
        ensures
            final(self)@ =~= Seq::<(Seq<char>, Seq<char>)>::empty(),
            final(self).wf(),
    {
        self.pairs.clear();
        proof {
            assert(self@ =~= Seq::<(Seq<char>, Seq<char>)>::empty());
        }
    }

    /// How many pairs the store holds.
    pub fn len(&self) -> (n: usize)
        ensures
            n == self@.len(),
    {
        self.pairs.len()
    }
}

} // verus!
