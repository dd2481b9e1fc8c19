//! A map keyed by strings, kept as a list of entries with distinct keys.
use vstd::prelude::*;
use crate::text::text_eq;

verus! {

/// No key occurs twice in `p`.
pub open spec fn distinct_keys<V>(p: Seq<(Seq<char>, V)>) -> bool {
    forall|i: int, j: int| 0 <= i < p.len() && 0 <= j < p.len() && i != j ==> p[i].0 != p[j].0
}

/// The map that the entries `p` describe, later entries over earlier ones.
pub open spec fn pairs_to_map<V>(p: Seq<(Seq<char>, V)>) -> Map<Seq<char>, V>
    decreases p.len(),
{
    if p.len() == 0 {
        Map::empty()
    } else {
        pairs_to_map(p.drop_last()).insert(p.last().0, p.last().1)
    }
}

/// A key is in the map of `p` exactly when some entry of `p` has it.
pub proof fn lemma_pairs_to_map_contains<V>(p: Seq<(Seq<char>, V)>, k: Seq<char>)
    ensures
        pairs_to_map(p).contains_key(k) <==> exists|i: int| 0 <= i < p.len() && #[trigger] p[i].0 == k,
    decreases p.len(),
{
    if p.len() > 0 {
        lemma_pairs_to_map_contains(p.drop_last(), k);
        if pairs_to_map(p.drop_last()).contains_key(k) {
            let i = choose|i: int| 0 <= i < p.drop_last().len() && #[trigger] p.drop_last()[i].0 == k;
            assert(p[i].0 == k);
        }
        if exists|i: int| 0 <= i < p.len() && #[trigger] p[i].0 == k {
            let i = choose|i: int| 0 <= i < p.len() && #[trigger] p[i].0 == k;
            if i < p.len() - 1 {
                assert(p.drop_last()[i].0 == k);
            }
        }
    }
}

/// With distinct keys, the map of `p` sends the key of each entry to its value.
pub proof fn lemma_pairs_to_map_index<V>(p: Seq<(Seq<char>, V)>, i: int)
    requires
        distinct_keys(p),
        0 <= i < p.len(),
    ensures
        pairs_to_map(p).contains_key(p[i].0),
        pairs_to_map(p)[p[i].0] == p[i].1,
    decreases p.len(),
{
    if i < p.len() - 1 {
        assert(distinct_keys(p.drop_last()));
        assert(p.drop_last()[i] == p[i]);
        lemma_pairs_to_map_index(p.drop_last(), i);
        assert(p.last().0 != p[i].0);
    }
}

/// With distinct keys, the map of `p` has as many keys as `p` has entries.
pub proof fn lemma_pairs_to_map_len<V>(p: Seq<(Seq<char>, V)>)
    requires
        distinct_keys(p),
    ensures
        pairs_to_map(p).dom().finite(),
        pairs_to_map(p).len() == p.len(),
    decreases p.len(),
{
    if p.len() > 0 {
        let q = p.drop_last();
        assert(distinct_keys(q));
        lemma_pairs_to_map_len(q);
        lemma_pairs_to_map_contains(q, p.last().0);
        if pairs_to_map(q).contains_key(p.last().0) {
            let i = choose|i: int| 0 <= i < q.len() && #[trigger] q[i].0 == p.last().0;
            assert(p[i].0 == p[p.len() - 1].0);
        }
    }
}

/// Removing an entry of `p` removes its key from the map.
pub proof fn lemma_pairs_to_map_remove<V>(p: Seq<(Seq<char>, V)>, i: int)
    requires
        distinct_keys(p),
        0 <= i < p.len(),
    ensures
        distinct_keys(p.remove(i)),
        pairs_to_map(p.remove(i)) == pairs_to_map(p).remove(p[i].0),
{
    let q = p.remove(i);
    let k = p[i].0;
    assert forall|a: int, b: int| 0 <= a < q.len() && 0 <= b < q.len() && a != b implies q[a].0
        != q[b].0 by {
        let a2 = if a < i { a } else { a + 1 };
        let b2 = if b < i { b } else { b + 1 };
        assert(q[a] == p[a2]);
        assert(q[b] == p[b2]);
    }
    assert forall|key: Seq<char>| #[trigger] pairs_to_map(q).contains_key(key) <==> pairs_to_map(
        p,
    ).remove(k).contains_key(key) by {
        lemma_pairs_to_map_contains(q, key);
        lemma_pairs_to_map_contains(p, key);
        if exists|j: int| 0 <= j < q.len() && #[trigger] q[j].0 == key {
            let j = choose|j: int| 0 <= j < q.len() && #[trigger] q[j].0 == key;
            let j2 = if j < i { j } else { j + 1 };
            assert(q[j] == p[j2]);
            assert(p[j2].0 == key);
        }
        if exists|j: int| 0 <= j < p.len() && #[trigger] p[j].0 == key {
            let j = choose|j: int| 0 <= j < p.len() && #[trigger] p[j].0 == key;
            if key != k {
                assert(j != i);
                let j2 = if j < i { j } else { j - 1 };
                assert(q[j2] == p[j]);
            }
        }
    }
    assert forall|key: Seq<char>| #[trigger] pairs_to_map(q).contains_key(key) implies pairs_to_map(
        q,
    )[key] == pairs_to_map(p)[key] by {
        lemma_pairs_to_map_contains(q, key);
        let j = choose|j: int| 0 <= j < q.len() && #[trigger] q[j].0 == key;
        let j2 = if j < i { j } else { j + 1 };
        assert(q[j] == p[j2]);
        lemma_pairs_to_map_index(q, j);
        lemma_pairs_to_map_index(p, j2);
    }
    assert(pairs_to_map(q) =~= pairs_to_map(p).remove(k));
}

/// The view of a list of string-keyed entries as entries of character sequences.
pub open spec fn entries_view<V>(e: Seq<(String, V)>) -> Seq<(Seq<char>, V)> {
    e.map_values(|x: (String, V)| (x.0@, x.1))
}

/// A map keyed by strings. No key occurs twice among its entries; the order of
/// the entries is the order in which they were inserted.
pub struct StrMap<V> {
    entries: Vec<(String, V)>,
}

impl<V> StrMap<V> {
    #[verifier::type_invariant]
    spec fn keys_are_distinct(self) -> bool {
        distinct_keys(entries_view(self.entries@))
    }

    /// The entries of the map, in the order in which they were inserted.
    pub closed spec fn pairs(self) -> Seq<(Seq<char>, V)> {
        entries_view(self.entries@)
    }

    /// An empty map.
    pub fn new() -> (r: Self)
        ensures
            r@ == Map::<Seq<char>, V>::empty(),
            r.pairs().len() == 0,
    {
        let r = StrMap { entries: Vec::new() };
        assert(r.pairs() =~= Seq::<(Seq<char>, V)>::empty());
        r
    }

    /// The number of entries; the entries have distinct keys and describe the map.
    pub fn len(&self) -> (r: usize)
        ensures
            r == self.pairs().len(),
            r == self@.len(),
            self@.dom().finite(),
            distinct_keys(self.pairs()),
    {
        proof {
            use_type_invariant(self);
            lemma_pairs_to_map_len(self.pairs());
        }
        self.entries.len()
    }

    /// The key of the `i`-th entry.
    pub fn key_at(&self, i: usize) -> (r: &String)
        requires
            i < self.pairs().len(),
        ensures
            r@ == self.pairs()[i as int].0,
    {
        &self.entries[i].0
    }

    /// The value of the `i`-th entry.
    pub fn value_at(&self, i: usize) -> (r: &V)
        requires
            i < self.pairs().len(),
        ensures
            *r == self.pairs()[i as int].1,
    {
        &self.entries[i].1
    }

    /// The index of the entry with key `key`, if there is one.
    pub fn find(&self, key: &str) -> (r: Option<usize>)
        ensures
            match r {
                Some(i) => i < self.pairs().len() && self.pairs()[i as int].0 == key@,
                None => !self@.contains_key(key@),
            },
    {
        proof {
            use_type_invariant(self);
        }
        let n = self.entries.len();
        let mut i: usize = 0;
        while i < n
            invariant
                n == self.pairs().len(),
                i <= n,
                forall|j: int| 0 <= j < i ==> #[trigger] self.pairs()[j].0 != key@,
            decreases n - i,
        {
            if text_eq(self.entries[i].0.as_str(), key) {
                return Some(i);
            }
            i = i + 1;
        }
        proof {
            lemma_pairs_to_map_contains(self.pairs(), key@);
        }
        None
    }

    /// The value under `key`, if there is one.
    pub fn get(&self, key: &str) -> (r: Option<&V>)
        ensures
            match r {
                Some(v) => self@.contains_key(key@) && *v == self@[key@],
                None => !self@.contains_key(key@),
            },
    {
        proof {
            use_type_invariant(self);
        }
        match self.find(key) {
            Some(i) => {
                proof {
                    lemma_pairs_to_map_index(self.pairs(), i as int);
                }
                Some(&self.entries[i].1)
            },
            None => None,
        }
    }

    /// Removes the entry under `key`, and returns its value if there was one.
    pub fn remove(&mut self, key: &str) -> (r: Option<V>)
        ensures
            final(self)@ == old(self)@.remove(key@),
            match r {
                Some(v) => old(self)@.contains_key(key@) && v == old(self)@[key@],
                None => !old(self)@.contains_key(key@),
            },
    {
        proof {
            use_type_invariant(&*self);
        }
        match self.find(key) {
            Some(i) => {
                let mut entries: Vec<(String, V)> = Vec::new();
                std::mem::swap(&mut entries, &mut self.entries);
                let ghost before = entries@;
                let (_, v) = entries.remove(i);
                proof {
                    lemma_pairs_to_map_index(entries_view(before), i as int);
                    lemma_pairs_to_map_remove(entries_view(before), i as int);
                    assert(entries_view(entries@) =~= entries_view(before).remove(i as int));
                }
                self.entries = entries;
                Some(v)
            },
            None => {
                assert(old(self)@.remove(key@) =~= old(self)@);
                None
            },
        }
    }

    /// Puts `value` under `key`, in place of any value that was there.
    pub fn insert(&mut self, key: String, value: V)
        ensures
            final(self)@ == old(self)@.insert(key@, value),
    {
        let _ = self.remove(key.as_str());
        proof {
            use_type_invariant(&*self);
            lemma_pairs_to_map_contains(self.pairs(), key@);
        }
        let mut entries: Vec<(String, V)> = Vec::new();
        std::mem::swap(&mut entries, &mut self.entries);
        let ghost before = entries@;
        let ghost k = key@;
        entries.push((key, value));
        proof {
            let p = entries_view(entries@);
            assert(p =~= entries_view(before).push((k, value)));
            assert(p.drop_last() =~= entries_view(before));
            assert forall|a: int, b: int| 0 <= a < p.len() && 0 <= b < p.len() && a != b implies p[a].0
                != p[b].0 by {
                if a == p.len() - 1 {
                    assert(p[b] == entries_view(before)[b]);
                } else if b == p.len() - 1 {
                    assert(p[a] == entries_view(before)[a]);
                } else {
                    assert(p[a] == entries_view(before)[a]);
                    assert(p[b] == entries_view(before)[b]);
                }
            }
        }
        self.entries = entries;
        assert(self@ =~= old(self)@.insert(k, value));
    }

    /// The entries of the map, with distinct keys, in the order of insertion.
    pub fn into_entries(self) -> (r: Vec<(String, V)>)
        ensures
            entries_view(r@) == self.pairs(),
            distinct_keys(entries_view(r@)),
            pairs_to_map(entries_view(r@)) == self@,
    {
        proof {
            use_type_invariant(&self);
        }
        self.entries
    }
}

impl<V> View for StrMap<V> {
    type V = Map<Seq<char>, V>;

    open spec fn view(&self) -> Map<Seq<char>, V> {
        pairs_to_map(self.pairs())
    }
}

} // verus!
