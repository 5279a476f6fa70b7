use vstd::prelude::*;

verus! {

/// True when some entry of `s` has the key `k`.
pub open spec fn has_key<V>(s: Seq<(String, V)>, k: Seq<char>) -> bool {
    exists|i: int| 0 <= i < s.len() && (#[trigger] s[i]).0@ == k
}

/// True when no two entries of `s` share a key.
pub open spec fn keys_unique<V>(s: Seq<(String, V)>) -> bool {
    forall|i: int, j: int|
        0 <= i < s.len() && 0 <= j < s.len() && i != j ==> (#[trigger] s[i]).0@ != (#[trigger] s[j]).0@
}

/// The entries of `other` whose key `original` does not hold, in their order.
pub open spec fn fresh_entries<V>(original: Seq<(String, V)>, other: Seq<(String, V)>) -> Seq<(String, V)> {
    other.filter(|e: (String, V)| !has_key(original, e.0@))
}

/// Union by key where `original` wins: its entries first, unchanged, then the
/// entries of `other` under keys that `original` lacks.
pub open spec fn union_entries<V>(original: Seq<(String, V)>, other: Seq<(String, V)>) -> Seq<(String, V)> {
    original + fresh_entries(original, other)
}

/// The value under `k` in `s` (meaningful where `has_key(s, k)`).
pub open spec fn value_of<V>(s: Seq<(String, V)>, k: Seq<char>) -> V {
    s[choose|i: int| 0 <= i < s.len() && (#[trigger] s[i]).0@ == k].1
}

/// Under unique keys, the value under a key is the one of its entry.
pub proof fn lemma_value_of<V>(s: Seq<(String, V)>, j: int)
    requires
        keys_unique(s),
        0 <= j < s.len(),
    ensures
        value_of(s, s[j].0@) == s[j].1,
{
    let i = choose|i: int| 0 <= i < s.len() && (#[trigger] s[i]).0@ == s[j].0@;
    assert(i == j);
}

/// Every entry of `fresh_entries(a, b)` is an entry of `b`.
pub proof fn lemma_fresh_from<V>(a: Seq<(String, V)>, b: Seq<(String, V)>, i: int)
    requires
        0 <= i < fresh_entries(a, b).len(),
    ensures
        exists|j: int| 0 <= j < b.len() && b[j] == fresh_entries(a, b)[i],
{
    let f = fresh_entries(a, b);
    assert(f.contains(f[i]));
    b.lemma_filter_contains_rev(|e: (String, V)| !has_key(a, e.0@), f[i]);
}

/// The set of keys of `s`.
pub open spec fn key_set<V>(s: Seq<(String, V)>) -> Set<Seq<char>> {
    Set::new(|k: Seq<char>| has_key(s, k))
}

/// A mapping from string keys to values that keeps its keys in insertion
/// order and never holds a key twice.
#[derive(Debug, PartialEq)]
pub struct OrderedMap<V> {
    entries: Vec<(String, V)>,
}

impl<V> View for OrderedMap<V> {
    type V = Seq<(String, V)>;

    closed spec fn view(&self) -> Seq<(String, V)> {
        self.entries@
    }
}

impl<V: Clone> Clone for OrderedMap<V> {
    /// A copy with the same keys in the same order, each value cloned.
    fn clone(&self) -> (r: Self)
        ensures
            r@.len() == self@.len(),
            forall|i: int| 0 <= i < r@.len() ==> (#[trigger] r@[i]).0 == self@[i].0,
    {
        proof { use_type_invariant(self); }
        let mut entries: Vec<(String, V)> = Vec::new();
        let mut i: usize = 0;
        while i < self.entries.len()
            invariant
                i <= self.entries@.len(),
                keys_unique(self.entries@),
                entries@.len() == i,
                forall|j: int| 0 <= j < i ==> (#[trigger] entries@[j]).0 == self.entries@[j].0,
            decreases self.entries@.len() - i,
        {
            let entry = &self.entries[i];
            entries.push((entry.0.clone(), entry.1.clone()));
            i = i + 1;
        }
        proof {
            assert forall|a: int, b: int|
                0 <= a < entries@.len() && 0 <= b < entries@.len() && a != b implies
                (#[trigger] entries@[a]).0@ != (#[trigger] entries@[b]).0@ by {
                assert(self.entries@[a].0@ != self.entries@[b].0@);
            }
        }
        OrderedMap { entries }
    }
}

impl<V> OrderedMap<V> {
    #[verifier::type_invariant]
    spec fn inv(self) -> bool {
        keys_unique(self.entries@)
    }

    pub fn new() -> (r: Self)
        ensures
            r@ == Seq::<(String, V)>::empty(),
    {
        OrderedMap { entries: Vec::new() }
    }

    pub fn len(&self) -> (r: usize)
        ensures
            r == self@.len(),
            keys_unique(self@),
    {
        proof { use_type_invariant(self); }
        self.entries.len()
    }

    pub fn is_empty(&self) -> (r: bool)
        ensures
            r == (self@.len() == 0),
    {
        self.entries.len() == 0
    }

    /// The entry at position `i`.
    pub fn entry(&self, i: usize) -> (r: &(String, V))
        requires
            i < self@.len(),
        ensures
            *r == self@[i as int],
    {
        &self.entries[i]
    }

    /// The position of the entry under `key`, if any.
    pub fn index_of(&self, key: &String) -> (r: Option<usize>)
        ensures
            r is None ==> !has_key(self@, key@),
            r matches Some(i) ==> i < self@.len() && self@[i as int].0@ == key@,
            keys_unique(self@),
    {
        proof { use_type_invariant(self); }
        let mut i: usize = 0;
        while i < self.entries.len()
            invariant
                i <= self.entries@.len(),
                keys_unique(self.entries@),
                forall|j: int| 0 <= j < i ==> (#[trigger] self.entries@[j]).0@ != key@,
            decreases self.entries@.len() - i,
        {
            if self.entries[i].0 == *key {
                return Some(i);
            }
            i = i + 1;
        }
        None
    }

    pub fn contains_key(&self, key: &String) -> (r: bool)
        ensures
            r == has_key(self@, key@),
    {
        self.index_of(key).is_some()
    }

    /// The value under `key`, if any.
    pub fn get(&self, key: &String) -> (r: Option<&V>)
        ensures
            r is None <==> !has_key(self@, key@),
            r matches Some(v) ==> exists|i: int|
                0 <= i < self@.len() && self@[i].0@ == key@ && self@[i].1 == *v,
    {
        match self.index_of(key) {
            Some(i) => Some(&self.entries[i].1),
            None => None,
        }
    }

    /// Stores `value` under `key`: in place of the old value where the key is
    /// present, which is returned, else as a new last entry.
    pub fn insert(&mut self, key: String, value: V) -> (r: Option<V>)
        ensures
            has_key(old(self)@, key@) ==> exists|i: int|
                0 <= i < old(self)@.len() && old(self)@[i].0@ == key@
                    && r == Some(old(self)@[i].1)
                    && final(self)@ == old(self)@.update(i, (old(self)@[i].0, value)),
            !has_key(old(self)@, key@) ==> r is None && final(self)@ == old(self)@.push((key, value)),
    {
        match self.index_of(&key) {
            Some(i) => Some(self.replace_at(i, value)),
            None => {
                proof { use_type_invariant(&*self); }
                let mut entries: Vec<(String, V)> = Vec::new();
                std::mem::swap(&mut entries, &mut self.entries);
                let ghost before = entries@;
                entries.push((key, value));
                proof {
                    assert(keys_unique(entries@)) by {
                        assert forall|a: int, b: int|
                            0 <= a < entries@.len() && 0 <= b < entries@.len() && a != b implies
                            (#[trigger] entries@[a]).0@ != (#[trigger] entries@[b]).0@ by {
                            if a < before.len() && b < before.len() {
                                assert(before[a] == entries@[a]);
                                assert(before[b] == entries@[b]);
                            } else if a < before.len() {
                                assert(before[a] == entries@[a]);
                            } else {
                                assert(before[b] == entries@[b]);
                            }
                        }
                    }
                }
                self.entries = entries;
                None
            },
        }
    }

    /// Puts `value` in place of the value at position `i`, keeping the key,
    /// and returns the value that stood there.
    pub fn replace_at(&mut self, i: usize, value: V) -> (r: V)
        requires
            i < old(self)@.len(),
        ensures
            r == old(self)@[i as int].1,
            final(self)@ == old(self)@.update(i as int, (old(self)@[i as int].0, value)),
    {
        proof { use_type_invariant(&*self); }
        let mut entries: Vec<(String, V)> = Vec::new();
        std::mem::swap(&mut entries, &mut self.entries);
        let ghost before = entries@;
        let old_entry = entries.remove(i);
        let (key, old_value) = old_entry;
        entries.insert(i, (key, value));
        proof {
            assert(entries@ =~= before.update(i as int, (before[i as int].0, value)));
            assert(keys_unique(entries@)) by {
                assert forall|a: int, b: int|
                    0 <= a < entries@.len() && 0 <= b < entries@.len() && a != b implies
                    (#[trigger] entries@[a]).0@ != (#[trigger] entries@[b]).0@ by {
                    assert(before[a].0@ == entries@[a].0@);
                    assert(before[b].0@ == entries@[b].0@);
                }
            }
        }
        self.entries = entries;
        old_value
    }

    /// The entries, in order.
    pub fn into_entries(self) -> (r: Vec<(String, V)>)
        ensures
            r@ == self@,
            keys_unique(r@),
    {
        proof { use_type_invariant(&self); }
        self.entries
    }
}

/// Adds to `original` every entry of `other` whose key it lacks, in the order
/// of `other`; entries under keys that `original` holds are dropped.
pub fn merge_map<V>(original: &mut OrderedMap<V>, other: OrderedMap<V>)
    ensures
        final(original)@ == union_entries(old(original)@, other@),
{
    let ghost start = original@;
    let mut rest = other.into_entries();
    let ghost src = rest@;
    assert(src.len() == rest.len());
    let ghost pred = |e: (String, V)| !has_key(start, e.0@);
    let mut k: usize = 0;
    proof {
        assert(src.take(0).filter(pred) =~= Seq::<(String, V)>::empty()) by {
            reveal(Seq::filter);
        }
        assert(original@ =~= start + src.take(0).filter(pred));
        assert(rest@ =~= src.skip(0));
    }
    while rest.len() > 0
        invariant
            k + rest@.len() == src.len(),
            src.len() <= usize::MAX,
            keys_unique(src),
            rest@ == src.skip(k as int),
            original@ == start + src.take(k as int).filter(pred),
            pred == (|e: (String, V)| !has_key(start, e.0@)),
        decreases rest@.len(),
    {
        let ghost cur = original@;
        let entry = rest.remove(0);
        let (key, value) = entry;
        proof {
            assert(src.take(k + 1) =~= src.take(k as int).push(src[k as int]));
            src.take(k as int).lemma_filter_push(src[k as int], pred);
            assert(rest@ =~= src.skip(k + 1));
            assert(has_key(cur, key@) == has_key(start, key@)) by {
                if has_key(cur, key@) && !has_key(start, key@) {
                    let i = choose|i: int| 0 <= i < cur.len() && (#[trigger] cur[i]).0@ == key@;
                    let f = src.take(k as int).filter(pred);
                    assert(f[i - start.len()] == cur[i]);
                    assert(f.contains(cur[i]));
                    src.take(k as int).lemma_filter_contains_rev(pred, cur[i]);
                    let j = choose|j: int| 0 <= j < k && src.take(k as int)[j] == cur[i];
                    assert(src[j].0@ == src[k as int].0@);
                }
                if has_key(start, key@) {
                    let i = choose|i: int| 0 <= i < start.len() && (#[trigger] start[i]).0@ == key@;
                    assert(cur[i] == start[i]);
                }
            }
        }
        if !original.contains_key(&key) {
            original.insert(key, value);
            proof {
                assert(original@ =~= start + src.take((k + 1) as int).filter(pred));
            }
        } else {
            proof {
                assert(original@ =~= start + src.take((k + 1) as int).filter(pred));
            }
        }
        k = k + 1;
    }
    proof {
        assert(src.take(k as int) =~= src);
    }
}

} // verus!
