//! The extension carrier: vendor-specific fields of an entity, held in an
//! `indexmap::IndexMap` from field name to structured value.
use vstd::prelude::*;

use crate::map::{has_key, keys_unique, union_entries};

verus! {

/// A structured value of any shape, as the wire form carries it.
#[verifier::external_type_specification]
#[verifier::external_body]
pub struct ExValue(serde_json::Value);

#[verifier::external_type_specification]
#[verifier::external_body]
#[verifier::reject_recursive_types(K)]
#[verifier::reject_recursive_types(V)]
#[verifier::reject_recursive_types(S)]
pub struct ExIndexMap<K, V, S>(indexmap::IndexMap<K, V, S>);

/// Relies on `IndexMap`'s `Clone`, which the entities' derived `Clone` calls;
/// nothing is claimed of the copy.
pub assume_specification<K, V, S>[ <indexmap::IndexMap<K, V, S> as core::clone::Clone>::clone ](
    m: &indexmap::IndexMap<K, V, S>,
) -> indexmap::IndexMap<K, V, S>
    where
        K: core::clone::Clone,
        V: core::clone::Clone,
        S: core::clone::Clone,
;

/// Vendor-specific fields of an entity, by name, in insertion order.
pub type Extensions = indexmap::IndexMap<String, serde_json::Value>;

/// The entries of an extension carrier, in order.
pub uninterp spec fn extension_entries(m: Extensions) -> Seq<(String, serde_json::Value)>;

/// Relies on `IndexMap::new`: the map starts empty.
#[verifier::external_body]
pub fn new_extensions() -> (r: Extensions)
    ensures
        extension_entries(r).len() == 0,
{
    indexmap::IndexMap::new()
}

/// Relies on `IndexMap::len`: the number of entries.
#[verifier::external_body]
pub(crate) fn extensions_len(m: &Extensions) -> (r: usize)
    ensures
        r == extension_entries(*m).len(),
{
    m.len()
}

/// Relies on `IndexMap::contains_key`: whether an entry has the key.
#[verifier::external_body]
pub(crate) fn extensions_contain(m: &Extensions, key: &String) -> (r: bool)
    ensures
        r == has_key(extension_entries(*m), key@),
{
    m.contains_key(key)
}

/// Relies on `IndexMap::insert`: a present key keeps its place and takes the
/// new value; a new key is appended last.
#[verifier::external_body]
pub(crate) fn extensions_insert(m: &mut Extensions, key: String, value: serde_json::Value) -> (r: Option<serde_json::Value>)
    ensures
        has_key(extension_entries(*old(m)), key@) ==> exists|i: int|
            0 <= i < extension_entries(*old(m)).len() && extension_entries(*old(m))[i].0@ == key@
                && r == Some(extension_entries(*old(m))[i].1)
                && extension_entries(*final(m)) == extension_entries(*old(m)).update(i, (extension_entries(*old(m))[i].0, value)),
        !has_key(extension_entries(*old(m)), key@) ==> r is None
            && extension_entries(*final(m)) == extension_entries(*old(m)).push((key, value)),
{
    m.insert(key, value)
}

/// Relies on `IndexMap`'s `IntoIterator`: the entries in order, under
/// unique keys.
#[verifier::external_body]
pub(crate) fn extensions_into_entries(m: Extensions) -> (r: Vec<(String, serde_json::Value)>)
    ensures
        r@ == extension_entries(m),
        keys_unique(r@),
{
    m.into_iter().collect()
}

/// Adds to `original` every field of `other` whose name it lacks, in the
/// order of `other`; fields under names that `original` holds are dropped.
pub fn merge_extensions(original: &mut Extensions, other: Extensions)
    ensures
        extension_entries(*final(original)) == union_entries(extension_entries(*old(original)), extension_entries(other)),
{
    let ghost start = extension_entries(*original);
    let mut rest = extensions_into_entries(other);
    let ghost src = rest@;
    assert(src.len() == rest.len());
    let ghost pred = |e: (String, serde_json::Value)| !has_key(start, e.0@);
    let mut k: usize = 0;
    proof {
        assert(src.take(0).filter(pred) =~= Seq::<(String, serde_json::Value)>::empty()) by {
            reveal(Seq::filter);
        }
        assert(extension_entries(*original) =~= start + src.take(0).filter(pred));
        assert(rest@ =~= src.skip(0));
    }
    while rest.len() > 0
        invariant
            k + rest@.len() == src.len(),
            src.len() <= usize::MAX,
            keys_unique(src),
            rest@ == src.skip(k as int),
            extension_entries(*original) == start + src.take(k as int).filter(pred),
            pred == (|e: (String, serde_json::Value)| !has_key(start, e.0@)),
        decreases rest@.len(),
    {
        let ghost cur = extension_entries(*original);
        let entry = rest.remove(0);
        let (key, value) = entry;
        proof {
            assert(src.take(k + 1) =~= src.take(k as int).push(src[k as int]));
            src.take(k as int).lemma_filter_push(src[k as int], pred);
            assert(rest@ =~= src.skip(k + 1));
            assert(has_key(cur, key@) == has_key(start, key@)) by {
                if has_key(cur, key@) && !has_key(start, key@) {
                    let i = choose|i: int| 0 <= i < cur.len() && (#[trigger] cur[i]).0@ == key@;
                    let f = src.take(k as int).filter(pred);
                    assert(f[i - start.len()] == cur[i]);
                    assert(f.contains(cur[i]));
                    src.take(k as int).lemma_filter_contains_rev(pred, cur[i]);
                    let j = choose|j: int| 0 <= j < k && src.take(k as int)[j] == cur[i];
                    assert(src[j].0@ == src[k as int].0@);
                }
                if has_key(start, key@) {
                    let i = choose|i: int| 0 <= i < start.len() && (#[trigger] start[i]).0@ == key@;
                    assert(cur[i] == start[i]);
                }
            }
        }
        if !extensions_contain(original, &key) {
            extensions_insert(original, key, value);
        }
        proof {
            assert(extension_entries(*original) =~= start + src.take((k + 1) as int).filter(pred));
        }
        k = k + 1;
    }
    proof {
        assert(src.take(k as int) =~= src);
    }
}

} // verus!
