//! Properties of the merge that hold for all documents.
use vstd::prelude::*;

use crate::ext::extension_entries;
use crate::map::{fresh_entries, has_key, keys_unique, lemma_value_of, union_entries, value_of};
use crate::merge::{distinct, first_seen, known, unknown_items, ConflictKind, Identity, MergeError};
use crate::model::{RefOr, Server, Tag};
use crate::openapi::{merge_outcome, OpenAPI};
use crate::paths::{entry_conflict, parameter_pairs_conflict, paths_conflict, HttpMethod, PathItem};

verus! {

/// Two path items are structurally equal.
pub open spec fn item_equiv(x: PathItem, y: PathItem) -> bool {
    &&& x.summary == y.summary
    &&& x.description == y.description
    &&& forall|m: HttpMethod| #[trigger] x.slot(m) == y.slot(m)
    &&& x.servers@ == y.servers@
    &&& x.parameters@ == y.parameters@
    &&& extension_entries(x.extensions) == extension_entries(y.extensions)
}

/// Two documents are structurally equal.
pub open spec fn doc_equiv(x: OpenAPI, y: OpenAPI) -> bool {
    &&& x.openapi == y.openapi
    &&& x.info.title == y.info.title
    &&& x.info.description == y.info.description
    &&& x.info.version == y.info.version
    &&& extension_entries(x.info.extensions) == extension_entries(y.info.extensions)
    &&& x.servers@ == y.servers@
    &&& x.paths.paths@.len() == y.paths.paths@.len()
    &&& forall|i: int| 0 <= i < x.paths.paths@.len() ==> {
        &&& (#[trigger] x.paths.paths@[i]).0 == y.paths.paths@[i].0
        &&& match (x.paths.paths@[i].1, y.paths.paths@[i].1) {
            (RefOr::Item(p), RefOr::Item(q)) => item_equiv(p, q),
            (p, q) => p == q,
        }
    }
    &&& extension_entries(x.paths.extensions) == extension_entries(y.paths.extensions)
    &&& x.components.schemas@ == y.components.schemas@
    &&& x.components.responses@ == y.components.responses@
    &&& x.components.parameters@ == y.components.parameters@
    &&& x.components.examples@ == y.components.examples@
    &&& x.components.request_bodies@ == y.components.request_bodies@
    &&& x.components.headers@ == y.components.headers@
    &&& x.components.security_schemes@ == y.components.security_schemes@
    &&& x.components.links@ == y.components.links@
    &&& x.components.callbacks@ == y.components.callbacks@
    &&& extension_entries(x.components.extensions) == extension_entries(y.components.extensions)
    &&& x.security@ == y.security@
    &&& x.tags@ == y.tags@
    &&& match (x.external_docs, y.external_docs) {
        (Some(p), Some(q)) => p.description == q.description && p.url == q.url
            && extension_entries(p.extensions) == extension_entries(q.extensions),
        (p, q) => p == q,
    }
    &&& extension_entries(x.extensions) == extension_entries(y.extensions)
}

/// Every path of `d` is inline, and so is every parameter of each.
pub open spec fn all_inline(d: OpenAPI) -> bool {
    forall|i: int| 0 <= i < d.paths.paths@.len() ==> match (#[trigger] d.paths.paths@[i]).1 {
        RefOr::Item(p) => forall|j: int| 0 <= j < p.parameters@.len() ==> (#[trigger] p.parameters@[j]) is Item,
        RefOr::Reference { .. } => false,
    }
}

/// A union by key of a map with itself is that map.
pub proof fn lemma_union_self<V>(s: Seq<(String, V)>)
    ensures
        union_entries(s, s) == s,
{
    let pred = |e: (String, V)| !has_key(s, e.0@);
    assert forall|i: int| 0 <= i < s.len() implies !pred(#[trigger] s[i]) by {
        assert(has_key(s, s[i].0@));
    }
    s.lemma_all_neg_filter_empty(pred);
    assert(union_entries(s, s) =~= s);
}

/// A union by identity of a list with itself is that list, where every item
/// has its own identity.
pub proof fn lemma_unknown_self<T: Identity>(s: Seq<T>)
    requires
        forall|x: T| #[trigger] x.same_spec(&x),
    ensures
        s + unknown_items(s, s) == s,
{
    let pred = |x: T| !known(s, x);
    assert forall|i: int| 0 <= i < s.len() implies !pred(#[trigger] s[i]) by {
        assert(s[i].same_spec(&s[i]));
    }
    s.lemma_all_neg_filter_empty(pred);
    assert(s + unknown_items(s, s) =~= s);
}

/// Inline parameter lists paired with themselves break no rule.
proof fn lemma_pairs_self(p: Seq<RefOr<crate::model::Parameter>>)
    requires
        forall|j: int| 0 <= j < p.len() ==> (#[trigger] p[j]) is Item,
    ensures
        parameter_pairs_conflict(p, p) is None,
    decreases p.len(),
{
    if p.len() > 0 {
        assert forall|j: int| 0 <= j < p.drop_first().len() implies (#[trigger] p.drop_first()[j]) is Item by {
            assert(p.drop_first()[j] == p[j + 1]);
        }
        lemma_pairs_self(p.drop_first());
    }
}

/// Incoming paths none of which conflicts with `a` merge without conflict.
proof fn lemma_no_entry_conflict(a: Seq<(String, RefOr<PathItem>)>, b: Seq<(String, RefOr<PathItem>)>)
    requires
        forall|j: int| 0 <= j < b.len() ==> entry_conflict(a, #[trigger] b[j]) is None,
    ensures
        paths_conflict(a, b) is None,
    decreases b.len(),
{
    if b.len() > 0 {
        assert(entry_conflict(a, b[0]) is None);
        assert forall|j: int| 0 <= j < b.drop_first().len() implies entry_conflict(a, #[trigger] b.drop_first()[j]) is None by {
            assert(b.drop_first()[j] == b[j + 1]);
        }
        lemma_no_entry_conflict(a, b.drop_first());
    }
}

/// Merging a document with itself gives back that document, where its paths
/// and their parameters are all inline.
#[verifier::rlimit(40)]
pub proof fn lemma_merge_self(a: OpenAPI, r: Result<OpenAPI, MergeError>)
    requires
        keys_unique(a.paths.paths@),
        all_inline(a),
        merge_outcome(r, a, a),
    ensures
        r matches Ok(d) && doc_equiv(d, a),
{
    let ps = a.paths.paths@;
    assert forall|j: int| 0 <= j < ps.len() implies entry_conflict(ps, #[trigger] ps[j]) is None by {
        assert(has_key(ps, ps[j].0@));
        lemma_value_of(ps, j);
        match ps[j].1 {
            RefOr::Item(p) => {
                lemma_pairs_self(p.parameters@);
            },
            RefOr::Reference { .. } => {},
        }
    }
    lemma_no_entry_conflict(ps, ps);
    let d = r->Ok_0;
    lemma_union_self(extension_entries(a.info.extensions));
    lemma_union_self(extension_entries(a.paths.extensions));
    lemma_union_self(a.components.schemas@);
    lemma_union_self(a.components.responses@);
    lemma_union_self(a.components.parameters@);
    lemma_union_self(a.components.examples@);
    lemma_union_self(a.components.request_bodies@);
    lemma_union_self(a.components.headers@);
    lemma_union_self(a.components.security_schemes@);
    lemma_union_self(a.components.links@);
    lemma_union_self(a.components.callbacks@);
    lemma_union_self(extension_entries(a.components.extensions));
    lemma_union_self(extension_entries(a.extensions));
    lemma_union_self(ps);
    lemma_unknown_self(a.servers@);
    assert forall|j: int| 0 <= j < a.tags@.len() implies known(a.tags@, #[trigger] a.tags@[j]) by {
        assert(a.tags@[j].same_spec(&a.tags@[j]));
    }
    lemma_first_seen_known(a.tags@, a.tags@);
    lemma_unknown_self(a.security@);
    match a.external_docs {
        Some(x) => lemma_union_self(extension_entries(x.extensions)),
        None => {},
    }
    assert forall|i: int| 0 <= i < d.paths.paths@.len() implies {
        &&& (#[trigger] d.paths.paths@[i]).0 == ps[i].0
        &&& match (d.paths.paths@[i].1, ps[i].1) {
            (RefOr::Item(p), RefOr::Item(q)) => item_equiv(p, q),
            (p, q) => p == q,
        }
    } by {
        assert(has_key(ps, ps[i].0@));
        lemma_value_of(ps, i);
        match (d.paths.paths@[i].1, ps[i].1) {
            (RefOr::Item(p), RefOr::Item(q)) => {
                lemma_unknown_self(q.servers@);
                lemma_union_self(extension_entries(q.extensions));
                assert forall|m: HttpMethod| #[trigger] p.slot(m) == q.slot(m) by {}
            },
            _ => {},
        }
    }
}

/// An incoming path whose parameter list differs in length from the
/// original's at the same path makes the merge fail; where no earlier
/// incoming path conflicts, the failure is the length mismatch.
pub proof fn lemma_count_mismatch_fails(a: OpenAPI, b: OpenAPI, r: Result<OpenAPI, MergeError>, j: int)
    requires
        merge_outcome(r, a, b),
        0 <= j < b.paths.paths@.len(),
        has_key(a.paths.paths@, b.paths.paths@[j].0@),
        value_of(a.paths.paths@, b.paths.paths@[j].0@) is Item,
        b.paths.paths@[j].1 is Item,
        value_of(a.paths.paths@, b.paths.paths@[j].0@)->Item_0.parameters@.len()
            != b.paths.paths@[j].1->Item_0.parameters@.len(),
    ensures
        r is Err,
        (forall|i: int| 0 <= i < j ==> entry_conflict(a.paths.paths@, #[trigger] b.paths.paths@[i]) is None)
            ==> (r matches Err(e) && e.kind == ConflictKind::ParameterCountMismatch),
{
    lemma_conflict_at(a.paths.paths@, b.paths.paths@, j);
}

/// The first conflict is at or before the entry `j` that conflicts, and is
/// that entry's where none before it conflicts.
proof fn lemma_conflict_at(a: Seq<(String, RefOr<PathItem>)>, b: Seq<(String, RefOr<PathItem>)>, j: int)
    requires
        0 <= j < b.len(),
        entry_conflict(a, b[j]) is Some,
    ensures
        paths_conflict(a, b) is Some,
        (forall|i: int| 0 <= i < j ==> entry_conflict(a, #[trigger] b[i]) is None)
            ==> paths_conflict(a, b) == entry_conflict(a, b[j]),
    decreases j,
{
    if j > 0 && entry_conflict(a, b[0]) is None {
        assert(b.drop_first()[j - 1] == b[j]);
        lemma_conflict_at(a, b.drop_first(), j - 1);
        assert forall|i: int| 0 <= i < j - 1 && (forall|i2: int| 0 <= i2 < j ==> entry_conflict(a, #[trigger] b[i2]) is None)
            implies entry_conflict(a, #[trigger] b.drop_first()[i]) is None by {
            assert(b.drop_first()[i] == b[i + 1]);
        }
    }
}

/// Items with distinct identities stay distinct after a filter.
proof fn lemma_filter_distinct<T: Identity>(s: Seq<T>, pred: spec_fn(T) -> bool)
    requires
        forall|i: int, j: int| #![trigger s[i], s[j]] 0 <= i < s.len() && 0 <= j < s.len() && i != j ==> !s[i].same_spec(&s[j]),
    ensures
        forall|i: int, j: int| #![trigger s.filter(pred)[i], s.filter(pred)[j]] 0 <= i < s.filter(pred).len() && 0 <= j < s.filter(pred).len() && i != j
            ==> !s.filter(pred)[i].same_spec(&s.filter(pred)[j]),
    decreases s.len(),
{
    reveal(Seq::filter);
    if s.len() > 0 {
        let rest = s.drop_last();
        lemma_filter_distinct(rest, pred);
        let f = rest.filter(pred);
        if pred(s.last()) {
            assert forall|i: int| 0 <= i < f.len() implies
                !(#[trigger] f[i]).same_spec(&s.last()) && !s.last().same_spec(&f[i]) by {
                assert(f.contains(f[i]));
                rest.lemma_filter_contains_rev(pred, f[i]);
                let k = choose|k: int| 0 <= k < rest.len() && rest[k] == f[i];
                assert(s[k] == f[i]);
                assert(s[s.len() - 1] == s.last());
            }
        }
    }
}

/// The union of two lists by identity: the items of `a` first and unchanged;
/// after them the items of `b` whose identity `a` lacks, in the order of `b`;
/// no item after `a` shares an identity with an item of `a`; and where `a`
/// and `b` each hold distinct identities, so does the union.
pub proof fn lemma_union_by_identity<T: Identity>(a: Seq<T>, b: Seq<T>)
    requires
        forall|x: T, y: T| #[trigger] x.same_spec(&y) == y.same_spec(&x),
    ensures
        forall|i: int| 0 <= i < a.len() ==> (#[trigger] (a + unknown_items(a, b))[i]) == a[i],
        (a + unknown_items(a, b)).skip(a.len() as int) == b.filter(|x: T| !known(a, x)),
        forall|i: int| a.len() <= i < (a + unknown_items(a, b)).len() ==> !known(a, #[trigger] (a + unknown_items(a, b))[i]),
        forall|j: int| 0 <= j < b.len() && !known(a, #[trigger] b[j]) ==> (a + unknown_items(a, b)).contains(b[j]),
        (forall|i: int, j: int| #![trigger a[i], a[j]] 0 <= i < a.len() && 0 <= j < a.len() && i != j ==> !a[i].same_spec(&a[j]))
            && (forall|i: int, j: int| #![trigger b[i], b[j]] 0 <= i < b.len() && 0 <= j < b.len() && i != j ==> !b[i].same_spec(&b[j]))
            ==> forall|i: int, j: int| #![trigger (a + unknown_items(a, b))[i], (a + unknown_items(a, b))[j]] 0 <= i < (a + unknown_items(a, b)).len() && 0 <= j < (a + unknown_items(a, b)).len() && i != j
                ==> !(a + unknown_items(a, b))[i].same_spec(&(a + unknown_items(a, b))[j]),
{
    broadcast use vstd::seq_lib::group_filter_ensures;
    let pred = |x: T| !known(a, x);
    let u = unknown_items(a, b);
    let r = a + u;
    assert(r.skip(a.len() as int) =~= u);
    assert forall|i: int| a.len() <= i < r.len() implies !known(a, #[trigger] r[i]) by {
        assert(r[i] == u[i - a.len()]);
        assert(pred(u[i - a.len()]));
    }
    assert forall|j: int| 0 <= j < b.len() && !known(a, #[trigger] b[j]) implies r.contains(b[j]) by {
        assert(pred(b[j]));
        assert(u.contains(b[j]));
        let k = choose|k: int| 0 <= k < u.len() && u[k] == b[j];
        assert(r[a.len() + k] == b[j]);
    }
    if (forall|i: int, j: int| #![trigger a[i], a[j]] 0 <= i < a.len() && 0 <= j < a.len() && i != j ==> !a[i].same_spec(&a[j]))
        && (forall|i: int, j: int| #![trigger b[i], b[j]] 0 <= i < b.len() && 0 <= j < b.len() && i != j ==> !b[i].same_spec(&b[j])) {
        lemma_filter_distinct(b, pred);
        assert forall|i: int, j: int| #![trigger r[i], r[j]] 0 <= i < r.len() && 0 <= j < r.len() && i != j
            implies !r[i].same_spec(&r[j]) by {
            if i < a.len() && j < a.len() {
            } else if i >= a.len() && j >= a.len() {
                assert(r[i] == u[i - a.len()]);
                assert(r[j] == u[j - a.len()]);
            } else if i < a.len() {
                assert(pred(u[j - a.len()]));
                assert(r[j] == u[j - a.len()]);
                assert(!r[j].same_spec(&a[i]));
            } else {
                assert(pred(u[i - a.len()]));
                assert(r[i] == u[i - a.len()]);
                assert(!r[i].same_spec(&a[j]));
            }
        }
    }
}

/// The servers of a merge: every server of `a`, then those of `b` whose url
/// `a` lacks in `b`'s order, and no url twice where neither side repeats one.
pub proof fn lemma_servers_union(a: Seq<Server>, b: Seq<Server>)
    ensures
        forall|i: int| 0 <= i < a.len() ==> (#[trigger] (a + unknown_items(a, b))[i]) == a[i],
        (a + unknown_items(a, b)).skip(a.len() as int) == b.filter(|x: Server| !known(a, x)),
        forall|j: int| 0 <= j < b.len() && !known(a, #[trigger] b[j]) ==> (a + unknown_items(a, b)).contains(b[j]),
        (forall|i: int, j: int| 0 <= i < a.len() && 0 <= j < a.len() && i != j ==> (#[trigger] a[i]).url@ != (#[trigger] a[j]).url@)
            && (forall|i: int, j: int| 0 <= i < b.len() && 0 <= j < b.len() && i != j ==> (#[trigger] b[i]).url@ != (#[trigger] b[j]).url@)
            ==> forall|i: int, j: int| 0 <= i < (a + unknown_items(a, b)).len() && 0 <= j < (a + unknown_items(a, b)).len() && i != j
                ==> (#[trigger] (a + unknown_items(a, b))[i]).url@ != (#[trigger] (a + unknown_items(a, b))[j]).url@,
{
    lemma_union_by_identity(a, b);
}

/// A merge outcome is fixed by its operands: two outcomes of merging `b`
/// into `a` both fail, with the same error, or both succeed with
/// structurally equal documents. So `a.merge_overwrite(b)`, whose outcome is
/// one of merging `a` into `b`, equals `b.merge(a)`.
#[verifier::rlimit(40)]
pub proof fn lemma_merge_outcome_unique(a: OpenAPI, b: OpenAPI, r1: Result<OpenAPI, MergeError>, r2: Result<OpenAPI, MergeError>)
    requires
        merge_outcome(r1, a, b),
        merge_outcome(r2, a, b),
    ensures
        r1 is Ok <==> r2 is Ok,
        r1 matches Err(e1) ==> (r2 matches Err(e2) && e1.kind == e2.kind && e1.path@ == e2.path@
            && e1.message@ == e2.message@),
        r1 matches Ok(d1) ==> (r2 matches Ok(d2) && doc_equiv(d1, d2)),
{
    match (r1, r2) {
        (Ok(d1), Ok(d2)) => {
            let ps = a.paths.paths@;
            assert forall|i: int| 0 <= i < d1.paths.paths@.len() implies {
                &&& (#[trigger] d1.paths.paths@[i]).0 == d2.paths.paths@[i].0
                &&& match (d1.paths.paths@[i].1, d2.paths.paths@[i].1) {
                    (RefOr::Item(p), RefOr::Item(q)) => item_equiv(p, q),
                    (p, q) => p == q,
                }
            } by {
                if i < ps.len() {
                    match (d1.paths.paths@[i].1, d2.paths.paths@[i].1) {
                        (RefOr::Item(p), RefOr::Item(q)) => {
                            assert forall|m: HttpMethod| #[trigger] p.slot(m) == q.slot(m) by {}
                        },
                        _ => {},
                    }
                } else {
                    let j = i - ps.len();
                    let f = fresh_entries(ps, b.paths.paths@);
                    assert(d1.paths.paths@[ps.len() + j] == f[j]);
                    assert(d2.paths.paths@[ps.len() + j] == f[j]);
                }
            }
        },
        _ => {},
    }
}

/// Keeping the first item seen under each identity adds nothing to `acc`
/// where every item of `other` already has an identity in `acc`.
pub proof fn lemma_first_seen_known<T: Identity>(acc: Seq<T>, other: Seq<T>)
    requires
        forall|j: int| 0 <= j < other.len() ==> known(acc, #[trigger] other[j]),
    ensures
        first_seen(acc, other) == acc,
    decreases other.len(),
{
    if other.len() > 0 {
        assert(known(acc, other[0]));
        assert forall|j: int| 0 <= j < other.drop_first().len() implies known(acc, #[trigger] other.drop_first()[j]) by {
            assert(other.drop_first()[j] == other[j + 1]);
        }
        lemma_first_seen_known(acc, other.drop_first());
    }
}

/// Keeping the first item seen under each identity: `acc` stays in front,
/// unchanged; every item of `other` has its identity in the result; what
/// follows `acc` comes from `other`; and where `acc` holds distinct
/// identities, so does the result.
pub proof fn lemma_first_seen<T: Identity>(acc: Seq<T>, other: Seq<T>)
    requires
        forall|x: T| #[trigger] x.same_spec(&x),
        forall|x: T, y: T| #[trigger] x.same_spec(&y) == y.same_spec(&x),
    ensures
        acc.len() <= first_seen(acc, other).len(),
        forall|i: int| 0 <= i < acc.len() ==> #[trigger] first_seen(acc, other)[i] == acc[i],
        forall|j: int| 0 <= j < other.len() ==> known(first_seen(acc, other), #[trigger] other[j]),
        forall|i: int| acc.len() <= i < first_seen(acc, other).len() ==> other.contains(#[trigger] first_seen(acc, other)[i]),
        distinct(acc) ==> distinct(first_seen(acc, other)),
    decreases other.len(),
{
    if other.len() > 0 {
        let x = other[0];
        let next = if known(acc, x) { acc } else { acc.push(x) };
        lemma_first_seen(next, other.drop_first());
        let r = first_seen(acc, other);
        assert(r == first_seen(next, other.drop_first()));
        assert forall|i: int| 0 <= i < acc.len() implies #[trigger] r[i] == acc[i] by {
            assert(next[i] == acc[i]);
        }
        assert(known(r, x)) by {
            if known(acc, x) {
                let k = choose|k: int| 0 <= k < acc.len() && x.same_spec(&#[trigger] acc[k]);
                assert(r[k] == acc[k]);
            } else {
                assert(r[acc.len() as int] == next[acc.len() as int]);
                assert(next[acc.len() as int] == x);
                assert(x.same_spec(&x));
            }
        }
        assert forall|j: int| 0 <= j < other.len() implies known(r, #[trigger] other[j]) by {
            if j > 0 {
                assert(other.drop_first()[j - 1] == other[j]);
            }
        }
        assert forall|i: int| acc.len() <= i < r.len() implies other.contains(#[trigger] r[i]) by {
            if i < next.len() {
                assert(r[i] == next[i]);
                assert(next[i] == x);
                assert(other[0] == x);
            } else {
                assert(other.drop_first().contains(r[i]));
                let k = choose|k: int| 0 <= k < other.drop_first().len() && other.drop_first()[k] == r[i];
                assert(other[k + 1] == r[i]);
            }
        }
        if distinct(acc) {
            assert(distinct(next)) by {
                if !known(acc, x) {
                    assert forall|i: int, j: int| #![trigger next[i], next[j]]
                        0 <= i < next.len() && 0 <= j < next.len() && i != j implies !next[i].same_spec(&next[j]) by {
                        if i < acc.len() && j < acc.len() {
                            assert(next[i] == acc[i] && next[j] == acc[j]);
                        } else if i < acc.len() {
                            assert(next[i] == acc[i]);
                            assert(!x.same_spec(&acc[i]));
                        } else {
                            assert(next[j] == acc[j]);
                            assert(!x.same_spec(&acc[j]));
                        }
                    }
                }
            }
        }
    }
}

/// The tags of a merge: the first tag seen under a name is kept, the
/// original's first, and later ones under that name dropped; the rest follow
/// in first-seen order; no name appears twice where the original repeats none.
pub proof fn lemma_tags_union(a: Seq<Tag>, b: Seq<Tag>)
    ensures
        forall|i: int| 0 <= i < a.len() ==> #[trigger] first_seen(a, b)[i] == a[i],
        forall|j: int| 0 <= j < b.len() ==> known(first_seen(a, b), #[trigger] b[j]),
        forall|i: int| a.len() <= i < first_seen(a, b).len() ==> b.contains(#[trigger] first_seen(a, b)[i]),
        distinct(a) ==> distinct(first_seen(a, b)),
{
    lemma_first_seen(a, b);
}

} // verus!
