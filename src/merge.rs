//! The building blocks of a merge: list union by identity, optional slots,
//! and the error that a conflict raises.
use vstd::prelude::*;
use vstd::string::StringExecFns;

use crate::map::{has_key, key_set, OrderedMap};
use crate::model::{Server, Tag};

verus! {

/// Values that carry an identity, under which a list keeps one of them.
pub trait Identity: Sized {
    spec fn same_spec(&self, other: &Self) -> bool;

    fn same(&self, other: &Self) -> (r: bool)
        ensures
            r == self.same_spec(other),
    ;
}

impl Identity for Server {
    open spec fn same_spec(&self, other: &Self) -> bool {
        self.url@ == other.url@
    }

    fn same(&self, other: &Self) -> (r: bool) {
        self.url == other.url
    }
}

impl Identity for Tag {
    open spec fn same_spec(&self, other: &Self) -> bool {
        self.name@ == other.name@
    }

    fn same(&self, other: &Self) -> (r: bool) {
        self.name == other.name
    }
}

/// Two security requirements are the same when they name the same schemes,
/// whatever their scopes.
impl Identity for OrderedMap<Vec<String>> {
    open spec fn same_spec(&self, other: &Self) -> bool {
        key_set(self@) == key_set(other@)
    }

    fn same(&self, other: &Self) -> (r: bool) {
        let r = includes_keys(self, other) && includes_keys(other, self);
        proof {
            if r {
                assert(key_set(self@) =~= key_set(other@));
            }
        }
        r
    }
}

/// True when every key of `a` is a key of `b`.
fn includes_keys(a: &OrderedMap<Vec<String>>, b: &OrderedMap<Vec<String>>) -> (r: bool)
    ensures
        r == key_set(a@).subset_of(key_set(b@)),
{
    let mut i: usize = 0;
    while i < a.len()
        invariant
            i <= a@.len(),
            forall|j: int| 0 <= j < i ==> has_key(b@, (#[trigger] a@[j]).0@),
        decreases a@.len() - i,
    {
        let entry = a.entry(i);
        if !b.contains_key(&entry.0) {
            proof {
                assert(key_set(a@).contains(a@[i as int].0@));
            }
            return false;
        }
        i = i + 1;
    }
    proof {
        assert forall|k: Seq<char>| key_set(a@).contains(k) implies key_set(b@).contains(k) by {
            let j = choose|j: int| 0 <= j < a@.len() && (#[trigger] a@[j]).0@ == k;
        }
    }
    true
}

/// True when some item of `s` has the identity of `x`.
pub open spec fn known<T: Identity>(s: Seq<T>, x: T) -> bool {
    exists|i: int| 0 <= i < s.len() && x.same_spec(&#[trigger] s[i])
}

/// The items of `other` whose identity no item of `original` has, in order.
pub open spec fn unknown_items<T: Identity>(original: Seq<T>, other: Seq<T>) -> Seq<T> {
    other.filter(|x: T| !known(original, x))
}

/// True when some item among the first `n` of `s` has the identity of `x`.
fn known_among<T: Identity>(s: &Vec<T>, n: usize, x: &T) -> (r: bool)
    requires
        n <= s@.len(),
    ensures
        r == known(s@.take(n as int), *x),
{
    let mut i: usize = 0;
    while i < n
        invariant
            i <= n <= s@.len(),
            forall|j: int| 0 <= j < i ==> !x.same_spec(&#[trigger] s@[j]),
        decreases n - i,
    {
        if x.same(&s[i]) {
            proof {
                assert(s@.take(n as int)[i as int] == s@[i as int]);
            }
            return true;
        }
        i = i + 1;
    }
    proof {
        if known(s@.take(n as int), *x) {
            let j = choose|j: int| 0 <= j < n && x.same_spec(&#[trigger] s@.take(n as int)[j]);
            assert(s@.take(n as int)[j] == s@[j]);
        }
    }
    false
}

/// Appends to `original` the items of `other` whose identity no item of
/// `original` has, keeping their order in `other`.
pub fn merge_vec<T: Identity>(original: &mut Vec<T>, other: Vec<T>)
    ensures
        final(original)@ == old(original)@ + unknown_items(old(original)@, other@),
{
    let ghost start = original@;
    let ghost pred = |x: T| !known(start, x);
    let n0 = original.len();
    let mut rest = other;
    let ghost src = rest@;
    assert(src.len() == rest.len());
    let mut k: usize = 0;
    proof {
        assert(src.take(0).filter(pred) =~= Seq::<T>::empty()) by {
            reveal(Seq::filter);
        }
        assert(original@ =~= start + src.take(0).filter(pred));
        assert(rest@ =~= src.skip(0));
    }
    while rest.len() > 0
        invariant
            k + rest@.len() == src.len(),
            src.len() <= usize::MAX,
            n0 == start.len(),
            rest@ == src.skip(k as int),
            original@ == start + src.take(k as int).filter(pred),
            pred == (|x: T| !known(start, x)),
        decreases rest@.len(),
    {
        let x = rest.remove(0);
        proof {
            assert(src.take(k + 1) =~= src.take(k as int).push(src[k as int]));
            src.take(k as int).lemma_filter_push(src[k as int], pred);
            assert(rest@ =~= src.skip(k + 1));
            assert(original@.take(n0 as int) =~= start);
        }
        if !known_among(original, n0, &x) {
            original.push(x);
        }
        proof {
            assert(original@ =~= start + src.take((k + 1) as int).filter(pred));
        }
        k = k + 1;
    }
    proof {
        assert(src.take(k as int) =~= src);
    }
}

/// `acc` followed by each item of `other` whose identity no item before it,
/// in `acc` or earlier in `other`, has: the first item seen under each
/// identity is kept, in the order first seen.
pub open spec fn first_seen<T: Identity>(acc: Seq<T>, other: Seq<T>) -> Seq<T>
    decreases other.len(),
{
    if other.len() == 0 {
        acc
    } else {
        first_seen(
            if known(acc, other[0]) { acc } else { acc.push(other[0]) },
            other.drop_first(),
        )
    }
}

/// No two items of `s` share an identity.
pub open spec fn distinct<T: Identity>(s: Seq<T>) -> bool {
    forall|i: int, j: int| #![trigger s[i], s[j]]
        0 <= i < s.len() && 0 <= j < s.len() && i != j ==> !s[i].same_spec(&s[j])
}

/// Appends to `original` each item of `other` whose identity neither
/// `original` nor an earlier item of `other` has, keeping their order.
pub fn merge_unique<T: Identity>(original: &mut Vec<T>, other: Vec<T>)
    ensures
        final(original)@ == first_seen(old(original)@, other@),
{
    let ghost goal = first_seen(original@, other@);
    let mut rest = other;
    while rest.len() > 0
        invariant
            first_seen(original@, rest@) == goal,
        decreases rest@.len(),
    {
        let ghost before = rest@;
        let x = rest.remove(0);
        proof {
            assert(rest@ =~= before.drop_first());
        }
        let n = original.len();
        if !known_among(original, n, &x) {
            proof {
                assert(original@.take(n as int) =~= original@);
            }
            original.push(x);
        } else {
            proof {
                assert(original@.take(n as int) =~= original@);
            }
        }
    }
}

/// Keeps `original` where it holds a value, else takes `other`.
pub fn option_or<T>(original: &mut Option<T>, other: Option<T>)
    ensures
        *final(original) == (if old(original).is_some() { *old(original) } else { other }),
{
    if original.is_none() {
        *original = other;
    }
}

/// The structural rule that a merge found broken.
#[derive(Debug, Clone, Copy, PartialEq, Eq, Structural)]
pub enum ConflictKind {
    /// A path shared by both documents is a reference on one side.
    PathItemReference,
    /// The parameter lists of a shared path differ in length.
    ParameterCountMismatch,
    /// A parameter of a shared path is a reference.
    ParameterReference,
    /// Parameters at the same position of a shared path differ in name.
    ParameterNameMismatch,
}

impl ConflictKind {
    /// What the rule broken says, in words.
    pub open spec fn detail(self) -> Seq<char> {
        match self {
            ConflictKind::PathItemReference => "is a reference on one side, which a merge does not follow"@,
            ConflictKind::ParameterCountMismatch => "parameters do not have the same length"@,
            ConflictKind::ParameterReference => "has a parameter reference, which a merge does not follow"@,
            ConflictKind::ParameterNameMismatch => "has parameters that differ in name"@,
        }
    }

    fn detail_str(&self) -> (r: &'static str)
        ensures
            r@ == self.detail(),
    {
        match self {
            ConflictKind::PathItemReference => "is a reference on one side, which a merge does not follow",
            ConflictKind::ParameterCountMismatch => "parameters do not have the same length",
            ConflictKind::ParameterReference => "has a parameter reference, which a merge does not follow",
            ConflictKind::ParameterNameMismatch => "has parameters that differ in name",
        }
    }
}

/// The description of a conflict of kind `kind` at `path`: it names the path
/// and the rule broken.
pub open spec fn conflict_message(kind: ConflictKind, path: Seq<char>) -> Seq<char> {
    "PathItem "@ + path + " "@ + kind.detail()
}

/// A merge conflict: the rule broken, the path where, and a description.
#[derive(Debug)]
pub struct MergeError {
    pub kind: ConflictKind,
    pub path: String,
    pub message: String,
}

impl MergeError {
    /// The conflict of kind `kind` at `path`, with its description.
    pub fn new(kind: ConflictKind, path: &str) -> (r: Self)
        ensures
            r.kind == kind,
            r.path@ == path@,
            r.message@ == conflict_message(kind, path@),
    {
        let mut message = String::from_str("PathItem ");
        message.append(path);
        message.append(" ");
        message.append(kind.detail_str());
        MergeError { kind, path: String::from_str(path), message }
    }

    /// The description of the conflict.
    pub fn to_string(&self) -> (r: String)
        ensures
            r@ == self.message@,
    {
        self.message.clone()
    }
}

} // verus!
