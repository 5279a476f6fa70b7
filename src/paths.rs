//! Path items with their per-method operation slots, the paths of a
//! document, and the merge of two path items.
use vstd::prelude::*;

use crate::ext::{extension_entries, extensions_insert, merge_extensions, new_extensions, Extensions};
use crate::map::{
    fresh_entries, has_key, keys_unique, lemma_fresh_from, lemma_value_of, union_entries, value_of,
    OrderedMap,
};
use crate::merge::{conflict_message, merge_vec, option_or, unknown_items, ConflictKind, MergeError};
use crate::model::{Operation, Parameter, RefOr, Server};

verus! {

/// The HTTP methods that a path item has a slot for.
#[derive(Debug, Clone, Copy, PartialEq, Eq, Structural)]
pub enum HttpMethod {
    Get,
    Put,
    Post,
    Delete,
    Options,
    Head,
    Patch,
    Trace,
}

/// The methods in the order in which traversal visits their slots.
pub open spec fn canonical_methods() -> Seq<HttpMethod> {
    seq![
        HttpMethod::Get,
        HttpMethod::Put,
        HttpMethod::Post,
        HttpMethod::Delete,
        HttpMethod::Options,
        HttpMethod::Head,
        HttpMethod::Patch,
        HttpMethod::Trace,
    ]
}

/// The methods in canonical order.
pub fn canonical_method_list() -> (r: Vec<HttpMethod>)
    ensures
        r@ == canonical_methods(),
{
    let r = vec![
        HttpMethod::Get,
        HttpMethod::Put,
        HttpMethod::Post,
        HttpMethod::Delete,
        HttpMethod::Options,
        HttpMethod::Head,
        HttpMethod::Patch,
        HttpMethod::Trace,
    ];
    assert(r@ =~= canonical_methods());
    r
}

impl HttpMethod {
    /// The lower-case name of the method.
    pub open spec fn name(self) -> Seq<char> {
        match self {
            HttpMethod::Get => seq!['g', 'e', 't'],
            HttpMethod::Put => seq!['p', 'u', 't'],
            HttpMethod::Post => seq!['p', 'o', 's', 't'],
            HttpMethod::Delete => seq!['d', 'e', 'l', 'e', 't', 'e'],
            HttpMethod::Options => seq!['o', 'p', 't', 'i', 'o', 'n', 's'],
            HttpMethod::Head => seq!['h', 'e', 'a', 'd'],
            HttpMethod::Patch => seq!['p', 'a', 't', 'c', 'h'],
            HttpMethod::Trace => seq!['t', 'r', 'a', 'c', 'e'],
        }
    }

    pub fn as_str(&self) -> (r: &'static str)
        ensures
            r@ == self.name(),
    {
        match self {
            HttpMethod::Get => {
                proof { reveal_strlit("get"); }
                "get"
            },
            HttpMethod::Put => {
                proof { reveal_strlit("put"); }
                "put"
            },
            HttpMethod::Post => {
                proof { reveal_strlit("post"); }
                "post"
            },
            HttpMethod::Delete => {
                proof { reveal_strlit("delete"); }
                "delete"
            },
            HttpMethod::Options => {
                proof { reveal_strlit("options"); }
                "options"
            },
            HttpMethod::Head => {
                proof { reveal_strlit("head"); }
                "head"
            },
            HttpMethod::Patch => {
                proof { reveal_strlit("patch"); }
                "patch"
            },
            HttpMethod::Trace => {
                proof { reveal_strlit("trace"); }
                "trace"
            },
        }
    }
}

/// Puts `v` in `slot` and returns what stood there.
fn put_slot(slot: &mut Option<Operation>, v: Option<Operation>) -> (r: Option<Operation>)
    ensures
        r == *old(slot),
        *final(slot) == v,
{
    let mut v = v;
    std::mem::swap(slot, &mut v);
    v
}

/// The operations available on a single path.
#[derive(Debug, Clone, PartialEq)]
pub struct PathItem {
    pub summary: Option<String>,
    pub description: Option<String>,
    pub get: Option<Operation>,
    pub put: Option<Operation>,
    pub post: Option<Operation>,
    pub delete: Option<Operation>,
    pub options: Option<Operation>,
    pub head: Option<Operation>,
    pub patch: Option<Operation>,
    pub trace: Option<Operation>,
    pub servers: Vec<Server>,
    pub parameters: Vec<RefOr<Parameter>>,
    pub extensions: Extensions,
}

impl PathItem {
    /// The operation slot of `m`.
    pub open spec fn slot(self, m: HttpMethod) -> Option<Operation> {
        match m {
            HttpMethod::Get => self.get,
            HttpMethod::Put => self.put,
            HttpMethod::Post => self.post,
            HttpMethod::Delete => self.delete,
            HttpMethod::Options => self.options,
            HttpMethod::Head => self.head,
            HttpMethod::Patch => self.patch,
            HttpMethod::Trace => self.trace,
        }
    }

    /// This item with the slot of `m` set to `v`, every other field kept.
    pub open spec fn with_slot(self, m: HttpMethod, v: Option<Operation>) -> PathItem {
        match m {
            HttpMethod::Get => PathItem { get: v, ..self },
            HttpMethod::Put => PathItem { put: v, ..self },
            HttpMethod::Post => PathItem { post: v, ..self },
            HttpMethod::Delete => PathItem { delete: v, ..self },
            HttpMethod::Options => PathItem { options: v, ..self },
            HttpMethod::Head => PathItem { head: v, ..self },
            HttpMethod::Patch => PathItem { patch: v, ..self },
            HttpMethod::Trace => PathItem { trace: v, ..self },
        }
    }

    /// The methods whose slot is occupied, in canonical order.
    pub open spec fn occupied(self) -> Seq<HttpMethod> {
        canonical_methods().filter(|m: HttpMethod| self.slot(m) is Some)
    }

    /// True when no field holds anything.
    pub open spec fn is_blank(self) -> bool {
        &&& self.summary is None
        &&& self.description is None
        &&& forall|m: HttpMethod| #[trigger] self.slot(m) is None
        &&& self.servers@.len() == 0
        &&& self.parameters@.len() == 0
        &&& extension_entries(self.extensions).len() == 0
    }

    pub fn new() -> (r: Self)
        ensures
            r.is_blank(),
    {
        PathItem {
            summary: None,
            description: None,
            get: None,
            put: None,
            post: None,
            delete: None,
            options: None,
            head: None,
            patch: None,
            trace: None,
            servers: Vec::new(),
            parameters: Vec::new(),
            extensions: new_extensions(),
        }
    }

    /// A path item with a GET operation and nothing else.
    pub fn get(operation: Operation) -> (r: Self)
        ensures
            r.with_slot(HttpMethod::Get, None).is_blank(),
            r.get == Some(operation),
    {
        let mut r = PathItem::new();
        let ghost r0 = r;
        r.get = Some(operation);
        proof {
            let b = r.with_slot(HttpMethod::Get, None);
            assert forall|m: HttpMethod| #[trigger] b.slot(m) is None by {
                assert(r0.slot(m) is None);
            }
        }
        r
    }

    /// A path item with a POST operation and nothing else.
    pub fn post(operation: Operation) -> (r: Self)
        ensures
            r.with_slot(HttpMethod::Post, None).is_blank(),
            r.post == Some(operation),
    {
        let mut r = PathItem::new();
        let ghost r0 = r;
        r.post = Some(operation);
        proof {
            let b = r.with_slot(HttpMethod::Post, None);
            assert forall|m: HttpMethod| #[trigger] b.slot(m) is None by {
                assert(r0.slot(m) is None);
            }
        }
        r
    }

    /// The operations of the occupied slots, in canonical order, each with
    /// the name of its method.
    pub fn iter(&self) -> (r: Vec<(&'static str, &Operation)>)
        ensures
            r@.len() == self.occupied().len(),
            forall|i: int| 0 <= i < r@.len() ==> {
                &&& (#[trigger] r@[i]).0@ == self.occupied()[i].name()
                &&& self.slot(self.occupied()[i]) == Some(*r@[i].1)
            },
    {
        let methods = canonical_method_list();
        let ghost ms = canonical_methods();
        let ghost pred = |m: HttpMethod| self.slot(m) is Some;
        let mut r: Vec<(&'static str, &Operation)> = Vec::new();
        let mut k: usize = 0;
        proof {
            assert(ms.take(0).filter(pred) =~= Seq::<HttpMethod>::empty()) by {
                reveal(Seq::filter);
            }
        }
        while k < methods.len()
            invariant
                methods@ == ms,
                ms == canonical_methods(),
                k <= ms.len(),
                pred == (|m: HttpMethod| self.slot(m) is Some),
                r@.len() == ms.take(k as int).filter(pred).len(),
                forall|i: int| 0 <= i < r@.len() ==> {
                    &&& (#[trigger] r@[i]).0@ == ms.take(k as int).filter(pred)[i].name()
                    &&& self.slot(ms.take(k as int).filter(pred)[i]) == Some(*r@[i].1)
                },
            decreases ms.len() - k,
        {
            let m = methods[k];
            proof {
                assert(ms.take(k + 1) =~= ms.take(k as int).push(m));
                ms.take(k as int).lemma_filter_push(m, pred);
            }
            match self.slot_ref(m) {
                Some(op) => {
                    r.push((m.as_str(), op));
                },
                None => {},
            }
            k = k + 1;
        }
        proof {
            assert(ms.take(8) =~= ms);
        }
        r
    }

    /// Consumes the item and yields the operations of its occupied slots, in
    /// canonical order, each with the name of its method.
    pub fn into_operations(self) -> (r: Vec<(&'static str, Operation)>)
        ensures
            r@.len() == self.occupied().len(),
            forall|i: int| 0 <= i < r@.len() ==> {
                &&& (#[trigger] r@[i]).0@ == self.occupied()[i].name()
                &&& self.slot(self.occupied()[i]) == Some(r@[i].1)
            },
    {
        let ghost orig = self;
        let mut item = self;
        let methods = canonical_method_list();
        let ghost ms = canonical_methods();
        let ghost pred = |m: HttpMethod| orig.slot(m) is Some;
        let mut r: Vec<(&'static str, Operation)> = Vec::new();
        let mut k: usize = 0;
        proof {
            assert(ms.take(0).filter(pred) =~= Seq::<HttpMethod>::empty()) by {
                reveal(Seq::filter);
            }
        }
        while k < methods.len()
            invariant
                methods@ == ms,
                ms == canonical_methods(),
                k <= ms.len(),
                pred == (|m: HttpMethod| orig.slot(m) is Some),
                forall|j: int| k <= j < ms.len() ==> item.slot(#[trigger] ms[j]) == orig.slot(ms[j]),
                r@.len() == ms.take(k as int).filter(pred).len(),
                forall|i: int| 0 <= i < r@.len() ==> {
                    &&& (#[trigger] r@[i]).0@ == ms.take(k as int).filter(pred)[i].name()
                    &&& orig.slot(ms.take(k as int).filter(pred)[i]) == Some(r@[i].1)
                },
            decreases ms.len() - k,
        {
            let m = methods[k];
            proof {
                assert(ms.take(k + 1) =~= ms.take(k as int).push(m));
                ms.take(k as int).lemma_filter_push(m, pred);
            }
            let ghost before = item;
            match item.replace(m, None) {
                Some(op) => {
                    r.push((m.as_str(), op));
                },
                None => {},
            }
            proof {
                assert forall|j: int| k + 1 <= j < ms.len() implies item.slot(#[trigger] ms[j]) == orig.slot(ms[j]) by {
                    assert(ms[j] != m);
                    assert(item.slot(ms[j]) == before.slot(ms[j]));
                }
            }
            k = k + 1;
        }
        proof {
            assert(ms.take(8) =~= ms);
        }
        r
    }

    /// The slot of `m`, to be changed in place.
    pub fn slot_mut(&mut self, m: HttpMethod) -> (r: &mut Option<Operation>)
        ensures
            *r == old(self).slot(m),
            *final(self) == old(self).with_slot(m, *final(r)),
    {
        match m {
            HttpMethod::Get => &mut self.get,
            HttpMethod::Put => &mut self.put,
            HttpMethod::Post => &mut self.post,
            HttpMethod::Delete => &mut self.delete,
            HttpMethod::Options => &mut self.options,
            HttpMethod::Head => &mut self.head,
            HttpMethod::Patch => &mut self.patch,
            HttpMethod::Trace => &mut self.trace,
        }
    }

    /// The operation in the slot of `m`, if any, to be changed in place.
    pub fn operation_mut(&mut self, m: HttpMethod) -> (r: Option<&mut Operation>)
        ensures
            r is Some <==> old(self).slot(m) is Some,
            r matches Some(op) ==> *op == old(self).slot(m)->Some_0
                && *final(self) == old(self).with_slot(m, Some(*final(op))),
            r is None ==> *final(self) == *old(self),
    {
        self.slot_mut(m).as_mut()
    }

    /// The slot of `m`.
    pub fn slot_ref(&self, m: HttpMethod) -> (r: &Option<Operation>)
        ensures
            *r == self.slot(m),
    {
        match m {
            HttpMethod::Get => &self.get,
            HttpMethod::Put => &self.put,
            HttpMethod::Post => &self.post,
            HttpMethod::Delete => &self.delete,
            HttpMethod::Options => &self.options,
            HttpMethod::Head => &self.head,
            HttpMethod::Patch => &self.patch,
            HttpMethod::Trace => &self.trace,
        }
    }

    /// Puts `v` in the slot of `m` and returns what stood there.
    pub fn replace(&mut self, m: HttpMethod, v: Option<Operation>) -> (r: Option<Operation>)
        ensures
            r == old(self).slot(m),
            *final(self) == old(self).with_slot(m, v),
    {
        match m {
            HttpMethod::Get => put_slot(&mut self.get, v),
            HttpMethod::Put => put_slot(&mut self.put, v),
            HttpMethod::Post => put_slot(&mut self.post, v),
            HttpMethod::Delete => put_slot(&mut self.delete, v),
            HttpMethod::Options => put_slot(&mut self.options, v),
            HttpMethod::Head => put_slot(&mut self.head, v),
            HttpMethod::Patch => put_slot(&mut self.patch, v),
            HttpMethod::Trace => put_slot(&mut self.trace, v),
        }
    }
}

/// The rule broken by the parameters `x` and `y` at one position of a shared
/// path, if any: both must be inline and have the same name.
pub open spec fn parameter_pair_conflict(x: RefOr<Parameter>, y: RefOr<Parameter>) -> Option<ConflictKind> {
    match (x, y) {
        (RefOr::Item(a), RefOr::Item(b)) => if a.name@ == b.name@ {
            None
        } else {
            Some(ConflictKind::ParameterNameMismatch)
        },
        _ => Some(ConflictKind::ParameterReference),
    }
}

/// The first rule broken by positionally paired parameters of `p` and `q`.
pub open spec fn parameter_pairs_conflict(p: Seq<RefOr<Parameter>>, q: Seq<RefOr<Parameter>>) -> Option<ConflictKind>
    decreases p.len(),
{
    if p.len() == 0 || q.len() == 0 {
        None
    } else {
        match parameter_pair_conflict(p[0], q[0]) {
            Some(k) => Some(k),
            None => parameter_pairs_conflict(p.drop_first(), q.drop_first()),
        }
    }
}

/// The rule broken by the parameter lists of a shared path, if any.
pub open spec fn parameters_conflict(p: Seq<RefOr<Parameter>>, q: Seq<RefOr<Parameter>>) -> Option<ConflictKind> {
    if p.len() != q.len() {
        Some(ConflictKind::ParameterCountMismatch)
    } else {
        parameter_pairs_conflict(p, q)
    }
}

/// The rule broken when `x` (original) and `y` (incoming) stand at one path.
pub open spec fn path_conflict(x: RefOr<PathItem>, y: RefOr<PathItem>) -> Option<ConflictKind> {
    match (x, y) {
        (RefOr::Item(a), RefOr::Item(b)) => parameters_conflict(a.parameters@, b.parameters@),
        _ => Some(ConflictKind::PathItemReference),
    }
}

/// The rule broken by the incoming entry `e` against the original paths `a`.
pub open spec fn entry_conflict(a: Seq<(String, RefOr<PathItem>)>, e: (String, RefOr<PathItem>)) -> Option<ConflictKind> {
    if has_key(a, e.0@) {
        path_conflict(value_of(a, e.0@), e.1)
    } else {
        None
    }
}

/// The first rule broken while merging the incoming paths `b`, in their order,
/// into the original paths `a`.
pub open spec fn paths_conflict(a: Seq<(String, RefOr<PathItem>)>, b: Seq<(String, RefOr<PathItem>)>) -> Option<ConflictKind>
    decreases b.len(),
{
    if b.len() == 0 {
        None
    } else {
        match entry_conflict(a, b[0]) {
            Some(k) => Some(k),
            None => paths_conflict(a, b.drop_first()),
        }
    }
}

/// The path of the first conflict while merging `b` into `a`, in the order
/// of `b` (empty where none).
pub open spec fn conflict_path(a: Seq<(String, RefOr<PathItem>)>, b: Seq<(String, RefOr<PathItem>)>) -> Seq<char>
    decreases b.len(),
{
    if b.len() == 0 {
        Seq::empty()
    } else if entry_conflict(a, b[0]) is Some {
        b[0].0@
    } else {
        conflict_path(a, b.drop_first())
    }
}

/// `r` is the merge of the path items `a` (original) and `b` (incoming).
pub open spec fn item_merged(r: PathItem, a: PathItem, b: PathItem) -> bool {
    &&& r.summary == a.summary
    &&& r.description == a.description
    &&& forall|m: HttpMethod| #[trigger] r.slot(m) == (if a.slot(m) is Some { a.slot(m) } else { b.slot(m) })
    &&& r.servers@ == a.servers@ + unknown_items(a.servers@, b.servers@)
    &&& r.parameters@ == a.parameters@
    &&& extension_entries(r.extensions) == union_entries(extension_entries(a.extensions), extension_entries(b.extensions))
}

/// `r` stands at a shared path after the merge of `x` (original) and `y`.
pub open spec fn entry_merged(r: RefOr<PathItem>, x: RefOr<PathItem>, y: RefOr<PathItem>) -> bool {
    match (r, x, y) {
        (RefOr::Item(ri), RefOr::Item(a), RefOr::Item(b)) => item_merged(ri, a, b),
        _ => false,
    }
}

/// Checks the parameter lists of the shared path `path`.
pub fn check_parameters(path: &String, p: &Vec<RefOr<Parameter>>, q: &Vec<RefOr<Parameter>>) -> (r: Option<MergeError>)
    ensures
        r is None <==> parameters_conflict(p@, q@) is None,
        r matches Some(e) ==> parameters_conflict(p@, q@) == Some(e.kind) && e.path@ == path@
            && e.message@ == conflict_message(e.kind, path@),
{
    if p.len() != q.len() {
        return Some(MergeError::new(ConflictKind::ParameterCountMismatch, path.as_str()));
    }
    let mut i: usize = 0;
    proof {
        assert(p@.skip(0) =~= p@);
        assert(q@.skip(0) =~= q@);
    }
    while i < p.len()
        invariant
            i <= p@.len(),
            p@.len() == q@.len(),
            parameters_conflict(p@, q@) == parameter_pairs_conflict(p@.skip(i as int), q@.skip(i as int)),
        decreases p@.len() - i,
    {
        proof {
            assert(p@.skip(i as int).drop_first() =~= p@.skip(i + 1));
            assert(q@.skip(i as int).drop_first() =~= q@.skip(i + 1));
        }
        match (&p[i], &q[i]) {
            (RefOr::Item(a), RefOr::Item(b)) => {
                if a.name != b.name {
                    return Some(MergeError::new(ConflictKind::ParameterNameMismatch, path.as_str()));
                }
            },
            _ => {
                return Some(MergeError::new(ConflictKind::ParameterReference, path.as_str()));
            },
        }
        i = i + 1;
    }
    None
}

/// Checks the incoming paths `b` against the original paths `a`, in the order
/// of `b`, and reports the first conflict.
pub fn check_paths(a: &OrderedMap<RefOr<PathItem>>, b: &OrderedMap<RefOr<PathItem>>) -> (r: Option<MergeError>)
    ensures
        r is None <==> paths_conflict(a@, b@) is None,
        r matches Some(e) ==> paths_conflict(a@, b@) == Some(e.kind) && e.path@ == conflict_path(a@, b@)
            && e.message@ == conflict_message(e.kind, e.path@),
{
    let mut k: usize = 0;
    assert(b@.skip(0) =~= b@);
    while k < b.len()
        invariant
            k <= b@.len(),
            paths_conflict(a@, b@) == paths_conflict(a@, b@.skip(k as int)),
            conflict_path(a@, b@) == conflict_path(a@, b@.skip(k as int)),
        decreases b@.len() - k,
    {
        proof {
            assert(b@.skip(k as int).drop_first() =~= b@.skip(k + 1));
        }
        let entry = b.entry(k);
        match a.index_of(&entry.0) {
            Some(i) => {
                let ghost j = choose|j: int| 0 <= j < a@.len() && (#[trigger] a@[j]).0@ == entry.0@;
                assert(j == i);
                match (&a.entry(i).1, &entry.1) {
                    (RefOr::Item(x), RefOr::Item(y)) => {
                        let found = check_parameters(&entry.0, &x.parameters, &y.parameters);
                        if found.is_some() {
                            return found;
                        }
                    },
                    _ => {
                        return Some(MergeError::new(ConflictKind::PathItemReference, entry.0.as_str()));
                    },
                }
            },
            None => {},
        }
        k = k + 1;
    }
    None
}

/// The merge of the path items `a` (original) and `b` (incoming).
pub fn merge_items(a: PathItem, b: PathItem) -> (r: PathItem)
    ensures
        item_merged(r, a, b),
{
    let ghost a0 = a;
    let mut a = a;
    let PathItem { summary: _, description: _, get, put, post, delete, options, head, patch, trace, servers, parameters: _, extensions } = b;
    option_or(&mut a.get, get);
    option_or(&mut a.put, put);
    option_or(&mut a.post, post);
    option_or(&mut a.delete, delete);
    option_or(&mut a.options, options);
    option_or(&mut a.head, head);
    option_or(&mut a.patch, patch);
    option_or(&mut a.trace, trace);
    merge_vec(&mut a.servers, servers);
    merge_extensions(&mut a.extensions, extensions);
    proof {
        assert forall|m: HttpMethod| #[trigger] a.slot(m) == (if a0.slot(m) is Some { a0.slot(m) } else { b.slot(m) }) by {
            match m {
                HttpMethod::Get => {},
                HttpMethod::Put => {},
                HttpMethod::Post => {},
                HttpMethod::Delete => {},
                HttpMethod::Options => {},
                HttpMethod::Head => {},
                HttpMethod::Patch => {},
                HttpMethod::Trace => {},
            }
        }
    }
    a
}

/// `r` is the merge of the incoming paths `b` into the original paths `a`:
/// the original entries in place, shared ones merged, then the entries of
/// paths only `b` has, in the order of `b`.
pub open spec fn paths_merged(
    r: Seq<(String, RefOr<PathItem>)>,
    a: Seq<(String, RefOr<PathItem>)>,
    b: Seq<(String, RefOr<PathItem>)>,
) -> bool {
    &&& r.len() == a.len() + fresh_entries(a, b).len()
    &&& forall|i: int| 0 <= i < a.len() ==> {
        &&& (#[trigger] r[i]).0 == a[i].0
        &&& if has_key(b, a[i].0@) {
            entry_merged(r[i].1, a[i].1, value_of(b, a[i].0@))
        } else {
            r[i].1 == a[i].1
        }
    }
    &&& forall|j: int| 0 <= j < fresh_entries(a, b).len() ==> r[a.len() + j] == #[trigger] fresh_entries(a, b)[j]
}

/// The paths of a document, each an inline item or a reference, and the
/// document's extensions at that level.
#[derive(Debug, Clone, PartialEq)]
pub struct Paths {
    pub paths: OrderedMap<RefOr<PathItem>>,
    pub extensions: Extensions,
}

impl Paths {
    pub fn new() -> (r: Self)
        ensures
            r.paths@.len() == 0,
            extension_entries(r.extensions).len() == 0,
    {
        Paths { paths: OrderedMap::new(), extensions: new_extensions() }
    }

    /// Stores `path_item` inline under `key`, replacing what stood there,
    /// which is returned.
    pub fn insert(&mut self, key: String, path_item: PathItem) -> (r: Option<RefOr<PathItem>>)
        ensures
            final(self).extensions == old(self).extensions,
            has_key(old(self).paths@, key@) ==> exists|i: int|
                0 <= i < old(self).paths@.len() && old(self).paths@[i].0@ == key@
                    && r == Some(old(self).paths@[i].1)
                    && final(self).paths@ == old(self).paths@.update(i, (old(self).paths@[i].0, RefOr::Item(path_item))),
            !has_key(old(self).paths@, key@) ==> r is None
                && final(self).paths@ == old(self).paths@.push((key, RefOr::Item(path_item))),
    {
        self.paths.insert(key, RefOr::Item(path_item))
    }

    /// Puts `operation` in the slot of `method` at `path`, creating an empty
    /// inline item there if the path is new, and returns what the slot held.
    /// A path given as a reference is not followed.
    pub fn insert_operation(&mut self, path: String, method: HttpMethod, operation: Operation) -> (r: Option<Operation>)
        requires
            has_key(old(self).paths@, path@) ==> value_of(old(self).paths@, path@) is Item,
        ensures
            final(self).extensions == old(self).extensions,
            has_key(old(self).paths@, path@) ==> exists|i: int|
                0 <= i < old(self).paths@.len() && old(self).paths@[i].0@ == path@
                    && r == old(self).paths@[i].1->Item_0.slot(method)
                    && final(self).paths@ == old(self).paths@.update(i, (old(self).paths@[i].0,
                        RefOr::Item(old(self).paths@[i].1->Item_0.with_slot(method, Some(operation))))),
            !has_key(old(self).paths@, path@) ==> r is None && exists|p: PathItem|
                p.with_slot(method, None).is_blank() && p.slot(method) == Some(operation)
                    && final(self).paths@ == old(self).paths@.push((path, RefOr::Item(p))),
    {
        match self.paths.index_of(&path) {
            Some(i) => {
                proof { lemma_value_of(self.paths@, i as int); }
                let placeholder = RefOr::Reference { reference: String::new() };
                let current = self.paths.replace_at(i, placeholder);
                match current {
                    RefOr::Item(mut item) => {
                        let previous = item.replace(method, Some(operation));
                        self.paths.replace_at(i, RefOr::Item(item));
                        previous
                    },
                    current => {
                        self.paths.replace_at(i, current);
                        None
                    },
                }
            },
            None => {
                let mut item = PathItem::new();
                let ghost blank = item;
                item.replace(method, Some(operation));
                proof {
                    let b = item.with_slot(method, None);
                    assert forall|m: HttpMethod| #[trigger] b.slot(m) is None by {
                        assert(blank.slot(m) is None);
                    }
                    assert(b.is_blank());
                    assert(item.slot(method) == Some(operation));
                }
                let ghost p = item;
                self.paths.insert(path, RefOr::Item(item));
                assert(p.with_slot(method, None).is_blank() && p.slot(method) == Some(operation));
                None
            },
        }
    }
}

impl Default for PathItem {
    fn default() -> (r: Self)
        ensures
            r.is_blank(),
    {
        PathItem::new()
    }
}

impl Default for Paths {
    fn default() -> (r: Self)
        ensures
            r.paths@.len() == 0,
            extension_entries(r.extensions).len() == 0,
    {
        Paths::new()
    }
}

/// True when `key` names a path: it begins with `/`. Among the keys of a
/// paths object, the others are extensions.
pub open spec fn path_key(key: Seq<char>) -> bool {
    key.len() > 0 && key[0] == '/'
}

/// Whether `key`, a key of a paths object, names a path.
pub fn is_path_key(key: &str) -> (r: bool)
    ensures
        r == path_key(key@),
{
    broadcast use vstd::string::axiom_spec_iter, vstd::string::next_postcondition;
    let mut chars = key.chars();
    match chars.next() {
        Some(c) => c == '/',
        None => false,
    }
}

/// Splits the entries of a paths object, in one pass, into those under path
/// keys and the extensions, each in their order.
pub fn split_paths_object(entries: Vec<(String, serde_json::Value)>) -> (r: (Vec<(String, serde_json::Value)>, Extensions))
    requires
        keys_unique(entries@),
    ensures
        r.0@ == entries@.filter(|e: (String, serde_json::Value)| path_key(e.0@)),
        extension_entries(r.1) == entries@.filter(|e: (String, serde_json::Value)| !path_key(e.0@)),
{
    let ghost src = entries@;
    let ghost is_path = |e: (String, serde_json::Value)| path_key(e.0@);
    let ghost is_ext = |e: (String, serde_json::Value)| !path_key(e.0@);
    let mut rest = entries;
    let mut paths: Vec<(String, serde_json::Value)> = Vec::new();
    let mut extensions = new_extensions();
    let mut k: usize = 0;
    assert(src.len() == rest.len());
    proof {
        reveal(Seq::filter);
        assert(src.take(0).filter(is_path) =~= Seq::<(String, serde_json::Value)>::empty());
        assert(src.take(0).filter(is_ext) =~= Seq::<(String, serde_json::Value)>::empty());
        assert(rest@ =~= src.skip(0));
    }
    while rest.len() > 0
        invariant
            k + rest@.len() == src.len(),
            src.len() <= usize::MAX,
            keys_unique(src),
            rest@ == src.skip(k as int),
            is_path == (|e: (String, serde_json::Value)| path_key(e.0@)),
            is_ext == (|e: (String, serde_json::Value)| !path_key(e.0@)),
            paths@ == src.take(k as int).filter(is_path),
            extension_entries(extensions) == src.take(k as int).filter(is_ext),
        decreases rest@.len(),
    {
        let entry = rest.remove(0);
        let (key, value) = entry;
        proof {
            assert(src.take(k + 1) =~= src.take(k as int).push(src[k as int]));
            src.take(k as int).lemma_filter_push(src[k as int], is_path);
            src.take(k as int).lemma_filter_push(src[k as int], is_ext);
            assert(rest@ =~= src.skip(k + 1));
        }
        if is_path_key(key.as_str()) {
            paths.push((key, value));
        } else {
            proof {
                let cur = extension_entries(extensions);
                if has_key(cur, key@) {
                    let i = choose|i: int| 0 <= i < cur.len() && (#[trigger] cur[i]).0@ == key@;
                    assert(cur.contains(cur[i]));
                    src.take(k as int).lemma_filter_contains_rev(is_ext, cur[i]);
                    let j = choose|j: int| 0 <= j < k && src.take(k as int)[j] == cur[i];
                    assert(src[j].0@ == src[k as int].0@);
                }
            }
            extensions_insert(&mut extensions, key, value);
        }
        k = k + 1;
    }
    proof {
        assert(src.take(k as int) =~= src);
    }
    (paths, extensions)
}

/// Merges the incoming paths `other` into `original`, which has no conflict
/// with them.
pub fn merge_paths(original: &mut OrderedMap<RefOr<PathItem>>, other: OrderedMap<RefOr<PathItem>>)
    requires
        paths_conflict(old(original)@, other@) is None,
    ensures
        paths_merged(final(original)@, old(original)@, other@),
{
    let ghost a = original@;
    let n0 = original.len();
    let mut rest = other.into_entries();
    let ghost b = rest@;
    assert(b.len() == rest.len());
    let ghost pred = |e: (String, RefOr<PathItem>)| !has_key(a, e.0@);
    let mut k: usize = 0;
    proof {
        assert(b.take(0).filter(pred) =~= Seq::<(String, RefOr<PathItem>)>::empty()) by {
            reveal(Seq::filter);
        }
        assert(rest@ =~= b.skip(0));
        assert(b.skip(0) =~= b);
        assert(original@ =~= a + fresh_entries(a, b.take(0)));
    }
    while rest.len() > 0
        invariant
            k + rest@.len() == b.len(),
            b.len() <= usize::MAX,
            n0 == a.len(),
            keys_unique(a),
            keys_unique(b),
            rest@ == b.skip(k as int),
            paths_conflict(a, b.skip(k as int)) is None,
            pred == (|e: (String, RefOr<PathItem>)| !has_key(a, e.0@)),
            paths_merged(original@, a, b.take(k as int)),
        decreases rest@.len(),
    {
        let ghost cur = original@;
        let ghost bk = b.take(k as int);
        let ghost bk1 = b.take(k + 1);
        let entry = rest.remove(0);
        let (key, value) = entry;
        proof {
            assert(b.skip(k as int)[0] == b[k as int]);
            assert(b.skip(k as int).drop_first() =~= b.skip(k + 1));
            assert(rest@ =~= b.skip(k + 1));
            assert(bk1 =~= bk.push(b[k as int]));
            bk.lemma_filter_push(b[k as int], pred);
            assert(keys_unique(bk1));
            assert(keys_unique(bk));
            assert(!has_key(bk, key@)) by {
                if has_key(bk, key@) {
                    let j = choose|j: int| 0 <= j < bk.len() && (#[trigger] bk[j]).0@ == key@;
                    assert(b[j].0@ == b[k as int].0@);
                }
            }
            assert(value_of(bk1, key@) == value) by {
                lemma_value_of(bk1, k as int);
            }
            // Entries of `a` under other keys see the same value in both prefixes.
            assert forall|i: int| 0 <= i < a.len() && a[i].0@ != key@ implies
                has_key(bk1, (#[trigger] a[i]).0@) == has_key(bk, a[i].0@)
                && (has_key(bk, a[i].0@) ==> value_of(bk1, a[i].0@) == value_of(bk, a[i].0@)) by {
                if has_key(bk1, a[i].0@) {
                    let j = choose|j: int| 0 <= j < bk1.len() && (#[trigger] bk1[j]).0@ == a[i].0@;
                    assert(j < k);
                    assert(bk[j] == bk1[j]);
                    lemma_value_of(bk1, j);
                    lemma_value_of(bk, j);
                }
                if has_key(bk, a[i].0@) {
                    let j = choose|j: int| 0 <= j < bk.len() && (#[trigger] bk[j]).0@ == a[i].0@;
                    assert(bk[j] == bk1[j]);
                }
            }
        }
        match original.index_of(&key) {
            Some(i) => {
                proof {
                    if i >= n0 {
                        lemma_fresh_from(a, bk, i - n0);
                        let j = choose|j: int| 0 <= j < bk.len() && bk[j] == fresh_entries(a, bk)[i - n0];
                        assert(bk[j].0@ == key@);
                    }
                    assert(i < n0);
                    assert(has_key(a, key@));
                    lemma_value_of(a, i as int);
                    assert(cur[i as int].1 == a[i as int].1);
                    assert(entry_conflict(a, b[k as int]) is None);
                    assert(fresh_entries(a, bk1) =~= fresh_entries(a, bk));
                }
                let placeholder = RefOr::Reference { reference: String::new() };
                let mine = original.replace_at(i, placeholder);
                match (mine, value) {
                    (RefOr::Item(x), RefOr::Item(y)) => {
                        let merged = merge_items(x, y);
                        original.replace_at(i, RefOr::Item(merged));
                    },
                    (mine, _) => {
                        original.replace_at(i, mine);
                    },
                }
                proof {
                    assert forall|i2: int| 0 <= i2 < a.len() implies {
                        &&& (#[trigger] original@[i2]).0 == a[i2].0
                        &&& if has_key(bk1, a[i2].0@) {
                            entry_merged(original@[i2].1, a[i2].1, value_of(bk1, a[i2].0@))
                        } else {
                            original@[i2].1 == a[i2].1
                        }
                    } by {
                        if i2 != i {
                            assert(a[i2].0@ != key@);
                            assert(original@[i2] == cur[i2]);
                        } else {
                            assert(bk1[k as int].0@ == key@);
                            assert(has_key(bk1, a[i2].0@));
                        }
                    }
                    assert forall|j: int| 0 <= j < fresh_entries(a, bk1).len() implies
                        original@[a.len() + j] == #[trigger] fresh_entries(a, bk1)[j] by {
                        assert(original@[a.len() + j] == cur[a.len() + j]);
                    }
                }
            },
            None => {
                proof {
                    assert(!has_key(a, key@)) by {
                        if has_key(a, key@) {
                            let j = choose|j: int| 0 <= j < a.len() && (#[trigger] a[j]).0@ == key@;
                            assert(cur[j].0@ == key@);
                        }
                    }
                    assert(fresh_entries(a, bk1) =~= fresh_entries(a, bk).push(b[k as int]));
                }
                original.insert(key, value);
                proof {
                    assert forall|i2: int| 0 <= i2 < a.len() implies {
                        &&& (#[trigger] original@[i2]).0 == a[i2].0
                        &&& if has_key(bk1, a[i2].0@) {
                            entry_merged(original@[i2].1, a[i2].1, value_of(bk1, a[i2].0@))
                        } else {
                            original@[i2].1 == a[i2].1
                        }
                    } by {
                        assert(a[i2].0@ != key@);
                        assert(original@[i2] == cur[i2]);
                    }
                    assert forall|j: int| 0 <= j < fresh_entries(a, bk1).len() implies
                        original@[a.len() + j] == #[trigger] fresh_entries(a, bk1)[j] by {
                        if j < fresh_entries(a, bk).len() {
                            assert(original@[a.len() + j] == cur[a.len() + j]);
                        }
                    }
                }
            },
        }
        k = k + 1;
    }
    proof {
        assert(b.take(k as int) =~= b);
    }
}

} // verus!
