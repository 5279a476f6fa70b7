//! The document aggregate and the merge of two documents.
use vstd::prelude::*;

use crate::ext::{extension_entries, merge_extensions, new_extensions, Extensions};
use crate::map::{merge_map, union_entries, OrderedMap};
use crate::merge::{conflict_message, distinct, first_seen, merge_unique, merge_vec, unknown_items, MergeError};
use crate::model::{
    Components, ExternalDocumentation, Info, Operation, Parameter, RefOr, SecurityRequirement, Server, Tag,
};
use crate::paths::{check_paths, conflict_path, merge_paths, paths_conflict, paths_merged, HttpMethod, PathItem, Paths};

verus! {

/// The root object describing an entire API surface.
#[derive(Debug, Clone, PartialEq)]
pub struct OpenAPI {
    pub openapi: String,
    pub info: Info,
    pub servers: Vec<Server>,
    pub paths: Paths,
    pub components: Components,
    pub security: Vec<SecurityRequirement>,
    pub tags: Vec<Tag>,
    pub external_docs: Option<ExternalDocumentation>,
    pub extensions: Extensions,
}

/// `r` is the merge of the component registries `a` (original) and `b`.
pub open spec fn components_merged(r: Components, a: Components, b: Components) -> bool {
    &&& r.schemas@ == union_entries(a.schemas@, b.schemas@)
    &&& r.responses@ == union_entries(a.responses@, b.responses@)
    &&& r.parameters@ == union_entries(a.parameters@, b.parameters@)
    &&& r.examples@ == union_entries(a.examples@, b.examples@)
    &&& r.request_bodies@ == union_entries(a.request_bodies@, b.request_bodies@)
    &&& r.headers@ == union_entries(a.headers@, b.headers@)
    &&& r.security_schemes@ == union_entries(a.security_schemes@, b.security_schemes@)
    &&& r.links@ == union_entries(a.links@, b.links@)
    &&& r.callbacks@ == union_entries(a.callbacks@, b.callbacks@)
    &&& extension_entries(r.extensions) == union_entries(extension_entries(a.extensions), extension_entries(b.extensions))
}

/// The extensions of an optional external documentation, none when absent.
pub open spec fn docs_extensions(d: Option<ExternalDocumentation>) -> Seq<(String, serde_json::Value)> {
    match d {
        Some(x) => extension_entries(x.extensions),
        None => Seq::empty(),
    }
}

/// `r` is the external documentation merged from `a` (original) and `b`.
pub open spec fn docs_merged(r: Option<ExternalDocumentation>, a: Option<ExternalDocumentation>, b: Option<ExternalDocumentation>) -> bool {
    match a {
        None => r == b,
        Some(x) => match r {
            Some(y) => y.description == x.description && y.url == x.url
                && extension_entries(y.extensions) == union_entries(extension_entries(x.extensions), docs_extensions(b)),
            None => false,
        },
    }
}

/// `r` is the document `b` (incoming) merged into `a` (original), where `a`
/// wins every conflict.
pub open spec fn doc_merged(r: OpenAPI, a: OpenAPI, b: OpenAPI) -> bool {
    &&& r.openapi == a.openapi
    &&& r.info.title == a.info.title
    &&& r.info.description == a.info.description
    &&& r.info.version == a.info.version
    &&& extension_entries(r.info.extensions) == union_entries(extension_entries(a.info.extensions), extension_entries(b.info.extensions))
    &&& r.servers@ == a.servers@ + unknown_items(a.servers@, b.servers@)
    &&& paths_merged(r.paths.paths@, a.paths.paths@, b.paths.paths@)
    &&& extension_entries(r.paths.extensions) == union_entries(extension_entries(a.paths.extensions), extension_entries(b.paths.extensions))
    &&& components_merged(r.components, a.components, b.components)
    &&& r.security@ == a.security@ + unknown_items(a.security@, b.security@)
    &&& r.tags@ == first_seen(a.tags@, b.tags@)
    &&& docs_merged(r.external_docs, a.external_docs, b.external_docs)
    &&& extension_entries(r.extensions) == union_entries(extension_entries(a.extensions), extension_entries(b.extensions))
}

/// The outcome of merging `b` into `a`: it fails with the first conflict
/// among the paths that both share, and otherwise yields their merge.
pub open spec fn merge_outcome(r: Result<OpenAPI, MergeError>, a: OpenAPI, b: OpenAPI) -> bool {
    match r {
        Ok(d) => paths_conflict(a.paths.paths@, b.paths.paths@) is None && doc_merged(d, a, b),
        Err(e) => paths_conflict(a.paths.paths@, b.paths.paths@) == Some(e.kind)
            && e.path@ == conflict_path(a.paths.paths@, b.paths.paths@)
            && e.message@ == conflict_message(e.kind, e.path@),
    }
}

/// Every operation of the inline items of `s`, in the order of the paths and
/// then of the methods, as the position of its path and its method.
pub open spec fn operations_of(s: Seq<(String, RefOr<PathItem>)>) -> Seq<(int, HttpMethod)>
    decreases s.len(),
{
    if s.len() == 0 {
        Seq::empty()
    } else {
        let n = s.len() - 1;
        operations_of(s.drop_last()) + match s.last().1 {
            RefOr::Item(p) => p.occupied().map_values(|m: HttpMethod| (n, m)),
            RefOr::Reference { .. } => Seq::empty(),
        }
    }
}

/// The operation `o` carries the identifier `id`.
pub open spec fn has_id(o: Operation, id: Seq<char>) -> bool {
    o.operation_id matches Some(x) && x@ == id
}

/// Merges the registry `other` into `original`, which wins on shared names.
fn merge_components(original: &mut Components, other: Components)
    ensures
        components_merged(*final(original), *old(original), other),
{
    merge_map(&mut original.schemas, other.schemas);
    merge_map(&mut original.responses, other.responses);
    merge_map(&mut original.parameters, other.parameters);
    merge_map(&mut original.examples, other.examples);
    merge_map(&mut original.request_bodies, other.request_bodies);
    merge_map(&mut original.headers, other.headers);
    merge_map(&mut original.security_schemes, other.security_schemes);
    merge_map(&mut original.links, other.links);
    merge_map(&mut original.callbacks, other.callbacks);
    merge_extensions(&mut original.extensions, other.extensions);
}

impl Default for OpenAPI {
    fn default() -> (r: Self)
        ensures
            r.openapi@ == seq!['3', '.', '0', '.', '3'],
            r.info.title@.len() == 0,
            r.info.description is None,
            r.info.version@.len() == 0,
            extension_entries(r.info.extensions).len() == 0,
            r.servers@.len() == 0,
            r.paths.paths@.len() == 0,
            extension_entries(r.paths.extensions).len() == 0,
            r.components.is_empty_spec(),
            r.security@.len() == 0,
            r.tags@.len() == 0,
            r.external_docs is None,
            extension_entries(r.extensions).len() == 0,
    {
        proof { reveal_strlit("3.0.3"); }
        OpenAPI {
            openapi: "3.0.3".to_owned(),
            info: Info::default(),
            servers: Vec::new(),
            paths: Paths::new(),
            components: Components::new(),
            security: Vec::new(),
            tags: Vec::new(),
            external_docs: None,
            extensions: new_extensions(),
        }
    }
}

impl OpenAPI {
    /// The registry's schemas.
    pub fn schemas(&self) -> (r: &OrderedMap<RefOr<serde_json::Value>>)
        ensures
            *r == self.components.schemas,
    {
        &self.components.schemas
    }

    /// The registry's responses.
    pub fn responses(&self) -> (r: &OrderedMap<RefOr<serde_json::Value>>)
        ensures
            *r == self.components.responses,
    {
        &self.components.responses
    }

    /// The registry's parameters.
    pub fn parameters(&self) -> (r: &OrderedMap<RefOr<Parameter>>)
        ensures
            *r == self.components.parameters,
    {
        &self.components.parameters
    }

    /// The registry's examples.
    pub fn examples(&self) -> (r: &OrderedMap<RefOr<serde_json::Value>>)
        ensures
            *r == self.components.examples,
    {
        &self.components.examples
    }

    /// The registry's request bodies.
    pub fn request_bodies(&self) -> (r: &OrderedMap<RefOr<serde_json::Value>>)
        ensures
            *r == self.components.request_bodies,
    {
        &self.components.request_bodies
    }

    /// The registry's headers.
    pub fn headers(&self) -> (r: &OrderedMap<RefOr<serde_json::Value>>)
        ensures
            *r == self.components.headers,
    {
        &self.components.headers
    }

    /// The registry's security schemes.
    pub fn security_schemes(&self) -> (r: &OrderedMap<RefOr<serde_json::Value>>)
        ensures
            *r == self.components.security_schemes,
    {
        &self.components.security_schemes
    }

    /// The registry's links.
    pub fn links(&self) -> (r: &OrderedMap<RefOr<serde_json::Value>>)
        ensures
            *r == self.components.links,
    {
        &self.components.links
    }

    /// The registry's callbacks.
    pub fn callbacks(&self) -> (r: &OrderedMap<RefOr<serde_json::Value>>)
        ensures
            *r == self.components.callbacks,
    {
        &self.components.callbacks
    }

    /// Every operation of every inline path item, in path order and then in
    /// canonical method order, with its path, the name of its method, and its
    /// path item. Paths given as references are skipped.
    pub fn operations(&self) -> (r: Vec<(&str, &'static str, &Operation, &PathItem)>)
        ensures
            r@.len() == operations_of(self.paths.paths@).len(),
            forall|i: int| 0 <= i < r@.len() ==> {
                let (k, m) = operations_of(self.paths.paths@)[i];
                &&& 0 <= k < self.paths.paths@.len()
                &&& (#[trigger] r@[i]).0@ == self.paths.paths@[k].0@
                &&& r@[i].1@ == m.name()
                &&& self.paths.paths@[k].1 == RefOr::Item(*r@[i].3)
                &&& r@[i].3.slot(m) == Some(*r@[i].2)
            },
    {
        let ghost s = self.paths.paths@;
        let mut r: Vec<(&str, &'static str, &Operation, &PathItem)> = Vec::new();
        let mut k: usize = 0;
        while k < self.paths.paths.len()
            invariant
                s == self.paths.paths@,
                k <= s.len(),
                r@.len() == operations_of(s.take(k as int)).len(),
                forall|i: int| 0 <= i < r@.len() ==> {
                    let (k2, m) = operations_of(s.take(k as int))[i];
                    &&& 0 <= k2 < k
                    &&& (#[trigger] r@[i]).0@ == s[k2].0@
                    &&& r@[i].1@ == m.name()
                    &&& s[k2].1 == RefOr::Item(*r@[i].3)
                    &&& r@[i].3.slot(m) == Some(*r@[i].2)
                },
            decreases s.len() - k,
        {
            let entry = self.paths.paths.entry(k);
            let ghost before = r@;
            proof {
                assert(s.take(k + 1).drop_last() =~= s.take(k as int));
                assert(s.take(k + 1).last() == s[k as int]);
            }
            match &entry.1 {
                RefOr::Item(item) => {
                    let ops = item.iter();
                    let mut j: usize = 0;
                    while j < ops.len()
                        invariant
                            s == self.paths.paths@,
                            k < s.len(),
                            *entry == s[k as int],
                            s[k as int].1 == RefOr::Item(*item),
                            ops@.len() == item.occupied().len(),
                            forall|i: int| 0 <= i < ops@.len() ==> {
                                &&& (#[trigger] ops@[i]).0@ == item.occupied()[i].name()
                                &&& item.slot(item.occupied()[i]) == Some(*ops@[i].1)
                            },
                            j <= ops@.len(),
                            r@.len() == before.len() + j,
                            forall|i: int| 0 <= i < before.len() ==> r@[i] == before[i],
                            forall|i: int| 0 <= i < j ==> {
                                &&& (#[trigger] r@[before.len() + i]).0@ == s[k as int].0@
                                &&& r@[before.len() + i].1 == ops@[i].0
                                &&& r@[before.len() + i].2 == ops@[i].1
                                &&& r@[before.len() + i].3 == item
                            },
                        decreases ops@.len() - j,
                    {
                        r.push((entry.0.as_str(), ops[j].0, ops[j].1, item));
                        j = j + 1;
                    }
                    proof {
                        let t = operations_of(s.take(k + 1));
                        assert(t =~= operations_of(s.take(k as int)) + item.occupied().map_values(|m: HttpMethod| (k as int, m)));
                        assert forall|i: int| 0 <= i < r@.len() implies {
                            let (k2, m) = t[i];
                            &&& 0 <= k2 < k + 1
                            &&& (#[trigger] r@[i]).0@ == s[k2].0@
                            &&& r@[i].1@ == m.name()
                            &&& s[k2].1 == RefOr::Item(*r@[i].3)
                            &&& r@[i].3.slot(m) == Some(*r@[i].2)
                        } by {
                            if i < before.len() {
                                assert(t[i] == operations_of(s.take(k as int))[i]);
                                assert(r@[i] == before[i]);
                            } else {
                                let i2 = i - before.len();
                                assert(t[i] == (k as int, item.occupied()[i2]));
                                assert(r@[before.len() + i2] == r@[i]);
                                assert(ops@[i2].0@ == item.occupied()[i2].name());
                            }
                        }
                    }
                },
                RefOr::Reference { .. } => {
                    proof {
                        assert(operations_of(s.take(k + 1)) =~= operations_of(s.take(k as int)));
                    }
                },
            }
            k = k + 1;
        }
        proof {
            assert(s.take(k as int) =~= s);
        }
        r
    }

    /// The first operation, in the order of `operations`, whose identifier is
    /// `operation_id`, with its path item. Every operation must carry a
    /// non-empty identifier.
    pub fn get_operation(&self, operation_id: &String) -> (r: Option<(&Operation, &PathItem)>)
        requires
            forall|i: int| 0 <= i < operations_of(self.paths.paths@).len() ==> {
                let (k, m) = #[trigger] operations_of(self.paths.paths@)[i];
                self.paths.paths@[k].1->Item_0.slot(m)->Some_0.operation_id matches Some(x) && x@.len() > 0
            },
        ensures
            r is None <==> forall|i: int| 0 <= i < operations_of(self.paths.paths@).len() ==> {
                let (k, m) = #[trigger] operations_of(self.paths.paths@)[i];
                !has_id(self.paths.paths@[k].1->Item_0.slot(m)->Some_0, operation_id@)
            },
            r matches Some((op, item)) ==> exists|i: int| 0 <= i < operations_of(self.paths.paths@).len() && {
                let (k, m) = #[trigger] operations_of(self.paths.paths@)[i];
                &&& self.paths.paths@[k].1 == RefOr::Item(*item)
                &&& item.slot(m) == Some(*op)
                &&& has_id(*op, operation_id@)
                &&& forall|i2: int| 0 <= i2 < i ==> {
                    let (k2, m2) = #[trigger] operations_of(self.paths.paths@)[i2];
                    !has_id(self.paths.paths@[k2].1->Item_0.slot(m2)->Some_0, operation_id@)
                }
            },
    {
        let ops = self.operations();
        let mut i: usize = 0;
        while i < ops.len()
            invariant
                i <= ops@.len(),
                ops@.len() == operations_of(self.paths.paths@).len(),
                forall|i: int| 0 <= i < ops@.len() ==> {
                    let (k, m) = operations_of(self.paths.paths@)[i];
                    &&& 0 <= k < self.paths.paths@.len()
                    &&& (#[trigger] ops@[i]).0@ == self.paths.paths@[k].0@
                    &&& ops@[i].1@ == m.name()
                    &&& self.paths.paths@[k].1 == RefOr::Item(*ops@[i].3)
                    &&& ops@[i].3.slot(m) == Some(*ops@[i].2)
                },
                forall|i2: int| 0 <= i2 < i ==> {
                    let (k2, m2) = #[trigger] operations_of(self.paths.paths@)[i2];
                    !has_id(self.paths.paths@[k2].1->Item_0.slot(m2)->Some_0, operation_id@)
                },
            decreases ops@.len() - i,
        {
            let (_, _, op, item) = ops[i];
            proof { assert(ops@[i as int].2 == op); }
            let found = match &op.operation_id {
                Some(id) => *id == *operation_id,
                None => false,
            };
            if found {
                return Some((op, item));
            }
            i = i + 1;
        }
        None
    }

    /// Merges `other` into this document, keeping this document's value on
    /// every conflict.
    pub fn merge(self, other: OpenAPI) -> (r: Result<OpenAPI, MergeError>)
        ensures
            merge_outcome(r, self, other),
            r matches Ok(d) ==> (distinct(self.tags@) ==> distinct(d.tags@)),
    {
        let found = check_paths(&self.paths.paths, &other.paths.paths);
        match found {
            Some(e) => return Err(e),
            None => {},
        }
        let mut doc = self;
        let OpenAPI { openapi: _, info, servers, paths, components, security, tags, external_docs, extensions } = other;
        merge_extensions(&mut doc.info.extensions, info.extensions);
        merge_vec(&mut doc.servers, servers);
        merge_paths(&mut doc.paths.paths, paths.paths);
        merge_extensions(&mut doc.paths.extensions, paths.extensions);
        merge_components(&mut doc.components, components);
        merge_vec(&mut doc.security, security);
        proof {
            crate::laws::lemma_tags_union(doc.tags@, tags@);
        }
        merge_unique(&mut doc.tags, tags);
        let mut own_docs = None;
        std::mem::swap(&mut own_docs, &mut doc.external_docs);
        match own_docs {
            Some(mut mine) => {
                match external_docs {
                    Some(theirs) => merge_extensions(&mut mine.extensions, theirs.extensions),
                    None => {
                        proof { assert(union_entries(extension_entries(mine.extensions), Seq::empty()) =~= extension_entries(mine.extensions)) by {
                            reveal(Seq::filter);
                        } }
                    },
                }
                doc.external_docs = Some(mine);
            },
            None => {
                doc.external_docs = external_docs;
            },
        }
        merge_extensions(&mut doc.extensions, extensions);
        Ok(doc)
    }

    /// Merges `other` into this document, keeping `other`'s value on every
    /// conflict: the merge of this document into `other`.
    pub fn merge_overwrite(self, other: OpenAPI) -> (r: Result<OpenAPI, MergeError>)
        ensures
            merge_outcome(r, other, self),
    {
        other.merge(self)
    }
}

} // verus!
