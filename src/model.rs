//! The leaf entities of a document: plain data with known field sets.
use vstd::prelude::*;

use crate::ext::{extension_entries, extensions_len, new_extensions, Extensions};
use crate::map::OrderedMap;

verus! {

/// A value given in place, or a pointer to a shared definition elsewhere in
/// the document.
#[derive(Debug, Clone, PartialEq)]
pub enum RefOr<T> {
    Reference { reference: String },
    Item(T),
}

impl<T> RefOr<T> {
    pub fn as_item(&self) -> (r: Option<&T>)
        ensures
            self is Item <==> r is Some,
            r matches Some(v) ==> self == &RefOr::<T>::Item(*v),
    {
        match self {
            RefOr::Item(v) => Some(v),
            RefOr::Reference { .. } => None,
        }
    }

    pub fn into_item(self) -> (r: Option<T>)
        ensures
            self is Item <==> r is Some,
            r matches Some(v) ==> self == RefOr::<T>::Item(v),
    {
        match self {
            RefOr::Item(v) => Some(v),
            RefOr::Reference { .. } => None,
        }
    }
}

/// A server that the API is reachable at; its identity is its `url`.
#[derive(Debug, Clone, PartialEq)]
pub struct Server {
    pub url: String,
    pub description: Option<String>,
    pub variables: OrderedMap<serde_json::Value>,
    pub extensions: Extensions,
}

/// The description of one HTTP method on one path.
#[derive(Debug, Clone, PartialEq)]
pub struct Operation {
    pub operation_id: Option<String>,
    pub summary: Option<String>,
    pub description: Option<String>,
    pub tags: Vec<String>,
    pub extensions: Extensions,
}

/// A parameter shared by the operations of a path.
#[derive(Debug, Clone, PartialEq)]
pub struct Parameter {
    pub name: String,
    pub location: String,
    pub description: Option<String>,
    pub required: bool,
    pub extensions: Extensions,
}

/// Metadata about the API.
#[derive(Debug, Clone, PartialEq)]
pub struct Info {
    pub title: String,
    pub description: Option<String>,
    pub version: String,
    pub extensions: Extensions,
}

/// A pointer to documentation kept elsewhere.
#[derive(Debug, Clone, PartialEq)]
pub struct ExternalDocumentation {
    pub description: Option<String>,
    pub url: String,
    pub extensions: Extensions,
}

/// A tag with metadata; its identity is its `name`.
#[derive(Debug, Clone, PartialEq)]
pub struct Tag {
    pub name: String,
    pub description: Option<String>,
    pub external_docs: Option<ExternalDocumentation>,
    pub extensions: Extensions,
}

/// Scheme names, each with its list of scopes.
pub type SecurityRequirement = OrderedMap<Vec<String>>;

/// The document's named, reusable definitions.
#[derive(Debug, Clone, PartialEq)]
pub struct Components {
    pub schemas: OrderedMap<RefOr<serde_json::Value>>,
    pub responses: OrderedMap<RefOr<serde_json::Value>>,
    pub parameters: OrderedMap<RefOr<Parameter>>,
    pub examples: OrderedMap<RefOr<serde_json::Value>>,
    pub request_bodies: OrderedMap<RefOr<serde_json::Value>>,
    pub headers: OrderedMap<RefOr<serde_json::Value>>,
    pub security_schemes: OrderedMap<RefOr<serde_json::Value>>,
    pub links: OrderedMap<RefOr<serde_json::Value>>,
    pub callbacks: OrderedMap<RefOr<serde_json::Value>>,
    pub extensions: Extensions,
}

impl Components {
    /// True when every collection is empty.
    pub open spec fn is_empty_spec(self) -> bool {
        &&& self.schemas@.len() == 0
        &&& self.responses@.len() == 0
        &&& self.parameters@.len() == 0
        &&& self.examples@.len() == 0
        &&& self.request_bodies@.len() == 0
        &&& self.headers@.len() == 0
        &&& self.security_schemes@.len() == 0
        &&& self.links@.len() == 0
        &&& self.callbacks@.len() == 0
        &&& extension_entries(self.extensions).len() == 0
    }

    pub fn new() -> (r: Self)
        ensures
            r.is_empty_spec(),
    {
        Components {
            schemas: OrderedMap::new(),
            responses: OrderedMap::new(),
            parameters: OrderedMap::new(),
            examples: OrderedMap::new(),
            request_bodies: OrderedMap::new(),
            headers: OrderedMap::new(),
            security_schemes: OrderedMap::new(),
            links: OrderedMap::new(),
            callbacks: OrderedMap::new(),
            extensions: new_extensions(),
        }
    }

    /// True when every collection is empty.
    pub fn is_empty(&self) -> (r: bool)
        ensures
            r == self.is_empty_spec(),
    {
        self.schemas.is_empty() && self.responses.is_empty() && self.parameters.is_empty()
            && self.examples.is_empty() && self.request_bodies.is_empty()
            && self.headers.is_empty() && self.security_schemes.is_empty()
            && self.links.is_empty() && self.callbacks.is_empty()
            && extensions_len(&self.extensions) == 0
    }
}

impl Default for Server {
    fn default() -> (r: Self)
        ensures
            r.url@.len() == 0,
            r.description is None,
            r.variables@.len() == 0,
            extension_entries(r.extensions).len() == 0,
    {
        Server { url: String::new(), description: None, variables: OrderedMap::new(), extensions: new_extensions() }
    }
}

impl Default for Operation {
    fn default() -> (r: Self)
        ensures
            r.operation_id is None,
            r.summary is None,
            r.description is None,
            r.tags@.len() == 0,
            extension_entries(r.extensions).len() == 0,
    {
        Operation { operation_id: None, summary: None, description: None, tags: Vec::new(), extensions: new_extensions() }
    }
}

impl Default for Parameter {
    fn default() -> (r: Self)
        ensures
            r.name@.len() == 0,
            r.location@.len() == 0,
            r.description is None,
            !r.required,
            extension_entries(r.extensions).len() == 0,
    {
        Parameter { name: String::new(), location: String::new(), description: None, required: false, extensions: new_extensions() }
    }
}

impl Default for Info {
    fn default() -> (r: Self)
        ensures
            r.title@.len() == 0,
            r.description is None,
            r.version@.len() == 0,
            extension_entries(r.extensions).len() == 0,
    {
        Info { title: String::new(), description: None, version: String::new(), extensions: new_extensions() }
    }
}

impl Default for Tag {
    fn default() -> (r: Self)
        ensures
            r.name@.len() == 0,
            r.description is None,
            r.external_docs is None,
            extension_entries(r.extensions).len() == 0,
    {
        Tag { name: String::new(), description: None, external_docs: None, extensions: new_extensions() }
    }
}

impl Default for Components {
    fn default() -> (r: Self)
        ensures
            r.is_empty_spec(),
    {
        Components::new()
    }
}

} // verus!
