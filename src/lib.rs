//! An in-memory model of an HTTP API description document, and a merge of
//! two such documents into one.

pub mod ext;
pub mod map;
pub mod model;
pub mod merge;
pub mod paths;
pub mod openapi;
pub mod laws;

pub use ext::{merge_extensions, Extensions};
pub use map::{merge_map, OrderedMap};
pub use merge::{merge_vec, option_or, ConflictKind, Identity, MergeError};
pub use model::{
    Components, ExternalDocumentation, Info, Operation, Parameter, RefOr,
    SecurityRequirement, Server, Tag,
};
pub use openapi::OpenAPI;
pub use paths::{is_path_key, split_paths_object, HttpMethod, PathItem, Paths};

