use indexmap::IndexMap;
use openapi_merge::{
    merge_extensions, merge_map, merge_vec, option_or, ConflictKind, ExternalDocumentation, MergeError, OpenAPI,
    Operation, OrderedMap, Parameter, PathItem, RefOr, Server, Tag,
};

fn server(url: &str, description: &str) -> Server {
    Server {
        url: url.to_string(),
        description: Some(description.to_string()),
        ..Server::default()
    }
}

fn tag(name: &str, description: Option<&str>) -> Tag {
    Tag {
        name: name.to_string(),
        description: description.map(|d| d.to_string()),
        ..Tag::default()
    }
}

fn op(id: &str) -> Operation {
    Operation {
        operation_id: Some(id.to_string()),
        ..Operation::default()
    }
}

fn param(name: &str) -> RefOr<Parameter> {
    RefOr::Item(Parameter {
        name: name.to_string(),
        location: "query".to_string(),
        ..Parameter::default()
    })
}

fn with_params(names: &[&str]) -> PathItem {
    PathItem {
        parameters: names.iter().map(|n| param(n)).collect(),
        ..PathItem::default()
    }
}

fn value(s: &str) -> serde_json::Value {
    serde_json::Value::String(s.to_string())
}

fn ext_keys(m: &IndexMap<String, serde_json::Value>) -> Vec<String> {
    m.keys().cloned().collect()
}

fn keys<V>(m: &OrderedMap<V>) -> Vec<String> {
    let mut out = Vec::new();
    for i in 0..m.len() {
        out.push(m.entry(i).0.clone());
    }
    out
}

#[test]
fn test_merge_basic() {
    let mut a = OpenAPI::default();
    a.servers.push(Server {
        url: "http://localhost".to_string(),
        ..Server::default()
    });
    let mut b = OpenAPI::default();
    b.servers.push(Server {
        url: "http://localhost".to_string(),
        ..Server::default()
    });
    a = a.merge(b).unwrap();
    assert_eq!(a.servers.len(), 1);
}

#[test]
fn merge_keeps_original_server_on_equal_url() {
    let mut a = OpenAPI::default();
    a.servers.push(server("http://localhost", "A"));
    let mut b = OpenAPI::default();
    b.servers.push(server("http://localhost", "B"));
    let merged = a.merge(b).unwrap();
    assert_eq!(merged.servers, vec![server("http://localhost", "A")]);
}

#[test]
fn merge_appends_new_servers_in_order() {
    let mut a = OpenAPI::default();
    a.servers.push(server("http://a", "1"));
    a.servers.push(server("http://b", "2"));
    let mut b = OpenAPI::default();
    b.servers.push(server("http://c", "3"));
    b.servers.push(server("http://b", "4"));
    b.servers.push(server("http://d", "5"));
    let merged = a.merge(b).unwrap();
    let urls: Vec<&str> = merged.servers.iter().map(|s| s.url.as_str()).collect();
    assert_eq!(urls, vec!["http://a", "http://b", "http://c", "http://d"]);
    assert_eq!(merged.servers[1].description.as_deref(), Some("2"));
}

#[test]
fn merge_combines_operation_slots_of_shared_path() {
    let mut a = OpenAPI::default();
    a.paths.insert("/pets".to_string(), PathItem::get(op("listPets")));
    let mut b = OpenAPI::default();
    b.paths.insert("/pets".to_string(), PathItem::post(op("createPet")));
    let merged = a.merge(b).unwrap();
    assert_eq!(merged.paths.paths.len(), 1);
    let item = merged.paths.paths.get(&"/pets".to_string()).unwrap().as_item().unwrap();
    assert_eq!(item.get, Some(op("listPets")));
    assert_eq!(item.post, Some(op("createPet")));
}

#[test]
fn merge_keeps_original_operation_in_occupied_slot() {
    let mut a = OpenAPI::default();
    a.paths.insert("/pets".to_string(), PathItem::get(op("listPets")));
    let mut b = OpenAPI::default();
    b.paths.insert("/pets".to_string(), PathItem::get(op("findPets")));
    b.paths.insert("/stores".to_string(), PathItem::get(op("listStores")));
    let merged = a.merge(b).unwrap();
    assert_eq!(keys(&merged.paths.paths), vec!["/pets".to_string(), "/stores".to_string()]);
    let pets = merged.paths.paths.get(&"/pets".to_string()).unwrap().as_item().unwrap();
    assert_eq!(pets.get, Some(op("listPets")));
}

#[test]
fn merge_fails_on_parameter_count_mismatch() {
    let mut a = OpenAPI::default();
    a.paths.insert("/pets".to_string(), with_params(&["limit"]));
    let mut b = OpenAPI::default();
    b.paths.insert("/pets".to_string(), with_params(&["limit", "offset"]));
    let err = a.merge(b).unwrap_err();
    assert_eq!(err.kind, ConflictKind::ParameterCountMismatch);
    assert_eq!(err.path, "/pets");
    assert_eq!(err.to_string(), "PathItem /pets parameters do not have the same length");
}

#[test]
fn merge_fails_on_parameter_name_mismatch() {
    let mut a = OpenAPI::default();
    a.paths.insert("/pets".to_string(), with_params(&["limit"]));
    let mut b = OpenAPI::default();
    b.paths.insert("/pets".to_string(), with_params(&["offset"]));
    let err = a.merge(b).unwrap_err();
    assert_eq!(err.kind, ConflictKind::ParameterNameMismatch);
}

#[test]
fn merge_fails_on_parameter_reference() {
    let mut a = OpenAPI::default();
    a.paths.insert("/pets".to_string(), with_params(&["limit"]));
    let mut b = OpenAPI::default();
    let mut item = PathItem::default();
    item.parameters.push(RefOr::Reference { reference: "#/components/parameters/limit".to_string() });
    b.paths.insert("/pets".to_string(), item);
    let err = a.merge(b).unwrap_err();
    assert_eq!(err.kind, ConflictKind::ParameterReference);
}

#[test]
fn merge_fails_on_shared_path_reference() {
    let mut a = OpenAPI::default();
    a.paths.paths.insert(
        "/pets".to_string(),
        RefOr::Reference { reference: "#/paths/pets".to_string() },
    );
    let mut b = OpenAPI::default();
    b.paths.insert("/pets".to_string(), PathItem::default());
    let err = a.merge(b).unwrap_err();
    assert_eq!(err.kind, ConflictKind::PathItemReference);
}

#[test]
fn merge_inserts_unshared_reference_path_unchanged() {
    let a = OpenAPI::default();
    let mut b = OpenAPI::default();
    let reference = RefOr::Reference { reference: "#/paths/pets".to_string() };
    b.paths.paths.insert("/pets".to_string(), reference.clone());
    let merged = a.merge(b).unwrap();
    assert_eq!(merged.paths.paths.get(&"/pets".to_string()), Some(&reference));
}

#[test]
fn merge_dedups_tags_by_name() {
    let mut a = OpenAPI::default();
    a.tags.push(tag("pet", Some("d1")));
    let mut b = OpenAPI::default();
    b.tags.push(tag("pet", Some("d2")));
    b.tags.push(tag("store", None));
    let merged = a.merge(b).unwrap();
    assert_eq!(merged.tags, vec![tag("pet", Some("d1")), tag("store", None)]);
}

#[test]
fn merge_with_itself_is_identity() {
    let mut a = OpenAPI::default();
    a.servers.push(server("http://localhost", "A"));
    a.tags.push(tag("pet", Some("d1")));
    a.paths.insert("/pets".to_string(), with_params(&["limit"]));
    a.paths.insert_operation("/pets".to_string(), openapi_merge::HttpMethod::Get, op("listPets"));
    a.components.schemas.insert("Pet".to_string(), RefOr::Item(value("object")));
    a.extensions.insert("x-a".to_string(), value("1"));
    let merged = a.clone().merge(a.clone()).unwrap();
    assert_eq!(merged, a);
}

#[test]
fn merge_overwrite_is_merge_with_operands_swapped() {
    let mut a = OpenAPI::default();
    a.servers.push(server("http://localhost", "A"));
    a.components.schemas.insert("Pet".to_string(), RefOr::Item(value("a")));
    let mut b = OpenAPI::default();
    b.servers.push(server("http://localhost", "B"));
    b.components.schemas.insert("Pet".to_string(), RefOr::Item(value("b")));
    let overwritten = a.clone().merge_overwrite(b.clone()).unwrap();
    let swapped = b.merge(a).unwrap();
    assert_eq!(overwritten, swapped);
    assert_eq!(overwritten.servers, vec![server("http://localhost", "B")]);
}

#[test]
fn merge_unions_components_and_extensions_original_wins() {
    let mut a = OpenAPI::default();
    a.components.schemas.insert("Pet".to_string(), RefOr::Item(value("a")));
    a.extensions.insert("x-one".to_string(), value("a"));
    a.info.extensions.insert("x-info".to_string(), value("a"));
    let mut b = OpenAPI::default();
    b.components.schemas.insert("Pet".to_string(), RefOr::Item(value("b")));
    b.components.schemas.insert("Store".to_string(), RefOr::Item(value("b")));
    b.extensions.insert("x-one".to_string(), value("b"));
    b.extensions.insert("x-two".to_string(), value("b"));
    b.info.extensions.insert("x-info".to_string(), value("b"));
    let merged = a.merge(b).unwrap();
    assert_eq!(keys(&merged.components.schemas), vec!["Pet".to_string(), "Store".to_string()]);
    assert_eq!(merged.components.schemas.get(&"Pet".to_string()), Some(&RefOr::Item(value("a"))));
    assert_eq!(merged.extensions.get(&"x-one".to_string()), Some(&value("a")));
    assert_eq!(merged.extensions.get(&"x-two".to_string()), Some(&value("b")));
    assert_eq!(merged.info.extensions.get(&"x-info".to_string()), Some(&value("a")));
}

#[test]
fn merge_dedups_security_by_scheme_names() {
    let mut first = OrderedMap::new();
    first.insert("oauth".to_string(), vec!["read".to_string()]);
    let mut same_schemes = OrderedMap::new();
    same_schemes.insert("oauth".to_string(), vec!["write".to_string()]);
    let mut other = OrderedMap::new();
    other.insert("apiKey".to_string(), Vec::new());
    let mut a = OpenAPI::default();
    a.security.push(first.clone());
    let mut b = OpenAPI::default();
    b.security.push(same_schemes);
    b.security.push(other.clone());
    let merged = a.merge(b).unwrap();
    assert_eq!(merged.security, vec![first, other]);
}

#[test]
fn merge_adopts_external_docs_when_original_has_none() {
    let a = OpenAPI::default();
    let mut b = OpenAPI::default();
    let docs = ExternalDocumentation {
        description: None,
        url: "http://docs".to_string(),
        extensions: IndexMap::new(),
    };
    b.external_docs = Some(docs.clone());
    let merged = a.merge(b).unwrap();
    assert_eq!(merged.external_docs, Some(docs));
}

#[test]
fn merge_keeps_own_external_docs_and_unions_their_extensions() {
    let mut mine = ExternalDocumentation {
        description: Some("mine".to_string()),
        url: "http://mine".to_string(),
        extensions: IndexMap::new(),
    };
    mine.extensions.insert("x-a".to_string(), value("mine"));
    let mut theirs = ExternalDocumentation {
        description: Some("theirs".to_string()),
        url: "http://theirs".to_string(),
        extensions: IndexMap::new(),
    };
    theirs.extensions.insert("x-a".to_string(), value("theirs"));
    theirs.extensions.insert("x-b".to_string(), value("theirs"));
    let mut a = OpenAPI::default();
    a.external_docs = Some(mine);
    let mut b = OpenAPI::default();
    b.external_docs = Some(theirs);
    let docs = a.merge(b).unwrap().external_docs.unwrap();
    assert_eq!(docs.url, "http://mine");
    assert_eq!(docs.description.as_deref(), Some("mine"));
    assert_eq!(ext_keys(&docs.extensions), vec!["x-a".to_string(), "x-b".to_string()]);
    assert_eq!(docs.extensions.get(&"x-a".to_string()), Some(&value("mine")));
}

#[test]
fn merge_vec_drops_items_known_to_original() {
    let mut original = vec![tag("a", None), tag("b", None)];
    merge_vec(&mut original, vec![tag("b", Some("x")), tag("c", None), tag("c", Some("y"))]);
    assert_eq!(original, vec![tag("a", None), tag("b", None), tag("c", None), tag("c", Some("y"))]);
}

#[test]
fn merge_map_keeps_original_values() {
    let mut original: OrderedMap<i32> = OrderedMap::new();
    original.insert("a".to_string(), 1);
    let mut other: OrderedMap<i32> = OrderedMap::new();
    other.insert("b".to_string(), 2);
    other.insert("a".to_string(), 3);
    merge_map(&mut original, other);
    assert_eq!(keys(&original), vec!["a".to_string(), "b".to_string()]);
    assert_eq!(original.get(&"a".to_string()), Some(&1));
    assert_eq!(original.get(&"b".to_string()), Some(&2));
}

#[test]
fn option_or_prefers_original() {
    let mut some = Some(1);
    option_or(&mut some, Some(2));
    assert_eq!(some, Some(1));
    let mut none: Option<i32> = None;
    option_or(&mut none, Some(2));
    assert_eq!(none, Some(2));
    let mut empty: Option<i32> = None;
    option_or(&mut empty, None);
    assert_eq!(empty, None);
}

#[test]
fn merge_error_new_keeps_kind_and_message() {
    let e = MergeError::new(ConflictKind::ParameterReference, "/pets");
    assert_eq!(e.kind, ConflictKind::ParameterReference);
    assert_eq!(e.path, "/pets");
    assert_eq!(
        e.to_string(),
        "PathItem /pets has a parameter reference, which a merge does not follow"
    );
}

#[test]
fn ordered_map_insert_replaces_in_place() {
    let mut m: OrderedMap<i32> = OrderedMap::new();
    assert!(m.is_empty());
    assert_eq!(m.insert("a".to_string(), 1), None);
    assert_eq!(m.insert("b".to_string(), 2), None);
    assert_eq!(m.insert("a".to_string(), 3), Some(1));
    assert_eq!(keys(&m), vec!["a".to_string(), "b".to_string()]);
    assert_eq!(m.get(&"a".to_string()), Some(&3));
    assert!(m.contains_key(&"b".to_string()));
    assert!(!m.contains_key(&"c".to_string()));
    assert_eq!(m.index_of(&"b".to_string()), Some(1));
}

#[test]
fn merge_extensions_keeps_original_fields() {
    let mut original: IndexMap<String, serde_json::Value> = IndexMap::new();
    original.insert("x-b".to_string(), value("1"));
    let mut other: IndexMap<String, serde_json::Value> = IndexMap::new();
    other.insert("x-a".to_string(), value("2"));
    other.insert("x-b".to_string(), value("3"));
    other.insert("x-c".to_string(), value("4"));
    merge_extensions(&mut original, other);
    assert_eq!(ext_keys(&original), vec!["x-b".to_string(), "x-a".to_string(), "x-c".to_string()]);
    assert_eq!(original.get("x-b"), Some(&value("1")));
    assert_eq!(original.get("x-c"), Some(&value("4")));
}

#[test]
fn merge_unions_path_level_extensions() {
    let mut a = OpenAPI::default();
    a.paths.extensions.insert("x-p".to_string(), value("a"));
    let mut item = PathItem::get(op("listPets"));
    item.extensions.insert("x-i".to_string(), value("a"));
    a.paths.insert("/pets".to_string(), item);
    let mut b = OpenAPI::default();
    b.paths.extensions.insert("x-p".to_string(), value("b"));
    b.paths.extensions.insert("x-q".to_string(), value("b"));
    let mut other_item = PathItem::default();
    other_item.extensions.insert("x-i".to_string(), value("b"));
    other_item.extensions.insert("x-j".to_string(), value("b"));
    other_item.servers.push(server("http://x", "b"));
    b.paths.insert("/pets".to_string(), other_item);
    let merged = a.merge(b).unwrap();
    assert_eq!(ext_keys(&merged.paths.extensions), vec!["x-p".to_string(), "x-q".to_string()]);
    assert_eq!(merged.paths.extensions.get("x-p"), Some(&value("a")));
    let pets = merged.paths.paths.get(&"/pets".to_string()).unwrap().as_item().unwrap();
    assert_eq!(ext_keys(&pets.extensions), vec!["x-i".to_string(), "x-j".to_string()]);
    assert_eq!(pets.extensions.get("x-i"), Some(&value("a")));
    assert_eq!(pets.servers, vec![server("http://x", "b")]);
}

#[test]
fn merge_dedups_tags_repeated_in_incoming_list() {
    let a = OpenAPI::default();
    let mut b = OpenAPI::default();
    b.tags.push(tag("pet", Some("first")));
    b.tags.push(tag("store", None));
    b.tags.push(tag("pet", Some("second")));
    let merged = a.merge(b).unwrap();
    assert_eq!(merged.tags, vec![tag("pet", Some("first")), tag("store", None)]);
}

#[test]
fn merge_reports_first_conflicting_path() {
    let mut a = OpenAPI::default();
    a.paths.insert("/a".to_string(), with_params(&["x"]));
    a.paths.insert("/b".to_string(), with_params(&["x"]));
    let mut b = OpenAPI::default();
    b.paths.insert("/b".to_string(), with_params(&["y"]));
    b.paths.insert("/a".to_string(), with_params(&[]));
    let err = a.merge(b).unwrap_err();
    assert_eq!(err.kind, ConflictKind::ParameterNameMismatch);
    assert_eq!(err.path, "/b");
    assert_eq!(err.message, "PathItem /b has parameters that differ in name");
}

#[test]
fn registry_accessors_forward_to_components() {
    let mut a = OpenAPI::default();
    a.components.schemas.insert("Pet".to_string(), RefOr::Item(value("object")));
    a.components.parameters.insert("limit".to_string(), param("limit"));
    assert_eq!(keys(a.schemas()), vec!["Pet".to_string()]);
    assert_eq!(keys(a.parameters()), vec!["limit".to_string()]);
    assert!(a.responses().is_empty());
    assert!(a.callbacks().is_empty());
}
