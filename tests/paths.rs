use openapi_merge::{HttpMethod, OpenAPI, Operation, PathItem, Paths, RefOr};

fn op(id: &str) -> Operation {
    Operation {
        operation_id: Some(id.to_string()),
        ..Operation::default()
    }
}

#[test]
fn test_path_item_iterators() {
    let operation = Operation::default();

    let path_item = PathItem {
        get: Some(operation.clone()),
        post: Some(operation.clone()),
        delete: Some(operation.clone()),
        ..Default::default()
    };

    let expected = vec![
        ("get", &operation),
        ("post", &operation),
        ("delete", &operation),
    ];
    assert_eq!(path_item.iter(), expected);

    let expected = vec![
        ("get", operation.clone()),
        ("post", operation.clone()),
        ("delete", operation.clone()),
    ];
    assert_eq!(path_item.into_operations(), expected);
}

#[test]
fn iteration_follows_canonical_method_order() {
    let mut item = PathItem::default();
    item.trace = Some(op("t"));
    item.put = Some(op("p"));
    item.head = Some(op("h"));
    let names: Vec<&str> = item.iter().iter().map(|(m, _)| *m).collect();
    assert_eq!(names, vec!["put", "head", "trace"]);
    assert!(PathItem::default().iter().is_empty());
}

#[test]
fn method_names() {
    assert_eq!(HttpMethod::Get.as_str(), "get");
    assert_eq!(HttpMethod::Options.as_str(), "options");
    assert_eq!(HttpMethod::Trace.as_str(), "trace");
}

#[test]
fn insert_operation_creates_and_replaces() {
    let mut paths = Paths::default();
    assert_eq!(paths.insert_operation("/pets".to_string(), HttpMethod::Get, op("a")), None);
    assert_eq!(paths.insert_operation("/pets".to_string(), HttpMethod::Post, op("b")), None);
    assert_eq!(paths.insert_operation("/pets".to_string(), HttpMethod::Get, op("c")), Some(op("a")));
    assert_eq!(paths.paths.len(), 1);
    let item = paths.paths.get(&"/pets".to_string()).unwrap().as_item().unwrap();
    assert_eq!(item.get, Some(op("c")));
    assert_eq!(item.post, Some(op("b")));
    assert_eq!(item.put, None);
}

#[test]
fn paths_insert_returns_previous_entry() {
    let mut paths = Paths::default();
    assert_eq!(paths.insert("/a".to_string(), PathItem::get(op("x"))), None);
    let previous = paths.insert("/a".to_string(), PathItem::post(op("y")));
    assert_eq!(previous, Some(RefOr::Item(PathItem::get(op("x")))));
    assert_eq!(paths.paths.len(), 1);
}

#[test]
fn operations_skip_references_and_keep_order() {
    let mut doc = OpenAPI::default();
    doc.paths.insert_operation("/b".to_string(), HttpMethod::Post, op("createB"));
    doc.paths.insert_operation("/b".to_string(), HttpMethod::Get, op("listB"));
    doc.paths.paths.insert("/r".to_string(), RefOr::Reference { reference: "#/x".to_string() });
    doc.paths.insert_operation("/a".to_string(), HttpMethod::Get, op("listA"));
    let listed: Vec<(&str, &str, Option<&str>)> = doc
        .operations()
        .iter()
        .map(|(p, m, o, _)| (*p, *m, o.operation_id.as_deref()))
        .collect();
    assert_eq!(
        listed,
        vec![("/b", "get", Some("listB")), ("/b", "post", Some("createB")), ("/a", "get", Some("listA"))]
    );
}

#[test]
fn get_operation_finds_by_identifier() {
    let mut doc = OpenAPI::default();
    doc.paths.insert_operation("/a".to_string(), HttpMethod::Get, op("listA"));
    doc.paths.insert_operation("/b".to_string(), HttpMethod::Put, op("putB"));
    let (found, item) = doc.get_operation(&"putB".to_string()).unwrap();
    assert_eq!(found, &op("putB"));
    assert_eq!(item.put, Some(op("putB")));
    assert!(doc.get_operation(&"missing".to_string()).is_none());
}

#[test]
fn into_item_and_as_item() {
    let item: RefOr<i32> = RefOr::Item(3);
    assert_eq!(item.as_item(), Some(&3));
    assert_eq!(item.into_item(), Some(3));
    let reference: RefOr<i32> = RefOr::Reference { reference: "#/x".to_string() };
    assert_eq!(reference.as_item(), None);
    assert_eq!(reference.into_item(), None);
}

#[test]
fn path_keys_begin_with_slash() {
    assert!(openapi_merge::is_path_key("/pets"));
    assert!(openapi_merge::is_path_key("/"));
    assert!(!openapi_merge::is_path_key("x-internal"));
    assert!(!openapi_merge::is_path_key(""));
}

#[test]
fn split_paths_object_partitions_in_order() {
    let v = |s: &str| serde_json::Value::String(s.to_string());
    let entries = vec![
        ("/b".to_string(), v("1")),
        ("x-one".to_string(), v("2")),
        ("/a".to_string(), v("3")),
        ("x-two".to_string(), v("4")),
    ];
    let (paths, extensions) = openapi_merge::split_paths_object(entries);
    assert_eq!(paths, vec![("/b".to_string(), v("1")), ("/a".to_string(), v("3"))]);
    let ext: Vec<(String, serde_json::Value)> = extensions.into_iter().collect();
    assert_eq!(ext, vec![("x-one".to_string(), v("2")), ("x-two".to_string(), v("4"))]);
}

#[test]
fn operation_mut_changes_the_slot_in_place() {
    let mut item = PathItem::get(op("a"));
    if let Some(o) = item.operation_mut(HttpMethod::Get) {
        o.summary = Some("changed".to_string());
    }
    assert_eq!(item.get.as_ref().unwrap().summary.as_deref(), Some("changed"));
    assert!(item.operation_mut(HttpMethod::Post).is_none());
    *item.slot_mut(HttpMethod::Put) = Some(op("p"));
    assert_eq!(item.put, Some(op("p")));
}
