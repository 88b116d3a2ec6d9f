use plugin_host::errors::MediationError;
use plugin_host::json::JsonValue;
use plugin_host::storage::{
    doc_from_json, doc_to_json, load_doc, storage_file_path, storage_get, storage_get_all,
    storage_remove, storage_set, storage_set_all, StorageDoc,
};

#[test]
fn file_path_appends_id_and_extension() {
    assert_eq!(storage_file_path("/data", "widget").unwrap(), "/data/widget.json");
    assert_eq!(
        storage_file_path("/data", "../widget").unwrap_err(),
        MediationError::InvalidIdentifier
    );
    assert_eq!(storage_file_path("/data", "").unwrap_err(), MediationError::InvalidIdentifier);
}

#[test]
fn set_then_get_returns_value() {
    let mut doc = StorageDoc::new();
    storage_set(&mut doc, "w", String::from("k"), JsonValue::Int(7)).unwrap();
    let got = storage_get(&doc, "w", "k").unwrap();
    assert_eq!(got, Some(&JsonValue::Int(7)));
}

#[test]
fn set_overwrites_earlier_binding() {
    let mut doc = StorageDoc::new();
    storage_set(&mut doc, "w", String::from("k"), JsonValue::Int(1)).unwrap();
    storage_set(&mut doc, "w", String::from("k"), JsonValue::Str(String::from("two"))).unwrap();
    let got = storage_get(&doc, "w", "k").unwrap();
    assert_eq!(got, Some(&JsonValue::Str(String::from("two"))));
    assert_eq!(storage_get_all(&doc, "w").unwrap().len(), 1);
}

#[test]
fn remove_then_get_returns_absence() {
    let mut doc = StorageDoc::new();
    storage_set(&mut doc, "w", String::from("k"), JsonValue::Bool(true)).unwrap();
    storage_remove(&mut doc, "w", "k").unwrap();
    assert_eq!(storage_get(&doc, "w", "k").unwrap(), None);
    storage_remove(&mut doc, "w", "absent").unwrap();
}

#[test]
fn invalid_identifier_fails_every_operation() {
    let mut doc = StorageDoc::new();
    assert_eq!(
        storage_set(&mut doc, "a b", String::from("k"), JsonValue::Null).unwrap_err(),
        MediationError::InvalidIdentifier
    );
    assert_eq!(storage_get(&doc, "", "k").unwrap_err(), MediationError::InvalidIdentifier);
    assert_eq!(storage_remove(&mut doc, "x/y", "k").unwrap_err(), MediationError::InvalidIdentifier);
    assert_eq!(storage_get_all(&doc, "..").unwrap_err(), MediationError::InvalidIdentifier);
    assert_eq!(
        storage_set_all(&mut doc, "a.b", StorageDoc::new()).unwrap_err(),
        MediationError::InvalidIdentifier
    );
}

#[test]
fn concurrent_style_sets_both_survive() {
    // The two writes of the scenario, applied in either completion
    // order, keep both bindings.
    let mut first = StorageDoc::new();
    storage_set(&mut first, "id", String::from("a"), JsonValue::Int(1)).unwrap();
    storage_set(&mut first, "id", String::from("b"), JsonValue::Int(2)).unwrap();
    let mut second = StorageDoc::new();
    storage_set(&mut second, "id", String::from("b"), JsonValue::Int(2)).unwrap();
    storage_set(&mut second, "id", String::from("a"), JsonValue::Int(1)).unwrap();
    for doc in [&first, &second] {
        assert_eq!(storage_get(doc, "id", "a").unwrap(), Some(&JsonValue::Int(1)));
        assert_eq!(storage_get(doc, "id", "b").unwrap(), Some(&JsonValue::Int(2)));
        assert_eq!(storage_get_all(doc, "id").unwrap().len(), 2);
    }
}

#[test]
fn set_all_replaces_whole_document() {
    let mut doc = StorageDoc::new();
    storage_set(&mut doc, "w", String::from("old"), JsonValue::Int(1)).unwrap();
    let mut data = StorageDoc::new();
    storage_set(&mut data, "w", String::from("new"), JsonValue::Int(2)).unwrap();
    storage_set_all(&mut doc, "w", data).unwrap();
    assert_eq!(storage_get(&doc, "w", "old").unwrap(), None);
    assert_eq!(storage_get(&doc, "w", "new").unwrap(), Some(&JsonValue::Int(2)));
}

#[test]
fn document_serialization_round_trips() {
    let mut doc = StorageDoc::new();
    storage_set(&mut doc, "w", String::from("n"), JsonValue::Int(-3)).unwrap();
    storage_set(&mut doc, "w", String::from("s"), JsonValue::Str(String::from("hi"))).unwrap();
    storage_set(&mut doc, "w", String::from("b"), JsonValue::Bool(false)).unwrap();
    storage_set(&mut doc, "w", String::from("z"), JsonValue::Null).unwrap();
    storage_set(
        &mut doc,
        "w",
        String::from("arr"),
        JsonValue::Arr(vec![JsonValue::Int(1), JsonValue::Str(String::from("x"))]),
    )
    .unwrap();
    storage_set(
        &mut doc,
        "w",
        String::from("obj"),
        JsonValue::Obj(vec![(String::from("inner"), JsonValue::Int(9))]),
    )
    .unwrap();
    let text = doc_to_json(&doc);
    let back = load_doc(text.as_str());
    assert_eq!(storage_get(&back, "w", "n").unwrap(), Some(&JsonValue::Int(-3)));
    assert_eq!(storage_get(&back, "w", "s").unwrap(), Some(&JsonValue::Str(String::from("hi"))));
    assert_eq!(storage_get(&back, "w", "b").unwrap(), Some(&JsonValue::Bool(false)));
    assert_eq!(storage_get(&back, "w", "z").unwrap(), Some(&JsonValue::Null));
    assert_eq!(
        storage_get(&back, "w", "arr").unwrap(),
        Some(&JsonValue::Arr(vec![JsonValue::Int(1), JsonValue::Str(String::from("x"))]))
    );
    assert_eq!(
        storage_get(&back, "w", "obj").unwrap(),
        Some(&JsonValue::Obj(vec![(String::from("inner"), JsonValue::Int(9))]))
    );
    assert_eq!(storage_get_all(&back, "w").unwrap().len(), 6);
}

#[test]
fn serialization_is_canonical_text() {
    let mut doc = StorageDoc::new();
    storage_set(&mut doc, "w", String::from("b"), JsonValue::Int(2)).unwrap();
    storage_set(&mut doc, "w", String::from("a"), JsonValue::Int(1)).unwrap();
    // The backing object map orders keys, so the text is canonical.
    assert_eq!(doc_to_json(&doc), "{\"a\":1,\"b\":2}");
    let empty = StorageDoc::new();
    assert_eq!(doc_to_json(&empty), "{}");
}

#[test]
fn unparsable_text_behaves_as_empty() {
    assert_eq!(storage_get_all(&load_doc(""), "w").unwrap().len(), 0);
    assert_eq!(storage_get_all(&load_doc("not json"), "w").unwrap().len(), 0);
    assert_eq!(storage_get_all(&load_doc("[1,2]"), "w").unwrap().len(), 0);
    assert_eq!(storage_get_all(&load_doc("42"), "w").unwrap().len(), 0);
    // A document holding a number form the model cannot represent is
    // treated as unparsable too.
    assert_eq!(storage_get_all(&load_doc("{\"x\":1.5}"), "w").unwrap().len(), 0);
    assert!(doc_from_json("{\"x\":1.5}").is_none());
}

#[test]
fn nesting_past_the_parser_limit_behaves_as_unparsable() {
    // The serializer has no depth bound; the parser stops at 127
    // nested containers, so such a document reads back as empty.
    let mut v = JsonValue::Null;
    for _ in 0..140 {
        v = JsonValue::Arr(vec![v]);
    }
    let mut doc = StorageDoc::new();
    storage_set(&mut doc, "w", String::from("deep"), v).unwrap();
    let text = doc_to_json(&doc);
    let back = load_doc(text.as_str());
    assert_eq!(storage_get_all(&back, "w").unwrap().len(), 0);

    // Within the parser's room the same shape round-trips.
    let mut small = JsonValue::Null;
    for _ in 0..100 {
        small = JsonValue::Arr(vec![small]);
    }
    let mut doc2 = StorageDoc::new();
    storage_set(&mut doc2, "w", String::from("deep"), small).unwrap();
    let back2 = load_doc(doc_to_json(&doc2).as_str());
    assert_eq!(storage_get_all(&back2, "w").unwrap().len(), 1);
    let mut expect = JsonValue::Null;
    for _ in 0..100 {
        expect = JsonValue::Arr(vec![expect]);
    }
    assert_eq!(storage_get(&back2, "w", "deep").unwrap(), Some(&expect));
}

#[test]
fn parse_reads_plain_documents() {
    let doc = load_doc("{\"k\":true,\"m\":[null,\"s\"]}");
    assert_eq!(storage_get(&doc, "w", "k").unwrap(), Some(&JsonValue::Bool(true)));
    assert_eq!(
        storage_get(&doc, "w", "m").unwrap(),
        Some(&JsonValue::Arr(vec![JsonValue::Null, JsonValue::Str(String::from("s"))]))
    );
}
