use plugin_host::config::{load_auto_start_pref, load_wake_shortcut_raw};
use plugin_host::json::JsonValue;
use plugin_host::storage::{storage_set, StorageDoc};

fn doc_with(entries: Vec<(&str, JsonValue)>) -> StorageDoc {
    let mut doc = StorageDoc::new();
    for (k, v) in entries {
        storage_set(&mut doc, "cfg", String::from(k), v).unwrap();
    }
    doc
}

#[test]
fn auto_start_prefers_camel_case_key() {
    let doc = doc_with(vec![
        ("autoStart", JsonValue::Bool(true)),
        ("auto_start", JsonValue::Bool(false)),
    ]);
    assert_eq!(load_auto_start_pref(&doc), Some(true));
}

#[test]
fn auto_start_falls_back_to_legacy_key() {
    let doc = doc_with(vec![("auto_start", JsonValue::Bool(false))]);
    assert_eq!(load_auto_start_pref(&doc), Some(false));
    assert_eq!(load_auto_start_pref(&StorageDoc::new()), None);
}

#[test]
fn auto_start_non_boolean_yields_none_without_fallback() {
    let doc = doc_with(vec![
        ("autoStart", JsonValue::Str(String::from("yes"))),
        ("auto_start", JsonValue::Bool(true)),
    ]);
    assert_eq!(load_auto_start_pref(&doc), None);
}

#[test]
fn wake_shortcut_prefers_camel_case_string() {
    let doc = doc_with(vec![
        ("wakeShortcut", JsonValue::Str(String::from("alt+Space"))),
        ("wake_shortcut", JsonValue::Str(String::from("ctrl+k"))),
    ]);
    assert_eq!(load_wake_shortcut_raw(&doc), "alt+Space");
}

#[test]
fn wake_shortcut_non_string_falls_through_to_legacy() {
    let doc = doc_with(vec![
        ("wakeShortcut", JsonValue::Int(3)),
        ("wake_shortcut", JsonValue::Str(String::from("ctrl+k"))),
    ]);
    assert_eq!(load_wake_shortcut_raw(&doc), "ctrl+k");
}

#[test]
fn wake_shortcut_defaults_when_absent() {
    assert_eq!(load_wake_shortcut_raw(&StorageDoc::new()), "control+alt+Space");
}
