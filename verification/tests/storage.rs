use stage_runtime::json::JsonValue;
use stage_runtime::storage::{
    local_storage_ops, local_storage_sync_due, restore_plan, restore_scripts, LocalChange, Restore, Storage, StoreOp, DEBOUNCE_MILLIS, MAX_KEYS,
    MAX_VALUE_SIZE,
};

fn json(text: &str) -> JsonValue {
    JsonValue::from_text(text).expect("test values are JSON")
}

#[test]
fn new_storage_empty_file() {
    let store = Storage::new("storage.json", None);
    assert!(store.get("anything").is_none());
    assert_eq!(store.entries().len(), 0);
}

#[test]
fn set_and_get() {
    let mut store = Storage::new("storage.json", None);
    store.set("key1".to_string(), json("\"value1\""));
    assert_eq!(store.get("key1"), Some(json("\"value1\"")));
}

#[test]
fn flush_and_reload() {
    let text = {
        let mut store = Storage::new("storage.json", None);
        store.set("name".to_string(), json("\"dazzle\""));
        store.set("count".to_string(), json("42"));
        let t = store.flush_text().expect("changes are pending");
        store.mark_flushed();
        t
    };
    let store2 = Storage::new("storage.json", Some(&text));
    assert_eq!(store2.get("name"), Some(json("\"dazzle\"")));
    assert_eq!(store2.get("count"), Some(json("42")));
}

#[test]
fn maybe_flush_respects_debounce() {
    let mut store = Storage::new("storage.json", None);
    store.set("key".to_string(), json("\"val\""));
    // Just created: the debounce holds the write back.
    assert!(!store.flush_due(0));
    // A forced flush always has text to write.
    assert!(store.flush_text().is_some());
    assert!(store.flush_due(DEBOUNCE_MILLIS));
}

#[test]
fn load_corrupt_file() {
    let store = Storage::new("storage.json", Some("not valid json!!!"));
    assert_eq!(store.entries().len(), 0, "corrupt file should start fresh");
}

#[test]
fn overwrite_key() {
    let mut store = Storage::new("storage.json", None);
    store.set("k".to_string(), json("1"));
    store.set("k".to_string(), json("2"));
    assert_eq!(store.get("k"), Some(json("2")));
}

#[test]
fn entries_iteration() {
    let mut store = Storage::new("storage.json", None);
    store.set("a".to_string(), json("1"));
    store.set("b".to_string(), json("2"));
    store.set("c".to_string(), json("3"));
    assert_eq!(store.entries().len(), 3);
}

#[test]
fn json_values_are_held_compact() {
    let v = json("{ \"b\" : [1, 2 ,3], \"a\": true }");
    assert_eq!(v.as_text(), "{\"a\":true,\"b\":[1,2,3]}");
    assert!(JsonValue::from_text("{oops").is_none());
}

#[test]
fn reload_reads_back_every_value() {
    let mut store = Storage::new("data/store.json", None);
    store.set("list".to_string(), json("[1,\"two\",null]"));
    store.set("obj".to_string(), json("{\"x\":1.5}"));
    store.set("neg".to_string(), json("-7"));
    let text = store.flush_text().unwrap();
    let back = Storage::new("data/store.json", Some(&text));
    assert_eq!(back.len(), 3);
    for (k, v) in store.entries() {
        assert_eq!(back.get(&k), Some(v));
    }
}

#[test]
fn flush_text_only_when_dirty() {
    let mut store = Storage::new("s.json", None);
    assert!(store.flush_text().is_none());
    store.set("a".to_string(), json("1"));
    assert!(store.is_dirty());
    assert!(store.flush_text().is_some());
    store.mark_flushed();
    assert!(!store.is_dirty());
    assert!(store.flush_text().is_none());
    assert!(!store.flush_due(10 * DEBOUNCE_MILLIS));
}

#[test]
fn remove_and_prefixes() {
    let mut store = Storage::new("s.json", Some("{\"app:a\":1,\"app:b\":2,\"other\":3}"));
    assert!(!store.is_dirty());
    assert!(store.has_prefix("app:"));
    store.remove("other");
    assert!(store.is_dirty());
    assert!(store.get("other").is_none());
    store.remove_by_prefix("app:");
    assert!(!store.has_prefix("app:"));
    assert_eq!(store.len(), 0);
}

#[test]
fn removing_a_missing_key_changes_nothing() {
    let mut store = Storage::new("s.json", Some("{\"a\":1}"));
    store.remove("b");
    assert!(!store.is_dirty());
    store.remove_by_prefix("zzz");
    assert!(!store.is_dirty());
    assert_eq!(store.get("a"), Some(json("1")));
}

#[test]
fn oversized_value_is_refused() {
    let mut store = Storage::new("s.json", None);
    let big = format!("\"{}\"", "x".repeat(MAX_VALUE_SIZE));
    store.set("big".to_string(), json(&big));
    assert!(store.get("big").is_none());
    assert!(!store.is_dirty());
    let fits = format!("\"{}\"", "x".repeat(MAX_VALUE_SIZE - 2));
    store.set("fits".to_string(), json(&fits));
    assert!(store.get("fits").is_some());
}

#[test]
fn key_limit_is_enforced() {
    let mut store = Storage::new("s.json", None);
    for i in 0..MAX_KEYS {
        store.set(format!("k{}", i), json("0"));
    }
    assert_eq!(store.len(), MAX_KEYS);
    store.set("one-more".to_string(), json("1"));
    assert!(store.get("one-more").is_none());
    // An existing key can still be replaced.
    store.set("k0".to_string(), json("5"));
    assert_eq!(store.get("k0"), Some(json("5")));
}

#[test]
fn path_is_kept() {
    let store = Storage::new("/tmp/x/storage.json", None);
    assert_eq!(store.path(), "/tmp/x/storage.json");
}

#[test]
fn json_string_values_are_escaped() {
    assert_eq!(JsonValue::string("plain").as_text(), "\"plain\"");
    assert_eq!(JsonValue::string("a\"b\\c\n").as_text(), "\"a\\\"b\\\\c\\n\"");
    assert_eq!(JsonValue::string("a\"b"), json("\"a\\\"b\""));
}

#[test]
fn local_storage_syncs_once_a_second() {
    assert!(local_storage_sync_due(0, 30));
    assert!(local_storage_sync_due(60, 30));
    assert!(!local_storage_sync_due(61, 30));
    assert!(local_storage_sync_due(7, 1));
}

#[test]
fn local_storage_ops_follow_the_changes() {
    assert_eq!(local_storage_ops(false, &vec![]), None);
    assert_eq!(
        local_storage_ops(true, &vec![]),
        Some(vec![StoreOp::RemovePrefix("ls:".to_string())])
    );
    let changes = vec![
        LocalChange { key: "a".to_string(), action: 1, value: Some("x".to_string()) },
        LocalChange { key: "b".to_string(), action: -1, value: None },
        LocalChange { key: "c".to_string(), action: 1, value: None },
        LocalChange { key: "d".to_string(), action: 0, value: Some("y".to_string()) },
    ];
    assert_eq!(
        local_storage_ops(false, &changes),
        Some(vec![
            StoreOp::Insert("ls:a".to_string(), json("\"x\"")),
            StoreOp::Remove("ls:b".to_string()),
        ])
    );
}

#[test]
fn local_storage_clear_keeps_other_keys() {
    let mut store = Storage::new("storage.json", None);
    store.set("ls:old".to_string(), json("\"1\""));
    store.set("dz:keep".to_string(), json("2"));
    let changes = vec![LocalChange { key: "new".to_string(), action: 1, value: Some("v".to_string()) }];
    for op in local_storage_ops(true, &changes).expect("a clear is a change") {
        store.apply(op);
    }
    assert!(store.get("ls:old").is_none());
    assert_eq!(store.get("dz:keep"), Some(json("2")));
    assert_eq!(store.get("ls:new"), Some(json("\"v\"")));
}

#[test]
fn json_control_characters_are_escaped() {
    assert_eq!(JsonValue::string("\u{1}\t\u{7f}é").as_text(), "\"\\u0001\\t\u{7f}é\"");
}

#[test]
fn long_decimals_keep_their_normal_form() {
    let v = json("0.30000000000000004");
    assert_eq!(v.as_text(), "0.30000000000000004");
    assert_eq!(json(v.as_text()), v);
    let w = json("[1.7976931348623157e308, 5e-324, 123456789012345678]");
    assert_eq!(json(w.as_text()), w);
}

#[test]
fn restore_sorts_prefixed_keys() {
    let mut store = Storage::new("storage.json", None);
    store.set("dz:score".to_string(), json("7"));
    store.set("ls:name".to_string(), json("\"dazzle\""));
    store.set("ls:bad".to_string(), json("3"));
    store.set("old".to_string(), json("\"kept out\""));
    assert_eq!(
        restore_plan(&store),
        vec![
            Restore::Dazzle("score".to_string(), json("7")),
            Restore::Local("name".to_string(), "dazzle".to_string()),
        ]
    );
}

#[test]
fn restore_migrates_unprefixed_keys() {
    let mut store = Storage::new("storage.json", None);
    store.set("theme".to_string(), json("\"dark\""));
    store.set("level".to_string(), json("{\"n\":2}"));
    assert_eq!(
        restore_plan(&store),
        vec![
            Restore::Local("theme".to_string(), "dark".to_string()),
            Restore::Dazzle("level".to_string(), json("{\"n\":2}")),
        ]
    );
    assert_eq!(restore_plan(&Storage::new("storage.json", None)), vec![]);
}

#[test]
fn local_storage_written_back_is_restored() {
    let mut store = Storage::new("storage.json", None);
    let changes = vec![LocalChange { key: "greeting".to_string(), action: 1, value: Some("a \"b\" \\ c".to_string()) }];
    for op in local_storage_ops(false, &changes).expect("a change is pending") {
        store.apply(op);
    }
    assert_eq!(
        restore_plan(&store),
        vec![Restore::Local("greeting".to_string(), "a \"b\" \\ c".to_string())]
    );
}

#[test]
fn restore_scripts_write_each_item() {
    let plan = vec![
        Restore::Dazzle("sc\"ore".to_string(), json("[1,2]")),
        Restore::Local("name".to_string(), "da\nzzle".to_string()),
    ];
    let (dz, ls) = restore_scripts(&plan);
    assert!(dz.starts_with("globalThis.dazzle = globalThis.dazzle || {};\nglobalThis.dazzle.storage = {\n_data: {},\n"));
    assert!(dz.ends_with("};\ndazzle.storage._data[\"sc\\\"ore\"] = [1,2];\n"));
    assert_eq!(ls, "globalThis.__dz_localstorage_data[\"name\"] = \"da\\nzzle\";\n");
    let (_, none) = restore_scripts(&vec![]);
    assert_eq!(none, "");
}
