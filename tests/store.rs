use serde_json::Value;
use tinykv::{MemoryMedium, SaveStep, TinyKV, TinyKVError};

fn text(v: &Option<Value>) -> Option<String> {
    v.as_ref().and_then(|x| x.as_str()).map(|s| s.to_string())
}

#[test]
fn test_namespace_functionality() {
    let medium = MemoryMedium::new();
    let mut store = TinyKV::open(&medium).unwrap().with_namespace("app1");

    store.set("username", Value::from("alice"));
    store.set("count", Value::from(42));

    let keys = store.keys();
    println!("Keys: {:?}", keys);

    let username = store.get("username").unwrap();
    assert_eq!(text(&username), Some("alice".to_string()));

    let prefix_keys = store.list_keys("user");
    println!("Prefix keys: {:?}", prefix_keys);

    assert!(keys.contains(&"username".to_string()));
    assert!(keys.contains(&"count".to_string()));
}

#[test]
fn test_no_std_basic_operations() {
    let mut kv = TinyKV::new();
    kv.set("name", Value::from("alice"));
    let name = kv.get("name").unwrap();
    assert_eq!(text(&name), Some("alice".to_string()));
}

#[test]
fn test_serialization() {
    let mut kv = TinyKV::new();
    kv.set("test", Value::from("value"));
    let serialized = kv.to_data().unwrap();
    assert!(serialized.contains("test"));
    assert!(serialized.contains("value"));
}

#[test]
fn test_basic_operations() {
    let medium = MemoryMedium::new();
    let mut kv = TinyKV::open(&medium).unwrap();

    kv.set("name", Value::from("alice"));
    let name = kv.get("name").unwrap();
    assert_eq!(text(&name), Some("alice".to_string()));

    assert!(kv.remove("name"));
    assert!(!kv.remove("name"));

    let name = kv.get("name").unwrap();
    assert!(name.is_none());
}

#[test]
fn test_ttl() {
    let medium = MemoryMedium::new();
    let mut kv = TinyKV::open(&medium).unwrap();
    let now: u64 = 1_700_000_000;

    kv.set_with_ttl_at("temp", Value::from("value"), 1, now);

    let val = kv.get_at("temp", now);
    assert_eq!(text(&val), Some("value".to_string()));

    let val = kv.get_at("temp", now + 2);
    assert!(val.is_none());
}

#[test]
fn test_auto_save() {
    let mut medium = MemoryMedium::new();
    {
        let mut kv = TinyKV::open(&medium).unwrap().with_auto_save();
        kv.set("key", Value::from("value"));
        assert!(kv.save_due());
        kv.sync(&mut medium).unwrap();
        assert!(!kv.save_due());
    }
    let mut kv2 = TinyKV::open(&medium).unwrap();
    let val = kv2.get("key").unwrap();
    assert_eq!(text(&val), Some("value".to_string()));
}

#[test]
fn test_backup() {
    let mut medium = MemoryMedium::new();
    {
        let mut kv = TinyKV::open(&medium).unwrap();
        kv.set("initial", Value::from("data"));
        kv.save(&mut medium).unwrap();
    }
    {
        let mut kv = TinyKV::open(&medium).unwrap().with_backup(true);
        kv.set("new", Value::from("data"));
        kv.save(&mut medium).unwrap();
    }
    assert!(medium.backup.is_some());
}

#[test]
fn set_then_get_returns_value() {
    let mut kv = TinyKV::new();
    kv.set("k", Value::from(vec![1, 2, 3]));
    assert_eq!(kv.get_at("k", 5), Some(Value::from(vec![1, 2, 3])));
    kv.set("k", Value::from(true));
    assert_eq!(kv.get_at("k", 5), Some(Value::from(true)));
}

#[test]
fn remove_true_once_then_false() {
    let mut kv = TinyKV::new();
    kv.set("a", Value::from(1));
    assert!(kv.remove("a"));
    assert!(!kv.remove("a"));
    assert!(!kv.remove("never"));
}

#[test]
fn zero_ttl_alive_in_same_second_then_gone() {
    let mut kv = TinyKV::new();
    kv.set_with_ttl_at("k", Value::from("v"), 0, 100);
    assert!(kv.contains_key_at("k", 100));
    assert_eq!(kv.keys_at(100), vec!["k".to_string()]);
    assert!(kv.keys_at(101).is_empty());
    assert!(!kv.contains_key_at("k", 101));
    assert_eq!(kv.get_at("k", 100), Some(Value::from("v")));
    assert_eq!(kv.get_at("k", 101), None);
    assert!(!kv.remove("k"));
}

#[test]
fn ttl_saturates_at_largest_time() {
    let mut kv = TinyKV::new();
    kv.set_with_ttl_at("k", Value::from(1), u64::MAX, 10);
    assert!(kv.contains_key_at("k", u64::MAX));
}

#[test]
fn clear_twice_leaves_store_empty() {
    let mut kv = TinyKV::new();
    kv.set("a", Value::from(1));
    kv.set("b", Value::from(2));
    kv.clear();
    assert_eq!(kv.len_at(0), 0);
    assert!(kv.keys_at(0).is_empty());
    kv.clear();
    assert_eq!(kv.len_at(0), 0);
    assert!(kv.is_empty());
}

#[test]
fn namespaces_sharing_a_medium_are_isolated() {
    let mut medium = MemoryMedium::new();
    let mut a = TinyKV::open(&medium).unwrap().with_namespace("a");
    a.set("x", Value::from(1));
    a.save(&mut medium).unwrap();

    let mut b = TinyKV::open(&medium).unwrap().with_namespace("b");
    assert!(b.keys_at(0).is_empty());
    assert_eq!(b.get_at("x", 0), None);
    b.set("x", Value::from(2));
    b.save(&mut medium).unwrap();
    a.reload(&medium).unwrap();

    assert_eq!(a.keys_at(0), vec!["x".to_string()]);
    assert_eq!(b.keys_at(0), vec!["x".to_string()]);
    assert_eq!(a.get_at("x", 0), Some(Value::from(1)));
    assert_eq!(b.get_at("x", 0), Some(Value::from(2)));
    let mut raw_a = a.list_keys_at("", 0);
    let mut raw_b = b.list_keys_at("", 0);
    raw_a.sort();
    raw_b.sort();
    assert_eq!(raw_a, vec!["a:x".to_string(), "b:x".to_string()]);
    assert_eq!(raw_b, vec!["a:x".to_string(), "b:x".to_string()]);
}

#[test]
fn persistence_round_trip_drops_expired_key() {
    let mut medium = MemoryMedium::new();
    let mut kv = TinyKV::open(&medium).unwrap();
    kv.set_with_ttl_at("old", Value::from("gone"), 10, 1_000);
    kv.set("one", Value::from(1));
    kv.set("two", Value::from("second"));
    kv.save(&mut medium).unwrap();

    let mut fresh = TinyKV::open(&medium).unwrap();
    let now: u64 = 2_000;
    assert_eq!(fresh.len_at(now), 2);
    assert_eq!(fresh.purge_expired_at(now), 1);
    let mut keys = fresh.keys_at(now);
    keys.sort();
    assert_eq!(keys, vec!["one".to_string(), "two".to_string()]);
    assert_eq!(fresh.get_at("two", now), Some(Value::from("second")));
    assert_eq!(fresh.get_at("old", now), None);
}

#[test]
fn lazy_get_evicts_expired_entry() {
    let mut kv = TinyKV::new().with_auto_save();
    kv.set_with_ttl_at("t", Value::from(1), 5, 10);
    let mut medium = MemoryMedium::new();
    kv.sync(&mut medium).unwrap();
    assert!(!kv.save_due());
    assert_eq!(kv.get_at("t", 16), None);
    assert!(kv.save_due());
    assert!(kv.list_keys_at("", 0).is_empty());
}

#[test]
fn backup_holds_first_save_after_two_saves() {
    let mut medium = MemoryMedium::new();
    let mut kv = TinyKV::new().with_backup(true);
    kv.set("a", Value::from(1));
    kv.save(&mut medium).unwrap();
    let first = medium.main.clone().unwrap();
    assert!(medium.backup.is_none());
    kv.set("b", Value::from(2));
    kv.save(&mut medium).unwrap();
    assert_eq!(medium.backup.clone(), Some(first.clone()));
    assert_ne!(medium.main.clone(), Some(first));
    assert!(medium.temp.is_none());
}

#[test]
fn interrupted_save_keeps_canonical_document() {
    let mut medium = MemoryMedium::new();
    let mut kv = TinyKV::new().with_backup(true);
    kv.set("a", Value::from(1));
    kv.save(&mut medium).unwrap();
    let before = medium.main.clone();

    kv.set("b", Value::from(2));
    let steps = kv.save_steps(true).unwrap();
    assert_eq!(steps.len(), 3);
    for step in &steps[..steps.len() - 1] {
        medium.apply(step).unwrap();
    }
    assert_eq!(medium.main, before);
    assert!(medium.temp.is_some());
    medium.apply(&steps[steps.len() - 1]).unwrap();
    assert!(medium.temp.is_none());
    assert_ne!(medium.main, before);
}

#[test]
fn save_steps_without_backup_or_document() {
    let kv = TinyKV::new().with_backup(true);
    let steps = kv.save_steps(false).unwrap();
    assert_eq!(steps.len(), 2);
    assert!(matches!(steps[0], SaveStep::WriteTemp(_)));
    assert!(matches!(steps[1], SaveStep::CommitTemp));
    let kv = TinyKV::new();
    assert_eq!(kv.save_steps(true).unwrap().len(), 2);
}

#[test]
fn rename_without_temporary_is_io_error() {
    let mut medium = MemoryMedium::new();
    assert!(matches!(medium.apply(&SaveStep::CommitTemp), Err(TinyKVError::Io(_))));
    assert!(matches!(medium.apply(&SaveStep::Backup), Err(TinyKVError::Io(_))));
}

#[test]
fn namespace_is_normalized() {
    let mut kv = TinyKV::new().with_namespace("app");
    kv.set("k", Value::from(1));
    assert_eq!(kv.list_keys_at("", 0), vec!["app:k".to_string()]);
    let mut kv = TinyKV::new().with_namespace("app:");
    kv.set("k", Value::from(1));
    assert_eq!(kv.list_keys_at("", 0), vec!["app:k".to_string()]);
    let mut kv = TinyKV::new().with_namespace("");
    kv.set("k", Value::from(1));
    assert_eq!(kv.list_keys_at("", 0), vec!["k".to_string()]);
}

#[test]
fn clear_prefix_counts_alive_and_expired() {
    let mut kv = TinyKV::new();
    kv.set("user:1", Value::from(1));
    kv.set_with_ttl_at("user:2", Value::from(2), 0, 0);
    kv.set("other", Value::from(3));
    assert_eq!(kv.clear_prefix("user:"), 2);
    assert_eq!(kv.list_keys_at("", 0), vec!["other".to_string()]);
    assert_eq!(kv.clear_prefix("user:"), 0);
}

#[test]
fn purge_counts_only_expired() {
    let mut kv = TinyKV::new();
    assert_eq!(kv.purge_expired().unwrap(), 0);
    kv.set_with_ttl_at("a", Value::from(1), 5, 10);
    kv.set_with_ttl_at("b", Value::from(2), 50, 10);
    kv.set("c", Value::from(3));
    assert_eq!(kv.len_at(16), 2);
    assert_eq!(kv.purge_expired_at(16), 1);
    assert_eq!(kv.purge_expired_at(16), 0);
    assert_eq!(kv.len_at(16), 2);
}

#[test]
fn document_format_and_round_trip() {
    let mut kv = TinyKV::new();
    kv.set("a\"b", Value::from("x"));
    kv.set_with_ttl_at("n", Value::from(7), 3, 1_234_567_890);
    let doc = kv.to_data().unwrap();
    assert_eq!(
        doc,
        "{\"a\\\"b\":{\"value\":\"x\",\"expires_at\":null},\"n\":{\"value\":7,\"expires_at\":1234567893}}"
    );
    let mut back = TinyKV::from_data(&doc).unwrap();
    assert_eq!(back.get_at("a\"b", 0), Some(Value::from("x")));
    assert_eq!(back.get_at("n", 1_234_567_893), Some(Value::from(7)));
    assert_eq!(back.get_at("n", 1_234_567_894), None);
}

#[test]
fn blank_and_pretty_documents_load() {
    assert_eq!(TinyKV::from_data("").unwrap().len_at(0), 0);
    assert_eq!(TinyKV::from_data(" \n\t ").unwrap().len_at(0), 0);
    let doc = "{\n  \"k\": {\n    \"value\": [1, 2],\n    \"expires_at\": 5\n  },\n  \"m\": { \"value\": null }\n}";
    let mut kv = TinyKV::from_data(doc).unwrap();
    assert_eq!(kv.len_at(5), 2);
    assert_eq!(kv.get_at("k", 5), Some(Value::from(vec![1, 2])));
    assert_eq!(kv.get_at("m", 99), Some(Value::Null));
}

#[test]
fn malformed_documents_are_serialization_errors() {
    assert!(matches!(TinyKV::from_data("not json"), Err(TinyKVError::Serialization(_))));
    assert!(matches!(TinyKV::from_data("[1, 2]"), Err(TinyKVError::Serialization(_))));
    assert!(matches!(
        TinyKV::from_data("{\"k\": {\"expires_at\": 5}}"),
        Err(TinyKVError::Serialization(_))
    ));
    assert!(matches!(
        TinyKV::from_data("{\"k\": {\"value\": 1, \"expires_at\": \"soon\"}}"),
        Err(TinyKVError::Serialization(_))
    ));
    assert!(matches!(TinyKV::load(Some("{")), Err(TinyKVError::Serialization(_))));
}

#[test]
fn missing_document_loads_empty_and_reload_discards_changes() {
    let kv = TinyKV::load(None).unwrap();
    assert_eq!(kv.len_at(0), 0);
    let mut medium = MemoryMedium::new();
    let mut kv = TinyKV::open(&medium).unwrap();
    kv.set("a", Value::from(1));
    kv.save(&mut medium).unwrap();
    kv.set("b", Value::from(2));
    kv.reload(&medium).unwrap();
    assert_eq!(kv.keys_at(0), vec!["a".to_string()]);
    let mut kv = TinyKV::new();
    kv.set("z", Value::from(0));
    kv.reload_contents(None).unwrap();
    assert_eq!(kv.len_at(0), 0);
}

#[test]
fn list_keys_matches_full_stored_key() {
    let mut a = TinyKV::new().with_namespace("ns");
    a.set("user1", Value::from(1));
    a.set("admin", Value::from(2));
    assert_eq!(a.list_keys_at("user", 0), Vec::<String>::new());
    assert_eq!(a.list_keys_at("ns:user", 0), vec!["ns:user1".to_string()]);
    let mut keys = a.keys_at(0);
    keys.sort();
    assert_eq!(keys, vec!["admin".to_string(), "user1".to_string()]);
}

#[test]
fn error_messages_name_their_kind() {
    assert_eq!(TinyKVError::Io("disk full".to_string()).message(), "IO error: disk full");
    assert_eq!(
        TinyKVError::Serialization("bad".to_string()).message(),
        "Serialization error: bad"
    );
    assert_eq!(TinyKVError::TimeError.message(), "Time error");
}

#[test]
fn default_store_is_empty_and_clock_reads_work() {
    let mut kv = TinyKV::default();
    assert!(kv.is_empty());
    assert_eq!(kv.len(), 0);
    kv.set_with_ttl("s", Value::from("t"), 3600).unwrap();
    assert!(kv.contains_key("s"));
    assert_eq!(kv.keys(), vec!["s".to_string()]);
    assert_eq!(kv.list_keys("s"), vec!["s".to_string()]);
    assert_eq!(kv.purge_expired().unwrap(), 0);
    assert_eq!(kv.len(), 1);
}

#[test]
fn keys_with_control_characters_are_escaped() {
    let mut kv = TinyKV::new();
    kv.set("a\\b\n\u{1}\t", Value::from(1));
    let doc = kv.to_data().unwrap();
    assert_eq!(doc, "{\"a\\\\b\\n\\u0001\\t\":{\"value\":1,\"expires_at\":null}}");
    let mut back = TinyKV::from_data(&doc).unwrap();
    assert_eq!(back.get_at("a\\b\n\u{1}\t", 0), Some(Value::from(1)));
}

#[test]
fn to_data_round_trips_through_from_data() {
    let mut kv = TinyKV::new();
    kv.set("k", Value::from(vec![Value::from("x"), Value::Null]));
    kv.set_with_ttl_at("e", Value::from(2), 1, 5);
    let mut back = TinyKV::from_data(&kv.to_data().unwrap()).unwrap();
    assert_eq!(back.len_at(0), 2);
    assert_eq!(back.get_at("k", 0), Some(Value::from(vec![Value::from("x"), Value::Null])));
    assert_eq!(back.purge_expired_at(7), 1);
    assert_eq!(back.keys_at(7), vec!["k".to_string()]);
}
