//! Scenarios against the log-structured engine: reads after writes,
//! reopening from the log's text, removal, and compaction.

use kvs::cmd::Cmd;
use kvs::cmd::CmdIdx;
use kvs::KvsError;
use kvs::KvStore;

fn fresh() -> KvStore {
    KvStore::open("").expect("an empty log opens")
}

fn reopen(store: &KvStore) -> KvStore {
    let text = store.log_text(0);
    KvStore::open(text.as_str()).expect("the engine's own log opens")
}

#[test]
fn s1_get_stored_value() {
    let mut store = fresh();
    store.set("key1".to_owned(), "value1".to_owned()).unwrap();
    assert_eq!(store.get("key1".to_owned()).unwrap(), Some("value1".to_owned()));
    assert_eq!(store.get("key2".to_owned()).unwrap(), None);
}

#[test]
fn s2_overwrite_and_reopen() {
    let mut store = fresh();
    store.set("k".to_owned(), "a".to_owned()).unwrap();
    store.set("k".to_owned(), "b".to_owned()).unwrap();
    assert_eq!(store.get("k".to_owned()).unwrap(), Some("b".to_owned()));
    let mut again = reopen(&store);
    assert_eq!(again.get("k".to_owned()).unwrap(), Some("b".to_owned()));
}

#[test]
fn s3_remove_then_remove_again() {
    let mut store = fresh();
    store.set("k".to_owned(), "v".to_owned()).unwrap();
    store.remove("k".to_owned()).unwrap();
    assert_eq!(store.get("k".to_owned()).unwrap(), None);
    assert_eq!(store.remove("k".to_owned()), Err(KvsError::KeyNotFound));
}

#[test]
fn remove_never_set_key() {
    let mut store = fresh();
    store.set("other".to_owned(), "v".to_owned()).unwrap();
    assert_eq!(store.remove("k".to_owned()), Err(KvsError::KeyNotFound));
    assert_eq!(store.get("other".to_owned()).unwrap(), Some("v".to_owned()));
}

#[test]
fn tombstone_survives_reopen() {
    let mut store = fresh();
    store.set("k".to_owned(), "v".to_owned()).unwrap();
    store.remove("k".to_owned()).unwrap();
    let mut again = reopen(&store);
    assert_eq!(again.get("k".to_owned()).unwrap(), None);
    assert_eq!(again.remove("k".to_owned()), Err(KvsError::KeyNotFound));
}

#[test]
fn persistence_over_mixed_history() {
    let mut store = fresh();
    for i in 0..50 {
        store.set(format!("key{}", i), format!("v{}", i)).unwrap();
    }
    for i in 0..25 {
        store.remove(format!("key{}", i * 2)).unwrap();
    }
    for i in 0..10 {
        store.set(format!("key{}", i * 2), format!("back{}", i)).unwrap();
    }
    let mut again = reopen(&store);
    for i in 0..50 {
        let expected = if i % 2 == 1 {
            Some(format!("v{}", i))
        } else if i < 20 {
            Some(format!("back{}", i / 2))
        } else {
            None
        };
        assert_eq!(again.get(format!("key{}", i)).unwrap(), expected);
    }
}

#[test]
fn values_with_quotes_and_backslashes_round_trip() {
    let mut store = fresh();
    let tricky = "a \"quoted\" piece and a \\ backslash\nwith a newline".to_owned();
    store.set("tricky \\\"key".to_owned(), tricky.clone()).unwrap();
    assert_eq!(store.get("tricky \\\"key".to_owned()).unwrap(), Some(tricky.clone()));
    let mut again = reopen(&store);
    assert_eq!(again.get("tricky \\\"key".to_owned()).unwrap(), Some(tricky));
}

#[test]
fn empty_key_and_empty_value() {
    let mut store = fresh();
    store.set(String::new(), String::new()).unwrap();
    assert_eq!(store.get(String::new()).unwrap(), Some(String::new()));
    let mut again = reopen(&store);
    assert_eq!(again.get(String::new()).unwrap(), Some(String::new()));
}

#[test]
fn open_rejects_garbage() {
    match KvStore::open("not a record stream") {
        Err(KvsError::Codec) => {},
        other => panic!("expected the codec error, got {:?}", other.map(|_| ())),
    }
}

#[test]
fn open_rejects_truncated_record() {
    let mut store = fresh();
    store.set("k".to_owned(), "v".to_owned()).unwrap();
    let text = store.log_text(0);
    let truncated = &text[..text.len() - 2];
    match KvStore::open(truncated) {
        Err(KvsError::Codec) => {},
        other => panic!("expected the codec error, got {:?}", other.map(|_| ())),
    }
}

#[test]
fn open_rejects_placeholder_record() {
    match KvStore::open("\"Empty\"") {
        Err(KvsError::UnexpectedCommandType) => {},
        other => panic!("expected the corruption error, got {:?}", other.map(|_| ())),
    }
}

#[test]
fn error_messages() {
    assert_eq!(KvsError::KeyNotFound.message(), "Key not found");
    assert_eq!(KvsError::UnexpectedCommandType.message(), "Unexpected command type");
    assert_eq!(KvsError::Codec.message(), "serde error");
    assert_eq!(KvsError::Io("boom".to_owned()).message(), "IO error with boom");
    assert_eq!(KvsError::StringError("oops".to_owned()).message(), "oops");
}

#[test]
fn index_entry_shapes() {
    let cmd = Cmd::Put { key: "k".to_owned(), value: "v".to_owned() };
    assert_eq!(cmd.get_key(), &"k".to_owned());
    let cmd = Cmd::Remove { key: "r".to_owned() };
    assert_eq!(cmd.get_key(), &"r".to_owned());
    let idx = CmdIdx::new(3, 5, cmd);
    assert_eq!(idx.start, 3);
    assert_eq!(idx.len, 5);
    assert!(matches!(idx.cmd, Cmd::Remove { .. }));
    let d = CmdIdx::default();
    assert_eq!(d.start, 0);
    assert_eq!(d.len, 0);
    assert!(matches!(d.cmd, Cmd::Empty));
}

#[test]
fn s4_compaction_bounds_log_size() {
    let mut store = fresh();
    let value = "x".repeat(100);
    for i in 0..10_000 {
        store.set(format!("key{:05}", i), value.clone()).unwrap();
    }
    let gen_after_load = store.generation();
    for round in 0..10 {
        let v = format!("{}{}", value, round);
        for i in 0..10_000 {
            store.set(format!("key{:05}", i), v.clone()).unwrap();
        }
    }
    // Far more than one mebibyte went through the log, so it was compacted.
    assert!(store.generation() > gen_after_load);
    // One record is the key (8 chars), the value (101 chars) and some
    // framing: about 140 characters.  The live data is about 1.4 million
    // characters; the log may carry at most one uncompacted mebibyte and
    // the tail that follows the last compaction on top of that.
    assert!(store.log_len() < 2_600_000);
    let expected = format!("{}9", value);
    assert_eq!(store.get("key00000".to_owned()).unwrap(), Some(expected.clone()));
    assert_eq!(store.get("key09999".to_owned()).unwrap(), Some(expected));
    assert_eq!(store.get("missing".to_owned()).unwrap(), None);
}

#[test]
fn compaction_preserves_contents_and_reopens() {
    let mut store = fresh();
    let value = "y".repeat(2000);
    for i in 0..30 {
        for round in 0..20 {
            store.set(format!("k{}", i), format!("{}r{}", value, round)).unwrap();
        }
    }
    store.remove("k7".to_owned()).unwrap();
    assert!(store.generation() > 0);
    let mut again = reopen(&store);
    for i in 0..30 {
        let expected = if i == 7 { None } else { Some(format!("{}r19", value)) };
        assert_eq!(again.get(format!("k{}", i)).unwrap(), expected);
    }
}
