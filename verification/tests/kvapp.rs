use raft::kvapp::{ApplyStop, KVApp};
use raft::raftlog::RaftLog;

#[test]
fn kvapp_test_get_existing_key() {
    let mut kvapp = KVApp::new();
    kvapp.store.set("foo", "bar");
    let result = kvapp.update_store("get foo".to_string()).unwrap();
    assert_eq!(result, "bar");
}

#[test]
fn kvapp_test_get_nonexistent_key() {
    let mut kvapp = KVApp::new();
    let result = kvapp.update_store("get missing".to_string()).unwrap();
    assert_eq!(result, "Not found");
}

#[test]
fn kvapp_test_set_new_key() {
    let mut kvapp = KVApp::new();
    let result = kvapp.update_store("set mykey myvalue".to_string()).unwrap();
    assert_eq!(result, "Set");
    assert_eq!(kvapp.store.get("mykey"), Some("myvalue".to_string()));
}

#[test]
fn kvapp_test_set_existing_key() {
    let mut kvapp = KVApp::new();
    kvapp.store.set("key", "old");
    let result = kvapp.update_store("set key new".to_string()).unwrap();
    assert_eq!(result, "Old value: old");
    assert_eq!(kvapp.store.get("key"), Some("new".to_string()));
}

#[test]
fn kvapp_test_delete_existing_key() {
    let mut kvapp = KVApp::new();
    kvapp.store.set("foo", "bar");
    let result = kvapp.update_store("delete foo".to_string()).unwrap();
    assert_eq!(result, "Deleted value: bar");
    assert_eq!(kvapp.store.get("foo"), None);
}

#[test]
fn kvapp_test_delete_nonexistent_key() {
    let mut kvapp = KVApp::new();
    let result = kvapp.update_store("delete missing".to_string()).unwrap();
    assert_eq!(result, "No such key");
}

#[test]
fn kvapp_test_incr_existing_integer() {
    let mut kvapp = KVApp::new();
    kvapp.store.set("counter", "5");
    let result = kvapp.update_store("incr counter".to_string()).unwrap();
    assert_eq!(result, "Incr 6");
    assert_eq!(kvapp.store.get("counter"), Some("6".to_string()));
}

#[test]
fn kvapp_test_incr_negative_integer() {
    let mut kvapp = KVApp::new();
    kvapp.store.set("counter", "-10");
    let result = kvapp.update_store("incr counter".to_string()).unwrap();
    assert_eq!(result, "Incr -9");
    assert_eq!(kvapp.store.get("counter"), Some("-9".to_string()));
}

#[test]
fn kvapp_test_incr_zero() {
    let mut kvapp = KVApp::new();
    kvapp.store.set("counter", "0");
    let result = kvapp.update_store("incr counter".to_string()).unwrap();
    assert_eq!(result, "Incr 1");
    assert_eq!(kvapp.store.get("counter"), Some("1".to_string()));
}

#[test]
fn kvapp_test_incr_noninteger_value() {
    let mut kvapp = KVApp::new();
    kvapp.store.set("key", "notanumber");
    let result = kvapp.update_store("incr key".to_string()).unwrap();
    assert_eq!(result, "Invalid: can only incr integral values");
}

#[test]
fn kvapp_test_incr_nonexistent_key() {
    let mut kvapp = KVApp::new();
    let result = kvapp.update_store("incr missing".to_string()).unwrap();
    assert_eq!(result, "Invalid: no such key");
}

#[test]
fn kvapp_test_invalid_command() {
    let mut kvapp = KVApp::new();
    let result = kvapp.update_store("invalid".to_string()).unwrap();
    assert_eq!(result, "Invalid command");
}

#[test]
fn kvapp_test_invalid_get_no_key() {
    let mut kvapp = KVApp::new();
    let result = kvapp.update_store("get".to_string()).unwrap();
    assert_eq!(result, "Invalid command");
}

#[test]
fn kvapp_test_invalid_set_missing_value() {
    let mut kvapp = KVApp::new();
    let result = kvapp.update_store("set key".to_string()).unwrap();
    assert_eq!(result, "Invalid command");
}

#[test]
fn kvapp_test_invalid_delete_no_key() {
    let mut kvapp = KVApp::new();
    let result = kvapp.update_store("delete".to_string()).unwrap();
    assert_eq!(result, "Invalid command");
}

#[test]
fn kvapp_test_extra_whitespace() {
    let mut kvapp = KVApp::new();
    let result = kvapp.update_store("  set   key   value  ".to_string()).unwrap();
    assert_eq!(result, "Set");
    assert_eq!(kvapp.store.get("key"), Some("value".to_string()));
}

#[test]
fn kvapp_test_multiple_incr() {
    let mut kvapp = KVApp::new();
    kvapp.store.set("count", "0");
    kvapp.update_store("incr count".to_string()).unwrap();
    kvapp.update_store("incr count".to_string()).unwrap();
    let result = kvapp.update_store("incr count".to_string()).unwrap();
    assert_eq!(result, "Incr 3");
    assert_eq!(kvapp.store.get("count"), Some("3".to_string()));
}

#[test]
fn apply_up_to_applies_in_order() {
    let mut log = RaftLog::new();
    log.add_new_command(1, "set a 1".to_string());
    log.add_new_command(1, "incr a".to_string());
    log.add_new_command(1, "get a".to_string());
    let mut kvapp = KVApp::new();
    let replies = kvapp.apply_up_to(&log, 2).unwrap();
    assert_eq!(replies, vec!["Set".to_string(), "Incr 2".to_string()]);
    assert_eq!(kvapp.last_applied, 2);
    assert_eq!(kvapp.apply_up_to(&log, 1), Ok(vec![]));
    assert_eq!(kvapp.apply_up_to(&log, 3), Ok(vec!["2".to_string()]));
    assert_eq!(kvapp.last_applied, 3);
}

#[test]
fn apply_up_to_stops_where_the_log_ends() {
    let mut log = RaftLog::new();
    log.add_new_command(1, "set a 1".to_string());
    let mut kvapp = KVApp::new();
    assert_eq!(kvapp.apply_up_to(&log, 3), Err(ApplyStop::MissingEntry(2)));
    assert_eq!(kvapp.last_applied, 1);
    assert_eq!(kvapp.store.get("a"), Some("1".to_string()));
    assert_eq!(kvapp.apply_up_to(&log, 3), Err(ApplyStop::MissingEntry(2)));
}

#[test]
fn apply_up_to_stops_before_an_overflowing_incr() {
    let mut log = RaftLog::new();
    log.add_new_command(1, "set a 2147483647".to_string());
    log.add_new_command(1, "incr a".to_string());
    let mut kvapp = KVApp::new();
    assert_eq!(kvapp.apply_up_to(&log, 2), Err(ApplyStop::Overflow(2)));
    assert_eq!(kvapp.last_applied, 1);
}
