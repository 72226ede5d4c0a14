use std::time::Duration;

use phoenix_db::commands::{ends_session, execute_command, handler, join_with, route, CommandArgs};
use phoenix_db::protocol::{DbValue, NetActions, NetCommand, NetResponse};
use phoenix_db::store::Store;
use phoenix_db::ttl::Entry;
use tokio::time::Instant;
use serde_json::Value;

fn text(s: &str) -> Value {
    Value::String(s.to_string())
}

fn command<'a>(
    name: &'a str,
    keys: Option<Vec<&'a str>>,
    values: Option<Vec<DbValue>>,
    ttls: Option<Vec<Duration>>,
) -> NetCommand<'a> {
    NetCommand { name, keys, values, ttls }
}

fn data_of(db: &Store<Entry>, key: &str) -> Option<DbValue> {
    db.get(&key.to_string()).map(|e| e.data().clone())
}

fn failure(message: &str) -> NetResponse {
    NetResponse { action: NetActions::Error, value: None, error: Some(message.to_string()) }
}

#[test]
fn handler_inserts_with_ttl_and_looks_up_in_any_case() {
    let mut db: Store<Entry> = Store::new();
    let ttl = Duration::from_secs(30);
    let stored = DbValue { value: text("v"), expires_in: None };
    let r = handler(command("insert", Some(vec!["k"]), Some(vec![stored]), Some(vec![ttl])), &mut db, Instant::now());
    assert_eq!(r, NetResponse { action: NetActions::Command, value: Some(text("OK")), error: None });
    assert_eq!(data_of(&db, "k"), Some(DbValue { value: text("v"), expires_in: Some(ttl) }));

    let r = handler(command("LoOkUp", Some(vec!["k"]), None, None), &mut db, Instant::now());
    assert_eq!(r, NetResponse { action: NetActions::Command, value: Some(text("v")), error: None });
}

#[test]
fn handler_uses_only_the_first_key_and_value() {
    let mut db: Store<Entry> = Store::new();
    let values = vec![
        DbValue { value: text("one"), expires_in: None },
        DbValue { value: text("two"), expires_in: None },
    ];
    let ttls = vec![Duration::from_secs(1), Duration::from_secs(2)];
    let r = handler(command("INSERT", Some(vec!["a", "b"]), Some(values), Some(ttls)), &mut db, Instant::now());
    assert_eq!(r.action, NetActions::Command);
    assert_eq!(db.len(), 1);
    assert_eq!(data_of(&db, "a").map(|v| v.value), Some(text("one")));
}

#[test]
fn handler_bulk_insert_pairs_keys_values_and_ttls_as_far_as_they_go() {
    let mut db: Store<Entry> = Store::new();
    let values = vec![
        DbValue { value: text("one"), expires_in: None },
        DbValue { value: text("two"), expires_in: None },
        DbValue { value: text("three"), expires_in: None },
    ];
    let ttls = vec![Duration::from_secs(1), Duration::from_secs(2)];
    let r = handler(command("insert *", Some(vec!["a", "b", "c"]), Some(values), Some(ttls)), &mut db, Instant::now());
    assert_eq!(r.action, NetActions::Command);
    assert_eq!(db.keys(), vec!["a".to_string(), "b".to_string()]);
    assert_eq!(
        data_of(&db, "b"),
        Some(DbValue { value: text("two"), expires_in: Some(Duration::from_secs(2)) })
    );

    let r = handler(command("LOOKUP *", Some(vec!["b", "z", "a"]), None, None), &mut db, Instant::now());
    assert_eq!(r.value, Some(Value::Array(vec![text("two"), text("one")])));

    let r = handler(command("delete *", Some(vec!["a", "z"]), None, None), &mut db, Instant::now());
    assert_eq!(r.value, Some(Value::Array(vec![text("a")])));
    assert_eq!(db.keys(), vec!["b".to_string()]);

    let r = handler(command("Delete", Some(vec!["b"]), None, None), &mut db, Instant::now());
    assert_eq!(r.value, Some(text("OK")));
    assert_eq!(db.len(), 0);
}

#[test]
fn handler_reports_missing_arguments() {
    let mut db: Store<Entry> = Store::new();
    assert_eq!(
        handler(command("INSERT", Some(vec!["k"]), None, None), &mut db, Instant::now()),
        failure("Error: Missing key or value for INSERT command.")
    );
    assert_eq!(
        handler(command("INSERT", Some(vec![]), Some(vec![]), Some(vec![])), &mut db, Instant::now()),
        failure("Error: Missing key or value for INSERT command.")
    );
    assert_eq!(
        handler(command("LOOKUP", None, None, None), &mut db, Instant::now()),
        failure("Error: Missing key for LOOKUP command.")
    );
    assert_eq!(
        handler(command("DELETE", Some(vec![]), None, None), &mut db, Instant::now()),
        failure("Error: Missing key for DELETE command.")
    );
    assert_eq!(
        handler(command("INSERT *", Some(vec!["k"]), None, None), &mut db, Instant::now()),
        failure("Error: Missing keys or values for bulk insert.")
    );
    assert_eq!(
        handler(command("LOOKUP *", None, None, None), &mut db, Instant::now()),
        failure("Error: Missing keys for bulk lookup.")
    );
    assert_eq!(
        handler(command("DELETE *", None, None, None), &mut db, Instant::now()),
        failure("Error: Missing keys for bulk delete.")
    );
    assert_eq!(db.len(), 0);
}

#[test]
fn handler_refuses_unknown_commands() {
    let mut db: Store<Entry> = Store::new();
    db.insert("k".to_string(), Entry::new(DbValue { value: text("v"), expires_in: None }, Instant::now()));
    assert_eq!(handler(command("RENAME", Some(vec!["k"]), None, None), &mut db, Instant::now()), failure("Error: Unknown command."));
    assert_eq!(handler(command("INSERT  *", Some(vec!["k"]), None, None), &mut db, Instant::now()), failure("Error: Unknown command."));
    assert_eq!(db.len(), 1);
}

#[test]
fn route_takes_names_as_they_are() {
    let mut db: Store<Entry> = Store::new();
    let r = route("insert", Some(vec!["k".to_string()]), Some(vec![]), &mut db, Instant::now());
    assert_eq!(r, failure("Error: Unknown command."));
}

#[test]
fn execute_command_dispatches_registered_names() {
    let mut db: Store<Entry> = Store::new();
    let r = execute_command(
        "INSERT *",
        CommandArgs::Single(Some("k".to_string()), Some(DbValue { value: text("v"), expires_in: None })),
        &mut db, Instant::now());
    assert_eq!(r.value, Some(text("OK")));
    let r = execute_command("LOOKUP", CommandArgs::Single(Some("k".to_string()), None), &mut db, Instant::now());
    assert_eq!(r.value, Some(text("v")));
    let r = execute_command("lookup", CommandArgs::Single(Some("k".to_string()), None), &mut db, Instant::now());
    assert_eq!(r, failure("Error: Unknown command."));
}

#[test]
fn join_with_separates_parts() {
    assert_eq!(join_with(&vec![], ", "), "");
    assert_eq!(join_with(&vec!["a".to_string()], ", "), "a");
    assert_eq!(join_with(&vec!["a".to_string(), "b".to_string(), "c".to_string()], "-"), "a-b-c");
}

#[test]
fn create_stores_only_new_keys() {
    let mut db: Store<Entry> = Store::new();
    let v = |s: &str| DbValue { value: text(s), expires_in: None };
    let r = handler(command("create", Some(vec!["k"]), Some(vec![v("first")]), Some(vec![Duration::from_secs(5)])), &mut db, Instant::now());
    assert_eq!(r, NetResponse { action: NetActions::Command, value: Some(text("OK")), error: None });
    assert_eq!(data_of(&db, "k").map(|d| d.value), Some(text("first")));

    let r = handler(command("CREATE", Some(vec!["k"]), Some(vec![v("second")]), Some(vec![Duration::from_secs(5)])), &mut db, Instant::now());
    assert_eq!(r, failure("Key 'k' already exists."));
    assert_eq!(data_of(&db, "k").map(|d| d.value), Some(text("first")));

    let r = handler(command("CREATE", Some(vec!["j"]), None, None), &mut db, Instant::now());
    assert_eq!(r, failure("Error: Missing key or value for CREATE command."));
    assert_eq!(db.len(), 1);
}

#[test]
fn destroy_drops_every_value() {
    let mut db: Store<Entry> = Store::new();
    db.insert("a".to_string(), Entry::new(DbValue { value: text("1"), expires_in: None }, Instant::now()));
    db.insert("b".to_string(), Entry::new(DbValue { value: text("2"), expires_in: None }, Instant::now()));
    let r = handler(command("Destroy", None, None, None), &mut db, Instant::now());
    assert_eq!(r, NetResponse { action: NetActions::Command, value: Some(text("OK")), error: None });
    assert_eq!(db.len(), 0);
    let r = handler(command("LOOKUP", Some(vec!["a"]), None, None), &mut db, Instant::now());
    assert_eq!(r.value, None);
}

#[test]
fn exit_ends_the_session_and_keeps_the_table() {
    let mut db: Store<Entry> = Store::new();
    db.insert("a".to_string(), Entry::new(DbValue { value: text("1"), expires_in: None }, Instant::now()));
    let r = handler(command("exit", None, None, None), &mut db, Instant::now());
    assert_eq!(r, NetResponse { action: NetActions::Command, value: Some(text("EXITING")), error: None });
    assert_eq!(db.len(), 1);
    assert!(ends_session("exit"));
    assert!(ends_session("EXIT"));
    assert!(!ends_session("EXITS"));
    assert!(!ends_session("INSERT"));
}
