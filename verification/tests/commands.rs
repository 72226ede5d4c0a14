use phoenix_db::commands::{delete_command, insert_command, lookup_command, CommandArgs, CommandParams};
use phoenix_db::protocol::{DbValue, NetActions};
use phoenix_db::store::Store;
use phoenix_db::ttl::Entry;
use tokio::time::Instant;
use serde_json::Value;

fn create_fake_db() -> Store<Entry> {
    Store::new()
}

fn put(db: &mut Store<Entry>, key: String, value: DbValue) {
    db.insert(key, Entry::new(value, Instant::now()));
}

fn data_of(db: &Store<Entry>, key: &String) -> Option<DbValue> {
    db.get(key).map(|e| e.data().clone())
}

fn text(s: &str) -> Value {
    Value::String(s.to_string())
}

fn plain(s: &str) -> DbValue {
    DbValue { value: text(s), expires_in: None }
}

#[test]
fn test_single_insert() {
    let mut db = create_fake_db();
    let key = "test_key".to_string();
    let data = plain("test_value");

    let args = CommandArgs::Single(Some(key.clone()), Some(data.clone()));
    let response = insert_command(args, &mut db, Instant::now());

    assert_eq!(response.action, NetActions::Command);
    assert_eq!(response.value, Some("OK".to_string().into()));
    assert!(response.error.is_none());

    assert_eq!(data_of(&db, &key), Some(data.clone()));
}

#[test]
fn test_single_insert_missing_key() {
    let mut db = create_fake_db();
    let data = plain("test_value");

    let args = CommandArgs::Single(None, Some(data));
    let response = insert_command(args, &mut db, Instant::now());

    assert_eq!(response.action, NetActions::Error);
    assert_eq!(response.value, None);
    assert_eq!(response.error, Some("No key provided for insert.".to_string()));
}

#[test]
fn test_single_insert_missing_value() {
    let mut db = create_fake_db();
    let key = "test_key".to_string();

    let args = CommandArgs::Single(Some(key), None);
    let response = insert_command(args, &mut db, Instant::now());

    assert_eq!(response.action, NetActions::Error);
    assert_eq!(response.value, None);
    assert_eq!(response.error, Some("No value provided for insert.".to_string()));
}

#[test]
fn test_bulk_insert() {
    let mut db = create_fake_db();
    let key1 = "key1".to_string();
    let key2 = "key2".to_string();
    let data = plain("value1");
    let data2 = plain("value2");

    let args = CommandArgs::Many(vec![
        CommandParams { key: Some(key1.clone()), value: Some(data.value.clone()), ttl: None },
        CommandParams { key: Some(key2.clone()), value: Some(data2.value.clone()), ttl: None },
    ]);

    let response = insert_command(args, &mut db, Instant::now());

    assert_eq!(response.action, NetActions::Command);
    assert_eq!(response.value, Some("OK".to_string().into()));
    assert!(response.error.is_none());

    assert_eq!(data_of(&db, &key1), Some(data.clone()));
    assert_eq!(data_of(&db, &key2), Some(data2.clone()));
}

#[test]
fn test_single_lookup_existing_key() {
    let mut db = create_fake_db();
    let key = "test_key".to_string();
    let data = plain("test_value");
    put(&mut db, key.clone(), data.clone());

    let args = CommandArgs::Single(Some(key.clone()), None);
    let response = lookup_command(args, &db);

    assert_eq!(response.action, NetActions::Command);
    assert_eq!(response.value, Some(data.value));
    assert!(response.error.is_none());
}

#[test]
fn test_single_lookup_missing_key() {
    let db = create_fake_db();
    let key = "non_existent_key".to_string();

    let args = CommandArgs::Single(Some(key), None);
    let response = lookup_command(args, &db);

    assert_eq!(response.action, NetActions::Command);
    assert_eq!(response.value, None);
    assert!(response.error.is_none());
}

#[test]
fn test_single_lookup_no_key_provided() {
    let db = create_fake_db();
    let args = CommandArgs::Single(None, None);
    let response = lookup_command(args, &db);

    assert_eq!(response.action, NetActions::Error);
    assert_eq!(response.value, None);
    assert_eq!(response.error, Some("No key provided for lookup.".to_string()));
}

#[test]
fn test_bulk_lookup() {
    let mut db = create_fake_db();
    let key1 = "key1".to_string();
    let key2 = "key2".to_string();
    let value1 = plain("value1");
    let value2 = plain("value2");
    put(&mut db, key1.clone(), value1.clone());
    put(&mut db, key2.clone(), value2.clone());

    let args = CommandArgs::Many(vec![
        CommandParams { key: Some(key1.clone()), value: None, ttl: None },
        CommandParams { key: Some(key2.clone()), value: None, ttl: None },
    ]);

    let response = lookup_command(args, &db);

    assert_eq!(response.action, NetActions::Command);
    assert_eq!(response.value, Some(Value::Array(vec![value1.value, value2.value])));
    assert!(response.error.is_none());
}

#[test]
fn test_bulk_lookup_missing_keys() {
    let mut db = create_fake_db();
    let key1 = "key1".to_string();
    let value1 = plain("value1");
    put(&mut db, key1.clone(), value1.clone());

    let args = CommandArgs::Many(vec![
        CommandParams { key: Some(key1.clone()), value: None, ttl: None },
        CommandParams { key: None, value: None, ttl: None },
    ]);

    let response = lookup_command(args, &db);

    assert_eq!(response.action, NetActions::Error);
    assert_eq!(response.value, None);
    assert_eq!(response.error, Some("Missing key in bulk lookup.".to_string()));

    let expected_value = Value::Array(vec![value1.value]);
    let response = lookup_command(
        CommandArgs::Many(vec![CommandParams { key: Some(key1), value: None, ttl: None }]),
        &db,
    );

    assert_eq!(response.value, Some(expected_value));
}

#[test]
fn test_single_delete_existing_key() {
    let mut db = create_fake_db();
    let key = "test_key".to_string();
    let value = plain("test_value");
    put(&mut db, key.clone(), value.clone());

    let args = CommandArgs::Single(Some(key.clone()), None);
    let response = delete_command(args, &mut db);

    assert_eq!(response.action, NetActions::Command);
    assert_eq!(response.value, Some("OK".to_string().into()));
    assert!(response.error.is_none());

    assert!(data_of(&db, &key).is_none());
}

#[test]
fn test_single_delete_missing_key() {
    let mut db = create_fake_db();
    let key = "non_existent_key".to_string();

    let args = CommandArgs::Single(Some(key.clone()), None);
    let response = delete_command(args, &mut db);

    assert_eq!(response.action, NetActions::Error);
    assert_eq!(response.value, None);
    assert_eq!(response.error, Some(format!("Key '{}' not found.", key)));
}

#[test]
fn test_single_delete_no_key_provided() {
    let mut db = create_fake_db();
    let args = CommandArgs::Single(None, None);
    let response = delete_command(args, &mut db);

    assert_eq!(response.action, NetActions::Error);
    assert_eq!(response.value, None);
    assert_eq!(response.error, Some("No key provided for delete.".to_string()));
}

#[test]
fn test_bulk_delete() {
    let mut db = create_fake_db();
    let key1 = "key1".to_string();
    let key2 = "key2".to_string();
    let value1 = plain("value1");
    let value2 = plain("value2");
    put(&mut db, key1.clone(), value1.clone());
    put(&mut db, key2.clone(), value2.clone());

    let args = CommandArgs::Many(vec![
        CommandParams { key: Some(key1.clone()), value: None, ttl: None },
        CommandParams { key: Some(key2.clone()), value: None, ttl: None },
    ]);

    let response = delete_command(args, &mut db);

    assert_eq!(response.action, NetActions::Command);
    assert_eq!(
        response.value,
        Some(Value::Array(vec![Value::String(key1.clone()), Value::String(key2.clone())]))
    );
    assert!(response.error.is_none());

    assert!(data_of(&db, &key1).is_none());
    assert!(data_of(&db, &key2).is_none());
}

#[test]
fn test_bulk_delete_missing_keys() {
    let mut db = create_fake_db();
    let key1 = "key1".to_string();
    let key2 = "key2".to_string();
    let value1 = plain("value1");
    put(&mut db, key1.clone(), value1.clone());

    let args = CommandArgs::Many(vec![
        CommandParams { key: Some(key1.clone()), value: None, ttl: None },
        CommandParams { key: Some(key2.clone()), value: None, ttl: None },
    ]);

    let response = delete_command(args, &mut db);

    assert_eq!(response.action, NetActions::Command);
    assert_eq!(response.value, Some(Value::Array(vec![Value::String(key1.clone())])));
    assert!(response.error.is_none());

    assert!(data_of(&db, &key1).is_none());
    assert!(data_of(&db, &key2).is_none());
}

#[test]
fn bulk_insert_reports_every_faulty_item_and_changes_nothing() {
    let mut db = create_fake_db();
    put(&mut db, "keep".to_string(), plain("old"));
    let args = CommandArgs::Many(vec![
        CommandParams { key: Some("a".to_string()), value: Some(text("1")), ttl: None },
        CommandParams { key: Some("b".to_string()), value: None, ttl: None },
        CommandParams { key: None, value: Some(text("2")), ttl: None },
        CommandParams { key: None, value: None, ttl: None },
    ]);
    let response = insert_command(args, &mut db, Instant::now());
    assert_eq!(response.action, NetActions::Error);
    assert_eq!(response.value, None);
    assert_eq!(
        response.error,
        Some(
            "Missing value for key: b, Key is missing for provided value, Both key and value are missing"
                .to_string()
        )
    );
    assert!(data_of(&db, &"a".to_string()).is_none());
    assert_eq!(data_of(&db, &"keep".to_string()), Some(plain("old")));
    assert_eq!(db.len(), 1);
}

#[test]
fn bulk_insert_last_item_with_a_key_wins() {
    let mut db = create_fake_db();
    let ttl = std::time::Duration::from_secs(5);
    let args = CommandArgs::Many(vec![
        CommandParams { key: Some("k".to_string()), value: Some(text("first")), ttl: None },
        CommandParams { key: Some("k".to_string()), value: Some(text("second")), ttl: Some(ttl) },
    ]);
    let response = insert_command(args, &mut db, Instant::now());
    assert_eq!(response.action, NetActions::Command);
    assert_eq!(
        data_of(&db, &"k".to_string()),
        Some(DbValue { value: text("second"), expires_in: Some(ttl) })
    );
    assert_eq!(db.len(), 1);
}

#[test]
fn single_insert_overwrites_existing_value() {
    let mut db = create_fake_db();
    put(&mut db, "k".to_string(), plain("old"));
    let response = insert_command(CommandArgs::Single(Some("k".to_string()), Some(plain("new"))), &mut db, Instant::now());
    assert_eq!(response.action, NetActions::Command);
    assert_eq!(data_of(&db, &"k".to_string()), Some(plain("new")));
    assert_eq!(db.len(), 1);
}

#[test]
fn bulk_lookup_skips_missing_keys() {
    let mut db = create_fake_db();
    put(&mut db, "a".to_string(), plain("1"));
    put(&mut db, "c".to_string(), plain("3"));
    let args = CommandArgs::Many(vec![
        CommandParams { key: Some("c".to_string()), value: None, ttl: None },
        CommandParams { key: Some("b".to_string()), value: None, ttl: None },
        CommandParams { key: Some("a".to_string()), value: None, ttl: None },
    ]);
    let response = lookup_command(args, &db);
    assert_eq!(response.action, NetActions::Command);
    assert_eq!(response.value, Some(Value::Array(vec![text("3"), text("1")])));
    assert_eq!(response.error, None);
}

#[test]
fn bulk_delete_lists_a_repeated_key_once() {
    let mut db = create_fake_db();
    put(&mut db, "a".to_string(), plain("1"));
    let args = CommandArgs::Many(vec![
        CommandParams { key: Some("a".to_string()), value: None, ttl: None },
        CommandParams { key: None, value: None, ttl: None },
        CommandParams { key: Some("a".to_string()), value: None, ttl: None },
    ]);
    let response = delete_command(args, &mut db);
    assert_eq!(response.action, NetActions::Command);
    assert_eq!(response.value, Some(Value::Array(vec![text("a")])));
    assert_eq!(db.len(), 0);
}

#[test]
fn lookup_reads_what_insert_wrote() {
    let mut db = create_fake_db();
    insert_command(CommandArgs::Single(Some("k".to_string()), Some(plain("v"))), &mut db, Instant::now());
    let response = lookup_command(CommandArgs::Single(Some("k".to_string()), None), &db);
    assert_eq!(response.value, Some(text("v")));
}

#[test]
fn delete_undoes_insert_of_new_key() {
    let mut db = create_fake_db();
    put(&mut db, "x".to_string(), plain("1"));
    insert_command(CommandArgs::Single(Some("k".to_string()), Some(plain("v"))), &mut db, Instant::now());
    let response = delete_command(CommandArgs::Single(Some("k".to_string()), None), &mut db);
    assert_eq!(response.value, Some(text("OK")));
    assert_eq!(db.len(), 1);
    assert_eq!(db.keys(), vec!["x".to_string()]);
    assert_eq!(data_of(&db, &"x".to_string()), Some(plain("1")));
    let after = lookup_command(CommandArgs::Single(Some("k".to_string()), None), &db);
    assert_eq!(after.action, NetActions::Command);
    assert_eq!(after.value, None);
}

#[test]
fn bulk_lookup_reads_bulk_insert() {
    let mut db = create_fake_db();
    let args = CommandArgs::Many(vec![
        CommandParams { key: Some("x".to_string()), value: Some(text("1")), ttl: None },
        CommandParams { key: Some("y".to_string()), value: Some(text("2")), ttl: None },
    ]);
    insert_command(args, &mut db, Instant::now());
    let response = lookup_command(
        CommandArgs::Many(vec![
            CommandParams { key: Some("x".to_string()), value: None, ttl: None },
            CommandParams { key: Some("y".to_string()), value: None, ttl: None },
        ]),
        &db,
    );
    assert_eq!(response.action, NetActions::Command);
    assert_eq!(response.value, Some(Value::Array(vec![text("1"), text("2")])));
}

#[test]
fn inserted_value_expires_after_its_ttl() {
    let t0 = Instant::now();
    let mut db = create_fake_db();
    let ttl = std::time::Duration::from_secs(30);
    let value = DbValue { value: text("v"), expires_in: Some(ttl) };
    insert_command(CommandArgs::Single(Some("k".to_string()), Some(value)), &mut db, t0);
    insert_command(CommandArgs::Single(Some("p".to_string()), Some(plain("kept"))), &mut db, t0);

    db.sweep_expired(t0 + std::time::Duration::from_secs(29));
    let r = lookup_command(CommandArgs::Single(Some("k".to_string()), None), &db);
    assert_eq!(r.value, Some(text("v")));

    db.sweep_expired(t0 + ttl);
    let r = lookup_command(CommandArgs::Single(Some("k".to_string()), None), &db);
    assert_eq!(r.action, NetActions::Command);
    assert_eq!(r.value, None);
    assert_eq!(data_of(&db, &"p".to_string()), Some(plain("kept")));
}
