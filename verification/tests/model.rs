use std::time::Duration;

use phoenix_db::cli::{level_for, Cli, LogLevel};
use phoenix_db::protocol::{DbMetadata, DbValue, NetActions, NetResponse};
use phoenix_db::store::Store;
use phoenix_db::ttl::Entry;
use serde_json::Value;
use tokio::time::Instant;

fn cli(level: &str) -> Cli {
    Cli {
        port: 6969,
        addr: "127.0.0.1".to_string(),
        username: None,
        password: None,
        debug_mode: false,
        log_level: level.to_string(),
    }
}

#[test]
fn metadata_defaults() {
    let m = DbMetadata::default();
    assert_eq!(
        m,
        DbMetadata {
            version: "0.1.0",
            port: 6969,
            addr: "127.0.0.1",
            username: "root",
            password: "admin",
            debug_mode: false,
        }
    );
}

#[test]
fn log_levels_in_any_case() {
    assert_eq!(cli("error").max_log_level(), LogLevel::Error);
    assert_eq!(cli("WARN").max_log_level(), LogLevel::Warn);
    assert_eq!(cli("Debug").max_log_level(), LogLevel::Debug);
    assert_eq!(cli("trace").max_log_level(), LogLevel::Trace);
    assert_eq!(cli("info").max_log_level(), LogLevel::Info);
    assert_eq!(cli("loud").max_log_level(), LogLevel::Info);
    assert_eq!(level_for("DEBUG"), LogLevel::Info);
}

#[test]
fn responses_are_built_as_said() {
    assert_eq!(
        NetResponse::failure("bad".to_string()),
        NetResponse { action: NetActions::Error, value: None, error: Some("bad".to_string()) }
    );
    assert_eq!(
        NetResponse::success(Some(Value::Bool(true))),
        NetResponse { action: NetActions::Command, value: Some(Value::Bool(true)), error: None }
    );
}

#[test]
fn store_keeps_one_entry_per_key() {
    let mut db: Store<String> = Store::new();
    db.insert("a".to_string(), "1".to_string());
    db.insert("b".to_string(), "2".to_string());
    db.insert("a".to_string(), "3".to_string());
    assert_eq!(db.len(), 2);
    assert_eq!(db.get(&"a".to_string()), Some(&"3".to_string()));
    assert!(db.contains_key(&"b".to_string()));
    assert_eq!(db.remove(&"b".to_string()), Some("2".to_string()));
    assert_eq!(db.remove(&"b".to_string()), None);
    assert!(!db.contains_key(&"b".to_string()));
    assert_eq!(db.keys(), vec!["a".to_string()]);
}

#[test]
fn expires_at_counts_from_the_given_reading() {
    let now = Instant::now();
    let permanent = DbValue { value: Value::Null, expires_in: None };
    assert_eq!(permanent.expires_at(now), None);
    let timed = DbValue { value: Value::Null, expires_in: Some(Duration::from_secs(60)) };
    assert_eq!(timed.expires_at(now), Some(now + Duration::from_secs(60)));
    let huge = DbValue { value: Value::Null, expires_in: Some(Duration::MAX) };
    assert_eq!(huge.expires_at(now), None);
    let entry = Entry::new(timed.clone(), now);
    assert_eq!(entry.data(), &timed);
    assert_eq!(entry.deadline(), Some(now + Duration::from_secs(60)));
}

#[test]
fn sweep_drops_exactly_the_values_whose_deadline_passed() {
    let t0 = Instant::now();
    let mut db = Store::new();
    let permanent = DbValue { value: Value::Null, expires_in: None };
    let short = DbValue { value: Value::Bool(true), expires_in: Some(Duration::from_secs(1)) };
    let long = DbValue { value: Value::Bool(false), expires_in: Some(Duration::from_secs(10)) };
    db.insert("permanent".to_string(), Entry::new(permanent, t0));
    db.insert("short".to_string(), Entry::new(short, t0));
    db.insert("long".to_string(), Entry::new(long.clone(), t0));

    db.sweep_expired(t0 + Duration::from_millis(500));
    assert_eq!(db.len(), 3);

    db.sweep_expired(t0 + Duration::from_secs(1));
    assert_eq!(db.keys(), vec!["permanent".to_string(), "long".to_string()]);
    assert_eq!(db.get(&"long".to_string()).map(|e| e.data().clone()), Some(long));

    db.sweep_expired(t0 + Duration::from_secs(3_600));
    assert_eq!(db.keys(), vec!["permanent".to_string()]);
}
