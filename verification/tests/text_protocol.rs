use phoenix_db::store::Store;
use phoenix_db::text_protocol::{handle_line, is_white_space, split_words};

fn reply(db: &mut Store<String>, line: &str) -> (String, bool) {
    let r = handle_line(db, line);
    (r.text, r.close)
}

#[test]
fn split_words_splits_on_any_white_space() {
    assert_eq!(split_words("  SET\tkey \u{3000} value\n"), vec!["SET", "key", "value"]);
    assert_eq!(split_words(""), Vec::<String>::new());
    assert_eq!(split_words(" \n"), Vec::<String>::new());
    assert_eq!(split_words("a"), vec!["a"]);
}

#[test]
fn set_then_get_reads_the_value() {
    let mut db = Store::new();
    assert_eq!(reply(&mut db, "SET name phoenix\n"), ("OK\n".to_string(), false));
    assert_eq!(reply(&mut db, "GET name\n"), ("VALUE phoenix\n".to_string(), false));
    assert_eq!(reply(&mut db, "SET name again\n"), ("OK\n".to_string(), false));
    assert_eq!(reply(&mut db, "  GET   name  "), ("VALUE again\n".to_string(), false));
}

#[test]
fn del_removes_and_reports_missing_keys() {
    let mut db = Store::new();
    reply(&mut db, "SET a 1\n");
    assert_eq!(reply(&mut db, "DEL a\n"), ("OK\n".to_string(), false));
    assert_eq!(reply(&mut db, "DEL a\n"), ("NOT FOUND\n".to_string(), false));
    assert_eq!(reply(&mut db, "GET a\n"), ("NOT FOUND\n".to_string(), false));
}

#[test]
fn list_names_every_key() {
    let mut db = Store::new();
    assert_eq!(reply(&mut db, "LIST\n"), ("EMPTY\n".to_string(), false));
    reply(&mut db, "SET a 1\n");
    reply(&mut db, "SET b 2\n");
    assert_eq!(reply(&mut db, "LIST\n"), ("KEYS a, b\n".to_string(), false));
}

#[test]
fn exit_closes_and_help_lists_commands() {
    let mut db = Store::new();
    assert_eq!(reply(&mut db, "EXIT\n"), ("EXITING\n".to_string(), true));
    let (help, close) = reply(&mut db, "HELP\n");
    assert!(!close);
    assert_eq!(
        help,
        "Commands:\nSET key value - Set the value of a key\nGET key - Get the value of a key\nDEL key - Delete the value of a key\nLIST - List all keys\nEXIT - Exit the database\nHELP - List all commands\n"
    );
}

#[test]
fn malformed_lines_are_unknown_commands() {
    let mut db = Store::new();
    for line in ["", "\n", "set a 1", "SET a", "SET a b c", "GET", "LIST all", "exit"] {
        assert_eq!(reply(&mut db, line), ("ERROR Unknown command\n".to_string(), false));
    }
    assert_eq!(db.len(), 0);
}

#[test]
fn white_space_agrees_with_the_standard_library() {
    for c in (0u32..=0x10FFFF).filter_map(char::from_u32) {
        assert_eq!(is_white_space(c), c.is_whitespace(), "{:?}", c);
    }
}

#[test]
fn get_reads_set_across_other_lines() {
    let mut db = Store::new();
    reply(&mut db, "SET k v\n");
    for line in ["SET other 1\n", "GET k\n", "DEL other\n", "LIST\n", "HELP\n", "bogus line\n"] {
        reply(&mut db, line);
    }
    assert_eq!(reply(&mut db, "GET k\n"), ("VALUE v\n".to_string(), false));
}
