//! The store's documented properties on concrete values, plus the error
//! paths of parsing and validation.

use memory_store::config::Config;
use memory_store::jobs::{Args, Job};
use memory_store::memory::{
    exec, execute_command, parse_arguments, Command, Commands, Database,
};
use memory_store::persistence::{load_store, reload, write_local, SnapshotFile};
use memory_store::store::Store;

fn fresh_db() -> Database {
    Database::new(Store::new(), SnapshotFile::new(None))
}

fn dispatch(db: &mut Database, line: &str) -> Result<Vec<String>, String> {
    let (cmd, multiplier) = parse_arguments(line.to_string()).unwrap();
    assert!(cmd.command != Commands::Exit);
    execute_command(&cmd, db, multiplier)
}

fn store_as_json(db: &Database) -> serde_json::Value {
    let content = db.file.primary_content().clone().expect("no snapshot written");
    serde_json::from_str(&content).expect("snapshot is not valid JSON")
}

#[test]
fn set_then_get_returns_value() {
    let mut db = fresh_db();
    let r = dispatch(&mut db, "set alpha beta 1");
    assert_eq!(r, Ok(vec!["key: alpha, value: beta".to_string()]));
    let r = dispatch(&mut db, "get alpha");
    assert_eq!(r, Ok(vec!["key: alpha, value: beta".to_string()]));
}

#[test]
fn clear_twice_idempotent() {
    let mut db = fresh_db();
    dispatch(&mut db, "set a 1").unwrap();
    let r = dispatch(&mut db, "clear");
    assert_eq!(r, Ok(vec!["database cleared".to_string()]));
    assert_eq!(db.store.len(), 0);
    assert_eq!(db.file.primary_content().clone().unwrap(), "{}");
    let r = dispatch(&mut db, "clear");
    assert_eq!(r, Ok(vec!["database cleared".to_string()]));
    assert_eq!(db.store.len(), 0);
    assert_eq!(db.file.primary_content().clone().unwrap(), "{}");
    let v = store_as_json(&db);
    assert_eq!(v.as_object().unwrap().len(), 0);
}

#[test]
fn round_trip_restores_mapping() {
    let mut db = fresh_db();
    let pairs = [("one", "1"), ("two", "2"), ("three", "3"), ("four", "4"), ("five", "5")];
    for (k, v) in pairs.iter() {
        dispatch(&mut db, &format!("set {} {}", k, v)).unwrap();
    }
    // restart: rebuild the store from the persisted text alone
    let content = db.file.primary_content().clone().unwrap();
    let restored = load_store(&content).unwrap();
    assert_eq!(restored.len(), pairs.len());
    for (k, v) in pairs.iter() {
        assert_eq!(restored.get(&k.to_string()), Some(v.to_string()));
    }
    // the verified round trip does the same in one step
    let again = reload(&db.store);
    assert_eq!(again.get(&"three".to_string()), Some("3".to_string()));
}

#[test]
fn delete_absent_key_succeeds() {
    let mut db = fresh_db();
    dispatch(&mut db, "set here now").unwrap();
    let before = db.file.primary_content().clone().unwrap();
    let r = dispatch(&mut db, "delete gone");
    assert_eq!(r, Ok(vec!["key removed: gone".to_string()]));
    let after = db.file.primary_content().clone().unwrap();
    assert_eq!(before, after);
    assert_eq!(db.store.get(&"here".to_string()), Some("now".to_string()));
}

#[test]
fn fanout_five_sets_one_key() {
    let mut db = fresh_db();
    for v in ["v1", "v2", "v3", "v4", "v5"].iter() {
        dispatch(&mut db, &format!("set k {}", v)).unwrap();
    }
    // exactly one of the five values is left under the key
    let left = db.store.get(&"k".to_string()).unwrap();
    assert!(["v1", "v2", "v3", "v4", "v5"].contains(&left.as_str()));
    assert_eq!(db.store.len(), 1);
    // and the persisted file is consistent with the final in-memory state
    let v = store_as_json(&db);
    let obj = v.as_object().unwrap();
    assert_eq!(obj.len(), 1);
    assert_eq!(obj.get("k"), Some(&serde_json::to_value(left).unwrap()));
}

#[test]
fn fanout_multiplier_runs_every_unit() {
    let mut db = fresh_db();
    let r = dispatch(&mut db, "set k v 5").unwrap();
    assert_eq!(r.len(), 5);
    for m in r.iter() {
        assert_eq!(m, "key: k, value: v");
    }
    let r = dispatch(&mut db, "get k 2").unwrap();
    assert_eq!(r, vec!["key: k, value: v".to_string(), "key: k, value: v".to_string()]);
}

#[test]
fn fanout_aggregates_first_error() {
    let mut db = fresh_db();
    // `set` without a value fails validation in every unit
    let (cmd, _) = parse_arguments("set k".to_string()).unwrap();
    let r = execute_command(&cmd, &mut db, 3);
    assert_eq!(r, Err("Value required length > 0".to_string()));
    assert_eq!(db.store.len(), 0);
}

#[test]
fn scenario_set_list_delete_clear() {
    let mut db = fresh_db();
    dispatch(&mut db, "set a 1").unwrap();
    dispatch(&mut db, "set b 2").unwrap();
    let r = dispatch(&mut db, "list").unwrap();
    assert_eq!(r, vec!["[\"key 'a', value '1'\", \"key 'b', value '2'\"]".to_string()]);
    let v = store_as_json(&db);
    let obj = v.as_object().unwrap();
    assert_eq!(obj.len(), 2);
    assert_eq!(obj.get("a"), Some(&serde_json::to_value("1").unwrap()));
    assert_eq!(obj.get("b"), Some(&serde_json::to_value("2").unwrap()));

    dispatch(&mut db, "delete a").unwrap();
    let r = dispatch(&mut db, "list").unwrap();
    assert_eq!(r, vec!["[\"key 'b', value '2'\"]".to_string()]);
    let v = store_as_json(&db);
    let obj = v.as_object().unwrap();
    assert_eq!(obj.len(), 1);
    assert_eq!(obj.get("b"), Some(&serde_json::to_value("2").unwrap()));

    dispatch(&mut db, "clear").unwrap();
    let r = dispatch(&mut db, "list").unwrap();
    assert_eq!(r, vec!["[]".to_string()]);
    let v = store_as_json(&db);
    assert_eq!(v.as_object().unwrap().len(), 0);
}

#[test]
fn unknown_command_is_parse_error() {
    assert_eq!(
        parse_arguments("bogus a b".to_string()),
        Err("Unknown command".to_string())
    );
    assert_eq!(parse_arguments("".to_string()), Err("Unknown command".to_string()));
    assert_eq!(parse_arguments("   ".to_string()), Err("Unknown command".to_string()));
}

#[test]
fn non_numeric_multiplier_is_parse_error() {
    assert_eq!(
        parse_arguments("set a b two".to_string()),
        Err("invalid multiplier".to_string())
    );
    assert_eq!(
        parse_arguments("list x".to_string()),
        Err("invalid multiplier".to_string())
    );
    // a multiplier that overflows a 64-bit word is rejected too
    assert_eq!(
        parse_arguments("list 99999999999999999999".to_string()),
        Err("invalid multiplier".to_string())
    );
}

#[test]
fn multiplier_accepts_signs_and_word_bounds() {
    let (_, m) = parse_arguments("get a +3".to_string()).unwrap();
    assert_eq!(m, 3);
    let (_, m) = parse_arguments("get a -7".to_string()).unwrap();
    assert_eq!(m, -7);
    let (_, m) = parse_arguments("get a 9223372036854775807".to_string()).unwrap();
    assert_eq!(m, i64::MAX);
    let (_, m) = parse_arguments("get a -9223372036854775808".to_string()).unwrap();
    assert_eq!(m, i64::MIN);
    assert_eq!(
        parse_arguments("get a 9223372036854775808".to_string()),
        Err("invalid multiplier".to_string())
    );
    assert_eq!(
        parse_arguments("get a -".to_string()),
        Err("invalid multiplier".to_string())
    );
    let (_, m) = parse_arguments("get a 007".to_string()).unwrap();
    assert_eq!(m, 7);
}

#[test]
fn multiplier_position_follows_the_verb() {
    let (cmd, m) = parse_arguments("get a 4".to_string()).unwrap();
    assert_eq!(cmd.command, Commands::Get);
    assert_eq!(cmd.key, "a");
    assert_eq!(m, 4);
    let (cmd, m) = parse_arguments("list 2".to_string()).unwrap();
    assert_eq!(cmd.command, Commands::List);
    assert_eq!(m, 2);
    let (cmd, m) = parse_arguments("delete a 3".to_string()).unwrap();
    assert_eq!(cmd.command, Commands::Delete);
    assert_eq!(m, 3);
    let (_, m) = parse_arguments("set a b".to_string()).unwrap();
    assert_eq!(m, 1);
}

#[test]
fn empty_key_is_a_unit_error() {
    let mut db = fresh_db();
    let cmd = Command { command: Commands::Get, key: "".to_string(), value: None };
    assert_eq!(exec(&cmd, &mut db), Err("Key required length > 0".to_string()));
    let cmd = Command { command: Commands::Insert, key: "".to_string(), value: Some("v".to_string()) };
    assert_eq!(exec(&cmd, &mut db), Err("Key required length > 0".to_string()));
}

#[test]
fn empty_value_is_a_unit_error() {
    let mut db = fresh_db();
    let cmd = Command { command: Commands::Insert, key: "k".to_string(), value: Some("".to_string()) };
    assert_eq!(exec(&cmd, &mut db), Err("Value required length > 0".to_string()));
    let (cmd, _) = parse_arguments("set k".to_string()).unwrap();
    let mut db = fresh_db();
    assert_eq!(exec(&cmd, &mut db), Err("Value required length > 0".to_string()));
}

#[test]
fn get_absent_key_is_a_message() {
    let mut db = fresh_db();
    let r = dispatch(&mut db, "get nothing");
    assert_eq!(r, Ok(vec!["key 'nothing' does not exist".to_string()]));
}

#[test]
fn list_escapes_quotes_and_backslashes() {
    let mut db = fresh_db();
    let cmd = Command {
        command: Commands::Insert,
        key: "q".to_string(),
        value: Some("a\"b\\c".to_string()),
    };
    exec(&cmd, &mut db).unwrap();
    let r = dispatch(&mut db, "list").unwrap();
    assert_eq!(r, vec!["[\"key 'q', value 'a\\\"b\\\\c'\"]".to_string()]);
}

#[test]
fn empty_snapshot_text_is_an_empty_store() {
    let st = load_store("").unwrap();
    assert_eq!(st.len(), 0);
}

#[test]
fn invalid_snapshot_text_is_an_error() {
    assert!(load_store("not json at all").is_err());
    assert!(load_store("[1, 2]").is_err());
}

#[test]
fn snapshot_survives_unusual_strings() {
    let mut db = fresh_db();
    let cmd = Command {
        command: Commands::Insert,
        key: "wei\u{00df}".to_string(),
        value: Some("\"quoted\\path\"".to_string()),
    };
    exec(&cmd, &mut db).unwrap();
    let content = db.file.primary_content().clone().unwrap();
    let restored = load_store(&content).unwrap();
    assert_eq!(
        restored.get(&"wei\u{00df}".to_string()),
        Some("\"quoted\\path\"".to_string())
    );
}

#[test]
fn negative_multiplier_runs_no_unit() {
    let mut db = fresh_db();
    let r = dispatch(&mut db, "set a b -3").unwrap();
    assert_eq!(r, Vec::<String>::new());
    assert_eq!(db.store.len(), 0);
}

#[test]
fn job_args_execute_applies_policy() {
    let mut db = fresh_db();
    let args = Args {
        command: Job::Insert,
        key: Some("j".to_string()),
        value: Some("w".to_string()),
        multiplier: Some(1),
    };
    assert_eq!(args.execute(&mut db), Ok("key: j, value: w".to_string()));
    let args = Args { command: Job::Get, key: Some("j".to_string()), value: None, multiplier: None };
    assert_eq!(args.execute(&mut db), Ok("key: j, value: w".to_string()));
    let args = Args { command: Job::Clear, key: None, value: None, multiplier: None };
    assert_eq!(args.execute(&mut db), Ok("database cleared".to_string()));
    assert_eq!(db.store.len(), 0);
}

#[test]
fn config_carries_the_storage_path() {
    let config = Config::new();
    assert_eq!(
        config.return_local_storage_path(),
        Ok("local_storage.json".to_string())
    );
}

#[test]
fn insert_overwrites_in_place() {
    let mut db = fresh_db();
    dispatch(&mut db, "set a 1").unwrap();
    dispatch(&mut db, "set b 2").unwrap();
    dispatch(&mut db, "set a 3").unwrap();
    let r = dispatch(&mut db, "list").unwrap();
    assert_eq!(r, vec!["[\"key 'a', value '3'\", \"key 'b', value '2'\"]".to_string()]);
}
