//! The engine exercised end to end: parsing, execution, snapshot content.

use memory_store::memory::{exec, parse_arguments, Commands, Database};
use memory_store::persistence::{write_local, SnapshotFile};
use memory_store::store::Store;

fn fresh_db() -> Database {
    Database::new(Store::new(), SnapshotFile::new(None))
}

fn primary_json(db: &Database) -> serde_json::Value {
    let content = db.file.primary_content().clone().expect("no snapshot written");
    match serde_json::from_str(&content) {
        Ok(v) => v,
        Err(_) => panic!("Invalid json"),
    }
}

#[test]
fn write_local_valid() {
    let mut store = Store::new();
    store.insert("vKey".to_string(), "kValue".to_string());
    let mut file = SnapshotFile::new(None);
    let write = write_local(&store, &mut file);
    assert_eq!(write, Ok(()));
    assert!(file.primary_content().is_some());
    let content = file.primary_content().clone().unwrap();
    let v: serde_json::Value = match serde_json::from_str(&content) {
        Ok(v) => v,
        Err(_) => panic!("Invalid json"),
    };
    let v_object = v.as_object().unwrap();
    assert_eq!(v_object.get("vKey"), Some(&serde_json::to_value("kValue").unwrap()));
}

#[test]
fn set_valid() {
    let mut db = fresh_db();
    let key = "&".to_string();
    let value = "b".to_string();
    let (cmd, multiplier) = parse_arguments("set & b".to_string()).unwrap();
    assert_eq!(cmd.command, Commands::Insert);
    assert_eq!(cmd.key, key);
    assert_eq!(cmd.value, Some(value));
    assert_eq!(multiplier, 1);

    let e = exec(&cmd, &mut db);
    assert_eq!(e, Ok(format!("key: {}, value: {}", key, "b".to_string())));

    let v_object = primary_json(&db);
    let v_object = v_object.as_object().unwrap();
    assert_eq!(v_object.get("&"), Some(&serde_json::to_value("b").unwrap()));
}

#[test]
fn get_valid() {
    let mut db = fresh_db();
    let key = "&".to_string();
    let value = "b".to_string();
    let (mut cmd, _) = parse_arguments("set & b".to_string()).unwrap();
    assert_eq!(cmd.command, Commands::Insert);
    assert_eq!(cmd.key, key);
    assert_eq!(cmd.value, Some(value));

    let mut e = exec(&cmd, &mut db);
    assert_eq!(e, Ok(format!("key: {}, value: {}", key, "b".to_string())));

    (cmd, _) = parse_arguments("get &".to_string()).unwrap();
    assert_eq!(cmd.command, Commands::Get);
    assert_eq!(cmd.key, key);
    assert_eq!(cmd.value, None);

    e = exec(&cmd, &mut db);
    assert_eq!(e, Ok(format!("key: {}, value: {}", key, "b".to_string())));

    let v_object = primary_json(&db);
    let v_object = v_object.as_object().unwrap();
    assert_eq!(v_object.get("&"), Some(&serde_json::to_value("b").unwrap()));
}

#[test]
fn list_valid() {
    let mut db = fresh_db();
    let key = "&".to_string();
    let value = "b".to_string();
    let (mut cmd, _) = parse_arguments("set & b".to_string()).unwrap();
    assert_eq!(cmd.command, Commands::Insert);
    assert_eq!(cmd.key, key);
    assert_eq!(cmd.value, Some(value));

    let mut e = exec(&cmd, &mut db);
    assert_eq!(e, Ok(format!("key: {}, value: {}", key, "b".to_string())));

    (cmd, _) = parse_arguments("list".to_string()).unwrap();
    assert_eq!(cmd.command, Commands::List);
    assert_eq!(cmd.key, "default");
    assert_eq!(cmd.value, None);

    e = exec(&cmd, &mut db);
    assert_eq!(e, Ok(format!("[\"key '{}', value '{}'\"]", key, "b".to_string())));

    let v_object = primary_json(&db);
    let v_object = v_object.as_object().unwrap();
    assert_eq!(v_object.get("&"), Some(&serde_json::to_value("b").unwrap()));
}

#[test]
fn delete_valid() {
    let mut db = fresh_db();
    let key = "&".to_string();
    let value = "b".to_string();
    let (mut cmd, _) = parse_arguments("set & b".to_string()).unwrap();
    assert_eq!(cmd.command, Commands::Insert);
    assert_eq!(cmd.key, key);
    assert_eq!(cmd.value, Some(value));

    let mut e = exec(&cmd, &mut db);
    assert_eq!(e, Ok(format!("key: {}, value: {}", key, "b".to_string())));

    (cmd, _) = parse_arguments("delete &".to_string()).unwrap();
    assert_eq!(cmd.command, Commands::Delete);
    assert_eq!(cmd.key, "&");
    assert_eq!(cmd.value, None);

    e = exec(&cmd, &mut db);
    assert_eq!(e, Ok(format!("key removed: &")));

    let v_object = primary_json(&db);
    let v_object = v_object.as_object().unwrap();
    assert_eq!(v_object.get("&"), None);
}

#[test]
fn clear_valid() {
    let mut db = fresh_db();
    let mut key = "&".to_string();
    let mut value = "b".to_string();
    let (mut cmd, _) = parse_arguments("set & b".to_string()).unwrap();
    assert_eq!(cmd.command, Commands::Insert);
    assert_eq!(cmd.key, key);
    assert_eq!(cmd.value, Some(value.clone()));

    let mut e = exec(&cmd, &mut db);
    assert_eq!(e, Ok(format!("key: {}, value: {}", key, "b".to_string())));

    key = "70".to_string();
    value = "asdf".to_string();
    (cmd, _) = parse_arguments("set 70 asdf".to_string()).unwrap();
    assert_eq!(cmd.command, Commands::Insert);
    assert_eq!(cmd.key, key);
    assert_eq!(cmd.value, Some(value));

    e = exec(&cmd, &mut db);
    assert_eq!(e, Ok(format!("key: {}, value: {}", key, "asdf".to_string())));

    (cmd, _) = parse_arguments("clear".to_string()).unwrap();
    assert_eq!(cmd.command, Commands::Clear);
    assert_eq!(cmd.key, "default");
    assert_eq!(cmd.value, None);

    e = exec(&cmd, &mut db);
    assert_eq!(e, Ok(format!("database cleared")));

    let v = primary_json(&db);
    assert_eq!("{}", v.to_string());
}

#[test]
fn exit_no_exit_process() {
    let mut db = fresh_db();
    let mut key = "&".to_string();
    let mut value = "b".to_string();
    let (mut cmd, _) = parse_arguments("set & b".to_string()).unwrap();
    assert_eq!(cmd.command, Commands::Insert);
    assert_eq!(cmd.key, key);
    assert_eq!(cmd.value, Some(value.clone()));

    let mut e = exec(&cmd, &mut db);
    assert_eq!(e, Ok(format!("key: {}, value: {}", key, "b".to_string())));

    key = "70".to_string();
    value = "asdf".to_string();
    (cmd, _) = parse_arguments("set 70 asdf".to_string()).unwrap();
    assert_eq!(cmd.command, Commands::Insert);
    assert_eq!(cmd.key, key);
    assert_eq!(cmd.value, Some(value));

    e = exec(&cmd, &mut db);
    assert_eq!(e, Ok(format!("key: {}, value: {}", key, "asdf".to_string())));

    (cmd, _) = parse_arguments("clear".to_string()).unwrap();
    assert_eq!(cmd.command, Commands::Clear);
    assert_eq!(cmd.key, "default");
    assert_eq!(cmd.value, None);

    e = exec(&cmd, &mut db);
    assert_eq!(e, Ok(format!("database cleared")));

    let v = primary_json(&db);
    assert_eq!("{}", v.to_string());

    (cmd, _) = parse_arguments("exit".to_string()).unwrap();
    assert_eq!(cmd.command, Commands::Exit);
    assert_eq!(cmd.key, "default");
    assert_eq!(cmd.value, None);
}
