use db_migrations_checker::store::{FileDatabase, Runner, StoreError};

fn db() -> FileDatabase {
    FileDatabase::new("foo.kv".to_string())
}

#[test]
fn new_store_is_empty() {
    let d = db();
    assert!(d.list().is_empty());
    assert_eq!(d.file(), "foo.kv");
}

#[test]
fn wrong_key_returns_nothing() {
    let d = db();
    assert_eq!(d.get("blah"), Err(StoreError::ValueNotFound));
}

#[test]
fn gets_expected_data_for_key() {
    let mut d = db();
    d.set("foo", "bar");
    assert_eq!(d.get("foo"), Ok(vec!["bar".to_string()]));
}

#[test]
fn set_overwrites_existing_value() {
    let mut d = db();
    d.set("foo", "bar");
    d.set("foo", "baz");
    assert_eq!(d.get("foo"), Ok(vec!["baz".to_string()]));
}

#[test]
fn set_multiple_values_appends_to_existing_value() {
    let mut d = db();
    d.set_multiple_values("foo", "bar");
    d.set_multiple_values("foo", "baz");
    assert_eq!(d.get("foo"), Ok(vec!["bar".to_string(), "baz".to_string()]));
}

#[test]
fn values_come_back_sorted_and_keys_listed_sorted() {
    let mut d = db();
    d.set_multiple_values("k", "zeta");
    d.set_multiple_values("k", "alpha");
    d.set("b", "1");
    d.set("a", "2");
    assert_eq!(d.get("k"), Ok(vec!["alpha".to_string(), "zeta".to_string()]));
    assert_eq!(d.list(), vec!["a".to_string(), "b".to_string(), "k".to_string()]);
}

#[test]
fn update_key() {
    let mut d = db();
    d.set("key1", "value");
    assert_eq!(d.update_key("key1", "key2"), Ok(()));
    assert_eq!(d.get("key2"), Ok(vec!["value".to_string()]));
    assert_eq!(d.get("key1"), Err(StoreError::ValueNotFound));
    assert_eq!(d.update_key("key1", "key3"), Err(StoreError::KeyNotFound));
}

#[test]
fn update_value() {
    let mut d = db();
    d.set_multiple_values("key", "value1");
    d.set_multiple_values("key", "value1");
    assert_eq!(d.update_value("key", "value1", "value2"), Ok(()));
    assert_eq!(d.get("key"), Ok(vec!["value1".to_string(), "value2".to_string()]));
    assert_eq!(d.update_value("key", "nope", "x"), Err(StoreError::ValueNotFound));
    assert_eq!(d.update_value("none", "value1", "x"), Err(StoreError::KeyNotFound));
}

#[test]
fn duplicate_to_key_with_preexisting_values() {
    let mut d = db();
    d.set_multiple_values("foo", "bar");
    d.set_multiple_values("foo", "baz");
    d.set_multiple_values("new", "bar2");
    assert_eq!(d.duplicate("foo", "new"), Ok(()));
    assert_eq!(
        d.get("new"),
        Ok(vec!["bar".to_string(), "bar2".to_string(), "baz".to_string()])
    );
    assert_eq!(d.get("foo"), Ok(vec!["bar".to_string(), "baz".to_string()]));
    assert_eq!(d.duplicate("missing", "new"), Err(StoreError::ValueNotFound));
}

#[test]
fn remove_and_delete() {
    let mut d = db();
    d.set_multiple_values("foo", "bar");
    d.set_multiple_values("foo", "baz");
    d.set_multiple_values("foo", "bar");
    assert_eq!(d.remove("foo", "bar"), Ok(()));
    assert_eq!(d.get("foo"), Ok(vec!["baz".to_string()]));
    assert_eq!(d.remove("nope", "bar"), Err(StoreError::KeyNotFound));
    d.delete("foo");
    assert_eq!(d.get("foo"), Err(StoreError::ValueNotFound));
    d.delete("foo");
    assert!(d.list().is_empty());
}

fn args(list: &[&str]) -> Vec<String> {
    list.iter().map(|s| s.to_string()).collect()
}

#[test]
fn runner_runs_commands() {
    let mut runner = Runner::new(db());
    let mut out = Vec::<u8>::new();
    assert_eq!(runner.run(&mut out, &args(&[])), Err("not enough args to run".to_string()));
    assert_eq!(runner.run(&mut out, &args(&["SET", "foo", "bar"])), Ok(()));
    assert_eq!(runner.run(&mut out, &args(&["setv", "foo", "baz"])), Ok(()));
    assert_eq!(runner.run(&mut out, &args(&["get", "foo"])), Ok(()));
    assert_eq!(String::from_utf8(out.clone()).unwrap(), "bar\nbaz\n");
    assert_eq!(runner.run(&mut out, &args(&["get", "nope"])), Err("value not found".to_string()));
    assert_eq!(runner.run(&mut out, &args(&["update", "nope", "x"])), Err("key not found".to_string()));
    assert_eq!(runner.run(&mut out, &args(&["frobnicate"])), Err("command not recognized".to_string()));
    assert_eq!(runner.run(&mut out, &args(&["help"])), Ok(()));
    assert!(runner.run(&mut out, &args(&["set", "foo"])).is_err());
}

#[test]
fn runner_setk_uses_every_argument_but_the_last_as_a_key() {
    let mut runner = Runner::new(db());
    let mut out = Vec::<u8>::new();
    assert_eq!(runner.run(&mut out, &args(&["setk", "key1", "key2", "value"])), Ok(()));
    assert_eq!(runner.run(&mut out, &args(&["list"])), Ok(()));
    assert_eq!(String::from_utf8(out).unwrap(), "key1\nkey2\nsetk\n");
}

#[test]
fn runner_delete_and_duplicate() {
    let mut runner = Runner::new(db());
    let mut out = Vec::<u8>::new();
    assert_eq!(runner.run(&mut out, &args(&["set", "foo", "bar"])), Ok(()));
    assert_eq!(runner.run(&mut out, &args(&["duplicate", "foo", "new"])), Ok(()));
    assert_eq!(runner.run(&mut out, &args(&["delete", "foo"])), Ok(()));
    assert_eq!(runner.run(&mut out, &args(&["list"])), Ok(()));
    assert_eq!(String::from_utf8(out).unwrap(), "new\n");
    assert_eq!(StoreError::KeyNotFound.message(), "key not found");
}

#[test]
fn set_multiple_keys() {
    let mut d = db();
    let key1 = "key1";
    let key2 = "key2";
    let key3 = "key3";
    let value: &str = "value";
    d.set_multiple_keys(&args(&[key1, key2, key3, value]));
    let key1_value = d.get(key1).unwrap();
    assert_eq!(key1_value[0], value.to_owned());
    let key2_value = d.get(key2).unwrap();
    assert_eq!(key2_value[0], value.to_owned());
    let key3_value = d.get(key3).unwrap();
    assert_eq!(key3_value[0], value.to_owned());
    assert_eq!(d.get(value), Err(StoreError::ValueNotFound));
}

#[test]
fn duplicate() {
    let mut d = db();
    let key = "foo";
    d.set_multiple_values(key, "bar");
    d.set_multiple_values(key, "baz");
    let new_key = "new";
    d.duplicate(key, new_key).unwrap();
    let v = d.get(key).unwrap();
    let v2 = d.get(new_key).unwrap();
    assert_eq!(v[0], v2[0]);
    assert_eq!(v[1], v2[1]);
}

#[test]
fn runner_refuses_unknown_and_file_commands() {
    let mut runner = Runner::new(db());
    let mut out = Vec::<u8>::new();
    assert_eq!(runner.run(&mut out, &args(&["Frob", "x"])), Err("command not recognized".to_string()));
    assert!(runner.run(&mut out, &args(&["undo"])).is_err());
    assert!(runner.run(&mut out, &args(&["HELP"])).is_ok());
    assert!(out.is_empty());
}
