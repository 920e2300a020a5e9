use std::collections::HashMap;

use db_migrations_checker::bookmarks::{Item, List, Storage};

#[test]
fn test_item_creation() {
    let item = Item::new("foo".to_string(), "bar".to_string());
    assert_eq!(item.name, "foo".to_string());
    assert_eq!(item.value, "bar".to_string());
}

#[test]
fn test_item_short_name() {
    let item = Item::new("this is a very long item name".to_string(), "value".to_string());
    assert_eq!(item.short_name(), "this is a very ...");
    let short_item = Item::new("short".to_string(), "value".to_string());
    assert_eq!(short_item.short_name(), "short");
}

#[test]
fn test_item_to_hash() {
    let item = Item::new("foo".to_string(), "bar".to_string());
    let expected = HashMap::from([("foo".to_string(), "bar".to_string())]);
    assert_eq!(expected, item.to_hash());
}

#[test]
fn item_url_picks_first_link() {
    let item = Item::new("g".to_string(), "see  https://a.example/x and http://b".to_string());
    assert_eq!(item.url(), "https://a.example/x");
    let plain = Item::new("g".to_string(), "github.com/foo".to_string());
    assert_eq!(plain.url(), "github.com/foo");
    let empty = Item::new("g".to_string(), "".to_string());
    assert_eq!(empty.url(), "");
}

#[test]
fn item_short_name_at_fifteen_characters() {
    let item = Item::new("exactly fifteen".to_string(), "v".to_string());
    assert_eq!(item.short_name(), "exactly fifteen");
    let item = Item::new("exactly sixteen!".to_string(), "v".to_string());
    assert_eq!(item.short_name(), "exactly sixteen...");
}

#[test]
fn test_list_creation() {
    let list = List::new("foo".to_string());
    assert!(list.items.is_empty());
    assert_eq!(list.name, "foo".to_string());
}

#[test]
fn test_add() {
    let mut list = List::new("foo".to_string());
    let item = Item::new("github".to_string(), "github.com/foo".to_string());
    list.add_item(item);
    assert_eq!(list.items.len(), 1);
    assert_eq!("github".to_string(), list.items[0].name);
}

#[test]
fn test_add_overwrite() {
    let mut list = List::new("foo".to_string());
    let item = Item::new("github".to_string(), "github.com/foo".to_string());
    list.add_item(item);
    let item2 = Item::new("github".to_string(), "github.com/bar".to_string());
    list.add_item(item2);
    assert_eq!(list.items.len(), 1);
    assert_eq!("github".to_string(), list.items[0].name);
    assert_eq!("github.com/bar".to_string(), list.items[0].value);
}

#[test]
fn test_delete() {
    let mut list = List::new("foo".to_string());
    let item = Item::new("github".to_string(), "github.com/foo".to_string());
    list.add_item(item);
    list.delete_item("github");
    assert!(list.items.is_empty());
    assert!(list.find_item("github").is_none());
}

#[test]
fn test_find() {
    let mut list = List::new("foo".to_string());
    let item = Item::new("github".to_string(), "github.com/foo".to_string());
    list.add_item(item);
    assert!(list.find_item("github").is_some());
    assert!(list.find_item("blah").is_none());
}

#[test]
fn test_find_short_name() {
    let mut list = List::new("foo".to_string());
    let item = Item::new("this is a very long item name".to_string(), "github.com/foo".to_string());
    list.add_item(item);
    assert!(list.find_item("this is a very ").is_some());
    assert!(list.find_item("blah").is_none());
}

#[test]
fn test_to_hash() {
    let mut list = List::new("foo".to_string());
    let item = Item::new("key".to_string(), "value".to_string());
    list.add_item(item);
    let expected = HashMap::from([
        ("foo".to_string(), vec![HashMap::from([("key".to_string(), "value".to_string())])])
    ]);
    assert_eq!(list.to_hash(), expected);
}

#[test]
fn storage_lists_sorted_by_item_count() {
    let mut a = List::new("a".to_string());
    a.add_item(Item::new("x".to_string(), "1".to_string()));
    let mut b = List::new("b".to_string());
    b.add_item(Item::new("y".to_string(), "2".to_string()));
    b.add_item(Item::new("z".to_string(), "3".to_string()));
    let c = List::new("c".to_string());
    let mut d = List::new("d".to_string());
    d.add_item(Item::new("w".to_string(), "4".to_string()));
    let storage = Storage::with_lists("/tmp/none".to_string(), vec![a, b, c, d]);
    let names: Vec<&str> = storage.lists().iter().map(|l| l.name.as_str()).collect();
    assert_eq!(names, vec!["b", "a", "d", "c"]);
    assert!(storage.list_exists("c"));
    assert!(!storage.list_exists("e"));
    let items: Vec<&str> = storage.items().iter().map(|i| i.name.as_str()).collect();
    assert_eq!(items, vec!["x", "y", "z", "w"]);
    assert!(storage.item_exists("z"));
    assert!(!storage.item_exists("q"));
}

#[test]
fn item_short_name_counts_bytes() {
    // 16 bytes: a two-byte letter and 14 ASCII letters.
    let item = Item::new("\u{e9}abcdefghijklmn".to_string(), "v".to_string());
    assert_eq!(item.short_name(), "\u{e9}abcdefghijklm...");
    // 15 bytes in 14 characters: kept whole.
    let item = Item::new("\u{e9}abcdefghijklm".to_string(), "v".to_string());
    assert_eq!(item.short_name(), "\u{e9}abcdefghijklm");
}

#[test]
fn storage_lists_keep_order_of_equal_counts() {
    let mut a = List::new("a".to_string());
    a.add_item(Item::new("x".to_string(), "1".to_string()));
    let b = List::new("b".to_string());
    let mut c = List::new("c".to_string());
    c.add_item(Item::new("y".to_string(), "2".to_string()));
    let d = List::new("d".to_string());
    let storage = Storage::with_lists("/tmp/none".to_string(), vec![a, b, c, d]);
    let names: Vec<&str> = storage.lists().iter().map(|l| l.name.as_str()).collect();
    assert_eq!(names, vec!["a", "c", "b", "d"]);
}
