use db_migrations_checker::driver::{reconcile_pair, verify_pairs, Step, Verifier};
use db_migrations_checker::pairing::{pair_migrations, sort_file_names, CheckError};
use db_migrations_checker::reconcile::PendingSet;
use db_migrations_checker::statement::{get_key, remove_cascade, Category, Patterns};
use db_migrations_checker::text::{decimal_string, parse_digits, split_at_char, strip_suffix_repeatedly, trim_leading_white_space};

fn patterns() -> Patterns {
    Patterns::new().expect("built-in patterns compile")
}

fn names(list: &[&str]) -> Vec<String> {
    list.iter().map(|s| s.to_string()).collect()
}

fn keys(p: &Patterns, category: Category, text: &str) -> Vec<(String, String)> {
    let normal = p.normalize(text);
    p.extract(category, &normal).into_iter().map(|k| (k.kind, k.name)).collect()
}

fn pair(kind: &str, name: &str) -> (String, String) {
    (kind.to_string(), name.to_string())
}

#[test]
fn whitespace_and_case_are_normalized() {
    let p = patterns();
    assert_eq!(p.normalize("CREATE   TABLE  Foo"), "create table foo");
    assert_eq!(keys(&p, Category::Create, "CREATE   TABLE  Foo"), vec![pair("table", "foo")]);
    assert_eq!(keys(&p, Category::Create, "create table foo"), vec![pair("table", "foo")]);
}

#[test]
fn drop_list_order_does_not_matter() {
    let p = patterns();
    let mut a = keys(&p, Category::Drop, "drop table if exists a, b cascade");
    let mut b = keys(&p, Category::Drop, "drop table if exists b, a cascade");
    assert_eq!(a.len(), 2);
    a.sort();
    b.sort();
    assert_eq!(a, vec![pair("table", "a"), pair("table", "b")]);
    assert_eq!(a, b);
}

#[test]
fn cascade_is_stripped() {
    let p = patterns();
    let with = keys(&p, Category::Drop, "drop type if exists status_enum cascade");
    let without = keys(&p, Category::Drop, "drop type if exists status_enum");
    assert_eq!(with, vec![pair("type", "status_enum")]);
    assert_eq!(with, without);
}

#[test]
fn remove_cascade_splits_and_cleans() {
    assert_eq!(remove_cascade("a, b cascade,"), vec!["a".to_string(), "b".to_string()]);
    assert_eq!(remove_cascade(""), Vec::<String>::new());
    assert_eq!(remove_cascade(" x cascade cascade"), vec!["x".to_string()]);
    assert_eq!(remove_cascade("a , b\n"), vec!["a".to_string(), "b".to_string()]);
    assert_eq!(remove_cascade(" , \t,"), Vec::<String>::new());
}

#[test]
fn classifier_keeps_only_followed_kinds() {
    let p = patterns();
    assert_eq!(keys(&p, Category::Create, "create index idx on t (a);"), Vec::new());
    assert_eq!(
        keys(&p, Category::Create, "create or replace view v as select 1; create type if not exists t as enum ('a');"),
        vec![pair("view", "v"), pair("type", "t")]
    );
    assert_eq!(keys(&p, Category::Drop, "alter table t drop column c;"), Vec::new());
    assert_eq!(keys(&p, Category::DropColumn, "alter table t drop column if exists c;"), vec![pair("column", "c")]);
    assert_eq!(keys(&p, Category::RenameColumn, "alter table t rename column a to b;"), vec![pair("column", "a")]);
    assert_eq!(keys(&p, Category::Add, "alter table t add column if not exists c int;"), vec![pair("column", "c")]);
}

#[test]
fn same_category_round_trip_reconciles() {
    let p = patterns();
    let up = "create table foo (id int);\nalter table bar add column baz int;\ndrop view if exists old_v;";
    let down = "create table foo (id int);\nalter table bar add column baz int;\ndrop view if exists old_v;";
    assert!(reconcile_pair(&p, up, down, 1).is_empty());
}

#[test]
fn leftover_key_is_reported_with_version() {
    let p = patterns();
    let msgs = reconcile_pair(&p, "create table foo (id int);", "select 1;", 4);
    assert_eq!(msgs, vec!["foo is missing from the down-migration 4".to_string()]);
}

#[test]
fn unmatched_down_statements_are_reported() {
    let p = patterns();
    let msgs = reconcile_pair(&p, "", "create table foo (id int); alter table t drop column c; drop table a, b;", 12);
    assert_eq!(
        msgs,
        vec![
            "foo not created for down migration 12".to_string(),
            "c not dropped for down migration 12".to_string(),
            "a not dropped in down migration 12 (added in the up-migration)".to_string(),
            "b not dropped in down migration 12 (added in the up-migration)".to_string(),
        ]
    );
}

#[test]
fn create_answered_by_drop_does_not_reconcile() {
    // Pending keys carry their category: the down-migration has no CREATE,
    // so the up-migration's CREATE stays unmatched, and the DROP finds no
    // pending DROP.
    let p = patterns();
    let msgs = reconcile_pair(&p, "CREATE TABLE users (id int);", "DROP TABLE users;", 1);
    assert_eq!(
        msgs,
        vec![
            "users not dropped in down migration 1 (added in the up-migration)".to_string(),
            "users is missing from the down-migration 1".to_string(),
        ]
    );
}

fn run(files: &[&str], texts: &[(&str, &str, &str)], skip: Vec<usize>) -> (Result<(), CheckError>, Vec<String>) {
    let mut v = Verifier::new(&names(files), skip).unwrap();
    let mut read = Vec::new();
    let mut pending: Option<(String, String)> = None;
    loop {
        match v.advance(pending.take()) {
            Step::Read(pair) => {
                read.push(pair.up_file.raw_name.clone());
                let (_, up, down) = texts.iter().find(|t| t.0 == pair.up_file.base_name).unwrap();
                pending = Some((up.to_string(), down.to_string()));
            }
            Step::Passed => {}
            Step::Finished => return (Ok(()), read),
            Step::Failed(e) => return (Err(e), read),
        }
    }
}

#[test]
fn concrete_scenario_fails_through_the_driver() {
    let (r, _) = run(
        &["00001_users.up.sql", "00001_users.down.sql"],
        &[("00001_users", "CREATE TABLE users (id int);", "DROP TABLE users;")],
        vec![],
    );
    assert!(matches!(r, Err(CheckError::Unreconciled { version: 1, .. })));
}

#[test]
fn first_failing_pair_decides_and_later_files_are_not_read() {
    // Pair 1 does not reconcile and pair 2 is badly named: pair 1 is reported.
    let (r, read) = run(
        &["00001_a.down.sql", "00001_a.up.sql", "00002_b.down.sql", "00002_c.up.sql"],
        &[("00001_a", "create table a (id int);", "")],
        vec![],
    );
    match r {
        Err(CheckError::Unreconciled { version, messages }) => {
            assert_eq!(version, 1);
            assert_eq!(messages, vec!["a is missing from the down-migration 1".to_string()]);
        }
        other => panic!("unexpected {:?}", other),
    }
    assert_eq!(read, vec!["00001_a.up.sql".to_string()]);
    // With pair 1 skipped, the naming error of pair 2 decides.
    let (r, read) = run(
        &["00001_a.down.sql", "00001_a.up.sql", "00002_b.down.sql", "00002_c.up.sql"],
        &[],
        vec![1],
    );
    assert!(matches!(r, Err(CheckError::NameMismatch { .. })));
    assert!(read.is_empty());
}

#[test]
fn driver_passes_a_clean_directory_and_rejects_odd_counts() {
    let (r, read) = run(
        &["00002_b.up.sql", "00001_a.up.sql", "00002_b.down.sql", "00001_a.down.sql"],
        &[
            ("00001_a", "create table a (id int);", "create table a (id int);"),
            ("00002_b", "alter table a add column c int;", "alter table a add column c int;"),
        ],
        vec![],
    );
    assert!(r.is_ok());
    assert_eq!(read.len(), 2);
    let (r, _) = run(&["00001_a.down.sql", "00001_a.up.sql", "00002_b.down.sql"], &[], vec![]);
    assert!(matches!(r, Err(CheckError::OddFileCount { count: 3 })));
}

#[test]
fn reconciling_twice_gives_the_same_result() {
    let p = patterns();
    let up = "create table a (id int); create table b (id int);";
    let down = "create table a (id int);";
    let first = reconcile_pair(&p, up, down, 2);
    let second = reconcile_pair(&p, up, down, 2);
    assert_eq!(first, second);
    assert_eq!(first, vec!["b is missing from the down-migration 2".to_string()]);
}

#[test]
fn numbering_gap_names_missing_version() {
    let p = patterns();
    let files = names(&["00001_a.down.sql", "00001_a.up.sql", "00003_b.down.sql", "00003_b.up.sql"]);
    match pair_migrations(&p, &files) {
        Err(CheckError::NumberingGap { missing }) => assert_eq!(missing, 2),
        other => panic!("unexpected {:?}", other),
    }
    let e = pair_migrations(&p, &files).unwrap_err();
    assert_eq!(e.messages(), vec!["migration numbers are wrong, missing 2".to_string()]);
}

#[test]
fn odd_file_count_is_rejected() {
    let p = patterns();
    let files = names(&["00001_a.down.sql", "00001_a.up.sql", "00002_b.down.sql"]);
    assert!(matches!(pair_migrations(&p, &files), Err(CheckError::OddFileCount { count: 3 })));
}

#[test]
fn badly_named_file_is_rejected() {
    let p = patterns();
    let files = names(&["00001_a.down.sql", "0001_a.up.sql"]);
    match pair_migrations(&p, &files) {
        Err(CheckError::BadFileName { file }) => assert_eq!(file, "0001_a.up.sql"),
        other => panic!("unexpected {:?}", other),
    }
    let files = names(&["00001_a.dn.sql", "00001_a.up.sql"]);
    match pair_migrations(&p, &files) {
        Err(CheckError::BadFileName { file }) => assert_eq!(file, "00001_a.dn.sql"),
        other => panic!("unexpected {:?}", other),
    }
}

#[test]
fn mismatched_names_are_rejected() {
    let p = patterns();
    let files = names(&["00001_a.down.sql", "00001_b.up.sql"]);
    match pair_migrations(&p, &files) {
        Err(CheckError::NameMismatch { up, down }) => {
            assert_eq!(up, "00001_b");
            assert_eq!(down, "00001_a");
        }
        other => panic!("unexpected {:?}", other),
    }
}

#[test]
fn non_ascii_version_digits_are_rejected() {
    let p = patterns();
    let files = names(&["\u{661}\u{661}\u{661}\u{661}\u{661}_a.down.sql", "\u{661}\u{661}\u{661}\u{661}\u{661}_a.up.sql"]);
    assert!(matches!(pair_migrations(&p, &files), Err(CheckError::BadFileName { .. })));
}

#[test]
fn well_formed_pairs_are_built() {
    let p = patterns();
    let files = names(&["00001_init.down.sql", "00001_init.up.sql", "00002_users.down.sql", "00002_users.up.sql"]);
    let pairs = pair_migrations(&p, &files).unwrap();
    assert_eq!(pairs.len(), 2);
    assert_eq!(pairs[1].version, 2);
    assert_eq!(pairs[1].up_file.raw_name, "00002_users.up.sql");
    assert_eq!(pairs[1].down_file.base_name, "00002_users");
}

#[test]
fn driver_stops_at_first_failing_pair_and_honours_skip_list() {
    let p = patterns();
    let files = names(&["00001_a.down.sql", "00001_a.up.sql", "00002_b.down.sql", "00002_b.up.sql", "00003_c.down.sql", "00003_c.up.sql"]);
    let pairs = pair_migrations(&p, &files).unwrap();
    let texts = vec![
        ("create table a (id int);".to_string(), "create table a (id int);".to_string()),
        ("create table b (id int);".to_string(), "".to_string()),
        ("create table c (id int);".to_string(), "".to_string()),
    ];
    match verify_pairs(&p, &pairs, &texts, &vec![]) {
        Err(CheckError::Unreconciled { version, messages }) => {
            assert_eq!(version, 2);
            assert_eq!(messages, vec!["b is missing from the down-migration 2".to_string()]);
        }
        other => panic!("unexpected {:?}", other),
    }
    match verify_pairs(&p, &pairs, &texts, &vec![2]) {
        Err(CheckError::Unreconciled { version, .. }) => assert_eq!(version, 3),
        other => panic!("unexpected {:?}", other),
    }
    assert!(verify_pairs(&p, &pairs, &texts, &vec![2, 3]).is_ok());
}

#[test]
fn pending_set_keeps_keys_once() {
    let mut set = PendingSet::new();
    set.insert(Category::Create, get_key("table", "a"));
    set.insert(Category::Create, get_key("table", "a"));
    set.insert(Category::Create, get_key("view", "a"));
    set.insert(Category::Drop, get_key("table", "a"));
    assert_eq!(set.len(), 3);
    assert!(set.contains(Category::Create, &get_key("view", "a")));
    assert!(!set.contains(Category::Add, &get_key("view", "a")));
    set.remove(Category::Create, &get_key("table", "a"));
    assert_eq!(set.len(), 2);
    assert!(!set.contains(Category::Create, &get_key("table", "a")));
    assert!(set.contains(Category::Drop, &get_key("table", "a")));
}

#[test]
fn text_helpers() {
    assert_eq!(split_at_char("a,,b", ','), vec!["a".to_string(), "".to_string(), "b".to_string()]);
    assert_eq!(strip_suffix_repeatedly("x cascade cascade", " cascade"), "x");
    assert_eq!(trim_leading_white_space(" \t\u{3000}y "), "y ");
    assert_eq!(decimal_string(0), "0");
    assert_eq!(decimal_string(1207), "1207");
    assert_eq!(parse_digits("00042"), Some(42));
    assert_eq!(parse_digits("4a"), None);
    assert_eq!(parse_digits(""), None);
    assert_eq!(parse_digits("99999999999999999999999"), None);
}

#[test]
fn file_names_are_sorted_lexically() {
    let files = names(&["00002_b.up.sql", "00001_a.up.sql", "00002_b.down.sql", "00001_a.down.sql"]);
    assert_eq!(
        sort_file_names(&files),
        names(&["00001_a.down.sql", "00001_a.up.sql", "00002_b.down.sql", "00002_b.up.sql"])
    );
    assert_eq!(sort_file_names(&vec![]), Vec::<String>::new());
}
