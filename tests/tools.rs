use db_migrations_checker::keyvalue::{FileDatabase, Runner, Storage};
use db_migrations_checker::arguments::{parse_hours, validate_ndt, validate_user_timestamp, HoursError};

#[test]
fn test_validate_user_timestamp_error_incorrect_format_dashes() {
    assert!(validate_user_timestamp("2020-10-31").is_err());
}

#[test]
fn test_validate_user_timestamp_error_too_long() {
    assert!(validate_user_timestamp("2020202020202020").is_err());
}

#[test]
fn test_validate_user_timestamp_error_not_digit() {
    assert!(validate_user_timestamp("archive").is_err());
}

#[test]
// wayback machine allows it so we will too
fn test_validate_user_timestamp_success_one_digit() {
    assert!(validate_user_timestamp("2").is_ok());
}

#[test]
fn test_validate_user_timestamp_success_omit_end() {
    assert!(validate_user_timestamp("20201031").is_ok());
}

#[test]
fn test_validate_user_timestamp_success_full_length() {
    assert!(validate_user_timestamp("19961102145216").is_ok());
}

#[test]
#[should_panic]
fn test_validate_user_timestamp_fail() {
    _ = validate_user_timestamp("10/31/200").expect("want valid date");
}

#[test]
fn validate_user_timestamp_messages() {
    assert_eq!(validate_user_timestamp("2020-10-31"), Err("".to_string()));
    assert_eq!(validate_user_timestamp("202010311200000"), Err("format is YYYYMMDDhhmmss".to_string()));
    assert_eq!(validate_user_timestamp(""), Ok("".to_string()));
}

struct MockDatabase {
    set_err: Option<String>,
    get_err: Option<String>,
    get_value: Option<String>,
}

impl MockDatabase {
    fn new(set_err: Option<String>, get_err: Option<String>, get_value: Option<String>) -> Self {
        MockDatabase { set_err, get_err, get_value }
    }
}

impl Storage for MockDatabase {
    fn set(&self, _key: &str, _value: &str) -> Result<(), String> {
        if let Some(err) = &self.set_err {
            return Err(String::from(err));
        }
        Ok(())
    }

    fn get(&self, _key: &str) -> Result<Option<String>, String> {
        if let Some(err) = &self.get_err {
            return Err(String::from(err));
        }
        Ok(self.get_value.clone())
    }
}

#[test]
fn test_runner_args_err() {
    let runner = Runner::new(MockDatabase::new(None, None, None));
    let args = vec![];
    let mut output = Vec::<u8>::new();
    assert!(runner.run(&mut output, args).is_err());
}

#[test]
fn test_runner_usage_err() {
    let runner = Runner::new(MockDatabase::new(None, None, None));
    let args = vec!["./kv".to_string(), "help".to_string(), "123".to_string()];
    let mut output = Vec::<u8>::new();
    assert!(runner.run(&mut output, args).is_err());
}

#[test]
fn test_runner_set_missing_arg_err() {
    let runner = Runner::new(MockDatabase::new(None, None, None));
    let args = vec!["./kv".to_string(), "set".to_string(), "123".to_string()];
    let mut output = Vec::<u8>::new();
    assert!(runner.run(&mut output, args).is_err());
}

#[test]
fn test_runner_returns_err_on_set() {
    let set_err = String::from("set err");
    let runner = Runner::new(MockDatabase::new(Some(set_err), None, None));
    let args = vec!["./kv".to_string(), "set".to_string(), "bob".to_string(), "123".to_string()];
    let mut output = Vec::<u8>::new();
    assert!(runner.run(&mut output, args).is_err());
    let want = String::from("set err");
    let args = vec!["./kv".to_string(), "set".to_string(), "bob".to_string(), "123".to_string()];
    let got = runner.run(&mut output, args).unwrap_err();
    assert_eq!(want.to_string(), got.to_string());
}

#[test]
fn test_runner_returns_err_on_get() {
    let get_err = String::from("get err");
    let get_value = String::from("get value");
    let runner = Runner::new(MockDatabase::new(None, Some(get_err), Some(get_value)));
    let args = vec!["./kv".to_string(), "get".to_string(), "bob".to_string(), "123".to_string()];
    let mut output = Vec::<u8>::new();
    assert!(runner.run(&mut output, args).is_err());
    let want = String::from("get err");
    let args = vec!["./kv".to_string(), "get".to_string(), "bob".to_string(), "123".to_string()];
    let got = runner.run(&mut output, args).unwrap_err();
    assert_eq!(want.to_string(), got.to_string());
}

#[test]
fn test_runner_get_returns_expected_value() {
    let runner = Runner::new(MockDatabase::new(None, None, Some("get value".to_string())));
    let args = vec!["./kv".to_string(), "get".to_string(), "bob".to_string()];
    let mut output = Vec::<u8>::new();
    assert!(runner.run(&mut output, args).is_ok());
    let got = String::from_utf8_lossy(&output);
    assert_eq!(got, "get value\n".to_string());
}

#[test]
fn runner_reports_missing_value() {
    let runner = Runner::new(MockDatabase::new(None, None, None));
    let args = vec!["./kv".to_string(), "get".to_string(), "bob".to_string()];
    let mut output = Vec::<u8>::new();
    assert_eq!(runner.run(&mut output, args), Err("not found".to_string()));
    assert!(output.is_empty());
}

#[test]
fn validate_ndt_pads_day_and_month() {
    assert_eq!(validate_ndt("2020-1-9"), Ok("20200109".to_string()));
    assert_eq!(validate_ndt("2020-31-10"), Ok("20203110".to_string()));
    assert_eq!(validate_ndt("2020/10/31"), Err("need date as yyyy-dd-mm".to_string()));
    assert_eq!(validate_ndt("20-10-31"), Err("need a valid year".to_string()));
    assert_eq!(validate_ndt("2020--31"), Err("need a valid day".to_string()));
    assert_eq!(validate_ndt("2020-10-123"), Err("need a valid month".to_string()));
}

#[test]
fn parse_hours_accepts_below_twenty_four() {
    assert_eq!(parse_hours("0"), Ok(0));
    assert_eq!(parse_hours("+23"), Ok(23));
    assert_eq!(parse_hours("24"), Err(HoursError::TooMany));
    assert_eq!(parse_hours("4294967295"), Err(HoursError::TooMany));
    assert_eq!(parse_hours("4294967296"), Err(HoursError::NotANumber));
    assert_eq!(parse_hours("-1"), Err(HoursError::NotANumber));
    assert_eq!(parse_hours(""), Err(HoursError::NotANumber));
    assert_eq!(parse_hours("+"), Err(HoursError::NotANumber));
}

#[test]
fn file_database_finds_last_value() {
    let contents = "bob:1\nann:2\r\nbob:3:extra\nnoval\n";
    assert_eq!(FileDatabase::find_value(contents, "bob"), Some("3".to_string()));
    assert_eq!(FileDatabase::find_value(contents, "ann"), Some("2".to_string()));
    assert_eq!(FileDatabase::find_value(contents, "noval"), None);
    assert_eq!(FileDatabase::find_value("", "bob"), None);
    assert_eq!(FileDatabase::find_value("bob:1\nbob:\n", "bob"), None);
    assert_eq!(FileDatabase::record("k", "v"), "k:v\n");
    assert_eq!(FileDatabase::new("db.txt".to_string()).file, "db.txt");
}
