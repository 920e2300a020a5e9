use db_migrations_checker::word_count::count_words;

#[test]
fn count_words_is_case_insensitive() {
    let content = "foo Foo fOO".to_owned();
    let mut output = Vec::<u8>::new();
    assert!(count_words(&mut output, content).is_ok());
    let got = String::from_utf8_lossy(&output);
    assert_eq!(got, "foo: 3\n".to_owned());
}

#[test]
fn count_empty_string() {
    let content = "".to_owned();
    let mut output = Vec::<u8>::new();
    assert!(count_words(&mut output, content).is_ok());
    let got = String::from_utf8(output).unwrap();
    assert_eq!(got, "".to_string());
}

#[test]
fn strips_punctuation_and_numbers() {
    let content = "fo1o !foo foo.".to_owned();
    let mut output = Vec::<u8>::new();
    assert!(count_words(&mut output, content).is_ok());
    let got = String::from_utf8(output).unwrap();
    assert_eq!(got, "foo: 3\n".to_owned());
}

#[test]
fn strips_whitespace_stuff() {
    let content = "     foo\t\nfoo\n foo\t".to_owned();
    let mut output = Vec::<u8>::new();
    assert!(count_words(&mut output, content).is_ok());
    let got = String::from_utf8(output).unwrap();
    assert_eq!(got, "foo: 3\n".to_owned());
}

#[test]
fn counts_multiple_words() {
    let content = "foo bar bar".to_owned();
    let mut output = Vec::<u8>::new();
    assert!(count_words(&mut output, content).is_ok());
    let got = String::from_utf8(output).unwrap();
    assert_eq!(got, "bar: 2\nfoo: 1\n".to_owned());
}

#[test]
fn equal_counts_keep_first_occurrence_order() {
    let mut output = Vec::<u8>::new();
    assert!(count_words(&mut output, "b a c a b".to_owned()).is_ok());
    assert_eq!(String::from_utf8(output).unwrap(), "b: 2\na: 2\nc: 1\n");
}
