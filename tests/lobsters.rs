use db_migrations_checker::lobsters::{check_for_matches, MatchError, Post};

fn post(short_id: &str, title: &str, url: &str) -> Post {
    Post {
        short_id: short_id.to_string(),
        title: title.to_string(),
        url: url.to_string(),
        comment_count: 0,
        tags: vec![],
    }
}

fn posts() -> Vec<Post> {
    vec![
        post("aedhvm", "The await event horizon in JavaScript", "https://example.com/await"),
        post("zzzzzz", "Another post", "https://example.com/another"),
        post("qyaupk", "Lila: a Lil Interpreter in Awk", "https://example.com/lila"),
    ]
}

#[test]
fn check_for_matches_no_matches() {
    let posts = posts();
    assert_eq!(check_for_matches("b", &posts, true), Err(MatchError::NotFound));
    assert_eq!(check_for_matches("b", &posts, false), Err(MatchError::NotFound));
}

#[test]
fn check_for_matches_multiple_matches() {
    let posts = posts();
    match check_for_matches("a", &posts, true) {
        Err(MatchError::Multiple { matches }) => {
            assert_eq!(matches, vec!["aedhvm".to_string(), "Another post".to_string()])
        }
        other => panic!("unexpected {:?}", other),
    }
    assert!(check_for_matches("a", &posts, false).is_err());
}

#[test]
fn check_for_matches_success_partial_id() {
    let posts = posts();
    assert_eq!(check_for_matches("q", &posts, true), Ok(posts[2].short_id.clone()));
    assert_eq!(check_for_matches("q", &posts, false), Ok(posts[2].url.clone()));
}

#[test]
fn check_for_matches_success_full_id() {
    let posts = posts();
    assert_eq!(check_for_matches("qyaupk", &posts, true), Ok(posts[2].short_id.clone()));
}

#[test]
fn check_for_matches_success_partial_title() {
    let posts = posts();
    assert_eq!(check_for_matches("the", &posts, false), Ok(posts[0].url.clone()));
}

#[test]
fn check_for_matches_success_full_title() {
    let posts = posts();
    let input = "the await event horizon in javascript";
    assert_eq!(check_for_matches(input, &posts, false), Ok(posts[0].url.clone()));
    assert_eq!(check_for_matches(input, &posts, true), Ok(posts[0].short_id.clone()));
}
