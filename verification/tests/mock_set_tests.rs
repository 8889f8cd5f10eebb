use mocktail::body::Body;
use mocktail::mock::{Method, Mock, Request, Then, When};
use mocktail::mock_set::MockSet;

#[test]
fn test_builder() {
    let mut mocks = MockSet::new();
    mocks.mock(
        When::new().post().path("/hello").text("hello"),
        Then::new().text("hello!"),
    );
    mocks.mock(
        When::new().post().path("/hello").text("hey"),
        Then::new().text("hello!"),
    );
    assert_eq!(mocks.len(), 2);
}

#[test]
fn priority_ordering() {
    let mut mocks = MockSet::new();
    mocks.insert(Mock::new(When::new().path("/a"), Then::new()).with_priority(5));
    mocks.insert(Mock::new(When::new().path("/b"), Then::new()).with_priority(1));
    mocks.insert(Mock::new(When::new().path("/c"), Then::new()).with_priority(3));
    let order: Vec<u8> = mocks.iter().iter().map(|m| m.priority()).collect();
    assert_eq!(order, vec![1, 3, 5]);
}

#[test]
fn equal_priority_keeps_insertion_order() {
    let mut mocks = MockSet::new();
    mocks.insert(Mock::new(When::new().path("/first"), Then::new()).with_priority(2));
    mocks.insert(Mock::new(When::new().path("/second"), Then::new()).with_priority(2));
    let entries = mocks.iter();
    assert_eq!(entries[0].when.path.as_deref(), Some("/first"));
    assert_eq!(entries[1].when.path.as_deref(), Some("/second"));
}

#[test]
fn first_match_wins() {
    let mut mocks = MockSet::new();
    mocks.insert(
        Mock::new(When::new().path("/x"), Then::new().text("second"))
            .with_priority(2),
    );
    mocks.insert(
        Mock::new(When::new().path("/x"), Then::new().text("first"))
            .with_priority(1),
    );
    let request = Request::new(Method::Get, "/x");
    let mut matched = mocks.match_by_request(&request).unwrap();
    assert_eq!(matched.priority(), 1);
    assert_eq!(matched.response.body.as_bytes(), b"first".to_vec());
}

#[test]
fn usage_limit_exhaustion() {
    let mut mocks = MockSet::new();
    mocks.mock_with_options(1, Some(1), When::new().path("/once"), Then::new().text("hi"));
    let request = Request::new(Method::Get, "/once");
    assert!(mocks.match_by_request(&request).is_some());
    assert!(mocks.match_by_request(&request).is_none());
}

#[test]
fn exhausted_mock_falls_back_to_lower_priority() {
    let mut mocks = MockSet::new();
    mocks.mock_with_options(1, Some(1), When::new().path("/x"), Then::new().text("primary"));
    mocks.mock_with_options(9, None, When::new().path("/x"), Then::new().text("fallback"));
    let request = Request::new(Method::Get, "/x");
    let mut first = mocks.match_by_request(&request).unwrap();
    assert_eq!(first.response.body.as_bytes(), b"primary".to_vec());
    let mut second = mocks.match_by_request(&request).unwrap();
    assert_eq!(second.response.body.as_bytes(), b"fallback".to_vec());
}

#[test]
fn unlimited_mock_matches_repeatedly() {
    let mut mocks = MockSet::new();
    mocks.mock(When::new().path("/again"), Then::new().text("ok"));
    let request = Request::new(Method::Get, "/again");
    assert!(mocks.match_by_request(&request).is_some());
    assert!(mocks.match_by_request(&request).is_some());
    assert!(mocks.match_by_request(&request).is_some());
}

#[test]
fn matched_clone_leaves_stored_body_undrained() {
    let mut mocks = MockSet::new();
    mocks.mock(When::new().path("/body"), Then::new().text("payload"));
    let request = Request::new(Method::Get, "/body");
    let mut first = mocks.match_by_request(&request).unwrap();
    assert_eq!(first.response.body.as_bytes(), b"payload".to_vec());
    // Draining the returned clone must not affect the stored mock.
    let mut second = mocks.match_by_request(&request).unwrap();
    assert_eq!(second.response.body.as_bytes(), b"payload".to_vec());
}

#[test]
fn duplicate_rejection() {
    let mut mocks = MockSet::new();
    mocks.mock(When::new().path("/dup").text("same"), Then::new().text("same"));
    mocks.mock(When::new().path("/dup").text("same"), Then::new().text("same"));
    assert_eq!(mocks.len(), 1);
}

#[test]
fn method_must_match_when_set() {
    let mut mocks = MockSet::new();
    mocks.mock(When::new().post().path("/m"), Then::new().text("posted"));
    let get = Request::new(Method::Get, "/m");
    assert!(mocks.match_by_request(&get).is_none());
    let post = Request::new(Method::Post, "/m");
    assert!(mocks.match_by_request(&post).is_some());
}

#[test]
fn body_matching_is_content_based() {
    let mut mocks = MockSet::new();
    mocks.mock(
        When::new().path("/b").bytes(vec![1, 2, 3]),
        Then::new().text("ok"),
    );
    // The request body carries the same bytes split differently.
    let request = Request::new(Method::Get, "/b")
        .with_body(Body::bytes_stream(vec![vec![1], vec![2, 3]]));
    assert!(mocks.match_by_request(&request).is_some());
    let other = Request::new(Method::Get, "/b").with_body(Body::bytes(vec![9]));
    assert!(mocks.match_by_request(&other).is_none());
}

#[test]
fn no_match_on_empty_set_is_not_an_error() {
    let mut mocks = MockSet::new();
    let request = Request::new(Method::Get, "/nothing");
    assert!(mocks.match_by_request(&request).is_none());
}

#[test]
fn find_returns_first_satisfying_mock() {
    let mut mocks = MockSet::new();
    mocks.insert(Mock::new(When::new().path("/a"), Then::new()).with_priority(1));
    mocks.insert(Mock::new(When::new().path("/b"), Then::new()).with_priority(3));
    let found = mocks.find(|m| m.priority() >= 2).unwrap();
    assert_eq!(found.when.path.as_deref(), Some("/b"));
    assert!(mocks.find(|m| m.priority() > 9).is_none());
}

#[test]
fn contains_compares_by_value() {
    let mut mocks = MockSet::new();
    let mock = Mock::new(When::new().path("/here"), Then::new().text("x"));
    mocks.insert(mock.clone());
    assert!(mocks.contains(&mock));
    let other = Mock::new(When::new().path("/elsewhere"), Then::new().text("x"));
    assert!(!mocks.contains(&other));
}

#[test]
fn remove_takes_out_by_position() {
    let mut mocks = MockSet::new();
    mocks.insert(Mock::new(When::new().path("/a"), Then::new()).with_priority(1));
    mocks.insert(Mock::new(When::new().path("/b"), Then::new()).with_priority(2));
    let removed = mocks.remove(0);
    assert_eq!(removed.priority(), 1);
    assert_eq!(mocks.len(), 1);
    assert_eq!(mocks.iter()[0].priority(), 2);
}

#[test]
fn clear_empties_the_set() {
    let mut mocks = MockSet::new();
    mocks.mock(When::new().path("/a"), Then::new());
    assert!(!mocks.is_empty());
    mocks.clear();
    assert!(mocks.is_empty());
    assert_eq!(mocks.len(), 0);
}
