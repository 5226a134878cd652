use lrclib_core::challenge::{
    digest_meets_target, is_valid_publish_token, verify_answer, TokenAction, TokenEvent, TokenState,
};
use std::collections::HashMap;

const LOW: &str = "000F50190000000000000000000000000000000000000000000000000000FFFF";
const EXACT: &str = "000f5019ca2aa43c3a813c34dc7391c92e82ed1fd71ce952ecfde1f1d9a72c02";
const HIGH: &str = "000FFF0000000000000000000000000000000000000000000000000000000000";

/// Carries a whole validation out on `cache`.
fn validate(cache: &mut HashMap<String, String>, token: &str) -> bool {
    let mut step = is_valid_publish_token(
        TokenState::Fresh,
        TokenEvent::Submitted(token.to_string()),
    );
    loop {
        let event = match &step.1 {
            TokenAction::Lookup(key) => TokenEvent::Target(cache.get(key).cloned()),
            TokenAction::Remove(key) => {
                cache.remove(key);
                TokenEvent::Removed
            },
            TokenAction::Answer(valid) => return *valid,
        };
        step = is_valid_publish_token(step.0, event);
    }
}

#[test]
fn answers_are_held_against_the_target() {
    assert!(verify_answer("prefix", EXACT, "2745"));
    assert!(verify_answer("prefix", HIGH, "2745"));
    assert!(!verify_answer("prefix", LOW, "2745"));
    assert!(!verify_answer("prefix", HIGH, "2744"));
}

#[test]
fn the_digest_is_of_prefix_and_nonce_together() {
    assert!(verify_answer("pre", EXACT, "fix2745"));
    assert!(!verify_answer("2745", EXACT, "prefix"));
}

#[test]
fn text_is_hashed_as_utf8() {
    let exact = "a84f3821a44c5148423b2c2df16f4fc88c620ad875c67a79da0e397e05c23723";
    let below = "a84f3821a44c5148423b2c2df16f4fc88c620ad875c67a79da0e397e05c23722";
    assert!(verify_answer("pr\u{e9}fixe", exact, "1"));
    assert!(!verify_answer("pr\u{e9}fixe", below, "1"));
}

#[test]
fn targets_that_are_not_32_hexadecimal_bytes_are_refused() {
    assert!(!verify_answer("prefix", "", "2745"));
    assert!(!verify_answer("prefix", "ff", "2745"));
    assert!(!verify_answer("prefix", &HIGH[1..], "2745"));
    assert!(!verify_answer("prefix", &format!("{}00", HIGH), "2745"));
    assert!(!verify_answer("prefix", &HIGH.replace('F', "g"), "2745"));
}

#[test]
fn digests_are_compared_as_numbers() {
    assert!(digest_meets_target(&[1, 2], "0102"));
    assert!(digest_meets_target(&[1, 255], "0200"));
    assert!(!digest_meets_target(&[2, 0], "01ff"));
    assert!(!digest_meets_target(&[1, 3], "0102"));
    assert!(digest_meets_target(&[0xab, 0xcd], "aBcD"));
    assert!(digest_meets_target(&[], ""));
    assert!(!digest_meets_target(&[1], "0102"));
    assert!(!digest_meets_target(&[1], "010"));
    assert!(!digest_meets_target(&[1], "zz"));
}

#[test]
fn a_greater_target_is_no_harder() {
    for target in ["0102", "0103", "0200", "ffff"] {
        assert!(digest_meets_target(&[1, 2], target));
    }
}

#[test]
fn a_token_needs_exactly_one_colon() {
    for token in ["", "prefix", "prefix2745", "prefix:2745:", ":prefix:2745", "::"] {
        let (state, action) = is_valid_publish_token(
            TokenState::Fresh,
            TokenEvent::Submitted(token.to_string()),
        );
        assert!(matches!(state, TokenState::Closed));
        assert!(matches!(action, TokenAction::Answer(false)));
    }
}

#[test]
fn the_target_is_looked_up_by_prefix() {
    let (state, action) = is_valid_publish_token(
        TokenState::Fresh,
        TokenEvent::Submitted("pr\u{e9}:n\u{f6}".to_string()),
    );
    match state {
        TokenState::AwaitingTarget { prefix, nonce } => {
            assert_eq!(prefix, "pr\u{e9}");
            assert_eq!(nonce, "n\u{f6}");
        },
        _ => panic!("the target is awaited"),
    }
    match action {
        TokenAction::Lookup(key) => assert_eq!(key, "challenge:pr\u{e9}"),
        _ => panic!("the target is looked up"),
    }
}

#[test]
fn an_empty_prefix_is_looked_up_too() {
    let (_, action) = is_valid_publish_token(
        TokenState::Fresh,
        TokenEvent::Submitted(":".to_string()),
    );
    match action {
        TokenAction::Lookup(key) => assert_eq!(key, "challenge:"),
        _ => panic!("the target is looked up"),
    }
}

#[test]
fn a_challenge_is_used_up_by_a_valid_token() {
    let mut cache = HashMap::new();
    cache.insert("challenge:prefix".to_string(), HIGH.to_string());
    cache.insert("challenge:other".to_string(), HIGH.to_string());
    assert!(!validate(&mut cache, "prefix:2744"));
    assert_eq!(cache.len(), 2);
    assert!(validate(&mut cache, "prefix:2745"));
    assert_eq!(cache.len(), 1);
    assert!(cache.contains_key("challenge:other"));
    assert!(!validate(&mut cache, "prefix:2745"));
    assert!(!validate(&mut cache, "other:0"));
    assert!(!validate(&mut cache, "prefix:2745"));
}

#[test]
fn an_unknown_prefix_is_refused() {
    let mut cache = HashMap::new();
    assert!(!validate(&mut cache, "prefix:2745"));
}
