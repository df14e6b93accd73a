//! Tests of the provider layer: failover order, error classification, rating
//! parsing, and JSON recovery.

use engram_core::manager::{Failover, FailoverAction, ProviderInfo, ProviderManager};
use engram_core::provider::{
    classify_status, extract_json, parse_suggested_rating, CardEvaluation, LlmError,
    SuggestedRating,
};

fn eval(feedback: &str) -> CardEvaluation {
    CardEvaluation {
        is_correct: true,
        score: 1000,
        feedback: feedback.to_string(),
        suggested_rating: SuggestedRating::Easy,
    }
}

fn manager(infos: Vec<(&str, bool)>) -> ProviderManager {
    let mut m = ProviderManager::new();
    for (name, available) in infos {
        m.add_provider(ProviderInfo { name: name.to_string(), available });
    }
    m
}

#[test]
fn test_failover_returns_second_success() {
    // A fails with a rate limit, B succeeds: the result is B's, and A's
    // error never becomes the outcome
    let m = manager(vec![("A", true), ("B", true)]);
    let outcomes = vec![
        Err(LlmError::RateLimited { retry_after_secs: 60 }),
        Ok(eval("from B")),
    ];
    match m.resolve_with_outcomes(&outcomes) {
        Ok(e) => assert_eq!(e.feedback, "from B"),
        Err(_) => panic!("expected B's success"),
    }
}

#[test]
fn test_failover_skips_unavailable() {
    let m = manager(vec![("A", false), ("B", true)]);
    let fo = Failover::new();
    match m.next_action(&fo) {
        FailoverAction::Call { index } => assert_eq!(index, 1),
        FailoverAction::Fail { .. } => panic!("expected a call"),
    }
}

#[test]
fn test_failover_no_providers_unavailable() {
    // an empty list and an all-unavailable list both give the synthetic
    // unavailable failure
    for m in [manager(vec![]), manager(vec![("A", false), ("B", false)])] {
        assert!(!m.has_available_provider());
        let outcomes: Vec<Result<CardEvaluation, LlmError>> =
            m.providers.iter().map(|_| Ok(eval("unused"))).collect();
        match m.resolve_with_outcomes(&outcomes) {
            Err(LlmError::Unavailable(msg)) => assert_eq!(msg, "No providers configured"),
            _ => panic!("expected the unavailable failure"),
        }
    }
}

#[test]
fn test_failover_reports_last_error() {
    let m = manager(vec![("A", true), ("B", true)]);
    let outcomes: Vec<Result<CardEvaluation, LlmError>> = vec![
        Err(LlmError::RateLimited { retry_after_secs: 60 }),
        Err(LlmError::InvalidApiKey),
    ];
    match m.resolve_with_outcomes(&outcomes) {
        Err(LlmError::InvalidApiKey) => {},
        _ => panic!("expected the last error"),
    }
}

#[test]
fn test_available_providers_names() {
    let m = manager(vec![("A", false), ("B", true), ("C", true)]);
    let names = m.available_providers();
    assert_eq!(names, vec!["B".to_string(), "C".to_string()]);
}

#[test]
fn test_classify_status() {
    match classify_status(429, None, String::new()) {
        Some(LlmError::RateLimited { retry_after_secs }) => assert_eq!(retry_after_secs, 60),
        _ => panic!("expected a rate limit"),
    }
    match classify_status(429, Some(17), String::new()) {
        Some(LlmError::RateLimited { retry_after_secs }) => assert_eq!(retry_after_secs, 17),
        _ => panic!("expected a rate limit"),
    }
    assert!(matches!(classify_status(401, None, String::new()), Some(LlmError::InvalidApiKey)));
    assert!(matches!(classify_status(403, None, String::new()), Some(LlmError::InvalidApiKey)));
    assert!(classify_status(200, None, String::new()).is_none());
    assert!(classify_status(204, None, String::new()).is_none());
    match classify_status(500, None, "boom".to_string()) {
        Some(LlmError::RequestFailed(body)) => assert_eq!(body, "boom"),
        _ => panic!("expected a request failure"),
    }
}

#[test]
fn test_parse_suggested_rating() {
    assert!(matches!(parse_suggested_rating("again"), SuggestedRating::Again));
    assert!(matches!(parse_suggested_rating("hard"), SuggestedRating::Hard));
    assert!(matches!(parse_suggested_rating("good"), SuggestedRating::Good));
    assert!(matches!(parse_suggested_rating("easy"), SuggestedRating::Easy));
    // unrecognised names fall back to Good
    assert!(matches!(parse_suggested_rating("excellent"), SuggestedRating::Good));
}

#[test]
fn test_extract_json() {
    assert_eq!(
        extract_json("Here you go: {\"a\": 1} hope it helps"),
        "{\"a\": 1}"
    );
    assert_eq!(extract_json("no json at all"), "no json at all");
    assert_eq!(extract_json("{\"nested\": {\"b\": 2}}"), "{\"nested\": {\"b\": 2}}");
    // a closing brace before any opening brace leaves the text unchanged
    assert_eq!(extract_json("} nothing {"), "} nothing {");
}

#[test]
fn test_llm_error_message() {
    assert_eq!(
        LlmError::RequestFailed("timeout".to_string()).message(),
        "API request failed: timeout"
    );
    assert_eq!(LlmError::InvalidApiKey.message(), "Invalid API key");
    assert_eq!(
        LlmError::RateLimited { retry_after_secs: 60 }.message(),
        "Rate limited, retry after 60 seconds"
    );
    assert_eq!(
        LlmError::Unavailable("down".to_string()).message(),
        "Provider unavailable: down"
    );
}
