//! Tests of configuration parsing, the error taxonomy, records, ingestion
//! staging, and the identifier wrappers.

use engram_core::card::Card;
use engram_core::config::{Config, CorsConfig, EnvVars, parse_decimal};
use engram_core::error::{AppError, OptionExt};
use engram_core::external::new_uuid_string;
use engram_core::ingest::{confirm_cards, stage_cards, StagedCard};
use engram_core::provider::GeneratedCard;
use engram_core::review::{Review, ReviewRating};
use engram_core::source::{Source, SourceType};

#[test]
fn test_default_config() {
    let config = Config::from_env(EnvVars::default());

    assert!(!config.server.host.is_empty());
    assert!(config.server.port > 0);
    assert!(!config.database.url.is_empty());
}

#[test]
fn test_cors_any_origin() {
    let cors = CorsConfig {
        allowed_origins: vec!["*".to_string()],
        allow_credentials: false,
    };
    assert!(cors.is_any_origin());

    let cors = CorsConfig {
        allowed_origins: vec!["http://localhost:3000".to_string()],
        allow_credentials: false,
    };
    assert!(!cors.is_any_origin());
}

#[test]
fn test_config_parses_environment() {
    let vars = EnvVars {
        host: Some("127.0.0.1".to_string()),
        port: Some("8080".to_string()),
        cors_origins: Some("http://a.example , http://b.example".to_string()),
        cors_allow_credentials: Some("true".to_string()),
        gemini_api_key: Some("k".to_string()),
        llm_max_tokens: Some("not-a-number".to_string()),
        ..EnvVars::default()
    };
    let config = Config::from_env(vars);
    assert_eq!(config.server.bind_addr(), "127.0.0.1:8080");
    assert_eq!(
        config.cors.allowed_origins,
        vec!["http://a.example".to_string(), "http://b.example".to_string()]
    );
    assert!(config.cors.allow_credentials);
    assert!(config.llm.has_any_provider());
    assert!(config.llm.google_api_key.is_some());
    // an unparsable number falls back to the default
    assert_eq!(config.llm.max_tokens, 2048);
}

#[test]
fn test_parse_decimal_bounds() {
    assert_eq!(parse_decimal("3001", 65_535), Some(3001));
    assert_eq!(parse_decimal("65536", 65_535), None);
    assert_eq!(parse_decimal("", 65_535), None);
    assert_eq!(parse_decimal("12a", 65_535), None);
    assert_eq!(parse_decimal("999999999999999999999", 65_535), None);
}

#[test]
fn test_not_found_error() {
    let err = AppError::NotFound {
        resource: "Card",
        id: "abc-123".to_string(),
    };
    assert!(err.message().contains("Card"));
    assert!(err.message().contains("abc-123"));
}

#[test]
fn test_option_ext() {
    let none: Option<i32> = None;
    let result = none.ok_or_not_found("Item", "test-id".to_string());
    assert!(matches!(result, Err(AppError::NotFound { .. })));

    let some = Some(42);
    let result = some.ok_or_not_found("Item", "test-id".to_string());
    assert_eq!(result.unwrap(), 42);
}

#[test]
fn test_error_response_parts() {
    let err = AppError::Database("connection lost".to_string());
    assert_eq!(err.status_code(), 500);
    assert_eq!(err.code(), "DATABASE_ERROR");
    // internal details are not exposed to clients
    assert_eq!(err.response_message(), "A database error occurred");
    let nf = AppError::NotFound { resource: "Card", id: "x1".to_string() };
    assert_eq!(nf.status_code(), 404);
    assert_eq!(nf.response_message(), "Card with id 'x1' not found");
}

#[test]
fn test_new_card_defaults() {
    let card = Card::new("front".to_string(), "back".to_string(), None);
    assert_eq!(card.ease_factor, 2_500_000);
    assert_eq!(card.interval, 0);
    assert_eq!(card.repetitions, 0);
    assert_eq!(card.stability, 0);
    assert_eq!(card.difficulty, 5_000_000);
    assert_eq!(card.lapses, 0);
    assert!(card.last_review.is_none());
    assert_eq!(card.next_review, card.created_at);
    assert_eq!(card.id.len(), 36);
}

#[test]
fn test_uuids_are_fresh() {
    let a = new_uuid_string();
    let b = new_uuid_string();
    assert_eq!(a.len(), 36);
    assert_ne!(a, b);
}

#[test]
fn test_review_new() {
    let review = Review::new("card-1".to_string(), ReviewRating::Hard, None);
    assert_eq!(review.card_id, "card-1");
    assert_eq!(review.rating, 1);
    assert!(review.user_answer.is_none());
    assert!(review.llm_evaluation.is_none());
}

#[test]
fn test_rating_from_i32() {
    assert!(matches!(ReviewRating::from(0), ReviewRating::Again));
    assert!(matches!(ReviewRating::from(3), ReviewRating::Easy));
    // anything else counts as Good
    assert!(matches!(ReviewRating::from(9), ReviewRating::Good));
}

#[test]
fn test_source_new() {
    let s = Source::new(SourceType::Pdf, Some("A title".to_string()), None);
    assert_eq!(s.source_type, "pdf");
    assert_eq!(s.title.as_deref(), Some("A title"));
    assert!(s.content_hash.is_none());
    assert_eq!(s.id.len(), 36);
    assert!(matches!(SourceType::parse("url"), SourceType::Url));
    assert!(matches!(SourceType::parse("wat"), SourceType::Manual));
}

#[test]
fn test_stage_and_confirm_cards() {
    let generated = vec![
        GeneratedCard {
            front: "q1".to_string(),
            back: "a1".to_string(),
            tags: vec!["t".to_string()],
        },
        GeneratedCard { front: "q2".to_string(), back: "a2".to_string(), tags: vec![] },
    ];
    let mut staged = stage_cards(generated);
    assert_eq!(staged.len(), 2);
    assert!(staged.iter().all(|s| s.approved));
    assert_eq!(staged[0].front, "q1");

    // only the approved cards become real cards
    staged[1].approved = false;
    staged.push(StagedCard {
        temp_id: "t3".to_string(),
        front: "q3".to_string(),
        back: "a3".to_string(),
        tags: vec![],
        approved: true,
    });
    let source_id = "src-1".to_string();
    let cards = confirm_cards(&source_id, &staged);
    assert_eq!(cards.len(), 2);
    assert_eq!(cards[0].front, "q1");
    assert_eq!(cards[1].front, "q3");
    assert_eq!(cards[0].source_id.as_deref(), Some("src-1"));
    assert_eq!(cards[0].repetitions, 0);
}
