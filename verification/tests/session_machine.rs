//! Tests of the session state machine: state checks, the full review walk,
//! skipping, repeating, and audio buffering.

use engram_core::card::Card;
use engram_core::provider::{CardEvaluation, SuggestedRating};
use engram_core::session::{
    EvaluationOutcome, ServerMessage, Session, SessionState,
};

const NOW: i64 = 1_700_000_000;

fn card(front: &str, back: &str) -> Card {
    Card::new(front.to_string(), back.to_string(), None)
}

#[test]
fn test_rate_card_requires_feedback_state() {
    let mut session = Session::new();
    let m = session.start_session(vec![card("q1", "a1"), card("q2", "a2")]);
    assert!(matches!(m, ServerMessage::SessionStarted { card_count: 2 }));
    assert_eq!(session.state, SessionState::PresentingCard);

    // rating while presenting (not yet showing feedback) is an error and
    // changes nothing
    let before_index = session.current_index;
    let (m, update) = session.rate_card("good", NOW);
    match m {
        ServerMessage::Error { message } => assert_eq!(message, "Not in feedback state"),
        _ => panic!("expected an error"),
    }
    assert!(update.is_none());
    assert_eq!(session.current_index, before_index);
    assert_eq!(session.state, SessionState::PresentingCard);
}

#[test]
fn test_full_session_walk() {
    // StartSession with exactly 2 due cards, two Good ratings in sequence,
    // final message SessionComplete{2}
    let mut session = Session::new();
    let m = session.start_session(vec![card("q1", "a1"), card("q2", "a2")]);
    assert!(matches!(m, ServerMessage::SessionStarted { card_count: 2 }));

    // first card: answer, take the evaluation, rate Good
    let (notice, req) = session.text_answer("my answer".to_string());
    assert!(matches!(notice, ServerMessage::StateChanged { state: SessionState::Evaluating }));
    let req = req.unwrap();
    assert_eq!(req.card_front, "q1");
    assert_eq!(req.card_back, "a1");
    let m = session.finish_evaluation(EvaluationOutcome::Success(CardEvaluation {
        is_correct: true,
        score: 900,
        feedback: "well done".to_string(),
        suggested_rating: SuggestedRating::Good,
    }));
    match m {
        ServerMessage::Evaluation { is_correct, score, feedback, suggested_rating } => {
            assert!(is_correct);
            assert_eq!(score, 900);
            assert_eq!(feedback, "well done");
            assert_eq!(suggested_rating, "good");
        },
        _ => panic!("expected an evaluation"),
    }
    let (m, update) = session.rate_card("good", NOW);
    let update = update.unwrap();
    assert_eq!(update.repetitions, 1);
    assert_eq!(update.last_review, NOW);
    assert!(update.next_review > NOW);
    match m {
        ServerMessage::CardPresented { card } => {
            assert_eq!(card.front, "q2");
            assert_eq!(card.index, 2);
            assert_eq!(card.total, 2);
        },
        _ => panic!("expected the next card"),
    }

    // second card: evaluation fails, rating still possible
    let (_, req) = session.text_answer("another answer".to_string());
    assert!(req.is_some());
    let m = session.finish_evaluation(EvaluationOutcome::NoProvider);
    match m {
        ServerMessage::Error { message } => {
            assert_eq!(message, "No LLM provider available for evaluation")
        },
        _ => panic!("expected an error"),
    }
    assert_eq!(session.state, SessionState::ShowingFeedback);
    let (m, update) = session.rate_card("good", NOW + 60);
    assert!(update.is_some());
    assert!(matches!(m, ServerMessage::SessionComplete { cards_reviewed: 2 }));
    assert_eq!(session.state, SessionState::Idle);
}

#[test]
fn test_start_session_empty_completes() {
    let mut session = Session::new();
    let m = session.start_session(Vec::new());
    assert!(matches!(m, ServerMessage::SessionComplete { cards_reviewed: 0 }));
    assert_eq!(session.state, SessionState::Idle);
}

#[test]
fn test_next_card_invalid_when_idle() {
    let mut session = Session::new();
    let m = session.next_card();
    match m {
        ServerMessage::Error { message } => assert_eq!(message, "No active session"),
        _ => panic!("expected an error"),
    }
}

#[test]
fn test_text_answer_invalid_when_idle() {
    let mut session = Session::new();
    let (m, req) = session.text_answer("hello".to_string());
    match m {
        ServerMessage::Error { message } => assert_eq!(message, "Not waiting for answer"),
        _ => panic!("expected an error"),
    }
    assert!(req.is_none());
}

#[test]
fn test_skip_and_repeat() {
    let mut session = Session::new();
    session.start_session(vec![card("q1", "a1"), card("q2", "a2")]);

    let m = session.command("repeat");
    match m {
        ServerMessage::CardPresented { card } => assert_eq!(card.front, "q1"),
        _ => panic!("expected the current card"),
    }
    let m = session.command("skip");
    match m {
        ServerMessage::CardPresented { card } => assert_eq!(card.front, "q2"),
        _ => panic!("expected the next card"),
    }
    let m = session.command("skip");
    assert!(matches!(m, ServerMessage::SessionComplete { cards_reviewed: 0 }));
    let m = session.command("skip");
    match m {
        ServerMessage::Error { message } => assert_eq!(message, "No card to skip"),
        _ => panic!("expected an error"),
    }
    let m = session.command("dance");
    match m {
        ServerMessage::Error { message } => assert_eq!(message, "Unknown command: dance"),
        _ => panic!("expected an error"),
    }
}

#[test]
fn test_audio_buffer_accumulates_and_clears() {
    let mut session = Session::new();
    session.audio_chunk(&vec![1, 2, 3]);
    session.audio_chunk(&vec![4]);
    assert_eq!(session.audio_buffer, vec![1, 2, 3, 4]);
    let m = session.end_audio();
    assert!(matches!(
        m,
        ServerMessage::StateChanged { state: SessionState::WaitingForAnswer }
    ));
    assert!(session.audio_buffer.is_empty());
    assert_eq!(session.state, SessionState::WaitingForAnswer);
}

#[test]
fn test_end_session_resets() {
    let mut session = Session::new();
    session.start_session(vec![card("q", "a")]);
    let m = session.end_session();
    assert!(matches!(m, ServerMessage::SessionEnded));
    assert_eq!(session.state, SessionState::Idle);
    assert!(session.cards.is_empty());
}
