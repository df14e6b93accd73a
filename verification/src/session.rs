//! The review session state machine.
//!
//! A session is bound to one connection and driven by one sequential event
//! loop. The machine here is the decision core: it consumes client events,
//! moves through the session states, invokes the scheduler on ratings, and
//! emits the outbound message for every event. The outside work — fetching
//! due cards, calling a provider, persisting updates — is handed to the
//! caller as data (`EvaluationRequest`, `CardUpdate`) and its results are
//! handed back as data, so every decision is verified.

use vstd::prelude::*;
use vstd::string::StringExecFns;
use crate::card::{Card, card_memory_spec};
use crate::provider::{CardEvaluation, EvaluationRequest, LlmError, spec_error_message, spec_rating_name};
use crate::review::{Review, ReviewRating, spec_rating_index};
use crate::scheduler::{
    calculate_fsrs, ease_factor_from_difficulty, ease_factor_spec, schedule_spec, default_w,
    MAX_TIMESTAMP,
};
use crate::strutil::str_eq;

verus! {

/// The states a review session moves through.
#[derive(Debug, Clone, Copy, PartialEq, Eq, Structural)]
pub enum SessionState {
    Idle,
    PresentingCard,
    WaitingForAnswer,
    Evaluating,
    ShowingFeedback,
}

/// Client-to-server messages.
#[derive(Debug)]
pub enum ClientMessage {
    StartSession { card_limit: Option<i32> },
    EndSession,
    AudioChunk { data: Vec<u8> },
    EndAudio,
    Command { action: String },
    TextAnswer { answer: String },
    NextCard,
    RateCard { rating: String },
}

/// The card data presented to the client.
#[derive(Debug)]
pub struct CardPresentation {
    pub id: String,
    pub front: String,
    /// 1-based position in the session queue.
    pub index: usize,
    pub total: usize,
}

/// Server-to-client messages.
#[derive(Debug)]
pub enum ServerMessage {
    SessionStarted { card_count: usize },
    SessionEnded,
    StateChanged { state: SessionState },
    CardPresented { card: CardPresentation },
    AudioChunk { data: Vec<u8> },
    Evaluation { is_correct: bool, score: u32, feedback: String, suggested_rating: String },
    Error { message: String },
    SessionComplete { cards_reviewed: usize },
}

/// Everything the caller must persist after a card was rated.
#[derive(Debug)]
pub struct CardUpdate {
    pub card_id: String,
    pub interval: u64,
    pub ease_factor: u64,
    pub repetitions: u32,
    pub stability: u64,
    pub difficulty: u64,
    pub lapses: u32,
    pub next_review: i64,
    pub last_review: i64,
    /// The review record to append.
    pub review: Review,
}

/// How an answer evaluation ended: a provider succeeded, every provider
/// failed with `Failure`'s error, or no provider was available at all.
pub enum EvaluationOutcome {
    Success(CardEvaluation),
    Failure(LlmError),
    NoProvider,
}

/// How a client rating name maps to a rating; anything unrecognised counts
/// as Good.
pub open spec fn spec_parse_review_rating(s: Seq<char>) -> ReviewRating {
    if s == "again"@ {
        ReviewRating::Again
    } else if s == "hard"@ {
        ReviewRating::Hard
    } else if s == "easy"@ {
        ReviewRating::Easy
    } else {
        ReviewRating::Good
    }
}

/// Parse a client rating name.
pub fn parse_review_rating(s: &str) -> (r: ReviewRating)
    ensures
        r == spec_parse_review_rating(s@),
{
    if str_eq(s, "again") {
        ReviewRating::Again
    } else if str_eq(s, "hard") {
        ReviewRating::Hard
    } else if str_eq(s, "easy") {
        ReviewRating::Easy
    } else {
        ReviewRating::Good
    }
}

/// The message presenting the card at position `i` of `cards`.
pub open spec fn spec_presents(m: ServerMessage, cards: Seq<Card>, i: int) -> bool {
    &&& m matches ServerMessage::CardPresented { card }
    &&& (m matches ServerMessage::CardPresented { card } ==> {
        &&& card.id@ == cards[i].id@
        &&& card.front@ == cards[i].front@
        &&& card.index == i + 1
        &&& card.total == cards.len()
    })
}

/// The message is an `Error` with exactly this text.
pub open spec fn spec_is_error(m: ServerMessage, text: Seq<char>) -> bool {
    &&& m matches ServerMessage::Error { message }
    &&& (m matches ServerMessage::Error { message } ==> message@ == text)
}

/// The per-connection review session: the queue of due cards loaded at
/// session start, the position in it, and the audio buffer.
pub struct Session {
    pub state: SessionState,
    pub cards: Vec<Card>,
    pub current_index: usize,
    pub cards_reviewed: usize,
    pub audio_buffer: Vec<u8>,
}

impl Session {
    /// Every queued card carries a sane memory state, and the review count
    /// never runs ahead of the queue position.
    pub open spec fn wf(&self) -> bool {
        &&& forall|i: int| 0 <= i < self.cards@.len() ==> (#[trigger] self.cards@[i]).wf()
        &&& self.cards_reviewed <= self.current_index
    }

    /// A fresh idle session with no cards.
    pub fn new() -> (r: Session)
        ensures
            r.state == SessionState::Idle,
            r.cards@.len() == 0,
            r.current_index == 0,
            r.cards_reviewed == 0,
            r.audio_buffer@.len() == 0,
            r.wf(),
    {
        Session {
            state: SessionState::Idle,
            cards: Vec::new(),
            current_index: 0,
            cards_reviewed: 0,
            audio_buffer: Vec::new(),
        }
    }

    fn present_current(&self) -> (m: ServerMessage)
        requires
            self.current_index < self.cards@.len(),
        ensures
            spec_presents(m, self.cards@, self.current_index as int),
    {
        let total = self.cards.len();
        let card = &self.cards[self.current_index];
        ServerMessage::CardPresented {
            card: CardPresentation {
                id: card.id.clone(),
                front: card.front.clone(),
                index: self.current_index + 1,
                total,
            },
        }
    }

    /// Load the due cards fetched for this session. An empty fetch completes
    /// immediately; otherwise the first card is to be presented.
    pub fn start_session(&mut self, fetched: Vec<Card>) -> (m: ServerMessage)
        requires
            forall|i: int| 0 <= i < fetched@.len() ==> (#[trigger] fetched@[i]).wf(),
        ensures
            final(self).cards@ == fetched@,
            final(self).current_index == 0,
            final(self).cards_reviewed == 0,
            final(self).audio_buffer@ == old(self).audio_buffer@,
            fetched@.len() == 0 ==> final(self).state == SessionState::Idle && (m
                matches ServerMessage::SessionComplete { cards_reviewed } && cards_reviewed == 0),
            fetched@.len() > 0 ==> final(self).state == SessionState::PresentingCard && (m
                matches ServerMessage::SessionStarted { card_count } && card_count
                == fetched@.len()),
            final(self).wf(),
    {
        let count = fetched.len();
        self.cards = fetched;
        self.current_index = 0;
        self.cards_reviewed = 0;
        if count == 0 {
            self.state = SessionState::Idle;
            ServerMessage::SessionComplete { cards_reviewed: 0 }
        } else {
            self.state = SessionState::PresentingCard;
            ServerMessage::SessionStarted { card_count: count }
        }
    }

    /// Unconditionally reset to idle and clear the queue.
    pub fn end_session(&mut self) -> (m: ServerMessage)
        requires
            old(self).wf(),
        ensures
            final(self).state == SessionState::Idle,
            final(self).cards@.len() == 0,
            final(self).current_index == old(self).current_index,
            final(self).cards_reviewed == old(self).cards_reviewed,
            final(self).audio_buffer@ == old(self).audio_buffer@,
            m matches ServerMessage::SessionEnded,
            final(self).wf(),
    {
        self.state = SessionState::Idle;
        self.cards.clear();
        ServerMessage::SessionEnded
    }

    /// Advance to the current card, or complete the session when the queue
    /// is exhausted; invalid while idle.
    pub fn next_card(&mut self) -> (m: ServerMessage)
        requires
            old(self).wf(),
        ensures
            final(self).cards@ == old(self).cards@,
            final(self).current_index == old(self).current_index,
            final(self).cards_reviewed == old(self).cards_reviewed,
            final(self).audio_buffer@ == old(self).audio_buffer@,
            old(self).state == SessionState::Idle ==> *final(self) == *old(self) && spec_is_error(
                m,
                "No active session"@,
            ),
            old(self).state != SessionState::Idle && old(self).current_index >= old(self).cards@.len() ==> final(self).state == SessionState::Idle && (m
                matches ServerMessage::SessionComplete { cards_reviewed } && cards_reviewed == old(self).cards_reviewed),
            old(self).state != SessionState::Idle && old(self).current_index < old(self).cards@.len() ==> final(self).state == SessionState::PresentingCard && spec_presents(
                m,
                old(self).cards@,
                old(self).current_index as int,
            ),
            final(self).wf(),
    {
        proof {
            reveal_strlit("No active session");
        }
        if matches!(self.state, SessionState::Idle) {
            ServerMessage::Error { message: "No active session".to_owned() }
        } else if self.current_index >= self.cards.len() {
            self.state = SessionState::Idle;
            ServerMessage::SessionComplete { cards_reviewed: self.cards_reviewed }
        } else {
            self.state = SessionState::PresentingCard;
            self.present_current()
        }
    }

    /// Accept a typed answer: valid only while presenting a card or waiting
    /// for an answer. On success the session moves to `Evaluating`, the
    /// state-change notice is to be sent, and the returned request is to be
    /// handed to the provider manager.
    pub fn text_answer(&mut self, answer: String) -> (r: (ServerMessage, Option<
        EvaluationRequest,
    >))
        requires
            old(self).wf(),
        ensures
            final(self).cards@ == old(self).cards@,
            final(self).current_index == old(self).current_index,
            final(self).cards_reviewed == old(self).cards_reviewed,
            final(self).audio_buffer@ == old(self).audio_buffer@,
            ({
                let valid = (old(self).state == SessionState::PresentingCard || old(self).state
                    == SessionState::WaitingForAnswer);
                &&& (!valid ==> *final(self) == *old(self) && spec_is_error(
                    r.0,
                    "Not waiting for answer"@,
                ) && r.1 is None)
                &&& (valid && old(self).current_index >= old(self).cards@.len() ==> *final(self)
                    == *old(self) && spec_is_error(r.0, "No current card"@) && r.1 is None)
                &&& (valid && old(self).current_index < old(self).cards@.len() ==> {
                    let card = old(self).cards@[old(self).current_index as int];
                    &&& final(self).state == SessionState::Evaluating
                    &&& (r.0 matches ServerMessage::StateChanged { state } && state
                        == SessionState::Evaluating)
                    &&& (r.1 matches Some(req) && req.card_front@ == card.front@
                        && req.card_back@ == card.back@ && req.user_answer@ == answer@)
                })
            }),
            final(self).wf(),
    {
        proof {
            reveal_strlit("Not waiting for answer");
            reveal_strlit("No current card");
        }
        let valid = matches!(self.state, SessionState::PresentingCard)
            || matches!(self.state, SessionState::WaitingForAnswer);
        if !valid {
            (ServerMessage::Error { message: "Not waiting for answer".to_owned() }, None)
        } else if self.current_index >= self.cards.len() {
            (ServerMessage::Error { message: "No current card".to_owned() }, None)
        } else {
            self.state = SessionState::Evaluating;
            let card = &self.cards[self.current_index];
            let req = EvaluationRequest {
                card_front: card.front.clone(),
                card_back: card.back.clone(),
                user_answer: answer,
            };
            (ServerMessage::StateChanged { state: SessionState::Evaluating }, Some(req))
        }
    }

    /// Take the evaluation's outcome: the session always advances to
    /// `ShowingFeedback` — a failed evaluation never blocks rating — and the
    /// outcome is reported verbatim, as an `Evaluation` or an `Error`.
    pub fn finish_evaluation(&mut self, outcome: EvaluationOutcome) -> (m: ServerMessage)
        requires
            old(self).state == SessionState::Evaluating,
        ensures
            final(self).state == SessionState::ShowingFeedback,
            final(self).cards@ == old(self).cards@,
            final(self).current_index == old(self).current_index,
            final(self).cards_reviewed == old(self).cards_reviewed,
            final(self).audio_buffer@ == old(self).audio_buffer@,
            ({
                match outcome {
                    EvaluationOutcome::Success(e) => m
                        matches ServerMessage::Evaluation {
                            is_correct,
                            score,
                            feedback,
                            suggested_rating,
                        } && is_correct == e.is_correct && score == e.score && feedback@
                        == e.feedback@ && suggested_rating@ == spec_rating_name(e.suggested_rating),
                    EvaluationOutcome::Failure(e) => spec_is_error(
                        m,
                        "Evaluation failed: "@ + spec_error_message(e),
                    ),
                    EvaluationOutcome::NoProvider => spec_is_error(
                        m,
                        "No LLM provider available for evaluation"@,
                    ),
                }
            }),
    {
        proof {
            reveal_strlit("Evaluation failed: ");
            reveal_strlit("No LLM provider available for evaluation");
        }
        self.state = SessionState::ShowingFeedback;
        match outcome {
            EvaluationOutcome::Success(e) => ServerMessage::Evaluation {
                is_correct: e.is_correct,
                score: e.score,
                feedback: e.feedback,
                suggested_rating: e.suggested_rating.as_str().to_owned(),
            },
            EvaluationOutcome::Failure(e) => {
                let mut msg: String = "Evaluation failed: ".to_owned();
                msg.append(e.message().as_str());
                ServerMessage::Error { message: msg }
            },
            EvaluationOutcome::NoProvider => ServerMessage::Error {
                message: "No LLM provider available for evaluation".to_owned(),
            },
        }
    }

    /// Rate the current card: valid only while showing feedback — a rating
    /// sent in any other state is an error and changes nothing, the queue
    /// index included, and no scheduling happens. On success the scheduler
    /// runs on the card's memory state, the update to persist is returned,
    /// and the session advances to the next card or completes.
    pub fn rate_card(&mut self, rating: &str, now: i64) -> (r: (ServerMessage, Option<CardUpdate>))
        requires
            old(self).wf(),
            -MAX_TIMESTAMP <= now <= MAX_TIMESTAMP,
        ensures
            final(self).cards@ == old(self).cards@,
            final(self).audio_buffer@ == old(self).audio_buffer@,
            old(self).state != SessionState::ShowingFeedback ==> *final(self) == *old(self)
                && spec_is_error(r.0, "Not in feedback state"@) && r.1 is None,
            old(self).state == SessionState::ShowingFeedback && old(self).current_index >= old(self).cards@.len() ==> *final(self) == *old(self) && spec_is_error(r.0, "No current card"@)
                && r.1 is None,
            old(self).state == SessionState::ShowingFeedback && old(self).current_index < old(self).cards@.len() ==> ({
                let card = old(self).cards@[old(self).current_index as int];
                let g = spec_rating_index(spec_parse_review_rating(rating@));
                let out = schedule_spec(card_memory_spec(card), g, default_w(), 36_500, now as int);
                &&& final(self).current_index == old(self).current_index + 1
                &&& final(self).cards_reviewed == old(self).cards_reviewed + 1
                &&& (r.1 matches Some(u) && {
                    &&& u.card_id@ == card.id@
                    &&& u.interval == out.interval_days
                    &&& u.ease_factor == ease_factor_spec(out.state.difficulty as int)
                    &&& u.repetitions == out.state.reps
                    &&& u.stability == out.state.stability
                    &&& u.difficulty == out.state.difficulty
                    &&& u.lapses == out.state.lapses
                    &&& u.next_review == out.next_review
                    &&& u.last_review == now
                    &&& u.review.card_id@ == card.id@
                    &&& u.review.rating == g
                    &&& u.review.user_answer is None
                })
                &&& (old(self).current_index + 1 >= old(self).cards@.len() ==> final(self).state
                    == SessionState::Idle && (r.0
                    matches ServerMessage::SessionComplete { cards_reviewed } && cards_reviewed
                    == old(self).cards_reviewed + 1))
                &&& (old(self).current_index + 1 < old(self).cards@.len() ==> final(self).state
                    == SessionState::PresentingCard && spec_presents(
                    r.0,
                    old(self).cards@,
                    old(self).current_index + 1,
                ))
            }),
            final(self).wf(),
    {
        proof {
            reveal_strlit("Not in feedback state");
            reveal_strlit("No current card");
        }
        if !matches!(self.state, SessionState::ShowingFeedback) {
            return (ServerMessage::Error { message: "Not in feedback state".to_owned() }, None);
        }
        if self.current_index >= self.cards.len() {
            return (ServerMessage::Error { message: "No current card".to_owned() }, None);
        }
        let rating_enum = parse_review_rating(rating);
        let card = &self.cards[self.current_index];
        let fsrs_state = card.memory_state();
        let outcome = calculate_fsrs(&fsrs_state, rating_enum, None, now);
        let new_ease = ease_factor_from_difficulty(outcome.state.difficulty);
        let review = Review::new(card.id.clone(), rating_enum, None);
        let update = CardUpdate {
            card_id: card.id.clone(),
            interval: outcome.interval_days,
            ease_factor: new_ease,
            repetitions: outcome.state.reps,
            stability: outcome.state.stability,
            difficulty: outcome.state.difficulty,
            lapses: outcome.state.lapses,
            next_review: outcome.next_review,
            last_review: now,
            review,
        };
        self.current_index = self.current_index + 1;
        self.cards_reviewed = self.cards_reviewed + 1;
        if self.current_index >= self.cards.len() {
            self.state = SessionState::Idle;
            (
                ServerMessage::SessionComplete { cards_reviewed: self.cards_reviewed },
                Some(update),
            )
        } else {
            self.state = SessionState::PresentingCard;
            (self.present_current(), Some(update))
        }
    }

    /// Skip the current card without rating it.
    pub fn skip(&mut self) -> (m: ServerMessage)
        requires
            old(self).wf(),
        ensures
            final(self).cards@ == old(self).cards@,
            final(self).cards_reviewed == old(self).cards_reviewed,
            final(self).audio_buffer@ == old(self).audio_buffer@,
            old(self).current_index >= old(self).cards@.len() ==> *final(self) == *old(self)
                && spec_is_error(m, "No card to skip"@),
            old(self).current_index < old(self).cards@.len() ==> ({
                &&& final(self).current_index == old(self).current_index + 1
                &&& (old(self).current_index + 1 >= old(self).cards@.len() ==> final(self).state
                    == SessionState::Idle && (m
                    matches ServerMessage::SessionComplete { cards_reviewed } && cards_reviewed
                    == old(self).cards_reviewed))
                &&& (old(self).current_index + 1 < old(self).cards@.len() ==> final(self).state
                    == SessionState::PresentingCard && spec_presents(
                    m,
                    old(self).cards@,
                    old(self).current_index + 1,
                ))
            }),
            final(self).wf(),
    {
        proof {
            reveal_strlit("No card to skip");
        }
        if self.current_index < self.cards.len() {
            self.current_index = self.current_index + 1;
            if self.current_index >= self.cards.len() {
                self.state = SessionState::Idle;
                ServerMessage::SessionComplete { cards_reviewed: self.cards_reviewed }
            } else {
                self.state = SessionState::PresentingCard;
                self.present_current()
            }
        } else {
            ServerMessage::Error { message: "No card to skip".to_owned() }
        }
    }

    /// Present the current card again without advancing.
    pub fn repeat(&mut self) -> (m: ServerMessage)
        requires
            old(self).wf(),
        ensures
            final(self).cards@ == old(self).cards@,
            final(self).current_index == old(self).current_index,
            final(self).cards_reviewed == old(self).cards_reviewed,
            final(self).audio_buffer@ == old(self).audio_buffer@,
            old(self).current_index >= old(self).cards@.len() ==> *final(self) == *old(self)
                && spec_is_error(m, "No card to repeat"@),
            old(self).current_index < old(self).cards@.len() ==> final(self).state
                == SessionState::PresentingCard && spec_presents(
                m,
                old(self).cards@,
                old(self).current_index as int,
            ),
            final(self).wf(),
    {
        proof {
            reveal_strlit("No card to repeat");
        }
        if self.current_index < self.cards.len() {
            self.state = SessionState::PresentingCard;
            self.present_current()
        } else {
            ServerMessage::Error { message: "No card to repeat".to_owned() }
        }
    }

    /// Dispatch a client command: "skip" advances past the current card
    /// without rating or scheduling it, "repeat" presents the current card
    /// again, and anything else is an error naming the unknown action, with
    /// no mutation.
    pub fn command(&mut self, action: &str) -> (m: ServerMessage)
        requires
            old(self).wf(),
        ensures
            final(self).cards@ == old(self).cards@,
            final(self).cards_reviewed == old(self).cards_reviewed,
            final(self).audio_buffer@ == old(self).audio_buffer@,
            action@ == "skip"@ ==> ({
                &&& (old(self).current_index >= old(self).cards@.len() ==> *final(self) == *old(self) && spec_is_error(m, "No card to skip"@))
                &&& (old(self).current_index < old(self).cards@.len() ==> {
                    &&& final(self).current_index == old(self).current_index + 1
                    &&& (old(self).current_index + 1 >= old(self).cards@.len() ==> final(self).state == SessionState::Idle && (m
                        matches ServerMessage::SessionComplete { cards_reviewed }
                        && cards_reviewed == old(self).cards_reviewed))
                    &&& (old(self).current_index + 1 < old(self).cards@.len() ==> final(self).state == SessionState::PresentingCard && spec_presents(
                        m,
                        old(self).cards@,
                        old(self).current_index + 1,
                    ))
                })
            }),
            action@ == "repeat"@ ==> ({
                &&& final(self).current_index == old(self).current_index
                &&& (old(self).current_index >= old(self).cards@.len() ==> *final(self) == *old(self) && spec_is_error(m, "No card to repeat"@))
                &&& (old(self).current_index < old(self).cards@.len() ==> final(self).state
                    == SessionState::PresentingCard && spec_presents(
                    m,
                    old(self).cards@,
                    old(self).current_index as int,
                ))
            }),
            action@ != "skip"@ && action@ != "repeat"@ ==> *final(self) == *old(self)
                && spec_is_error(m, "Unknown command: "@ + action@),
            final(self).wf(),
    {
        proof {
            reveal_strlit("skip");
            reveal_strlit("repeat");
            reveal_strlit("Unknown command: ");
        }
        proof {
            assert("skip"@.len() == 4);
            assert("repeat"@.len() == 6);
            assert("skip"@ != "repeat"@);
        }
        if str_eq(action, "skip") {
            self.skip()
        } else if str_eq(action, "repeat") {
            self.repeat()
        } else {
            let mut msg: String = "Unknown command: ".to_owned();
            msg.append(action);
            ServerMessage::Error { message: msg }
        }
    }

    /// Append incoming binary audio to the per-connection buffer; audio
    /// chunks produce no outbound message.
    pub fn audio_chunk(&mut self, data: &Vec<u8>)
        ensures
            final(self).audio_buffer@ == old(self).audio_buffer@ + data@,
            final(self).state == old(self).state,
            final(self).cards@ == old(self).cards@,
            final(self).current_index == old(self).current_index,
            final(self).cards_reviewed == old(self).cards_reviewed,
    {
        let mut i: usize = 0;
        while i < data.len()
            invariant
                i <= data@.len(),
                self.audio_buffer@ == old(self).audio_buffer@ + data@.take(i as int),
                self.state == old(self).state,
                self.cards@ == old(self).cards@,
                self.current_index == old(self).current_index,
                self.cards_reviewed == old(self).cards_reviewed,
            decreases data@.len() - i,
        {
            self.audio_buffer.push(data[i]);
            proof {
                let ghost pre = old(self).audio_buffer@;
                assert(pre + data@.take(i + 1) =~= (pre + data@.take(i as int)).push(
                    data@[i as int],
                ));
            }
            i += 1;
        }
        proof {
            assert(data@.take(data@.len() as int) =~= data@);
        }
    }

    /// End of the audio stream: the buffer is cleared and the session waits
    /// for the transcribed answer (speech-to-text is an external hook).
    pub fn end_audio(&mut self) -> (m: ServerMessage)
        ensures
            final(self).audio_buffer@.len() == 0,
            final(self).state == SessionState::WaitingForAnswer,
            final(self).cards@ == old(self).cards@,
            final(self).current_index == old(self).current_index,
            final(self).cards_reviewed == old(self).cards_reviewed,
            m matches ServerMessage::StateChanged { state } && state
                == SessionState::WaitingForAnswer,
    {
        self.audio_buffer.clear();
        self.state = SessionState::WaitingForAnswer;
        ServerMessage::StateChanged { state: SessionState::WaitingForAnswer }
    }
}

} // verus!

