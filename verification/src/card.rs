//! Flashcards and the requests that create and update them.

use vstd::prelude::*;
use crate::external::{new_uuid_string, now_unix_seconds};
use crate::scheduler::{FSRSState, MAX_STABILITY, MAX_DIFFICULTY, MIN_STABILITY, MAX_TIMESTAMP};
use crate::fixed::SC;

verus! {

/// A flashcard with its scheduling state. Scaled fields (ease factor,
/// stability, difficulty) are fixed-point integers scaled by `fixed::SC`.
#[derive(Debug, Clone)]
pub struct Card {
    pub id: String,
    pub front: String,
    pub back: String,
    pub source_id: Option<String>,
    /// Legacy SM-2 ease factor, scaled (kept for backward compatibility).
    pub ease_factor: u64,
    /// Interval in whole days.
    pub interval: u64,
    pub repetitions: u32,
    /// FSRS stability, scaled micro-days.
    pub stability: u64,
    /// FSRS difficulty, scaled.
    pub difficulty: u64,
    pub lapses: u32,
    /// Next scheduled review (Unix seconds).
    pub next_review: i64,
    pub last_review: Option<i64>,
    pub created_at: i64,
    pub updated_at: i64,
}

/// The scheduler's view of a card.
pub open spec fn card_memory_spec(c: Card) -> FSRSState {
    FSRSState {
        stability: c.stability,
        difficulty: c.difficulty,
        reps: c.repetitions,
        lapses: c.lapses,
        last_review: c.last_review,
    }
}

impl Card {
    /// The scheduling fields are consistent with the memory model's ranges.
    pub open spec fn wf(&self) -> bool {
        &&& card_memory_spec(*self).wf()
        &&& self.repetitions < 1_000_000_000
        &&& -MAX_TIMESTAMP <= self.next_review <= MAX_TIMESTAMP
    }

    /// A fresh card: new identity, neutral memory state, due immediately.
    pub fn new(front: String, back: String, source_id: Option<String>) -> (c: Card)
        ensures
            c.front == front,
            c.back == back,
            c.source_id == source_id,
            c.ease_factor == 2_500_000,
            c.interval == 0,
            c.repetitions == 0,
            c.stability == 0,
            c.difficulty == 5 * SC,
            c.lapses == 0,
            c.last_review is None,
            c.next_review == c.created_at,
            c.updated_at == c.created_at,
            c.id@.len() == 36,
            c.wf(),
    {
        let now = now_unix_seconds();
        Card {
            id: new_uuid_string(),
            front,
            back,
            source_id,
            ease_factor: 2_500_000,
            interval: 0,
            repetitions: 0,
            stability: 0,
            difficulty: 5_000_000,
            lapses: 0,
            next_review: now,
            last_review: None,
            created_at: now,
            updated_at: now,
        }
    }

    /// The card's memory state, as the scheduler consumes it.
    pub fn memory_state(&self) -> (s: FSRSState)
        ensures
            s == card_memory_spec(*self),
    {
        FSRSState {
            stability: self.stability,
            difficulty: self.difficulty,
            reps: self.repetitions,
            lapses: self.lapses,
            last_review: self.last_review,
        }
    }
}

/// A request to create a card.
#[derive(Debug)]
pub struct CreateCard {
    pub front: String,
    pub back: String,
    pub source_id: Option<String>,
}

/// A request to edit a card's faces.
#[derive(Debug)]
pub struct UpdateCard {
    pub front: Option<String>,
    pub back: Option<String>,
}

} // verus!
