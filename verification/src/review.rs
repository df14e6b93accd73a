//! Review ratings and review records.

use vstd::prelude::*;
use crate::external::{new_uuid_string, now_unix_seconds};

verus! {

/// How well a card was recalled, ordered by recall quality.
#[derive(Debug, Clone, Copy, PartialEq, Eq, Structural)]
pub enum ReviewRating {
    /// Complete blackout
    Again,
    /// Struggled but recalled
    Hard,
    /// Correct with effort
    Good,
    /// Effortless recall
    Easy,
}

/// Numeric encoding of a rating, used for weight lookups: Again..Easy map to 0..3.
pub open spec fn spec_rating_index(r: ReviewRating) -> int {
    match r {
        ReviewRating::Again => 0,
        ReviewRating::Hard => 1,
        ReviewRating::Good => 2,
        ReviewRating::Easy => 3,
    }
}

impl ReviewRating {
    pub fn index(&self) -> (i: u64)
        ensures
            i == spec_rating_index(*self),
    {
        match self {
            ReviewRating::Again => 0,
            ReviewRating::Hard => 1,
            ReviewRating::Good => 2,
            ReviewRating::Easy => 3,
        }
    }

    pub fn as_i32(&self) -> (i: i32)
        ensures
            i == spec_rating_index(*self),
    {
        match self {
            ReviewRating::Again => 0,
            ReviewRating::Hard => 1,
            ReviewRating::Good => 2,
            ReviewRating::Easy => 3,
        }
    }
}

impl From<i32> for ReviewRating {
    fn from(value: i32) -> (r: ReviewRating) {
        if value == 0 {
            ReviewRating::Again
        } else if value == 1 {
            ReviewRating::Hard
        } else if value == 2 {
            ReviewRating::Good
        } else if value == 3 {
            ReviewRating::Easy
        } else {
            ReviewRating::Good
        }
    }
}

impl vstd::std_specs::convert::FromSpecImpl<i32> for ReviewRating {
    open spec fn obeys_from_spec() -> bool {
        true
    }

    open spec fn from_spec(value: i32) -> ReviewRating {
        if value == 0 {
            ReviewRating::Again
        } else if value == 1 {
            ReviewRating::Hard
        } else if value == 2 {
            ReviewRating::Good
        } else if value == 3 {
            ReviewRating::Easy
        } else {
            ReviewRating::Good
        }
    }
}

/// A persisted record of one review of one card.
#[derive(Debug, Clone)]
pub struct Review {
    pub id: String,
    pub card_id: String,
    pub rating: i32,
    pub user_answer: Option<String>,
    pub llm_evaluation: Option<String>,
    pub reviewed_at: i64,
}

/// A client request to submit a review.
#[derive(Debug)]
pub struct SubmitReview {
    pub card_id: String,
    pub rating: ReviewRating,
    pub user_answer: Option<String>,
}

impl Review {
    /// Build a fresh review record, stamped with a new identifier and the
    /// current time.
    pub fn new(card_id: String, rating: ReviewRating, user_answer: Option<String>) -> (r: Review)
        ensures
            r.card_id == card_id,
            r.rating == spec_rating_index(rating),
            r.user_answer == user_answer,
            r.llm_evaluation is None,
            r.id@.len() == 36,
            -8_400_000_000_000 <= r.reviewed_at <= 8_400_000_000_000,
    {
        Review {
            id: new_uuid_string(),
            card_id,
            rating: rating.as_i32(),
            user_answer,
            llm_evaluation: None,
            reviewed_at: now_unix_seconds(),
        }
    }
}

} // verus!
