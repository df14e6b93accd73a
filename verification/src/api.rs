//! Request and response shapes of the HTTP routes. The routes themselves are
//! transport plumbing in the embedding application; the shapes live here so
//! the verified handlers' inputs and outputs are the library's types.

use vstd::prelude::*;
use crate::card::Card;
use crate::provider::CardEvaluation;

verus! {

/// Query for the next due cards.
#[derive(Debug)]
pub struct NextCardsQuery {
    pub limit: Option<i32>,
}

/// A request to evaluate an answer against a stored card.
#[derive(Debug)]
pub struct EvaluateRequest {
    pub card_id: String,
    pub user_answer: String,
}

/// The evaluation produced, or the reason there is none.
#[derive(Debug)]
pub struct EvaluateResponse {
    pub evaluation: Option<CardEvaluation>,
    pub error: Option<String>,
}

/// The card after a submitted review, with the evaluation if one was made.
#[derive(Debug)]
pub struct SubmitResponse {
    pub card: Card,
    pub evaluation: Option<CardEvaluation>,
}

/// A free-text generation request.
#[derive(Debug)]
pub struct GenerateRequest {
    pub prompt: String,
    pub max_tokens: usize,
}

/// Generated text, or the reason there is none.
#[derive(Debug)]
pub struct GenerateResponse {
    pub text: String,
    pub error: Option<String>,
}

/// The default token budget of a generation request.
pub fn default_max_tokens() -> (r: usize)
    ensures
        r == 256,
{
    256
}

} // verus!
