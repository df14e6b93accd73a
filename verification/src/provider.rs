//! The provider abstraction: evaluation results, generation requests, error
//! classification, and the pure parsing helpers shared by all providers.

use vstd::prelude::*;
use crate::strutil::{str_chars, str_eq, string_from_chars};
use vstd::string::StringExecFns;

verus! {

/// The rating a provider suggests after evaluating an answer.
#[derive(Debug, Clone, Copy, PartialEq, Eq, Structural)]
pub enum SuggestedRating {
    Again,
    Hard,
    Good,
    Easy,
}

impl SuggestedRating {
    /// The lowercase wire name of the rating.
    pub fn as_str(&self) -> (r: &'static str)
        ensures
            r@ == spec_rating_name(*self),
    {
        proof {
            reveal_strlit("again");
            reveal_strlit("hard");
            reveal_strlit("good");
            reveal_strlit("easy");
        }
        match self {
            SuggestedRating::Again => "again",
            SuggestedRating::Hard => "hard",
            SuggestedRating::Good => "good",
            SuggestedRating::Easy => "easy",
        }
    }
}

/// The lowercase name of each suggested rating.
pub open spec fn spec_rating_name(r: SuggestedRating) -> Seq<char> {
    match r {
        SuggestedRating::Again => "again"@,
        SuggestedRating::Hard => "hard"@,
        SuggestedRating::Good => "good"@,
        SuggestedRating::Easy => "easy"@,
    }
}

/// Parse a wire rating name; anything unrecognised falls back to Good
/// (a documented fallback, not an error).
pub open spec fn spec_parse_rating(s: Seq<char>) -> SuggestedRating {
    if s == "again"@ {
        SuggestedRating::Again
    } else if s == "hard"@ {
        SuggestedRating::Hard
    } else if s == "easy"@ {
        SuggestedRating::Easy
    } else {
        SuggestedRating::Good
    }
}

pub fn parse_suggested_rating(s: &str) -> (r: SuggestedRating)
    ensures
        r == spec_parse_rating(s@),
{
    if str_eq(s, "again") {
        SuggestedRating::Again
    } else if str_eq(s, "hard") {
        SuggestedRating::Hard
    } else if str_eq(s, "easy") {
        SuggestedRating::Easy
    } else {
        SuggestedRating::Good
    }
}

/// A provider's judgment of a user's answer. The score is scaled: 0 means
/// completely wrong, 1000 a perfect answer.
#[derive(Debug, Clone)]
pub struct CardEvaluation {
    pub is_correct: bool,
    /// Score in thousandths, 0..=1000.
    pub score: u32,
    pub feedback: String,
    pub suggested_rating: SuggestedRating,
}

impl CardEvaluation {
    /// A structural copy of the evaluation (field for field).
    pub fn duplicate(&self) -> (r: CardEvaluation)
        ensures
            r == *self,
    {
        CardEvaluation {
            is_correct: self.is_correct,
            score: self.score,
            feedback: self.feedback.clone(),
            suggested_rating: self.suggested_rating,
        }
    }
}

/// A flashcard proposed by a provider.
#[derive(Debug, Clone)]
pub struct GeneratedCard {
    pub front: String,
    pub back: String,
    pub tags: Vec<String>,
}

/// A request to evaluate a user's answer against a card.
#[derive(Debug, Clone)]
pub struct EvaluationRequest {
    pub card_front: String,
    pub card_back: String,
    pub user_answer: String,
}

/// A request to generate cards from source content.
#[derive(Debug, Clone)]
pub struct GenerationRequest {
    pub content: String,
    pub max_cards: usize,
    pub style: GenerationStyle,
}

/// The flavour of cards to generate.
#[derive(Debug, Clone, Copy, PartialEq, Eq, Structural)]
pub enum GenerationStyle {
    QuestionAnswer,
    Cloze,
    Definition,
}

impl Default for GenerationStyle {
    fn default() -> (r: GenerationStyle)
        ensures
            r == GenerationStyle::QuestionAnswer,
    {
        GenerationStyle::QuestionAnswer
    }
}

/// Everything that can go wrong when talking to a model provider.
#[derive(Debug, Clone)]
pub enum LlmError {
    /// The request failed outright (transport error or non-success status).
    RequestFailed(String),
    /// The provider asked us to slow down.
    RateLimited { retry_after_secs: u64 },
    /// The credential was rejected.
    InvalidApiKey,
    /// The provider's response could not be parsed.
    ParseError(String),
    /// The provider (or all providers) cannot be used at all.
    Unavailable(String),
}

impl LlmError {
    /// A structural copy of the error (field for field).
    pub fn duplicate(&self) -> (r: LlmError)
        ensures
            r == *self,
    {
        match self {
            LlmError::RequestFailed(s) => LlmError::RequestFailed(s.clone()),
            LlmError::RateLimited { retry_after_secs } => LlmError::RateLimited {
                retry_after_secs: *retry_after_secs,
            },
            LlmError::InvalidApiKey => LlmError::InvalidApiKey,
            LlmError::ParseError(s) => LlmError::ParseError(s.clone()),
            LlmError::Unavailable(s) => LlmError::Unavailable(s.clone()),
        }
    }

    /// A human-readable description, used in client-facing error payloads.
    pub fn message(&self) -> (r: String)
        ensures
            r@ == spec_error_message(*self),
    {
        proof {
            reveal_strlit("API request failed: ");
            reveal_strlit("Rate limited, retry after ");
            reveal_strlit(" seconds");
            reveal_strlit("Invalid API key");
            reveal_strlit("Response parsing failed: ");
            reveal_strlit("Provider unavailable: ");
        }
        match self {
            LlmError::RequestFailed(s) => {
                let mut m: String = "API request failed: ".to_owned();
                m.append(s.as_str());
                m
            },
            LlmError::RateLimited { retry_after_secs } => {
                let mut m: String = "Rate limited, retry after ".to_owned();
                let secs = crate::strutil::u64_to_string(*retry_after_secs);
                m.append(secs.as_str());
                m.append(" seconds");
                m
            },
            LlmError::InvalidApiKey => "Invalid API key".to_owned(),
            LlmError::ParseError(s) => {
                let mut m: String = "Response parsing failed: ".to_owned();
                m.append(s.as_str());
                m
            },
            LlmError::Unavailable(s) => {
                let mut m: String = "Provider unavailable: ".to_owned();
                m.append(s.as_str());
                m
            },
        }
    }
}

/// The description `LlmError::message` produces.
pub open spec fn spec_error_message(e: LlmError) -> Seq<char> {
    match e {
        LlmError::RequestFailed(s) => "API request failed: "@ + s@,
        LlmError::RateLimited { retry_after_secs } => "Rate limited, retry after "@
            + crate::strutil::decimal_digits(retry_after_secs as int) + " seconds"@,
        LlmError::InvalidApiKey => "Invalid API key"@,
        LlmError::ParseError(s) => "Response parsing failed: "@ + s@,
        LlmError::Unavailable(s) => "Provider unavailable: "@ + s@,
    }
}

/// How an HTTP response status maps to a provider error: 429 is a rate
/// limit (with the supplied retry hint, or 60 seconds), 401 and 403 a
/// credential failure, any other non-2xx a request failure carrying the
/// response body; a 2xx status is no error.
pub open spec fn spec_classify_status(
    status: int,
    retry_after: Option<u64>,
    body: String,
) -> Option<LlmError> {
    if status == 429 {
        Some(
            LlmError::RateLimited {
                retry_after_secs: match retry_after {
                    Some(s) => s,
                    None => 60,
                },
            },
        )
    } else if status == 401 || status == 403 {
        Some(LlmError::InvalidApiKey)
    } else if 200 <= status < 300 {
        None
    } else {
        Some(LlmError::RequestFailed(body))
    }
}

/// Classify an HTTP status code per the provider error taxonomy.
pub fn classify_status(status: u16, retry_after: Option<u64>, body: String) -> (r: Option<
    LlmError,
>)
    ensures
        r == spec_classify_status(status as int, retry_after, body),
{
    if status == 429 {
        let secs: u64 = match retry_after {
            Some(s) => s,
            None => 60,
        };
        Some(LlmError::RateLimited { retry_after_secs: secs })
    } else if status == 401 || status == 403 {
        Some(LlmError::InvalidApiKey)
    } else if 200 <= status && status < 300 {
        None
    } else {
        Some(LlmError::RequestFailed(body))
    }
}

/// The position of the first occurrence of `c` in `s`, or -1.
pub open spec fn first_index_of(s: Seq<char>, c: char) -> int
    decreases s.len(),
{
    if s.len() == 0 {
        -1
    } else if s[0] == c {
        0
    } else {
        let r = first_index_of(s.drop_first(), c);
        if r < 0 {
            -1
        } else {
            r + 1
        }
    }
}

/// The position of the last occurrence of `c` in `s`, or -1.
pub open spec fn last_index_of(s: Seq<char>, c: char) -> int
    decreases s.len(),
{
    if s.len() == 0 {
        -1
    } else if s[s.len() - 1] == c {
        s.len() - 1
    } else {
        last_index_of(s.drop_last(), c)
    }
}

pub proof fn lemma_first_index_of(s: Seq<char>, c: char)
    ensures
        first_index_of(s, c) == -1 ==> forall|k: int| 0 <= k < s.len() ==> s[k] != c,
        first_index_of(s, c) != -1 ==> {
            let i = first_index_of(s, c);
            &&& 0 <= i < s.len()
            &&& s[i] == c
            &&& forall|k: int| 0 <= k < i ==> s[k] != c
        },
    decreases s.len(),
{
    if s.len() > 0 && s[0] != c {
        lemma_first_index_of(s.drop_first(), c);
        let r = first_index_of(s.drop_first(), c);
        if r < 0 {
            assert forall|k: int| 0 <= k < s.len() implies s[k] != c by {
                if k > 0 {
                    assert(s.drop_first()[k - 1] == s[k]);
                }
            }
        } else {
            assert(s.drop_first()[r] == s[r + 1]);
            assert forall|k: int| 0 <= k < r + 1 implies s[k] != c by {
                if k > 0 {
                    assert(s.drop_first()[k - 1] == s[k]);
                }
            }
        }
    }
}

pub proof fn lemma_last_index_of(s: Seq<char>, c: char)
    ensures
        last_index_of(s, c) == -1 ==> forall|k: int| 0 <= k < s.len() ==> s[k] != c,
        last_index_of(s, c) != -1 ==> {
            let i = last_index_of(s, c);
            &&& 0 <= i < s.len()
            &&& s[i] == c
            &&& forall|k: int| i < k < s.len() ==> s[k] != c
        },
    decreases s.len(),
{
    if s.len() > 0 && s[s.len() - 1] != c {
        lemma_last_index_of(s.drop_last(), c);
        let r = last_index_of(s.drop_last(), c);
        if r < 0 {
            assert forall|k: int| 0 <= k < s.len() implies s[k] != c by {
                if k < s.len() - 1 {
                    assert(s.drop_last()[k] == s[k]);
                }
            }
        } else {
            assert(s.drop_last()[r] == s[r]);
            assert forall|k: int| r < k < s.len() implies s[k] != c by {
                if k < s.len() - 1 {
                    assert(s.drop_last()[k] == s[k]);
                }
            }
        }
    }
}

pub fn find_first(v: &Vec<char>, c: char) -> (r: Option<usize>)
    ensures
        match r {
            Some(i) => i == first_index_of(v@, c),
            None => first_index_of(v@, c) == -1,
        },
{
    proof {
        lemma_first_index_of(v@, c);
    }
    let mut i: usize = 0;
    while i < v.len()
        invariant
            i <= v@.len(),
            forall|k: int| 0 <= k < i ==> v@[k] != c,
        decreases v@.len() - i,
    {
        if v[i] == c {
            proof {
                lemma_first_index_of(v@, c);
                let f = first_index_of(v@, c);
                assert(f != -1);
                assert(v@[f] == c);
                if f < i {
                    assert(false);
                }
                if f > i {
                    assert(v@[i as int] != c);
                    assert(false);
                }
            }
            return Some(i);
        }
        i += 1;
    }
    proof {
        lemma_first_index_of(v@, c);
        let f = first_index_of(v@, c);
        if f != -1 {
            assert(v@[f] == c);
            assert(false);
        }
    }
    None
}

pub fn find_last(v: &Vec<char>, c: char) -> (r: Option<usize>)
    ensures
        match r {
            Some(i) => i == last_index_of(v@, c),
            None => last_index_of(v@, c) == -1,
        },
{
    let mut i: usize = v.len();
    while i > 0
        invariant
            i <= v@.len(),
            forall|k: int| i <= k < v@.len() ==> v@[k] != c,
        decreases i,
    {
        i -= 1;
        if v[i] == c {
            proof {
                lemma_last_index_of(v@, c);
                let f = last_index_of(v@, c);
                if f == -1 {
                    assert(v@[i as int] == c);
                    assert(false);
                }
                if f < i {
                    assert(v@[i as int] != c);
                    assert(false);
                }
                if f > i {
                    assert(v@[f] == c);
                    assert(false);
                }
            }
            return Some(i);
        }
    }
    proof {
        lemma_last_index_of(v@, c);
        let f = last_index_of(v@, c);
        if f != -1 {
            assert(v@[f] == c);
            assert(false);
        }
    }
    None
}

/// The slice of `s` from the first '{' through the last '}', when both exist
/// in that order; otherwise `s` unchanged.
pub open spec fn spec_extract_json(s: Seq<char>) -> Seq<char> {
    let i = first_index_of(s, '{');
    let j = last_index_of(s, '}');
    if i >= 0 && j >= 0 && i <= j {
        s.subrange(i, j + 1)
    } else {
        s
    }
}

/// Recover the JSON body from a model reply: the text from the first '{'
/// through the last '}' (model replies sometimes wrap their JSON in prose or
/// code fences), or the whole text when no such span exists.
pub fn extract_json(text: &str) -> (r: String)
    ensures
        r@ == spec_extract_json(text@),
{
    let v = str_chars(text);
    let first = find_first(&v, '{');
    let last = find_last(&v, '}');
    match (first, last) {
        (Some(i), Some(j)) => {
            if i <= j {
                proof {
                    lemma_first_index_of(v@, '{');
                    lemma_last_index_of(v@, '}');
                }
                let n = v.len();
                assert(j < n);
                let mut out: Vec<char> = Vec::new();
                let mut k: usize = i;
                while k <= j
                    invariant
                        i <= k <= j + 1,
                        j < v@.len(),
                        v@.len() <= usize::MAX,
                        out@ =~= v@.subrange(i as int, k as int),
                    decreases j + 1 - k,
                {
                    out.push(v[k]);
                    k += 1;
                }
                proof {
                    assert(out@ =~= spec_extract_json(text@));
                }
                string_from_chars(&out)
            } else {
                text.to_owned()
            }
        },
        _ => text.to_owned(),
    }
}

} // verus!
