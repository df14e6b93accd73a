//! Content ingestion: staging generated cards for review and confirming the
//! approved ones into real cards.

use vstd::prelude::*;
use crate::card::Card;
use crate::external::new_uuid_string;
use crate::provider::GeneratedCard;

verus! {

/// A generated card awaiting user confirmation.
#[derive(Debug, Clone)]
pub struct StagedCard {
    pub temp_id: String,
    pub front: String,
    pub back: String,
    pub tags: Vec<String>,
    pub approved: bool,
}

/// A request to generate cards from pasted text.
#[derive(Debug)]
pub struct IngestTextRequest {
    pub content: String,
    pub title: Option<String>,
    pub max_cards: Option<usize>,
}

/// The outcome of an ingestion: the source created and the staged cards, or
/// an error message.
#[derive(Debug)]
pub struct IngestResponse {
    pub source_id: String,
    pub staged_cards: Vec<StagedCard>,
    pub error: Option<String>,
}

/// A request to generate cards from a fetched page.
#[derive(Debug)]
pub struct IngestUrlRequest {
    pub url: String,
    pub max_cards: Option<usize>,
}

/// A request to persist the approved staged cards.
#[derive(Debug)]
pub struct ConfirmCardsRequest {
    pub source_id: String,
    pub cards: Vec<StagedCard>,
}

/// The cards created from the approved staged cards.
#[derive(Debug)]
pub struct ConfirmCardsResponse {
    pub created_count: usize,
    pub cards: Vec<Card>,
}

/// A request to generate cards from a base64-encoded PDF.
#[derive(Debug)]
pub struct IngestPdfBase64Request {
    pub data: String,
    pub filename: Option<String>,
    pub max_cards: Option<usize>,
}

/// Stage generated cards for confirmation: each gets a fresh temporary
/// identity and starts out approved.
pub fn stage_cards(cards: Vec<GeneratedCard>) -> (r: Vec<StagedCard>)
    ensures
        r@.len() == cards@.len(),
        forall|i: int| 0 <= i < r@.len() ==> {
            &&& (#[trigger] r@[i]).front@ == cards@[i].front@
            &&& r@[i].back@ == cards@[i].back@
            &&& r@[i].tags@ == cards@[i].tags@
            &&& r@[i].approved == true
            &&& r@[i].temp_id@.len() == 36
        },
{
    let mut out: Vec<StagedCard> = Vec::new();
    let mut i: usize = 0;
    let n = cards.len();
    while i < n
        invariant
            i <= n,
            n == cards@.len(),
            out@.len() == i,
            forall|k: int| 0 <= k < i ==> {
                &&& (#[trigger] out@[k]).front@ == cards@[k].front@
                &&& out@[k].back@ == cards@[k].back@
                &&& out@[k].tags@ == cards@[k].tags@
                &&& out@[k].approved == true
                &&& out@[k].temp_id@.len() == 36
            },
        decreases n - i,
    {
        let c = &cards[i];
        out.push(StagedCard {
            temp_id: new_uuid_string(),
            front: c.front.clone(),
            back: c.back.clone(),
            tags: c.tags.clone(),
            approved: true,
        });
        i += 1;
    }
    out
}

/// The faces of the approved cards, in order.
pub open spec fn approved_faces(cs: Seq<StagedCard>) -> Seq<(Seq<char>, Seq<char>)>
    decreases cs.len(),
{
    if cs.len() == 0 {
        Seq::empty()
    } else if cs.last().approved {
        approved_faces(cs.drop_last()).push((cs.last().front@, cs.last().back@))
    } else {
        approved_faces(cs.drop_last())
    }
}

/// Build a fresh card for every approved staged card, in order, each linked
/// to the source.
pub fn confirm_cards(source_id: &String, cards: &Vec<StagedCard>) -> (r: Vec<Card>)
    ensures
        r@.len() == approved_faces(cards@).len(),
        forall|i: int| 0 <= i < r@.len() ==> {
            &&& (#[trigger] r@[i]).front@ == approved_faces(cards@)[i].0
            &&& r@[i].back@ == approved_faces(cards@)[i].1
            &&& (r@[i].source_id matches Some(s) && s@ == source_id@)
            &&& r@[i].repetitions == 0
            &&& r@[i].stability == 0
            &&& r@[i].lapses == 0
            &&& r@[i].last_review is None
            &&& r@[i].wf()
        },
{
    let mut out: Vec<Card> = Vec::new();
    let mut i: usize = 0;
    let n = cards.len();
    proof {
        assert(cards@.take(0) =~= Seq::<StagedCard>::empty());
    }
    while i < n
        invariant
            i <= n,
            n == cards@.len(),
            out@.len() == approved_faces(cards@.take(i as int)).len(),
            forall|k: int| 0 <= k < out@.len() ==> {
                &&& (#[trigger] out@[k]).front@ == approved_faces(cards@.take(i as int))[k].0
                &&& out@[k].back@ == approved_faces(cards@.take(i as int))[k].1
                &&& (out@[k].source_id matches Some(s) && s@ == source_id@)
                &&& out@[k].repetitions == 0
                &&& out@[k].stability == 0
                &&& out@[k].lapses == 0
                &&& out@[k].last_review is None
                &&& out@[k].wf()
            },
        decreases n - i,
    {
        proof {
            assert(cards@.take(i + 1).drop_last() =~= cards@.take(i as int));
            assert(cards@.take(i + 1).last() == cards@[i as int]);
        }
        let staged = &cards[i];
        if staged.approved {
            let card = Card::new(staged.front.clone(), staged.back.clone(), Some(source_id.clone()));
            proof {
                assert(crate::card::card_memory_spec(card).wf());
            }
            out.push(card);
        }
        i += 1;
    }
    proof {
        assert(cards@.take(n as int) =~= cards@);
    }
    out
}

} // verus!
