//! The provider manager: an ordered list of providers tried in priority
//! order, skipping unavailable ones, returning the first success or the last
//! recorded failure.
//!
//! The outside calls themselves are asynchronous network work that the
//! embedding application performs; the manager here is the decision core: a
//! step machine that says which provider to call next, records failures, and
//! gives up with the most informative error. `failover_result_spec` states
//! the whole iteration as one function, and the step machine is proved to
//! follow it.

use vstd::prelude::*;
use crate::provider::{CardEvaluation, LlmError};

verus! {

/// What the manager knows about one provider: its name and whether it is
/// configured and ready (its credential is non-empty).
pub struct ProviderInfo {
    pub name: String,
    pub available: bool,
}

/// An ordered list of providers; priority is list order.
pub struct ProviderManager {
    pub providers: Vec<ProviderInfo>,
}

/// The first available provider at or after position `i`, if any.
pub open spec fn first_available_from(ps: Seq<ProviderInfo>, i: int) -> Option<int>
    decreases ps.len() - i,
    when 0 <= i <= ps.len()
{
    if i >= ps.len() {
        None
    } else if ps[i].available {
        Some(i)
    } else {
        first_available_from(ps, i + 1)
    }
}

pub proof fn lemma_first_available_from(ps: Seq<ProviderInfo>, i: int)
    requires
        0 <= i <= ps.len(),
    ensures
        match first_available_from(ps, i) {
            Some(j) => i <= j < ps.len() && ps[j].available && forall|k: int|
                i <= k < j ==> !ps[k].available,
            None => forall|k: int| i <= k < ps.len() ==> !ps[k].available,
        },
    decreases ps.len() - i,
{
    if i < ps.len() && !ps[i].available {
        lemma_first_available_from(ps, i + 1);
    }
}

/// The error the manager starts from before any provider was tried.
pub open spec fn spec_no_providers_error(e: LlmError) -> bool {
    &&& e matches LlmError::Unavailable(m)
    &&& (e matches LlmError::Unavailable(m) ==> m@ == "No providers configured"@)
}

/// The manager's overall outcome, given what each provider would answer:
/// walk the list from position `i`, skip unavailable providers, return the
/// first success, and otherwise the error of the last provider tried (or
/// `last` when none could be tried at all).
pub open spec fn failover_result_spec(
    ps: Seq<ProviderInfo>,
    outcomes: Seq<Result<CardEvaluation, LlmError>>,
    i: int,
    last: LlmError,
) -> Result<CardEvaluation, LlmError>
    decreases ps.len() - i,
    when 0 <= i <= ps.len() && outcomes.len() == ps.len()
{
    if i >= ps.len() {
        Err(last)
    } else if !ps[i].available {
        failover_result_spec(ps, outcomes, i + 1, last)
    } else {
        match outcomes[i] {
            Ok(v) => Ok(v),
            Err(e) => failover_result_spec(ps, outcomes, i + 1, e),
        }
    }
}

/// The failover result is decided at the first available provider.
pub proof fn lemma_failover_step(
    ps: Seq<ProviderInfo>,
    outcomes: Seq<Result<CardEvaluation, LlmError>>,
    i: int,
    last: LlmError,
)
    requires
        0 <= i <= ps.len(),
        outcomes.len() == ps.len(),
    ensures
        failover_result_spec(ps, outcomes, i, last) == match first_available_from(ps, i) {
            None => Err::<CardEvaluation, LlmError>(last),
            Some(j) => match outcomes[j] {
                Ok(v) => Ok::<CardEvaluation, LlmError>(v),
                Err(e) => failover_result_spec(ps, outcomes, j + 1, e),
            },
        },
    decreases ps.len() - i,
{
    if i < ps.len() && !ps[i].available {
        lemma_failover_step(ps, outcomes, i + 1, last);
    }
}

/// The names of the available providers, in order.
pub open spec fn available_names(ps: Seq<ProviderInfo>) -> Seq<String>
    decreases ps.len(),
{
    if ps.len() == 0 {
        Seq::empty()
    } else if ps.last().available {
        available_names(ps.drop_last()).push(ps.last().name)
    } else {
        available_names(ps.drop_last())
    }
}

/// The live failover iteration: the next position to try and the last
/// recorded failure.
pub struct Failover {
    pub next_index: usize,
    pub last_error: LlmError,
}

/// What the runner should do next: call the provider at `index`, or give up
/// with the recorded error.
pub enum FailoverAction {
    Call { index: usize },
    Fail { error: LlmError },
}

impl Failover {
    /// Start an iteration: no provider tried yet; giving up now reports that
    /// no providers are configured.
    pub fn new() -> (r: Failover)
        ensures
            r.next_index == 0,
            spec_no_providers_error(r.last_error),
    {
        proof {
            reveal_strlit("No providers configured");
        }
        Failover {
            next_index: 0,
            last_error: LlmError::Unavailable("No providers configured".to_owned()),
        }
    }

    /// Record one provider's failure and move past it.
    pub fn on_failure(&mut self, index: usize, error: LlmError)
        requires
            index < usize::MAX,
        ensures
            final(self).next_index == index + 1,
            final(self).last_error == error,
    {
        self.next_index = index + 1;
        self.last_error = error;
    }
}

impl ProviderManager {
    pub fn new() -> (r: ProviderManager)
        ensures
            r.providers@.len() == 0,
    {
        ProviderManager { providers: Vec::new() }
    }

    pub fn add_provider(&mut self, provider: ProviderInfo)
        ensures
            final(self).providers@ == old(self).providers@.push(provider),
    {
        self.providers.push(provider);
    }

    /// Whether any provider in the list is available.
    pub fn has_available_provider(&self) -> (r: bool)
        ensures
            r == (first_available_from(self.providers@, 0) is Some),
    {
        proof {
            lemma_first_available_from(self.providers@, 0);
        }
        let mut i: usize = 0;
        while i < self.providers.len()
            invariant
                i <= self.providers@.len(),
                forall|k: int| 0 <= k < i ==> !self.providers@[k].available,
            decreases self.providers@.len() - i,
        {
            if self.providers[i].available {
                proof {
                    lemma_first_available_from(self.providers@, 0);
                    match first_available_from(self.providers@, 0) {
                        Some(j) => {},
                        None => {
                            assert(!self.providers@[i as int].available);
                        },
                    }
                }
                return true;
            }
            i += 1;
        }
        proof {
            lemma_first_available_from(self.providers@, 0);
            match first_available_from(self.providers@, 0) {
                Some(j) => {
                    assert(!self.providers@[j].available);
                },
                None => {},
            }
        }
        false
    }

    /// The names of the available providers, in priority order.
    pub fn available_providers(&self) -> (r: Vec<String>)
        ensures
            r@ == available_names(self.providers@),
    {
        let mut out: Vec<String> = Vec::new();
        let mut i: usize = 0;
        proof {
            assert(self.providers@.take(0) =~= Seq::<ProviderInfo>::empty());
        }
        while i < self.providers.len()
            invariant
                i <= self.providers@.len(),
                out@ == available_names(self.providers@.take(i as int)),
            decreases self.providers@.len() - i,
        {
            proof {
                assert(self.providers@.take(i + 1).drop_last() =~= self.providers@.take(i as int));
                assert(self.providers@.take(i + 1).last() == self.providers@[i as int]);
            }
            if self.providers[i].available {
                let name = self.providers[i].name.clone();
                out.push(name);
            }
            i += 1;
        }
        proof {
            assert(self.providers@.take(self.providers@.len() as int) =~= self.providers@);
        }
        out
    }

    /// Decide the next step of a failover iteration: the first available
    /// provider not yet tried, or giving up with the last recorded error.
    pub fn next_action(&self, fo: &Failover) -> (r: FailoverAction)
        requires
            fo.next_index <= self.providers@.len(),
        ensures
            match first_available_from(self.providers@, fo.next_index as int) {
                Some(j) => r matches FailoverAction::Call { index } && index == j,
                None => r matches FailoverAction::Fail { error } && error == fo.last_error,
            },
    {
        let mut i: usize = fo.next_index;
        while i < self.providers.len()
            invariant
                fo.next_index <= i <= self.providers@.len(),
                first_available_from(self.providers@, fo.next_index as int)
                    == first_available_from(self.providers@, i as int),
            decreases self.providers@.len() - i,
        {
            if self.providers[i].available {
                return FailoverAction::Call { index: i };
            }
            i += 1;
        }
        FailoverAction::Fail { error: fo.last_error.duplicate() }
    }

    /// Run the whole failover decision against a table of outcomes, one per
    /// provider: this is the manager's contract as a single function, used
    /// by callers that already hold every provider's answer.
    pub fn resolve_with_outcomes(&self, outcomes: &Vec<Result<CardEvaluation, LlmError>>) -> (r:
        Result<CardEvaluation, LlmError>)
        requires
            outcomes@.len() == self.providers@.len(),
        ensures
            ({
                exists|e0: LlmError|
                    spec_no_providers_error(e0) && r == failover_result_spec(
                        self.providers@,
                        outcomes@,
                        0,
                        e0,
                    )
            }),
    {
        let mut fo = Failover::new();
        let ghost e0 = fo.last_error;
        let n = self.providers.len();
        loop
            invariant
                fo.next_index <= self.providers@.len(),
                n == self.providers@.len(),
                outcomes@.len() == self.providers@.len(),
                spec_no_providers_error(e0),
                failover_result_spec(self.providers@, outcomes@, 0, e0) == failover_result_spec(
                    self.providers@,
                    outcomes@,
                    fo.next_index as int,
                    fo.last_error,
                ),
            decreases self.providers@.len() - fo.next_index,
        {
            match self.next_action(&fo) {
                FailoverAction::Call { index } => {
                    proof {
                        lemma_first_available_from(self.providers@, fo.next_index as int);
                        lemma_failover_step(
                            self.providers@,
                            outcomes@,
                            fo.next_index as int,
                            fo.last_error,
                        );
                    }
                    match &outcomes[index] {
                        Ok(v) => {
                            return Ok(v.duplicate());
                        },
                        Err(e) => {
                            fo.on_failure(index, e.duplicate());
                        },
                    }
                },
                FailoverAction::Fail { error } => {
                    proof {
                        lemma_failover_step(
                            self.providers@,
                            outcomes@,
                            fo.next_index as int,
                            fo.last_error,
                        );
                    }
                    return Err(error);
                },
            }
        }
    }
}

/// Given providers [A, B] both available, where A fails (with a rate limit or
/// any other failure) and B succeeds, the manager's result is B's success:
/// A's error never becomes the outcome.
pub proof fn lemma_failover_returns_second_success(
    ps: Seq<ProviderInfo>,
    outcomes: Seq<Result<CardEvaluation, LlmError>>,
    e0: LlmError,
    ea: LlmError,
    v: CardEvaluation,
)
    requires
        ps.len() == 2,
        outcomes.len() == 2,
        ps[0].available,
        ps[1].available,
        outcomes[0] == Result::<CardEvaluation, LlmError>::Err(ea),
        outcomes[1] == Result::<CardEvaluation, LlmError>::Ok(v),
    ensures
        failover_result_spec(ps, outcomes, 0, e0) == Result::<CardEvaluation, LlmError>::Ok(v),
{
    assert(failover_result_spec(ps, outcomes, 1, ea)
        == Result::<CardEvaluation, LlmError>::Ok(v));
}

/// With no available provider at all, the manager reports the synthetic
/// "no providers configured" failure it started from.
pub proof fn lemma_failover_unavailable(
    ps: Seq<ProviderInfo>,
    outcomes: Seq<Result<CardEvaluation, LlmError>>,
    e0: LlmError,
)
    requires
        outcomes.len() == ps.len(),
        forall|k: int| 0 <= k < ps.len() ==> !ps[k].available,
        spec_no_providers_error(e0),
    ensures
        failover_result_spec(ps, outcomes, 0, e0) == Result::<CardEvaluation, LlmError>::Err(e0),
        failover_result_spec(ps, outcomes, 0, e0) matches Result::Err(e)
            && spec_no_providers_error(e),
{
    lemma_failover_unavailable_from(ps, outcomes, 0, e0);
}

proof fn lemma_failover_unavailable_from(
    ps: Seq<ProviderInfo>,
    outcomes: Seq<Result<CardEvaluation, LlmError>>,
    i: int,
    last: LlmError,
)
    requires
        0 <= i <= ps.len(),
        outcomes.len() == ps.len(),
        forall|k: int| 0 <= k < ps.len() ==> !ps[k].available,
    ensures
        failover_result_spec(ps, outcomes, i, last) == Result::<CardEvaluation, LlmError>::Err(
            last,
        ),
    decreases ps.len() - i,
{
    if i < ps.len() {
        lemma_failover_unavailable_from(ps, outcomes, i + 1, last);
    }
}

} // verus!
