//! The plan by which an operation is tried on the providers of a pool: one
//! provider after the other, each at most once, until one answers or the
//! attempts are used up.
//!
//! The plan itself performs nothing. It is told how each attempt ended and
//! says what to do next, so that the same decisions govern a caller that
//! waits for a provider and one that sets a clock against it.

use crate::pool::{EthereumNetworkAdapter, EthereumNetworkAdapters};
use std::sync::Arc;
use vstd::prelude::*;

verus! {

/// How one attempt on one provider ended.
pub enum AttemptOutcome<T, E> {
    /// The provider answered in time.
    Completed(T),
    /// The provider did not answer within the time allowed.
    TimedOut,
    /// The provider answered with an error.
    Failed(E),
}

/// Why an operation was given up.
#[derive(Debug, PartialEq, Eq)]
pub enum CallError<E> {
    /// Every attempt timed out. Holds the label of the operation.
    AggregateTimeout(String),
    /// The error of the last attempt that a provider answered with an error,
    /// handed on as it came.
    Remote(E),
}

/// The state of an operation between two attempts.
pub struct Retry<E> {
    /// What the operation is called in diagnostics.
    pub label: String,
    /// How many attempts may be made in all.
    pub budget: usize,
    /// How many attempts have ended without an answer. The attempt that is
    /// due goes to the provider at this place of the pool.
    pub attempts: usize,
    /// The error of the latest attempt that ended in an error.
    pub last_failure: Option<E>,
}

/// What to do next.
pub enum RetryStep<T, E> {
    /// Try the provider at the place `attempts` of the state, and report how
    /// that ended.
    Attempt(Retry<E>),
    /// Stop: the operation has this result.
    Finished(Result<T, CallError<E>>),
}

/// The smaller of the number of providers and the limit on attempts.
pub open spec fn budget_for(candidates: usize, limit: usize) -> usize {
    if candidates <= limit {
        candidates
    } else {
        limit
    }
}

/// The first step of an operation over `candidates` providers with at most
/// `limit` attempts: an attempt on the first provider, or, where no attempt
/// is allowed, the same end as when every attempt timed out.
pub open spec fn begin<T, E>(label: String, candidates: usize, limit: usize) -> RetryStep<T, E> {
    if budget_for(candidates, limit) == 0 {
        RetryStep::Finished(Err(CallError::AggregateTimeout(label)))
    } else {
        RetryStep::Attempt(
            Retry { label, budget: budget_for(candidates, limit), attempts: 0, last_failure: None },
        )
    }
}

/// Where an operation stands after its attempts ended as `outcomes` say, the
/// first attempt first. Outcomes behind the end of the operation count for
/// nothing.
pub open spec fn follow<T, E>(
    start: RetryStep<T, E>,
    outcomes: Seq<AttemptOutcome<T, E>>,
) -> RetryStep<T, E>
    decreases outcomes.len(),
{
    if outcomes.len() == 0 {
        start
    } else {
        match follow(start, outcomes.drop_last()) {
            RetryStep::Attempt(state) => state.after(outcomes.last()),
            RetryStep::Finished(result) => RetryStep::Finished(result),
        }
    }
}

/// None of the attempts was answered in time.
pub open spec fn unanswered<T, E>(outcomes: Seq<AttemptOutcome<T, E>>) -> bool {
    forall|k: int| 0 <= k < outcomes.len() ==> !(#[trigger] outcomes[k] is Completed)
}

/// The error of the latest attempt among `outcomes` that ended in an error.
pub open spec fn latest_failure<T, E>(outcomes: Seq<AttemptOutcome<T, E>>) -> Option<E>
    decreases outcomes.len(),
{
    if outcomes.len() == 0 {
        None
    } else {
        match outcomes.last() {
            AttemptOutcome::Failed(error) => Some(error),
            _ => latest_failure(outcomes.drop_last()),
        }
    }
}

/// The end of an operation whose attempts are used up.
pub open spec fn exhausted<E>(label: String, failure: Option<E>) -> CallError<E> {
    match failure {
        Some(error) => CallError::Remote(error),
        None => CallError::AggregateTimeout(label),
    }
}

impl<E> Retry<E> {
    /// The step that follows when the attempt that was due ended in
    /// `outcome`.
    pub open spec fn after<T>(self, outcome: AttemptOutcome<T, E>) -> RetryStep<T, E> {
        match outcome {
            AttemptOutcome::Completed(value) => RetryStep::Finished(Ok(value)),
            AttemptOutcome::TimedOut => if self.attempts + 1 < self.budget {
                RetryStep::Attempt(
                    Retry {
                        label: self.label,
                        budget: self.budget,
                        attempts: (self.attempts + 1) as usize,
                        last_failure: self.last_failure,
                    },
                )
            } else {
                RetryStep::Finished(Err(exhausted(self.label, self.last_failure)))
            },
            AttemptOutcome::Failed(error) => if self.attempts + 1 < self.budget {
                RetryStep::Attempt(
                    Retry {
                        label: self.label,
                        budget: self.budget,
                        attempts: (self.attempts + 1) as usize,
                        last_failure: Some(error),
                    },
                )
            } else {
                RetryStep::Finished(Err(CallError::Remote(error)))
            },
        }
    }

    /// Starts an operation called `label` over a pool of `candidates`
    /// providers, with at most `limit` attempts.
    pub fn start<T>(label: String, candidates: usize, limit: usize) -> (step: RetryStep<T, E>)
        ensures
            step == begin::<T, E>(label, candidates, limit),
    {
        let budget = if candidates <= limit {
            candidates
        } else {
            limit
        };
        if budget == 0 {
            RetryStep::Finished(Err(CallError::AggregateTimeout(label)))
        } else {
            RetryStep::Attempt(Retry { label, budget, attempts: 0, last_failure: None })
        }
    }

    /// Takes note of how the attempt that was due ended, and says what to do
    /// next. An answer ends the operation at once. Anything else moves on to
    /// the next provider while attempts are left. When none is left, an
    /// error that a provider answered with is handed on, the latest one
    /// where there were several, and only where every attempt timed out the
    /// operation ends in `AggregateTimeout`.
    pub fn record<T>(self, outcome: AttemptOutcome<T, E>) -> (step: RetryStep<T, E>)
        ensures
            step == self.after(outcome),
    {
        let more = self.budget > 0 && self.attempts < self.budget - 1;
        match outcome {
            AttemptOutcome::Completed(value) => RetryStep::Finished(Ok(value)),
            AttemptOutcome::TimedOut => {
                if more {
                    RetryStep::Attempt(
                        Retry {
                            label: self.label,
                            budget: self.budget,
                            attempts: self.attempts + 1,
                            last_failure: self.last_failure,
                        },
                    )
                } else {
                    match self.last_failure {
                        Some(error) => RetryStep::Finished(Err(CallError::Remote(error))),
                        None => RetryStep::Finished(Err(CallError::AggregateTimeout(self.label))),
                    }
                }
            },
            AttemptOutcome::Failed(error) => {
                if more {
                    RetryStep::Attempt(
                        Retry {
                            label: self.label,
                            budget: self.budget,
                            attempts: self.attempts + 1,
                            last_failure: Some(error),
                        },
                    )
                } else {
                    RetryStep::Finished(Err(CallError::Remote(error)))
                }
            },
        }
    }
}

/// As long as no attempt is answered, the attempts go through the pool from
/// its first provider on, to each provider once: after `n` attempts the one
/// that is due goes to the provider at place `n`. When the budget is used
/// up the operation ends with the latest error that a provider answered
/// with, or in `AggregateTimeout` where there was none.
pub proof fn unanswered_attempts<T, E>(
    label: String,
    candidates: usize,
    limit: usize,
    outcomes: Seq<AttemptOutcome<T, E>>,
)
    requires
        unanswered(outcomes),
        outcomes.len() <= budget_for(candidates, limit),
    ensures
        outcomes.len() < budget_for(candidates, limit) ==> follow(
            begin(label, candidates, limit),
            outcomes,
        ) == RetryStep::<T, E>::Attempt(
            Retry {
                label,
                budget: budget_for(candidates, limit),
                attempts: outcomes.len() as usize,
                last_failure: latest_failure(outcomes),
            },
        ),
        outcomes.len() == budget_for(candidates, limit) ==> follow(
            begin(label, candidates, limit),
            outcomes,
        ) == RetryStep::<T, E>::Finished(Err(exhausted(label, latest_failure(outcomes)))),
    decreases outcomes.len(),
{
    if outcomes.len() > 0 {
        let earlier = outcomes.drop_last();
        assert(unanswered(earlier)) by {
            assert forall|k: int| 0 <= k < earlier.len() implies !(
            #[trigger] earlier[k] is Completed) by {
                assert(earlier[k] == outcomes[k]);
            }
        }
        unanswered_attempts(label, candidates, limit, earlier);
        assert(!(outcomes[outcomes.len() - 1] is Completed));
    }
}

/// The first answer ends the operation: where the attempt at place `n` is
/// the first that is answered, and `n` attempts are within the budget, the
/// operation ends with that answer, whatever outcomes come behind it.
pub proof fn first_answer_wins<T, E>(
    label: String,
    candidates: usize,
    limit: usize,
    outcomes: Seq<AttemptOutcome<T, E>>,
    n: int,
    value: T,
)
    requires
        0 <= n < outcomes.len(),
        n < budget_for(candidates, limit),
        unanswered(outcomes.take(n)),
        outcomes[n] == AttemptOutcome::<T, E>::Completed(value),
    ensures
        follow(begin(label, candidates, limit), outcomes) == RetryStep::<T, E>::Finished(Ok(value)),
    decreases outcomes.len(),
{
    let earlier = outcomes.drop_last();
    if n == outcomes.len() - 1 {
        assert(earlier =~= outcomes.take(n));
        unanswered_attempts(label, candidates, limit, earlier);
    } else {
        assert(earlier.take(n) =~= outcomes.take(n));
        first_answer_wins(label, candidates, limit, earlier, n, value);
    }
}

/// Where every attempt that the budget allows times out, the operation ends
/// in `AggregateTimeout` with its label.
pub proof fn all_timeouts_aggregate<T, E>(
    label: String,
    candidates: usize,
    limit: usize,
    outcomes: Seq<AttemptOutcome<T, E>>,
)
    requires
        outcomes.len() == budget_for(candidates, limit),
        forall|k: int| 0 <= k < outcomes.len() ==> #[trigger] outcomes[k] is TimedOut,
    ensures
        follow(begin(label, candidates, limit), outcomes) == RetryStep::<T, E>::Finished(
            Err(CallError::AggregateTimeout(label)),
        ),
{
    no_failure_among_timeouts(outcomes);
    unanswered_attempts(label, candidates, limit, outcomes);
}

/// Attempts that all timed out hold no answer and no error.
proof fn no_failure_among_timeouts<T, E>(outcomes: Seq<AttemptOutcome<T, E>>)
    requires
        forall|k: int| 0 <= k < outcomes.len() ==> #[trigger] outcomes[k] is TimedOut,
    ensures
        latest_failure(outcomes) is None,
        unanswered(outcomes),
    decreases outcomes.len(),
{
    if outcomes.len() > 0 {
        let earlier = outcomes.drop_last();
        assert forall|k: int| 0 <= k < earlier.len() implies #[trigger] earlier[k] is TimedOut by {
            assert(earlier[k] == outcomes[k]);
        }
        no_failure_among_timeouts(earlier);
        assert(outcomes[outcomes.len() - 1] is TimedOut);
    }
}

/// An error that a provider answered with is not lost among timeouts: where
/// the budget is used up without an answer and the attempt at place `n` is
/// the latest that ended in an error, the operation ends with that error.
pub proof fn remote_error_surfaces<T, E>(
    label: String,
    candidates: usize,
    limit: usize,
    outcomes: Seq<AttemptOutcome<T, E>>,
    n: int,
    error: E,
)
    requires
        outcomes.len() == budget_for(candidates, limit),
        unanswered(outcomes),
        0 <= n < outcomes.len(),
        outcomes[n] == AttemptOutcome::<T, E>::Failed(error),
        forall|k: int| n < k < outcomes.len() ==> #[trigger] outcomes[k] is TimedOut,
    ensures
        follow(begin(label, candidates, limit), outcomes) == RetryStep::<T, E>::Finished(
            Err(CallError::Remote(error)),
        ),
{
    latest_failure_at(outcomes, n, error);
    unanswered_attempts(label, candidates, limit, outcomes);
}

/// Where only timeouts follow an attempt that ended in an error, that error
/// is the latest.
proof fn latest_failure_at<T, E>(outcomes: Seq<AttemptOutcome<T, E>>, n: int, error: E)
    requires
        0 <= n < outcomes.len(),
        outcomes[n] == AttemptOutcome::<T, E>::Failed(error),
        forall|k: int| n < k < outcomes.len() ==> #[trigger] outcomes[k] is TimedOut,
    ensures
        latest_failure(outcomes) == Some(error),
    decreases outcomes.len(),
{
    if n < outcomes.len() - 1 {
        let earlier = outcomes.drop_last();
        assert(outcomes[outcomes.len() - 1] is TimedOut);
        assert forall|k: int| n < k < earlier.len() implies #[trigger] earlier[k] is TimedOut by {
            assert(earlier[k] == outcomes[k]);
        }
        latest_failure_at(earlier, n, error);
    }
}

/// An operation never takes more attempts than its budget, and so never
/// more than the pool has providers: once as many attempts have ended as the
/// budget allows, the operation has ended.
pub proof fn attempts_bounded<T, E>(
    label: String,
    candidates: usize,
    limit: usize,
    outcomes: Seq<AttemptOutcome<T, E>>,
)
    requires
        outcomes.len() >= budget_for(candidates, limit),
    ensures
        follow(begin::<T, E>(label, candidates, limit), outcomes) is Finished,
        budget_for(candidates, limit) <= candidates,
        budget_for(candidates, limit) <= limit,
    decreases outcomes.len(),
{
    if outcomes.len() > budget_for(candidates, limit) {
        attempts_bounded(label, candidates, limit, outcomes.drop_last());
    } else if exists|k: int| 0 <= k < outcomes.len() && #[trigger] outcomes[k] is Completed {
        let k = choose|k: int| 0 <= k < outcomes.len() && #[trigger] outcomes[k] is Completed;
        let first = first_answered(outcomes, k);
        match outcomes[first] {
            AttemptOutcome::Completed(value) => {
                first_answer_wins(label, candidates, limit, outcomes, first, value);
            },
            _ => {},
        }
    } else {
        unanswered_attempts(label, candidates, limit, outcomes);
    }
}

/// The place of the first answered attempt, given one answered attempt.
proof fn first_answered<T, E>(outcomes: Seq<AttemptOutcome<T, E>>, k: int) -> (first: int)
    requires
        0 <= k < outcomes.len(),
        outcomes[k] is Completed,
    ensures
        0 <= first <= k,
        outcomes[first] is Completed,
        unanswered(outcomes.take(first)),
    decreases k,
{
    if exists|j: int| 0 <= j < k && #[trigger] outcomes[j] is Completed {
        let j = choose|j: int| 0 <= j < k && #[trigger] outcomes[j] is Completed;
        first_answered(outcomes, j)
    } else {
        assert forall|j: int| 0 <= j < outcomes.take(k).len() implies !(#[trigger] outcomes.take(
            k,
        )[j] is Completed) by {
            assert(outcomes.take(k)[j] == outcomes[j]);
        }
        k
    }
}

/// The attempts of an operation on a pool ended as `outcomes` say: the
/// attempt at each place is one that `attempt` can make on the provider at
/// that place.
pub open spec fn attempted<A: ?Sized, T, E, F: Fn(&Arc<A>) -> AttemptOutcome<T, E>>(
    entries: Seq<EthereumNetworkAdapter<A>>,
    attempt: F,
    outcomes: Seq<AttemptOutcome<T, E>>,
) -> bool {
    &&& outcomes.len() <= entries.len()
    &&& forall|k: int|
        0 <= k < outcomes.len() ==> call_ensures(attempt, (&entries[k].adapter,), #[trigger] outcomes[k])
}

/// An operation over `entries` with at most `limit` attempts was performed
/// by the attempts that ended as `outcomes` say, and came to `result`: the
/// attempts went to the providers in their order, each of them was due when
/// it was made, and the plan comes to `result` on their outcomes.
pub open spec fn performed<A: ?Sized, T, E, F: Fn(&Arc<A>) -> AttemptOutcome<T, E>>(
    entries: Seq<EthereumNetworkAdapter<A>>,
    label: String,
    limit: usize,
    attempt: F,
    outcomes: Seq<AttemptOutcome<T, E>>,
    result: Result<T, CallError<E>>,
) -> bool {
    let first = begin::<T, E>(label, entries.len() as usize, limit);
    &&& attempted(entries, attempt, outcomes)
    &&& follow(first, outcomes) == RetryStep::<T, E>::Finished(result)
    &&& outcomes.len() > 0 ==> follow(first, outcomes.drop_last()) is Attempt
}

impl<A: ?Sized> EthereumNetworkAdapters<A> {
    /// Performs an operation on the pool: tries `attempt` on one provider
    /// after the other, from the first on, and stops at the first answer.
    /// At most `limit` attempts are made and no provider is tried twice.
    /// The result is the one that the plan comes to on the outcomes of the
    /// attempts that were made, and every attempt that was made was due
    /// when it was made.
    pub fn run<T, E, F: Fn(&Arc<A>) -> AttemptOutcome<T, E>>(
        &self,
        label: String,
        limit: usize,
        attempt: F,
    ) -> (result: Result<T, CallError<E>>)
        requires
            forall|i: int| 0 <= i < self@.len() ==> call_requires(attempt, (&self@[i].adapter,)),
        ensures
            exists|outcomes: Seq<AttemptOutcome<T, E>>|
                performed(self@, label, limit, attempt, outcomes, result),
    {
        let ghost first = begin::<T, E>(label, self.adapters.len(), limit);
        let ghost mut outcomes: Seq<AttemptOutcome<T, E>> = Seq::empty();
        let mut step: RetryStep<T, E> = Retry::start(label, self.adapters.len(), limit);
        loop
            invariant
                first == begin::<T, E>(label, self.adapters.len(), limit),
                follow(first, outcomes) == step,
                outcomes.len() > 0 ==> follow(first, outcomes.drop_last()) is Attempt,
                attempted(self@, attempt, outcomes),
                forall|i: int| 0 <= i < self@.len() ==> call_requires(attempt, (&self@[i].adapter,)),
                step matches RetryStep::Attempt(state) ==> state.attempts == outcomes.len()
                    && state.attempts < state.budget <= self@.len(),
            decreases
                    match step {
                        RetryStep::Attempt(state) => state.budget - state.attempts,
                        RetryStep::Finished(_) => 0,
                    },
        {
            match step {
                RetryStep::Finished(result) => {
                    assert(performed(self@, label, limit, attempt, outcomes, result));
                    return result;
                },
                RetryStep::Attempt(state) => {
                    let outcome = attempt(&self.adapters[state.attempts].adapter);
                    proof {
                        let longer = outcomes.push(outcome);
                        assert(longer.drop_last() =~= outcomes);
                        assert forall|k: int| 0 <= k < longer.len() implies call_ensures(
                            attempt,
                            (&self@[k].adapter,),
                            #[trigger] longer[k],
                        ) by {
                            if k < outcomes.len() {
                                assert(longer[k] == outcomes[k]);
                            }
                        }
                        outcomes = longer;
                    }
                    step = state.record(outcome);
                },
            }
        }
    }
}

} // verus!
