//! The lifecycle of what is known of the subgraph: nothing yet, a valid state,
//! or the last valid state beside the failure that followed it.

use vstd::prelude::*;
use std::rc::Rc;

verus! {

/// The error type of the crate anyhow, carried through and never looked into.
#[verifier::external_type_specification]
#[verifier::external_body]
pub struct ExAnyhowError(anyhow::Error);

/// What the tracker holds.
#[allow(inconsistent_fields)]
pub enum State<S> {
    /// Nothing was retrieved yet; holds the error of the last attempt, if one
    /// was made.
    Uninitialized { error: Option<anyhow::Error> },
    /// The state that the last attempt retrieved.
    Valid { state: Rc<S> },
    /// The last attempt failed; holds the last state that was retrieved.
    Failed { previous: Rc<S>, error: anyhow::Error },
}

impl<S> State<S> {
    /// The current state, or the last valid one after a failure.
    pub open spec fn data(self) -> Option<S> {
        match self {
            State::Valid { state } => Some(*state),
            State::Failed { previous, .. } => Some(*previous),
            State::Uninitialized { .. } => None,
        }
    }

    /// The error of the last attempt, where it failed.
    pub open spec fn error(self) -> Option<anyhow::Error> {
        match self {
            State::Uninitialized { error } => error,
            State::Failed { error, .. } => Some(error),
            State::Valid { .. } => None,
        }
    }

    /// What the tracker holds after an attempt that ended in `fetched`.
    pub open spec fn after(self, fetched: Result<S, anyhow::Error>) -> State<S> {
        match fetched {
            Ok(state) => State::Valid { state: Rc::new(state) },
            Err(error) => match self {
                State::Uninitialized { .. } => State::Uninitialized { error: Some(error) },
                State::Valid { state } => State::Failed { previous: state, error },
                State::Failed { previous, .. } => State::Failed { previous, error },
            },
        }
    }

    /// What the tracker holds after the attempts that ended in `outcomes`, in
    /// that order.
    pub open spec fn after_all(self, outcomes: Seq<Result<S, anyhow::Error>>) -> State<S>
        decreases outcomes.len(),
    {
        if outcomes.len() == 0 {
            self
        } else {
            self.after_all(outcomes.drop_last()).after(outcomes.last())
        }
    }

    /// The state that follows `self` when an attempt ends in `fetched`: a
    /// success is the new valid state, a failure keeps the last valid state,
    /// if there is one, beside the new error.
    pub fn next(self, fetched: Result<S, anyhow::Error>) -> (r: State<S>)
        ensures
            r == self.after(fetched),
    {
        match fetched {
            Ok(state) => State::Valid { state: Rc::new(state) },
            Err(error) => match self {
                State::Uninitialized { .. } => State::Uninitialized { error: Some(error) },
                State::Valid { state } => State::Failed { previous: state, error },
                State::Failed { previous, .. } => State::Failed { previous, error },
            },
        }
    }
}

/// `Rc::clone`: another handle on the same value.
#[verifier::external_body]
fn share<S>(handle: &Rc<S>) -> (shared: Rc<S>)
    ensures
        *shared == **handle,
{
    Rc::clone(handle)
}

/// Retrieves the latest state from a subgraph.
pub trait SubgraphApi {
    type State;

    fn get_subgraph_state(&self) -> anyhow::Result<Self::State>;
}

/// Coordinates the retrieval of subgraph data and the transitions of its own
/// [`State`].
#[verifier::reject_recursive_types(S)]
pub struct SubgraphState<S, A: SubgraphApi<State = S>> {
    pub inner: State<S>,
    pub subgraph_api: A,
}

impl<S, A> SubgraphState<S, A> where A: SubgraphApi<State = S> {
    /// A tracker that has not asked the subgraph yet.
    pub fn new(api: A) -> (tracker: Self)
        ensures
            tracker.inner == (State::<S>::Uninitialized { error: None }),
            tracker.subgraph_api == api,
    {
        let initial = State::Uninitialized { error: None };
        Self { inner: initial, subgraph_api: api }
    }

    /// `true` when the last attempt succeeded.
    pub fn is_valid(&self) -> (r: bool)
        ensures
            r == (self.inner is Valid),
    {
        matches!(self.inner, State::Valid { .. })
    }

    /// The current state, or the last valid one after a failure; `None` only
    /// before the first success.
    pub fn data(&self) -> (r: Option<&S>)
        ensures
            r.is_some() == self.inner.data().is_some(),
            r.is_some() ==> *r.unwrap() == self.inner.data().unwrap(),
    {
        match &self.inner {
            State::Valid { state } => Some(&**state),
            State::Failed { previous, .. } => Some(&**previous),
            State::Uninitialized { .. } => None,
        }
    }

    /// A handle on the current or last valid state, which stays good whatever
    /// the tracker does afterwards.
    pub fn snapshot(&self) -> (r: Option<Rc<S>>)
        ensures
            r.is_some() == self.inner.data().is_some(),
            r.is_some() ==> *r.unwrap() == self.inner.data().unwrap(),
    {
        match &self.inner {
            State::Valid { state } => Some(share(state)),
            State::Failed { previous, .. } => Some(share(previous)),
            State::Uninitialized { .. } => None,
        }
    }

    /// The error of the last attempt, where it failed.
    pub fn error(&self) -> (r: Option<&anyhow::Error>)
        ensures
            r.is_some() == self.inner.error().is_some(),
            r.is_some() ==> *r.unwrap() == self.inner.error().unwrap(),
    {
        match &self.inner {
            State::Uninitialized { error } => error.as_ref(),
            State::Failed { error, .. } => Some(error),
            State::Valid { .. } => None,
        }
    }

    /// Asks the subgraph for its state once and moves to the state that
    /// follows from the answer, whichever it is.
    pub fn refresh(&mut self)
        ensures
            final(self).subgraph_api == old(self).subgraph_api,
            exists|fetched: Result<S, anyhow::Error>|
                final(self).inner == old(self).inner.after(fetched),
    {
        let new_state = self.subgraph_api.get_subgraph_state();
        let ghost fetched = new_state;
        let mut current = State::Uninitialized { error: None };
        std::mem::swap(&mut self.inner, &mut current);
        self.inner = current.next(new_state);
        assert(self.inner == old(self).inner.after(fetched));
    }
}

/// While attempts fail, the data of a tracker that had some stays what it was.
pub proof fn lemma_failures_preserve_data<S>(
    start: State<S>,
    outcomes: Seq<Result<S, anyhow::Error>>,
)
    requires
        start.data().is_some(),
        forall|i: int| 0 <= i < outcomes.len() ==> outcomes[i].is_err(),
    ensures
        start.after_all(outcomes).data() == start.data(),
        outcomes.len() > 0 ==> start.after_all(outcomes) is Failed,
    decreases outcomes.len(),
{
    if outcomes.len() > 0 {
        lemma_failures_preserve_data(start, outcomes.drop_last());
    }
}

/// An attempt that succeeds makes what it retrieved the valid state, whatever
/// was held before.
pub proof fn lemma_success_is_valid<S>(start: State<S>, state: S)
    ensures
        start.after(Ok(state)) is Valid,
        start.after(Ok(state)).data() == Some(state),
        start.after(Ok(state)).error().is_none(),
{
}

} // verus!
