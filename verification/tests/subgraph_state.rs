use block_oracle::subgraph_state::{State, SubgraphApi, SubgraphState};
use std::cell::RefCell;

#[derive(Clone)]
struct FakeInnerState {
    counter: u8,
}

impl FakeInnerState {
    fn bump(&mut self) {
        self.counter += 1;
    }
}

struct FakeApi {
    state: RefCell<FakeInnerState>,
    switch: bool,
    error_description: &'static str,
}

impl FakeApi {
    fn new() -> Self {
        Self {
            state: RefCell::new(FakeInnerState { counter: 0 }),
            switch: true,
            error_description: "oops",
        }
    }

    fn bump_state_counter(&self) {
        self.state.borrow_mut().bump()
    }

    /// Passing `true` will cause the fake api to fail on the next operation
    fn toggle_errors(&mut self, switch: bool) {
        self.switch = !switch;
    }

    fn set_error(&mut self, text: &'static str) {
        self.error_description = text
    }
}

impl SubgraphApi for FakeApi {
    type State = FakeInnerState;

    fn get_subgraph_state(&self) -> anyhow::Result<Self::State> {
        if self.switch {
            self.bump_state_counter();
            Ok(self.state.borrow().clone())
        } else {
            Err(anyhow::Error::msg(self.error_description))
        }
    }
}

#[test]
fn state_transitions() {
    let api = FakeApi::new();
    let mut state_tracker = SubgraphState::new(api);

    // An initial state should be uninitialized, with no errors
    assert!(state_tracker.data().is_none());
    assert!(state_tracker.error().is_none());
    assert!(!state_tracker.is_valid());
    assert!(matches!(
        state_tracker.inner,
        State::Uninitialized { error: None }
    ));

    // Initialization can fail, and the state will still be uninitialized.
    state_tracker.subgraph_api.toggle_errors(true);
    state_tracker.refresh();
    assert!(state_tracker.data().is_none());
    assert!(state_tracker.error().is_some());
    assert!(!state_tracker.is_valid());
    assert!(matches!(
        state_tracker.inner,
        State::Uninitialized { error: Some(_) }
    ));

    // Once initialized to a valid state, we have data.
    state_tracker.subgraph_api.toggle_errors(false);
    state_tracker.refresh();
    assert!(state_tracker.data().is_some());
    assert!(state_tracker.error().is_none());
    assert!(state_tracker.is_valid());
    assert!(matches!(state_tracker.inner, State::Valid { .. }));
    assert_eq!(state_tracker.data().unwrap().counter, 1);

    // On failure, we retain the last valid data, but state is considered invalid.
    state_tracker.subgraph_api.toggle_errors(true);
    state_tracker.refresh();
    assert!(state_tracker.data().is_some());
    assert!(state_tracker.error().is_some());
    assert!(!state_tracker.is_valid());
    assert!(matches!(state_tracker.inner, State::Failed { .. }));
    assert_eq!(state_tracker.data().unwrap().counter, 1);
    assert_eq!(state_tracker.error().unwrap().to_string(), "oops");

    // We can fail again, keeping the same data as before.
    // Errors might be different from previous failed states.
    state_tracker.subgraph_api.set_error("oh no");
    state_tracker.refresh();
    assert!(state_tracker.data().is_some());
    assert!(!state_tracker.is_valid());
    assert!(matches!(state_tracker.inner, State::Failed { .. }));
    assert_eq!(state_tracker.data().unwrap().counter, 1);
    assert_eq!(state_tracker.error().unwrap().to_string(), "oh no");

    // We then recover from failure, becoming valid again and presenting new data.
    state_tracker.subgraph_api.toggle_errors(false);
    state_tracker.refresh();
    assert!(state_tracker.data().is_some());
    assert!(state_tracker.is_valid());
    assert!(matches!(state_tracker.inner, State::Valid { .. }));
    assert_eq!(state_tracker.data().unwrap().counter, 2);

    // Successive refreshes stay valid.
    state_tracker.refresh();
    assert!(state_tracker.data().is_some());
    assert!(state_tracker.is_valid());
    assert!(matches!(state_tracker.inner, State::Valid { .. }));
    assert_eq!(state_tracker.data().unwrap().counter, 3);
}

#[test]
fn snapshot_outlives_a_refresh() {
    let api = FakeApi::new();
    let mut state_tracker = SubgraphState::new(api);
    assert!(state_tracker.snapshot().is_none());
    state_tracker.refresh();
    let first = state_tracker.snapshot().unwrap();
    assert_eq!(first.counter, 1);
    state_tracker.refresh();
    assert_eq!(first.counter, 1);
    assert_eq!(state_tracker.snapshot().unwrap().counter, 2);
    state_tracker.subgraph_api.toggle_errors(true);
    state_tracker.refresh();
    assert_eq!(state_tracker.snapshot().unwrap().counter, 2);
    assert_eq!(state_tracker.data().unwrap().counter, 2);
}
