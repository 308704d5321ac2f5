//! The states a connection goes through, as the handshake numbers them.
use vstd::prelude::*;

verus! {

/// Where a connection stands.
#[derive(Debug, Clone, Copy, PartialEq, Eq, Structural)]
pub enum State {
    Init,
    Status,
    Login,
}

impl State {
    /// The number of each state: 0, 1 and 2.
    pub open spec fn number(self) -> i32 {
        match self {
            State::Init => 0,
            State::Status => 1,
            State::Login => 2,
        }
    }

    /// The state with the number `value`, if there is one.
    pub open spec fn from_number(value: i32) -> Result<State, i32> {
        if value == 0 {
            Ok(State::Init)
        } else if value == 1 {
            Ok(State::Status)
        } else if value == 2 {
            Ok(State::Login)
        } else {
            Err(value)
        }
    }
}

impl TryFrom<i32> for State {
    type Error = i32;

    /// The state numbered `value`; the number itself when none is.
    fn try_from(value: i32) -> (r: Result<Self, i32>) {
        if value == 0 {
            Ok(State::Init)
        } else if value == 1 {
            Ok(State::Status)
        } else if value == 2 {
            Ok(State::Login)
        } else {
            Err(value)
        }
    }
}

impl vstd::std_specs::convert::TryFromSpecImpl<i32> for State {
    open spec fn obeys_try_from_spec() -> bool {
        true
    }

    open spec fn try_from_spec(value: i32) -> Result<State, i32> {
        State::from_number(value)
    }
}

impl From<State> for i32 {
    fn from(state: State) -> (r: i32) {
        match state {
            State::Init => 0,
            State::Status => 1,
            State::Login => 2,
        }
    }
}

impl vstd::std_specs::convert::FromSpecImpl<State> for i32 {
    open spec fn obeys_from_spec() -> bool {
        true
    }

    open spec fn from_spec(state: State) -> i32 {
        state.number()
    }
}

/// Numbering a state and reading the number back gives the state; the
/// numbers read back are exactly 0, 1 and 2.
pub proof fn lemma_state_number_round_trip(state: State, value: i32)
    ensures
        State::from_number(state.number()) == Ok::<State, i32>(state),
        State::from_number(value) is Ok <==> 0 <= value <= 2,
        State::from_number(value) matches Ok(s) ==> s.number() == value,
{
}

} // verus!
