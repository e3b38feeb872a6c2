//! How instance states are written to and read back from a store.
use crate::model::ProcessState;
use vstd::prelude::*;

verus! {

/// The name under which a state is stored: its variant name.
pub open spec fn state_name(s: ProcessState) -> Seq<char> {
    match s {
        ProcessState::Running => "Running"@,
        ProcessState::Completed => "Completed"@,
        ProcessState::Failed => "Failed"@,
    }
}

/// The state that a stored name stands for: an unknown name reads as `Failed`.
pub open spec fn state_of_name(name: Seq<char>) -> ProcessState {
    if name == "Running"@ {
        ProcessState::Running
    } else if name == "Completed"@ {
        ProcessState::Completed
    } else {
        ProcessState::Failed
    }
}

impl ProcessState {
    /// The name to store.
    pub fn stored_name(&self) -> (r: String)
        ensures
            r@ == state_name(*self),
    {
        match self {
            ProcessState::Running => String::from_str("Running"),
            ProcessState::Completed => String::from_str("Completed"),
            ProcessState::Failed => String::from_str("Failed"),
        }
    }

    /// The state that a stored name stands for.
    pub fn from_stored_name(name: &str) -> (r: ProcessState)
        ensures
            r == state_of_name(name@),
    {
        let n = String::from_str(name);
        if n == String::from_str("Running") {
            ProcessState::Running
        } else if n == String::from_str("Completed") {
            ProcessState::Completed
        } else {
            ProcessState::Failed
        }
    }
}

/// A state read back under the name it was stored under is the state itself.
pub proof fn law_state_name_round_trip(s: ProcessState)
    ensures
        state_of_name(state_name(s)) == s,
{
    reveal_strlit("Running");
    reveal_strlit("Completed");
    reveal_strlit("Failed");
    assert("Completed"@[0] != "Running"@[0]);
    assert("Failed"@[0] != "Running"@[0]);
    assert("Failed"@[0] != "Completed"@[0]);
}

} // verus!
