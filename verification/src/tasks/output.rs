use crate::strmap::StrMap;
use vstd::prelude::*;

verus! {

/// What a task produced.
#[derive(Debug)]
pub struct TaskOutput {
    pub variables: StrMap<String>,
    pub success: bool,
    pub message: Option<String>,
}

} // verus!
