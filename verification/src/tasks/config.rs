use crate::strmap::StrMap;
use vstd::prelude::*;

verus! {

/// How a task is run and how its results flow back into the process.
#[derive(Debug, Clone)]
pub struct TaskConfig {
    /// Program that a command task runs.
    pub command: Option<String>,
    /// Its arguments; an argument `${name}` stands for the process variable `name`.
    pub args: Vec<String>,
    /// Address for an HTTP task.
    pub url: Option<String>,
    /// Method for an HTTP task.
    pub method: Option<String>,
    /// Process variable to task input.
    pub input_mappings: StrMap<String>,
    /// Task output to process variable.
    pub output_mappings: StrMap<String>,
}

impl TaskConfig {
    /// A configuration that sets nothing.
    pub fn new() -> (c: Self)
        ensures
            c.command is None,
            c.args@.len() == 0,
            c.url is None,
            c.method is None,
            c.input_mappings@ == Map::<Seq<char>, String>::empty(),
            c.output_mappings@ == Map::<Seq<char>, String>::empty(),
            c.output_mappings.pairs().len() == 0,
    {
        TaskConfig {
            command: None,
            args: Vec::new(),
            url: None,
            method: None,
            input_mappings: StrMap::new(),
            output_mappings: StrMap::new(),
        }
    }
}

} // verus!
