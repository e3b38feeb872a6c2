use crate::tasks::config::TaskConfig;
use crate::tasks::context::TaskContext;
use crate::tasks::output::TaskOutput;
use vstd::prelude::*;

pub mod command;
pub mod function;

verus! {

/// Something that runs a task in a context.
pub trait TaskHandler {
    /// Whether `execute` may be called in `context`.
    spec fn can_execute(&self, context: &TaskContext) -> bool;

    fn execute(&self, context: &TaskContext, config: &TaskConfig) -> Result<TaskOutput, String>
        requires
            self.can_execute(context),
    ;
}

/// The kinds of task handler.
#[derive(Debug, Clone, Copy, PartialEq, Eq, Structural)]
pub enum TaskHandlerType {
    Command,
    Http,
    Docker,
    /// For tests and simple cases.
    Function,
}

} // verus!
