use crate::strmap::StrMap;
use crate::tasks::config::TaskConfig;
use crate::tasks::context::TaskContext;
use crate::tasks::handlers::TaskHandler;
use crate::tasks::output::TaskOutput;
use vstd::prelude::*;

verus! {

/// A task handler that runs a function of the context.
pub struct FunctionTaskHandler<F> {
    pub func: F,
}

impl<F: Fn(&TaskContext) -> Result<StrMap<String>, String>> TaskHandler for FunctionTaskHandler<F> {
    open spec fn can_execute(&self, context: &TaskContext) -> bool {
        call_requires(self.func, (context,))
    }

    /// Succeeds with the variables that the function returns, or fails with
    /// no variables and its message.
    fn execute(&self, context: &TaskContext, config: &TaskConfig) -> (r: Result<TaskOutput, String>)
        ensures
            match r {
                Ok(out) => exists|res: Result<StrMap<String>, String>|
                    call_ensures(self.func, (context,), res) && match res {
                        Ok(vars) => out.variables == vars && out.success && out.message is None,
                        Err(e) => out.variables@ == Map::<Seq<char>, String>::empty()
                            && !out.success && out.message == Some(e),
                    },
                Err(_) => false,
            },
    {
        let res = (self.func)(context);
        match res {
            Ok(vars) => Ok(TaskOutput { variables: vars, success: true, message: None }),
            Err(e) => Ok(TaskOutput { variables: StrMap::new(), success: false, message: Some(e) }),
        }
    }
}

} // verus!
