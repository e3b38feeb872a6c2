//! The command task handler. Running the program is the caller's part; this
//! module decides what is run and what the run's output means.
use crate::strmap::StrMap;
use crate::tasks::config::TaskConfig;
use crate::tasks::context::TaskContext;
use crate::tasks::output::TaskOutput;
use crate::text::{
    absorb_output, absorb_output_exec, decimal, decimal_string, string_map_view, strings_view,
    substitute, substitute_exec, lemma_string_map_view_insert,
};
use vstd::prelude::*;

verus! {

/// Runs programs for command tasks.
pub struct CommandTaskHandler;

/// A program to run and its arguments.
#[derive(Debug, Clone)]
pub struct CommandRequest {
    pub program: String,
    pub args: Vec<String>,
}

/// The arguments after substitution of `${name}` references from `vars`.
pub open spec fn substituted_args(args: Seq<String>, vars: Map<Seq<char>, Seq<char>>) -> Seq<
    Seq<char>,
> {
    args.map_values(|a: String| substitute(a@, vars))
}

/// The variables that a command's output sets: `stdout`, `stderr` and
/// `exit_code` (the exit code in decimal, -1 where the process had none),
/// then the assignments that the lines of its standard output make, in order,
/// each replacing any earlier value of its name.
pub open spec fn command_output_vars(stdout: Seq<char>, stderr: Seq<char>, exit_code: Option<i32>) -> Map<
    Seq<char>,
    Seq<char>,
> {
    let code = match exit_code {
        Some(c) => c as int,
        None => -1,
    };
    absorb_output(
        Map::<Seq<char>, Seq<char>>::empty().insert("stdout"@, stdout).insert("stderr"@, stderr).insert(
            "exit_code"@,
            decimal(code),
        ),
        stdout,
    )
}

/// The message of a command task without a command.
pub open spec fn no_command_message() -> Seq<char> {
    "No command specified"@
}

/// Substitutes `${name}` references in each argument.
pub fn substitute_args(args: &Vec<String>, vars: &StrMap<String>) -> (r: Vec<String>)
    ensures
        strings_view(r@) == substituted_args(args@, string_map_view(vars@)),
{
    let mut out: Vec<String> = Vec::new();
    let n = args.len();
    for i in 0..n
        invariant
            n == args@.len(),
            out@.len() == i,
            forall|j: int| 0 <= j < i ==> #[trigger] out@[j]@ == substitute(
                args@[j]@,
                string_map_view(vars@),
            ),
    {
        out.push(substitute_exec(&args[i], vars));
    }
    assert(strings_view(out@) =~= substituted_args(args@, string_map_view(vars@)));
    out
}

impl CommandTaskHandler {
    /// The program to run and its arguments, `${name}` references replaced by
    /// the context's variables; fails where the configuration names no command.
    pub fn prepare(&self, context: &TaskContext, config: &TaskConfig) -> (r: Result<
        CommandRequest,
        String,
    >)
        ensures
            match config.command {
                None => r is Err && r->Err_0@ == no_command_message(),
                Some(c) => r is Ok && r->Ok_0.program@ == c@ && strings_view(r->Ok_0.args@)
                    == substituted_args(config.args@, string_map_view(context.variables@)),
            },
    {
        match &config.command {
            None => Err(String::from_str("No command specified")),
            Some(c) => Ok(
                CommandRequest {
                    program: c.clone(),
                    args: substitute_args(&config.args, &context.variables),
                },
            ),
        }
    }

    /// The task output of a finished command: its variables, whether it
    /// succeeded, and its standard error as the message where it did not.
    pub fn build_output(&self, stdout: String, stderr: String, exit_code: Option<i32>, success: bool) -> (out:
        TaskOutput)
        ensures
            string_map_view(out.variables@) == command_output_vars(stdout@, stderr@, exit_code),
            out.success == success,
            success ==> out.message is None,
            !success ==> out.message is Some && out.message->Some_0@ == stderr@,
    {
        let mut vars: StrMap<String> = StrMap::new();
        let code: i32 = match exit_code {
            Some(c) => c,
            None => -1,
        };
        let k1 = String::from_str("stdout");
        let k2 = String::from_str("stderr");
        let k3 = String::from_str("exit_code");
        let code_text = decimal_string(code);
        proof {
            lemma_string_map_view_insert(vars@, k1@, stdout);
        }
        vars.insert(k1, stdout.clone());
        proof {
            lemma_string_map_view_insert(vars@, k2@, stderr);
        }
        vars.insert(k2, stderr.clone());
        proof {
            lemma_string_map_view_insert(vars@, k3@, code_text);
        }
        vars.insert(k3, code_text);
        assert(string_map_view(Map::<Seq<char>, String>::empty()) =~= Map::<
            Seq<char>,
            Seq<char>,
        >::empty());
        absorb_output_exec(stdout.as_str(), &mut vars);
        let message = if success {
            None
        } else {
            Some(stderr)
        };
        TaskOutput { variables: vars, success, message }
    }
}

} // verus!
