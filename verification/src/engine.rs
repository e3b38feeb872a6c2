//! The process engine: deployed definitions, running instances, and the
//! execution of instances step by step.
use crate::ids::{is_instance_id, new_instance_id};
use crate::model::{
    advance, apply_mappings, count_incoming, has_edge_to, law_halted_instance_is_left_alone, fresh_instance, resume, run, step, step_budget, InstanceView, PendingTask, ProcessDefinition, ProcessInstance,
    ProcessState, RunEnd, Step,
};
use crate::strmap::{count_pairs_where, lemma_count_pairs_where, StrMap};
use crate::tasks::handlers::command::{substitute_args, CommandRequest};
use crate::tasks::handlers::TaskHandlerType;
use crate::tasks::node::{Node, NodeType};
use crate::tasks::output::TaskOutput;
use crate::text::{lemma_string_map_view_insert, string_map_view, strings_view};
use vstd::prelude::*;

verus! {

/// Message for a missing instance.
pub open spec fn instance_missing_message(id: Seq<char>) -> Seq<char> {
    "Instance '"@ + id + "' not found"@
}

/// Message of `advance_token` for a missing instance.
pub open spec fn token_target_missing_message() -> Seq<char> {
    "Instance not found"@
}

/// Message for a start of a definition that is not deployed.
pub open spec fn definition_not_deployed_message(def_id: Seq<char>) -> Seq<char> {
    "Process definition '"@ + def_id + "' not found"@
}

/// Message for a task result handed to an instance that awaits none.
pub open spec fn no_pending_task_message(id: Seq<char>) -> Seq<char> {
    "Instance '"@ + id + "' has no task awaiting a result"@
}

/// Whether `r` reports how a run ended.
pub open spec fn reports(r: Result<(), String>, end: RunEnd) -> bool {
    match end {
        RunEnd::Stopped => r is Ok,
        RunEnd::Failed(m) => r is Err && r->Err_0@ == m,
        RunEnd::OutOfRange => false,
    }
}

fn instance_missing(instance_id: &str) -> (m: String)
    ensures
        m@ == instance_missing_message(instance_id@),
{
    let mut m = String::from_str("Instance '");
    m.append(instance_id);
    m.append("' not found");
    m
}

fn no_pending_task(instance_id: &str) -> (m: String)
    ensures
        m@ == no_pending_task_message(instance_id@),
{
    let mut m = String::from_str("Instance '");
    m.append(instance_id);
    m.append("' has no task awaiting a result");
    m
}

/// The execution engine.
pub struct ProcessEngine {
    definitions: StrMap<ProcessDefinition>,
    instances: StrMap<ProcessInstance>,
}

enum StepResult {
    Halted,
    Progressed,
    Failed(String),
}

fn clone_strings(v: &[String]) -> (r: Vec<String>)
    ensures
        r@ == v@,
{
    let mut out: Vec<String> = Vec::new();
    let n = v.len();
    for i in 0..n
        invariant
            n == v@.len(),
            out@.len() == i,
            forall|j: int| 0 <= j < i ==> #[trigger] out@[j] == v@[j],
    {
        out.push(v[i].clone());
    }
    assert(out@ =~= v@);
    out
}

fn vec_contains(v: &Vec<String>, s: &String) -> (r: bool)
    ensures
        r == strings_view(v@).contains(s@),
{
    let n = v.len();
    for i in 0..n
        invariant
            n == v@.len(),
            forall|j: int| 0 <= j < i ==> v@[j]@ != s@,
    {
        if v[i] == *s {
            assert(strings_view(v@)[i as int] == s@);
            return true;
        }
    }
    assert forall|j: int| 0 <= j < strings_view(v@).len() implies strings_view(v@)[j] != s@ by {
        assert(strings_view(v@)[j] == v@[j]@);
    }
    false
}

fn count_incoming_exec(nodes: &StrMap<Node>, target: &String) -> (r: usize)
    ensures
        r == count_incoming(nodes@, target@),
{
    let n = nodes.len();
    let ghost f = has_edge_to(target@);
    let mut count: usize = 0;
    for i in 0..n
        invariant
            n == nodes.pairs().len(),
            f == has_edge_to(target@),
            count <= i,
            count == count_pairs_where(nodes.pairs().take(i as int), f),
    {
        let (_, node) = nodes.entry(i);
        assert(nodes.pairs().take(i + 1).drop_last() =~= nodes.pairs().take(i as int));
        if vec_contains(&node.outgoing, target) {
            count = count + 1;
        }
    }
    assert(nodes.pairs().take(n as int) =~= nodes.pairs());
    proof {
        nodes.lemma_view_is_pairs_map();
        lemma_count_pairs_where(nodes.pairs(), f);
    }
    count
}

/// Moves tokens on to `next`.
fn advance_exec(inst: &mut ProcessInstance, next: &[String])
    requires
        advance(old(inst)@, strings_view(next@)) is Next,
    ensures
        advance(old(inst)@, strings_view(next@)) == Step::Next(final(inst)@),
{
    let ghost start = inst.current_node_ids@;
    let n = next.len();
    for i in 0..n
        invariant
            n == next@.len(),
            inst.current_node_ids@ == start + next@.take(i as int),
            inst.active_tokens == old(inst).active_tokens,
            inst.id == old(inst).id,
            inst.process_def_id == old(inst).process_def_id,
            inst.state == old(inst).state,
            inst.variables == old(inst).variables,
            inst.join_counters == old(inst).join_counters,
            inst.pending_task == old(inst).pending_task,
    {
        inst.current_node_ids.push(next[i].clone());
        assert(start + next@.take(i + 1) =~= (start + next@.take(i as int)).push(next@[i as int]));
    }
    if n > 1 {
        inst.active_tokens = inst.active_tokens + (n - 1);
    }
    assert(next@.take(n as int) =~= next@);
    assert(strings_view(inst.current_node_ids@) =~= strings_view(start) + strings_view(next@));
}

/// One step of an instance; see `step`.
fn step_instance(defs: &StrMap<ProcessDefinition>, inst: &mut ProcessInstance) -> (r: StepResult)
    requires
        !(step(defs@, old(inst)@) is OutOfRange),
    ensures
        match step(defs@, old(inst)@) {
            Step::Halt => r is Halted && final(inst)@ == old(inst)@,
            Step::Fail(m) => r is Failed && r->Failed_0@ == m && final(inst)@ == old(inst)@,
            Step::Next(next) => r is Progressed && final(inst)@ == next,
            Step::OutOfRange => false,
        },
{
    let running = match inst.state {
        ProcessState::Running => true,
        _ => false,
    };
    if !running || inst.pending_task.is_some() || inst.current_node_ids.len() == 0 {
        return StepResult::Halted;
    }
    let def = match defs.get(inst.process_def_id.as_str()) {
        Some(d) => d,
        None => {
            return StepResult::Failed(String::from_str("Process definition not found"));
        },
    };
    let cur = inst.current_node_ids[0].clone();
    let node = match def.nodes.get(cur.as_str()) {
        Some(n) => n,
        None => {
            let mut m = String::from_str("Node '");
            m.append(cur.as_str());
            m.append("' not found");
            return StepResult::Failed(m);
        },
    };
    let ghost before = inst@;
    let incoming = count_incoming_exec(&def.nodes, &cur);
    inst.current_node_ids.remove(0);
    let ghost popped = InstanceView { tokens: before.tokens.drop_first(), ..before };
    assert(strings_view(inst.current_node_ids@) =~= before.tokens.drop_first());
    assert(inst@ == popped);
    match &node.node_type {
        NodeType::Start => {
            advance_exec(inst, node.outgoing.as_slice());
        },
        NodeType::Task { name, handler_type, config } => {
            let placeholder = match handler_type {
                TaskHandlerType::Command => config.command.is_none(),
                _ => true,
            };
            if placeholder {
                advance_exec(inst, node.outgoing.as_slice());
            } else {
                let program = match &config.command {
                    Some(c) => c.clone(),
                    None => String::new(),
                };
                let args = substitute_args(&config.args, &inst.variables);
                let pending = PendingTask {
                    node_id: node.id.clone(),
                    request: CommandRequest { program, args },
                    output_mappings: config.output_mappings.duplicate(),
                    outgoing: clone_strings(node.outgoing.as_slice()),
                };
                inst.pending_task = Some(pending);
            }
        },
        NodeType::ExclusiveGateway => {
            if node.outgoing.len() > 0 {
                let mut first: Vec<String> = Vec::new();
                first.push(node.outgoing[0].clone());
                assert(strings_view(first@) =~= seq![strings_view(node.outgoing@)[0]]);
                advance_exec(inst, first.as_slice());
            }
        },
        NodeType::ParallelGateway => {
            if node.outgoing.len() > 1 {
                advance_exec(inst, node.outgoing.as_slice());
            } else if incoming > 1 {
                let arrived: usize = match inst.join_counters.get(node.id.as_str()) {
                    Some(c) => *c + 1,
                    None => 1,
                };
                if arrived == incoming {
                    inst.join_counters.remove(node.id.as_str());
                    inst.active_tokens = inst.active_tokens - (incoming - 1);
                    advance_exec(inst, node.outgoing.as_slice());
                } else {
                    inst.join_counters.insert(node.id.clone(), arrived);
                }
            } else {
                advance_exec(inst, node.outgoing.as_slice());
            }
        },
        NodeType::End => {
            inst.active_tokens = inst.active_tokens - 1;
            if inst.active_tokens == 0 {
                inst.state = ProcessState::Completed;
            }
        },
    }
    StepResult::Progressed
}


/// Whether moving tokens on to `n` nodes keeps the token count in range.
fn advance_in_range(active_tokens: usize, n: usize) -> (r: bool)
    ensures
        forall|inst: InstanceView, next: Seq<Seq<char>>|
            inst.active_tokens == active_tokens && next.len() == n ==> (r == !(#[trigger] advance(inst, next) is OutOfRange)),
{
    n <= 1 || active_tokens <= usize::MAX - (n - 1)
}

/// Whether the next step of an instance keeps every token count in range.
fn step_in_range(defs: &StrMap<ProcessDefinition>, inst: &ProcessInstance) -> (r: bool)
    ensures
        r == !(step(defs@, inst@) is OutOfRange),
{
    let running = match inst.state {
        ProcessState::Running => true,
        _ => false,
    };
    if !running || inst.pending_task.is_some() || inst.current_node_ids.len() == 0 {
        return true;
    }
    let def = match defs.get(inst.process_def_id.as_str()) {
        Some(d) => d,
        None => {
            return true;
        },
    };
    let cur = &inst.current_node_ids[0];
    let node = match def.nodes.get(cur.as_str()) {
        Some(n) => n,
        None => {
            return true;
        },
    };
    match &node.node_type {
        NodeType::Start => advance_in_range(inst.active_tokens, node.outgoing.len()),
        NodeType::Task { name, handler_type, config } => {
            let placeholder = match handler_type {
                TaskHandlerType::Command => config.command.is_none(),
                _ => true,
            };
            if placeholder {
                advance_in_range(inst.active_tokens, node.outgoing.len())
            } else {
                true
            }
        },
        NodeType::ExclusiveGateway => {
            if node.outgoing.len() > 0 {
                assert(seq![strings_view(node.outgoing@)[0]].len() == 1);
                advance_in_range(inst.active_tokens, 1)
            } else {
                true
            }
        },
        NodeType::ParallelGateway => {
            let incoming = count_incoming_exec(&def.nodes, cur);
            if node.outgoing.len() > 1 {
                advance_in_range(inst.active_tokens, node.outgoing.len())
            } else if incoming > 1 {
                let arrived_before: usize = match inst.join_counters.get(node.id.as_str()) {
                    Some(c) => *c,
                    None => 0,
                };
                if arrived_before == usize::MAX {
                    false
                } else if arrived_before + 1 == incoming {
                    if inst.active_tokens < incoming - 1 {
                        false
                    } else {
                        advance_in_range(inst.active_tokens - (incoming - 1), node.outgoing.len())
                    }
                } else {
                    true
                }
            } else {
                advance_in_range(inst.active_tokens, node.outgoing.len())
            }
        },
        NodeType::End => inst.active_tokens > 0,
    }
}

impl ProcessInstance {
    /// A copy of an instance that awaits no task.
    fn copy_unpending(&self) -> (r: ProcessInstance)
        requires
            self.pending_task is None,
        ensures
            r@ == self@,
    {
        let r = ProcessInstance {
            id: self.id.clone(),
            process_def_id: self.process_def_id.clone(),
            current_node_ids: clone_strings(self.current_node_ids.as_slice()),
            state: self.state,
            variables: self.variables.duplicate(),
            active_tokens: self.active_tokens,
            join_counters: self.join_counters.copied(),
            pending_task: None,
        };
        r
    }
}

impl ProcessEngine {
    /// The deployed definitions, by id.
    pub closed spec fn definitions(&self) -> Map<Seq<char>, ProcessDefinition> {
        self.definitions@
    }

    /// The instances, by id.
    pub closed spec fn instances(&self) -> Map<Seq<char>, ProcessInstance> {
        self.instances@
    }

    /// An engine with no definitions and no instances.
    pub fn new() -> (e: Self)
        ensures
            e.definitions() == Map::<Seq<char>, ProcessDefinition>::empty(),
            e.instances() == Map::<Seq<char>, ProcessInstance>::empty(),
    {
        ProcessEngine { definitions: StrMap::new(), instances: StrMap::new() }
    }

    /// Deploys a definition under its id, replacing any definition of that id.
    pub fn deploy(&mut self, definition: ProcessDefinition)
        ensures
            final(self).definitions() == old(self).definitions().insert(
                definition.id@,
                definition,
            ),
            final(self).instances() == old(self).instances(),
    {
        let key = definition.id.clone();
        self.definitions.insert(key, definition);
    }

    /// Creates an instance of a deployed definition under `instance_id`, with
    /// one token at the start node, without running it. An instance of that id
    /// is replaced.
    pub fn instantiate(&mut self, process_def_id: &str, instance_id: String) -> (r: Result<
        String,
        String,
    >)
        ensures
            final(self).definitions() == old(self).definitions(),
            !old(self).definitions().contains_key(process_def_id@) ==> r is Err
                && r->Err_0@ == definition_not_deployed_message(process_def_id@)
                && final(self).instances() == old(self).instances(),
            old(self).definitions().contains_key(process_def_id@) ==> r is Ok && r->Ok_0@
                == instance_id@ && final(self).instances() == old(self).instances().insert(
                instance_id@,
                final(self).instances()[instance_id@],
            ) && final(self).instances()[instance_id@]@ == fresh_instance(
                instance_id@,
                process_def_id@,
                old(self).definitions()[process_def_id@].start_node_id@,
            ),
    {
        let start = match self.definitions.get(process_def_id) {
            Some(def) => def.start_node_id.clone(),
            None => {
                let mut m = String::from_str("Process definition '");
                m.append(process_def_id);
                m.append("' not found");
                return Err(m);
            },
        };
        let mut tokens: Vec<String> = Vec::new();
        tokens.push(start);
        let inst = ProcessInstance {
            id: instance_id.clone(),
            process_def_id: String::from_str(process_def_id),
            current_node_ids: tokens,
            state: ProcessState::Running,
            variables: StrMap::new(),
            active_tokens: 1,
            join_counters: StrMap::new(),
            pending_task: None,
        };
        assert(strings_view(inst.current_node_ids@) =~= seq![start@]);
        assert(string_map_view(inst.variables@) =~= Map::<Seq<char>, Seq<char>>::empty());
        let key = instance_id.clone();
        self.instances.insert(key, inst);
        Ok(instance_id)
    }

    /// Runs an instance until it halts: until it is not running, has no token
    /// left, or awaits the result of a command task, or until a step fails.
    /// (The number of steps is bounded by `usize::MAX`.) Running the program
    /// of a command task is the caller's part: it runs the pending task's
    /// request, hands the result back with `resume_task`, and runs the
    /// instance again, until no task is pending.
    pub fn execute_instance(&mut self, instance_id: &str) -> (r: Result<(), String>)
        requires
            old(self).instances().contains_key(instance_id@) ==> !(run(
                old(self).definitions(),
                old(self).instances()[instance_id@]@,
                step_budget(),
            ).0 is OutOfRange),
        ensures
            final(self).definitions() == old(self).definitions(),
            !old(self).instances().contains_key(instance_id@) ==> r is Err && r->Err_0@
                == instance_missing_message(instance_id@) && final(self).instances() == old(self).instances(),
            old(self).instances().contains_key(instance_id@) ==> {
                let (end, last) = run(
                    old(self).definitions(),
                    old(self).instances()[instance_id@]@,
                    step_budget(),
                );
                &&& reports(r, end)
                &&& final(self).instances() == old(self).instances().insert(
                    instance_id@,
                    final(self).instances()[instance_id@],
                )
                &&& final(self).instances()[instance_id@]@ == last
            },
    {
        let key = String::from_str(instance_id);
        let mut inst = match self.instances.remove(instance_id) {
            Some(i) => i,
            None => {
                return Err(instance_missing(instance_id));
            },
        };
        let ghost first = inst@;
        let mut fuel: usize = usize::MAX;
        loop
            invariant
                key@ == instance_id@,
                self.definitions@ == old(self).definitions@,
                self.instances@ == old(self).instances@.remove(instance_id@),
                old(self).instances@.contains_key(instance_id@),
                first == old(self).instances@[instance_id@]@,
                run(self.definitions@, inst@, fuel as nat) == run(
                    self.definitions@,
                    first,
                    step_budget(),
                ),
                !(run(self.definitions@, first, step_budget()).0 is OutOfRange),
            decreases fuel,
        {
            if fuel == 0 {
                self.instances.insert(key, inst);
                assert(self.instances@ =~= old(self).instances@.insert(instance_id@, self.instances@[instance_id@]));
                return Ok(());
            }
            match step_instance(&self.definitions, &mut inst) {
                StepResult::Halted => {
                    self.instances.insert(key, inst);
                    assert(self.instances@ =~= old(self).instances@.insert(instance_id@, self.instances@[instance_id@]));
                    return Ok(());
                },
                StepResult::Failed(m) => {
                    self.instances.insert(key, inst);
                    assert(self.instances@ =~= old(self).instances@.insert(instance_id@, self.instances@[instance_id@]));
                    return Err(m);
                },
                StepResult::Progressed => {
                    fuel = fuel - 1;
                },
            }
        }
    }

    /// Hands the result of an instance's pending command task back to it. A
    /// failed run (`Err`) ends the task without moving its token on, and the
    /// failure is returned. Output maps the task's output variables into the
    /// process variables and moves the token on along the task's edges; the
    /// instance is not run further (see `execute_instance`).
    pub fn resume_task(&mut self, instance_id: &str, result: Result<TaskOutput, String>) -> (r:
        Result<(), String>)
        requires
            old(self).instances().contains_key(instance_id@) && old(self).instances()[instance_id@]@.pending is Some
                && result is Ok ==> !(resume(
                old(self).instances()[instance_id@]@,
                string_map_view(result->Ok_0.variables@),
            ) is OutOfRange),
        ensures
            final(self).definitions() == old(self).definitions(),
            !old(self).instances().contains_key(instance_id@) ==> r is Err && r->Err_0@
                == instance_missing_message(instance_id@) && final(self).instances() == old(self).instances(),
            old(self).instances().contains_key(instance_id@) ==> {
                let before = old(self).instances()[instance_id@]@;
                let after = final(self).instances()[instance_id@]@;
                &&& final(self).instances() == old(self).instances().insert(
                    instance_id@,
                    final(self).instances()[instance_id@],
                )
                &&& before.pending is None ==> r is Err && r->Err_0@ == no_pending_task_message(
                    instance_id@,
                ) && after == before
                &&& before.pending is Some ==> match result {
                    Err(e) => r == Err::<(), String>(e) && after == (InstanceView {
                        pending: None,
                        ..before
                    }),
                    Ok(out) => r is Ok && resume(before, string_map_view(out.variables@))
                        == Step::Next(after),
                }
            },
    {
        let output = match result {
            Ok(o) => o,
            Err(e) => {
                let key = String::from_str(instance_id);
                let mut inst = match self.instances.remove(instance_id) {
                    Some(i) => i,
                    None => {
                        return Err(instance_missing(instance_id));
                    },
                };
                if inst.pending_task.is_none() {
                    self.instances.insert(key, inst);
                    assert(self.instances@ =~= old(self).instances@.insert(instance_id@, self.instances@[instance_id@]));
                    return Err(no_pending_task(instance_id));
                }
                inst.pending_task = None;
                self.instances.insert(key, inst);
                assert(self.instances@ =~= old(self).instances@.insert(instance_id@, self.instances@[instance_id@]));
                return Err(e);
            },
        };
        self.apply_task_output(instance_id, &output)?;
        let r = self.advance_pending(instance_id);
        assert(self.instances@ =~= old(self).instances@.insert(instance_id@, self.instances@[instance_id@]));
        r
    }

    /// Maps the output of an instance's pending command task into its process
    /// variables, in the order of the task's output mappings; the task stays
    /// pending (see `advance_pending`).
    pub fn apply_task_output(&mut self, instance_id: &str, output: &TaskOutput) -> (r: Result<(), String>)
        ensures
            final(self).definitions() == old(self).definitions(),
            !old(self).instances().contains_key(instance_id@) ==> r is Err && r->Err_0@
                == instance_missing_message(instance_id@) && final(self).instances() == old(self).instances(),
            old(self).instances().contains_key(instance_id@) ==> {
                let before = old(self).instances()[instance_id@]@;
                let after = final(self).instances()[instance_id@]@;
                &&& final(self).instances() == old(self).instances().insert(
                    instance_id@,
                    final(self).instances()[instance_id@],
                )
                &&& before.pending is None ==> r is Err && r->Err_0@ == no_pending_task_message(
                    instance_id@,
                ) && after == before
                &&& before.pending is Some ==> r is Ok && after == (InstanceView {
                    variables: apply_mappings(
                        before.variables,
                        before.pending->Some_0.mappings,
                        string_map_view(output.variables@),
                    ),
                    ..before
                })
            },
    {
        let key = String::from_str(instance_id);
        let mut inst = match self.instances.remove(instance_id) {
            Some(i) => i,
            None => {
                return Err(instance_missing(instance_id));
            },
        };
        let ghost before = inst@;
        let pending = match inst.pending_task.take() {
            Some(p) => p,
            None => {
                self.instances.insert(key, inst);
                assert(self.instances@ =~= old(self).instances@.insert(instance_id@, self.instances@[instance_id@]));
                return Err(no_pending_task(instance_id));
            },
        };
        let ghost outv = string_map_view(output.variables@);
        let ghost mappings = pending@.mappings;
        let n = pending.output_mappings.len();
        assert(mappings.take(0) =~= Seq::<(Seq<char>, Seq<char>)>::empty());
        for i in 0..n
            invariant
                n == pending.output_mappings.pairs().len(),
                mappings == pending@.mappings,
                outv == string_map_view(output.variables@),
                string_map_view(inst.variables@) == apply_mappings(
                    before.variables,
                    mappings.take(i as int),
                    outv,
                ),
                inst@ == (InstanceView { variables: inst@.variables, pending: None, ..before }),
        {
            let (task_var, process_var) = pending.output_mappings.entry(i);
            assert(mappings.take(i + 1).drop_last() =~= mappings.take(i as int));
            assert(mappings[i as int] == (task_var@, process_var@));
            match output.variables.get(task_var.as_str()) {
                Some(value) => {
                    proof {
                        lemma_string_map_view_insert(inst.variables@, process_var@, *value);
                    }
                    inst.variables.insert(process_var.clone(), value.clone());
                },
                None => {},
            }
        }
        assert(mappings.take(n as int) =~= mappings);
        inst.pending_task = Some(pending);
        self.instances.insert(key, inst);
        assert(self.instances@ =~= old(self).instances@.insert(instance_id@, self.instances@[instance_id@]));
        Ok(())
    }

    /// Ends an instance's pending command task and moves its token on along
    /// the task's outgoing edges.
    pub fn advance_pending(&mut self, instance_id: &str) -> (r: Result<(), String>)
        requires
            old(self).instances().contains_key(instance_id@) && old(self).instances()[instance_id@]@.pending is Some
                ==> !(advance(
                (InstanceView { pending: None, ..old(self).instances()[instance_id@]@ }),
                old(self).instances()[instance_id@]@.pending->Some_0.outgoing,
            ) is OutOfRange),
        ensures
            final(self).definitions() == old(self).definitions(),
            !old(self).instances().contains_key(instance_id@) ==> r is Err && r->Err_0@
                == instance_missing_message(instance_id@) && final(self).instances() == old(self).instances(),
            old(self).instances().contains_key(instance_id@) ==> {
                let before = old(self).instances()[instance_id@]@;
                let after = final(self).instances()[instance_id@]@;
                &&& final(self).instances() == old(self).instances().insert(
                    instance_id@,
                    final(self).instances()[instance_id@],
                )
                &&& before.pending is None ==> r is Err && r->Err_0@ == no_pending_task_message(
                    instance_id@,
                ) && after == before
                &&& before.pending is Some ==> r is Ok && advance(
                    (InstanceView { pending: None, ..before }),
                    before.pending->Some_0.outgoing,
                ) == Step::Next(after)
            },
    {
        let key = String::from_str(instance_id);
        let mut inst = match self.instances.remove(instance_id) {
            Some(i) => i,
            None => {
                return Err(instance_missing(instance_id));
            },
        };
        let pending = match inst.pending_task.take() {
            Some(p) => p,
            None => {
                self.instances.insert(key, inst);
                assert(self.instances@ =~= old(self).instances@.insert(instance_id@, self.instances@[instance_id@]));
                return Err(no_pending_task(instance_id));
            },
        };
        advance_exec(&mut inst, pending.outgoing.as_slice());
        self.instances.insert(key, inst);
        assert(self.instances@ =~= old(self).instances@.insert(instance_id@, self.instances@[instance_id@]));
        Ok(())
    }

    /// Queues tokens for `next_nodes`, in order; a split into several paths
    /// adds the extra paths to the active tokens.
    pub fn advance_token(&mut self, instance_id: &str, next_nodes: &[String]) -> (r: Result<
        (),
        String,
    >)
        requires
            old(self).instances().contains_key(instance_id@) ==> !(advance(
                old(self).instances()[instance_id@]@,
                strings_view(next_nodes@),
            ) is OutOfRange),
        ensures
            final(self).definitions() == old(self).definitions(),
            !old(self).instances().contains_key(instance_id@) ==> r is Err && r->Err_0@
                == token_target_missing_message() && final(self).instances() == old(self).instances(),
            old(self).instances().contains_key(instance_id@) ==> r is Ok && final(self).instances() == old(self).instances().insert(
                instance_id@,
                final(self).instances()[instance_id@],
            ) && advance(old(self).instances()[instance_id@]@, strings_view(next_nodes@))
                == Step::Next(final(self).instances()[instance_id@]@),
    {
        let key = String::from_str(instance_id);
        let mut inst = match self.instances.remove(instance_id) {
            Some(i) => i,
            None => {
                return Err(String::from_str("Instance not found"));
            },
        };
        advance_exec(&mut inst, next_nodes);
        self.instances.insert(key, inst);
        assert(self.instances@ =~= old(self).instances@.insert(instance_id@, self.instances@[instance_id@]));
        Ok(())
    }

    /// Creates an instance of a deployed definition under `instance_id` and
    /// runs it (see `execute_instance`); returns the id.
    pub fn start_process_with_id(&mut self, process_def_id: &str, instance_id: String) -> (r:
        Result<String, String>)
        requires
            old(self).definitions().contains_key(process_def_id@) ==> !(run(
                old(self).definitions(),
                fresh_instance(
                    instance_id@,
                    process_def_id@,
                    old(self).definitions()[process_def_id@].start_node_id@,
                ),
                step_budget(),
            ).0 is OutOfRange),
        ensures
            final(self).definitions() == old(self).definitions(),
            !old(self).definitions().contains_key(process_def_id@) ==> r is Err
                && r->Err_0@ == definition_not_deployed_message(process_def_id@)
                && final(self).instances() == old(self).instances(),
            old(self).definitions().contains_key(process_def_id@) ==> {
                let (end, last) = run(
                    old(self).definitions(),
                    fresh_instance(
                        instance_id@,
                        process_def_id@,
                        old(self).definitions()[process_def_id@].start_node_id@,
                    ),
                    step_budget(),
                );
                &&& final(self).instances() == old(self).instances().insert(
                    instance_id@,
                    final(self).instances()[instance_id@],
                )
                &&& final(self).instances()[instance_id@]@ == last
                &&& match end {
                    RunEnd::Failed(m) => r is Err && r->Err_0@ == m,
                    _ => r is Ok && r->Ok_0@ == instance_id@,
                }
            },
    {
        let id = self.instantiate(process_def_id, instance_id)?;
        match self.execute_instance(id.as_str()) {
            Ok(()) => {
                assert(self.instances() =~= old(self).instances().insert(
                    id@,
                    self.instances()[id@],
                ));
                Ok(id)
            },
            Err(e) => {
                assert(self.instances() =~= old(self).instances().insert(
                    id@,
                    self.instances()[id@],
                ));
                Err(e)
            },
        }
    }

    /// Creates an instance of a deployed definition under a fresh id (see
    /// `new_instance_id`) and runs it (see `execute_instance`); returns the id.
    /// Where the instance reaches a command task it awaits that task's
    /// result, which the caller hands back with `resume_task`.
    pub fn start_process(&mut self, process_def_id: &str) -> (r: Result<String, String>)
        requires
            old(self).definitions().contains_key(process_def_id@) ==> forall|id: Seq<char>|
                !(#[trigger] run(
                    old(self).definitions(),
                    fresh_instance(
                        id,
                        process_def_id@,
                        old(self).definitions()[process_def_id@].start_node_id@,
                    ),
                    step_budget(),
                ).0 is OutOfRange),
        ensures
            final(self).definitions() == old(self).definitions(),
            !old(self).definitions().contains_key(process_def_id@) ==> r is Err
                && r->Err_0@ == definition_not_deployed_message(process_def_id@)
                && final(self).instances() == old(self).instances(),
            old(self).definitions().contains_key(process_def_id@) ==> exists|id: Seq<char>|
                #![trigger is_instance_id(id)]
                {
                    let (end, last) = run(
                        old(self).definitions(),
                        fresh_instance(
                            id,
                            process_def_id@,
                            old(self).definitions()[process_def_id@].start_node_id@,
                        ),
                        step_budget(),
                    );
                    &&& is_instance_id(id)
                    &&& final(self).instances() == old(self).instances().insert(
                        id,
                        final(self).instances()[id],
                    )
                    &&& final(self).instances()[id]@ == last
                    &&& match end {
                        RunEnd::Failed(m) => r is Err && r->Err_0@ == m,
                        _ => r is Ok && r->Ok_0@ == id,
                    }
                },
    {
        let id = new_instance_id();
        let ghost g = id@;
        let r = self.start_process_with_id(process_def_id, id);
        assert(old(self).definitions().contains_key(process_def_id@) ==> {
            let (end, last) = run(
                old(self).definitions(),
                fresh_instance(
                    g,
                    process_def_id@,
                    old(self).definitions()[process_def_id@].start_node_id@,
                ),
                step_budget(),
            );
            &&& is_instance_id(g)
            &&& self.instances() == old(self).instances().insert(g, self.instances()[g])
            &&& self.instances()[g]@ == last
            &&& match end {
                RunEnd::Failed(m) => r is Err && r->Err_0@ == m,
                _ => r is Ok && r->Ok_0@ == g,
            }
        });
        r
    }

    /// The instance of that id.
    pub fn get_instance(&self, instance_id: &str) -> (r: Option<&ProcessInstance>)
        ensures
            match r {
                Some(i) => self.instances().contains_key(instance_id@) && *i == self.instances()[instance_id@],
                None => !self.instances().contains_key(instance_id@),
            },
    {
        self.instances.get(instance_id)
    }

    /// The variables of an instance.
    pub fn get_instance_variables(&self, instance_id: &str) -> (r: Option<&StrMap<String>>)
        ensures
            match r {
                Some(v) => self.instances().contains_key(instance_id@) && *v == self.instances()[instance_id@].variables,
                None => !self.instances().contains_key(instance_id@),
            },
    {
        match self.instances.get(instance_id) {
            Some(i) => Some(&i.variables),
            None => None,
        }
    }

    /// The state of an instance.
    pub fn get_instance_state(&self, instance_id: &str) -> (r: Option<&ProcessState>)
        ensures
            match r {
                Some(s) => self.instances().contains_key(instance_id@) && *s == self.instances()[instance_id@].state,
                None => !self.instances().contains_key(instance_id@),
            },
    {
        match self.instances.get(instance_id) {
            Some(i) => Some(&i.state),
            None => None,
        }
    }

    /// The number of active tokens of an instance.
    pub fn get_active_tokens(&self, instance_id: &str) -> (r: Option<usize>)
        ensures
            match r {
                Some(n) => self.instances().contains_key(instance_id@) && n == self.instances()[instance_id@].active_tokens,
                None => !self.instances().contains_key(instance_id@),
            },
    {
        match self.instances.get(instance_id) {
            Some(i) => Some(i.active_tokens),
            None => None,
        }
    }

    /// The number of tokens that have arrived at a joining gateway of an
    /// instance, where any have and the join is not complete.
    pub fn get_join_counter(&self, instance_id: &str, node_id: &str) -> (r: Option<usize>)
        ensures
            match r {
                Some(n) => self.instances().contains_key(instance_id@) && self.instances()[instance_id@].join_counters@.contains_key(node_id@)
                    && n == self.instances()[instance_id@].join_counters@[node_id@],
                None => !self.instances().contains_key(instance_id@) || !self.instances()[instance_id@].join_counters@.contains_key(node_id@),
            },
    {
        match self.instances.get(instance_id) {
            Some(i) => match i.join_counters.get(node_id) {
                Some(c) => Some(*c),
                None => None,
            },
            None => None,
        }
    }

    /// Whether running the instance (see `execute_instance`) keeps every
    /// token count in the range of `usize`; true where there is no such
    /// instance. The run is tried on a copy: the engine is not changed.
    pub fn run_stays_in_range(&self, instance_id: &str) -> (r: bool)
        ensures
            self.instances().contains_key(instance_id@) ==> r == !(run(
                self.definitions(),
                self.instances()[instance_id@]@,
                step_budget(),
            ).0 is OutOfRange),
    {
        let original = match self.instances.get(instance_id) {
            Some(i) => i,
            None => {
                return true;
            },
        };
        if original.pending_task.is_some() {
            proof {
                law_halted_instance_is_left_alone(self.definitions@, original@, step_budget());
            }
            return true;
        }
        let mut inst = original.copy_unpending();
        let ghost first = inst@;
        let mut fuel: usize = usize::MAX;
        loop
            invariant
                run(self.definitions@, inst@, fuel as nat) == run(self.definitions@, first, step_budget()),
                self.instances@.contains_key(instance_id@),
                first == self.instances@[instance_id@]@,
            decreases fuel,
        {
            if fuel == 0 {
                return true;
            }
            if !step_in_range(&self.definitions, &inst) {
                return false;
            }
            let ghost before = inst@;
            match step_instance(&self.definitions, &mut inst) {
                StepResult::Progressed => {
                    fuel = fuel - 1;
                },
                _ => {
                    assert(run(self.definitions@, before, fuel as nat).0 !is OutOfRange);
                    return true;
                },
            }
        }
    }
}

} // verus!
