//! Process definitions and instances, and the meaning of running them: the
//! spec functions `step` and `run` say what one step and a whole run of an
//! instance do.
use crate::strmap::StrMap;
use crate::tasks::config::TaskConfig;
use crate::tasks::handlers::command::{substituted_args, CommandRequest};
use crate::tasks::handlers::TaskHandlerType;
use crate::tasks::node::{Node, NodeType};
use crate::text::{string_map_view, strings_view};
use vstd::prelude::*;

verus! {

/// A process definition: the graph of nodes that instances run through.
#[derive(Debug, Clone)]
pub struct ProcessDefinition {
    pub id: String,
    pub nodes: StrMap<Node>,
    pub start_node_id: String,
}

/// The state of an instance.
#[derive(Debug, Clone, Copy, PartialEq, Eq, Structural)]
pub enum ProcessState {
    Running,
    Completed,
    Failed,
}

/// A command task whose node an instance has reached and whose result it awaits.
#[derive(Debug, Clone)]
pub struct PendingTask {
    pub node_id: String,
    /// The program and arguments to run, references already substituted.
    pub request: CommandRequest,
    /// Task output to process variable, in the order of the task's configuration.
    pub output_mappings: StrMap<String>,
    /// Where the token goes once the task is done.
    pub outgoing: Vec<String>,
}

/// A running execution of a process definition.
#[derive(Debug, Clone)]
pub struct ProcessInstance {
    pub id: String,
    pub process_def_id: String,
    /// Tokens: the nodes to be executed, oldest first.
    pub current_node_ids: Vec<String>,
    pub state: ProcessState,
    pub variables: StrMap<String>,
    /// Paths still alive, for fork and join.
    pub active_tokens: usize,
    /// Tokens that have arrived at each joining gateway.
    pub join_counters: StrMap<usize>,
    /// The command task whose result the instance awaits.
    pub pending_task: Option<PendingTask>,
}

/// The pairs of a map to strings, each value taken by its characters.
pub open spec fn string_pairs_view(p: Seq<(Seq<char>, String)>) -> Seq<(Seq<char>, Seq<char>)> {
    p.map_values(|e: (Seq<char>, String)| (e.0, e.1@))
}

/// A pending command task, as values.
pub struct PendingView {
    pub node_id: Seq<char>,
    pub program: Seq<char>,
    pub args: Seq<Seq<char>>,
    pub mappings: Seq<(Seq<char>, Seq<char>)>,
    pub outgoing: Seq<Seq<char>>,
}

impl View for PendingTask {
    type V = PendingView;

    open spec fn view(&self) -> PendingView {
        PendingView {
            node_id: self.node_id@,
            program: self.request.program@,
            args: strings_view(self.request.args@),
            mappings: string_pairs_view(self.output_mappings.pairs()),
            outgoing: strings_view(self.outgoing@),
        }
    }
}

/// An instance, as values.
pub struct InstanceView {
    pub id: Seq<char>,
    pub process_def_id: Seq<char>,
    pub tokens: Seq<Seq<char>>,
    pub state: ProcessState,
    pub variables: Map<Seq<char>, Seq<char>>,
    pub active_tokens: int,
    pub join_counters: Map<Seq<char>, usize>,
    pub pending: Option<PendingView>,
}

impl View for ProcessInstance {
    type V = InstanceView;

    open spec fn view(&self) -> InstanceView {
        InstanceView {
            id: self.id@,
            process_def_id: self.process_def_id@,
            tokens: strings_view(self.current_node_ids@),
            state: self.state,
            variables: string_map_view(self.variables@),
            active_tokens: self.active_tokens as int,
            join_counters: self.join_counters@,
            pending: match self.pending_task {
                Some(p) => Some(p@),
                None => None,
            },
        }
    }
}

/// A new instance of definition `def_id` whose one token is at `start`.
pub open spec fn fresh_instance(id: Seq<char>, def_id: Seq<char>, start: Seq<char>) -> InstanceView {
    InstanceView {
        id,
        process_def_id: def_id,
        tokens: seq![start],
        state: ProcessState::Running,
        variables: Map::empty(),
        active_tokens: 1,
        join_counters: Map::empty(),
        pending: None,
    }
}

/// The outcome of one step of an instance.
pub enum Step {
    /// Nothing to do: the instance is not running, has no token, or awaits a task.
    Halt,
    /// The step fails with this message; the instance is left as it was.
    Fail(Seq<char>),
    /// A token count would leave the range of `usize`.
    OutOfRange,
    /// The instance after the step.
    Next(InstanceView),
}

/// Tokens moved on to `next`: they are queued in order, and a split into
/// several paths adds the extra paths to the active tokens.
pub open spec fn advance(inst: InstanceView, next: Seq<Seq<char>>) -> Step {
    let tokens = if next.len() > 1 {
        inst.active_tokens + next.len() - 1
    } else {
        inst.active_tokens
    };
    if tokens > usize::MAX {
        Step::OutOfRange
    } else {
        Step::Next(InstanceView { tokens: inst.tokens + next, active_tokens: tokens, ..inst })
    }
}

/// Whether a node has an edge to `target`.
pub open spec fn has_edge_to(target: Seq<char>) -> spec_fn(Node) -> bool {
    |n: Node| strings_view(n.outgoing@).contains(target)
}

/// Number of nodes that have an edge to `target`.
pub open spec fn count_incoming(nodes: Map<Seq<char>, Node>, target: Seq<char>) -> nat {
    nodes.dom().filter(|k: Seq<char>| has_edge_to(target)(nodes[k])).len()
}

/// A task runs nothing where its handler is not a command handler or where
/// it names no command.
pub open spec fn is_placeholder(handler: TaskHandlerType, config: TaskConfig) -> bool {
    match handler {
        TaskHandlerType::Command => config.command is None,
        _ => true,
    }
}

/// The command task that `node` starts, with arguments substituted from `vars`.
pub open spec fn pending_for(node: Node, config: TaskConfig, vars: Map<Seq<char>, Seq<char>>) -> PendingView {
    PendingView {
        node_id: node.id@,
        program: config.command->Some_0@,
        args: substituted_args(config.args@, vars),
        mappings: string_pairs_view(config.output_mappings.pairs()),
        outgoing: strings_view(node.outgoing@),
    }
}

/// Message for an instance whose definition is missing.
pub open spec fn definition_missing_message() -> Seq<char> {
    "Process definition not found"@
}

/// Message for a token at a node that the definition lacks.
pub open spec fn node_missing_message(node: Seq<char>) -> Seq<char> {
    "Node '"@ + node + "' not found"@
}

/// A joining gateway: the arriving token is counted; when as many have
/// arrived as the gateway has incoming edges, the count is cleared, the
/// joined paths merge into one, and that one moves on.
pub open spec fn join_step(popped: InstanceView, key: Seq<char>, incoming: int, out: Seq<Seq<char>>) -> Step {
    let arrived = (if popped.join_counters.contains_key(key) {
        popped.join_counters[key] as int
    } else {
        0
    }) + 1;
    if arrived > usize::MAX {
        Step::OutOfRange
    } else if arrived == incoming {
        if popped.active_tokens < incoming - 1 {
            Step::OutOfRange
        } else {
            advance(
                InstanceView {
                    join_counters: popped.join_counters.remove(key),
                    active_tokens: popped.active_tokens - (incoming - 1),
                    ..popped
                },
                out,
            )
        }
    } else {
        Step::Next(InstanceView { join_counters: popped.join_counters.insert(key, arrived as usize), ..popped })
    }
}

/// One step of an instance: the oldest token is taken and its node executed.
pub open spec fn step(defs: Map<Seq<char>, ProcessDefinition>, inst: InstanceView) -> Step {
    if inst.state != ProcessState::Running || inst.pending is Some || inst.tokens.len() == 0 {
        Step::Halt
    } else if !defs.contains_key(inst.process_def_id) {
        Step::Fail(definition_missing_message())
    } else {
        let def = defs[inst.process_def_id];
        let cur = inst.tokens[0];
        if !def.nodes@.contains_key(cur) {
            Step::Fail(node_missing_message(cur))
        } else {
            let node = def.nodes@[cur];
            let out = strings_view(node.outgoing@);
            let popped = InstanceView { tokens: inst.tokens.drop_first(), ..inst };
            match node.node_type {
                NodeType::Start => advance(popped, out),
                NodeType::Task { name, handler_type, config } => {
                    if is_placeholder(handler_type, config) {
                        advance(popped, out)
                    } else {
                        Step::Next(
                            InstanceView {
                                pending: Some(pending_for(node, config, inst.variables)),
                                ..popped
                            },
                        )
                    }
                },
                NodeType::ExclusiveGateway => {
                    if out.len() > 0 {
                        advance(popped, seq![out[0]])
                    } else {
                        Step::Next(popped)
                    }
                },
                NodeType::ParallelGateway => {
                    let incoming = count_incoming(def.nodes@, cur) as int;
                    if out.len() > 1 {
                        advance(popped, out)
                    } else if incoming > 1 {
                        join_step(popped, node.id@, incoming, out)
                    } else {
                        advance(popped, out)
                    }
                },
                NodeType::End => {
                    if popped.active_tokens == 0 {
                        Step::OutOfRange
                    } else {
                        let left = popped.active_tokens - 1;
                        Step::Next(
                            InstanceView {
                                active_tokens: left,
                                state: if left == 0 {
                                    ProcessState::Completed
                                } else {
                                    popped.state
                                },
                                ..popped
                            },
                        )
                    }
                },
            }
        }
    }
}

/// How a run ends.
pub enum RunEnd {
    /// No step is left to do, or the step budget is spent.
    Stopped,
    /// A step failed with this message.
    Failed(Seq<char>),
    /// A token count would leave the range of `usize`.
    OutOfRange,
}

/// Up to `fuel` steps of an instance: how the run ends and the instance at its end.
pub open spec fn run(defs: Map<Seq<char>, ProcessDefinition>, inst: InstanceView, fuel: nat) -> (
    RunEnd,
    InstanceView,
)
    decreases fuel,
{
    if fuel == 0 {
        (RunEnd::Stopped, inst)
    } else {
        match step(defs, inst) {
            Step::Halt => (RunEnd::Stopped, inst),
            Step::Fail(m) => (RunEnd::Failed(m), inst),
            Step::OutOfRange => (RunEnd::OutOfRange, inst),
            Step::Next(next) => run(defs, next, (fuel - 1) as nat),
        }
    }
}

/// The budget of steps of one call of `execute_instance`.
pub open spec fn step_budget() -> nat {
    usize::MAX as nat
}

/// `vars` after the output mappings, in order: each mapping whose task
/// variable the output has sets its process variable to that value.
pub open spec fn apply_mappings(
    vars: Map<Seq<char>, Seq<char>>,
    mappings: Seq<(Seq<char>, Seq<char>)>,
    output: Map<Seq<char>, Seq<char>>,
) -> Map<Seq<char>, Seq<char>>
    decreases mappings.len(),
{
    if mappings.len() == 0 {
        vars
    } else {
        let before = apply_mappings(vars, mappings.drop_last(), output);
        let m = mappings.last();
        if output.contains_key(m.0) {
            before.insert(m.1, output[m.0])
        } else {
            before
        }
    }
}

/// The instance after its pending task finished with `output`: the output is
/// mapped into its variables, the task is no longer pending, and the token
/// moves on along the task's outgoing edges.
pub open spec fn resume(inst: InstanceView, output: Map<Seq<char>, Seq<char>>) -> Step {
    let p = inst.pending->Some_0;
    advance(
        InstanceView {
            variables: apply_mappings(inst.variables, p.mappings, output),
            pending: None,
            ..inst
        },
        p.outgoing,
    )
}


/// An instance that is not running, awaits a task, or has no token is left
/// as it is by a run of any length: in particular a completed instance stays
/// completed.
pub proof fn law_halted_instance_is_left_alone(
    defs: Map<Seq<char>, ProcessDefinition>,
    inst: InstanceView,
    fuel: nat,
)
    requires
        inst.state != ProcessState::Running || inst.pending is Some || inst.tokens.len() == 0,
    ensures
        run(defs, inst, fuel) == (RunEnd::Stopped, inst),
{
}

/// A step changes neither the instance's id, nor its definition, nor its
/// variables (only a task result does, see `resume`); it only ever moves the
/// state from running to completed, and when it does, no active token is left.
pub proof fn law_step_frame(defs: Map<Seq<char>, ProcessDefinition>, inst: InstanceView)
    ensures
        step(defs, inst) matches Step::Next(n) ==> {
            &&& n.id == inst.id
            &&& n.process_def_id == inst.process_def_id
            &&& n.variables == inst.variables
            &&& n.state == inst.state || (inst.state == ProcessState::Running && n.state
                == ProcessState::Completed && n.active_tokens == 0)
        },
{
}

/// A run changes neither the instance's id, nor its definition, nor its
/// variables; a run that ends with the instance completed leaves no active
/// token.
pub proof fn law_run_frame(defs: Map<Seq<char>, ProcessDefinition>, inst: InstanceView, fuel: nat)
    ensures
        run(defs, inst, fuel).1.id == inst.id,
        run(defs, inst, fuel).1.process_def_id == inst.process_def_id,
        run(defs, inst, fuel).1.variables == inst.variables,
        inst.state == ProcessState::Running && run(defs, inst, fuel).1.state
            == ProcessState::Completed ==> run(defs, inst, fuel).1.active_tokens == 0,
    decreases fuel,
{
    if fuel > 0 {
        law_step_frame(defs, inst);
        if let Step::Next(n) = step(defs, inst) {
            law_run_frame(defs, n, (fuel - 1) as nat);
            if n.state != ProcessState::Running {
                law_halted_instance_is_left_alone(defs, n, (fuel - 1) as nat);
            }
        }
    }
}

/// A run that stops before its budget is spent stops at an instance with
/// nothing left to do, and a run that fails fails on the step from the
/// instance where it stopped.
pub proof fn law_run_ends_where_steps_end(defs: Map<Seq<char>, ProcessDefinition>, inst: InstanceView, fuel: nat)
    ensures
        ({
            let (end, last) = run(defs, inst, fuel);
            &&& end matches RunEnd::Failed(m) ==> step(defs, last) == Step::Fail(m)
            &&& end is OutOfRange ==> step(defs, last) is OutOfRange
            &&& end is Stopped ==> step(defs, last) is Halt || run_spends_budget(defs, inst, fuel)
        }),
    decreases fuel,
{
    if fuel > 0 {
        if let Step::Next(n) = step(defs, inst) {
            law_run_ends_where_steps_end(defs, n, (fuel - 1) as nat);
        }
    }
}

/// Every one of the `fuel` steps of the run makes progress.
pub open spec fn run_spends_budget(defs: Map<Seq<char>, ProcessDefinition>, inst: InstanceView, fuel: nat) -> bool
    decreases fuel,
{
    if fuel == 0 {
        true
    } else {
        match step(defs, inst) {
            Step::Next(n) => run_spends_budget(defs, n, (fuel - 1) as nat),
            _ => false,
        }
    }
}

/// When the last of the tokens that a joining gateway waits for arrives, the
/// gateway's count is cleared and one path moves on; before that, the count
/// goes up by one and nothing moves on.
pub proof fn law_join(popped: InstanceView, key: Seq<char>, incoming: int, out: Seq<Seq<char>>)
    requires
        incoming > 1,
        out.len() <= 1,
    ensures
        join_step(popped, key, incoming, out) matches Step::Next(n) ==> {
            let arrived = (if popped.join_counters.contains_key(key) {
                popped.join_counters[key] as int
            } else {
                0
            }) + 1;
            if arrived == incoming {
                &&& !n.join_counters.contains_key(key)
                &&& n.active_tokens == popped.active_tokens - (incoming - 1)
                &&& n.tokens == popped.tokens + out
            } else {
                &&& n.join_counters.contains_key(key)
                &&& n.join_counters[key] == arrived
                &&& n.tokens == popped.tokens
                &&& n.active_tokens == popped.active_tokens
            }
        },
{
}


/// The sum of the values of a map with finitely many keys.
pub open spec fn map_sum(m: Map<Seq<char>, usize>) -> int
    decreases m.dom().len(),
    when m.dom().finite()
{
    if m.dom().len() == 0 {
        0
    } else {
        let k = m.dom().choose();
        m[k] + map_sum(m.remove(k))
    }
}

proof fn lemma_map_sum_remove(m: Map<Seq<char>, usize>, k: Seq<char>)
    requires
        m.dom().finite(),
        m.dom().contains(k),
    ensures
        map_sum(m) == m[k] + map_sum(m.remove(k)),
    decreases m.dom().len(),
{
    let c = m.dom().choose();
    assert(m.dom().len() > 0);
    if c != k {
        let mc = m.remove(c);
        let mk = m.remove(k);
        lemma_map_sum_remove(mc, k);
        lemma_map_sum_remove(mk, c);
        assert(mc.remove(k) =~= mk.remove(c));
    }
}

proof fn lemma_map_sum_nonnegative(m: Map<Seq<char>, usize>)
    requires
        m.dom().finite(),
    ensures
        map_sum(m) >= 0,
    decreases m.dom().len(),
{
    if m.dom().len() > 0 {
        let k = m.dom().choose();
        lemma_map_sum_nonnegative(m.remove(k));
    }
}

proof fn lemma_map_sum_insert(m: Map<Seq<char>, usize>, k: Seq<char>, v: usize)
    requires
        m.dom().finite(),
    ensures
        m.insert(k, v).dom().finite(),
        map_sum(m.insert(k, v)) == v + map_sum(m.remove(k)),
        m.dom().contains(k) ==> map_sum(m) == m[k] + map_sum(m.remove(k)),
{
    let m2 = m.insert(k, v);
    lemma_map_sum_remove(m2, k);
    assert(m2.remove(k) =~= m.remove(k));
    if m.dom().contains(k) {
        lemma_map_sum_remove(m, k);
    }
}

/// The tokens of an instance: those queued, those waiting at joins, and the
/// one of a pending task.
pub open spec fn held_tokens(inst: InstanceView) -> int {
    inst.tokens.len() + map_sum(inst.join_counters) + if inst.pending is Some {
        1int
    } else {
        0
    }
}

/// The active-token count covers every token the instance holds.
pub open spec fn well_counted(inst: InstanceView) -> bool {
    &&& inst.join_counters.dom().finite()
    &&& 0 <= inst.active_tokens <= usize::MAX
    &&& inst.active_tokens >= held_tokens(inst)
}

/// A new instance is well counted.
pub proof fn law_fresh_instance_is_well_counted(id: Seq<char>, def_id: Seq<char>, start: Seq<char>)
    ensures
        well_counted(fresh_instance(id, def_id, start)),
{
    let f = fresh_instance(id, def_id, start);
    assert(f.join_counters.dom() =~= Set::<Seq<char>>::empty());
}

/// Token accounting: a step of a well-counted instance never takes a count
/// below zero; it goes out of range only where the node forks into more
/// paths than `usize` can count; and it leaves the instance well counted.
pub proof fn law_step_keeps_tokens_counted(defs: Map<Seq<char>, ProcessDefinition>, inst: InstanceView)
    requires
        well_counted(inst),
    ensures
        step(defs, inst) is OutOfRange ==> {
            let node = defs[inst.process_def_id].nodes@[inst.tokens[0]];
            &&& node.outgoing@.len() > 1
            &&& inst.active_tokens + node.outgoing@.len() - 1 > usize::MAX
        },
        step(defs, inst) matches Step::Next(n) ==> well_counted(n),
{
    lemma_map_sum_nonnegative(inst.join_counters);
    if inst.state == ProcessState::Running && inst.pending is None && inst.tokens.len() > 0
        && defs.contains_key(inst.process_def_id) && defs[inst.process_def_id].nodes@.contains_key(inst.tokens[0]) {
        let def = defs[inst.process_def_id];
        let cur = inst.tokens[0];
        let node = def.nodes@[cur];
        let popped = InstanceView { tokens: inst.tokens.drop_first(), ..inst };
        match node.node_type {
            NodeType::ParallelGateway => {
                let incoming = count_incoming(def.nodes@, cur) as int;
                let out = strings_view(node.outgoing@);
                if out.len() <= 1 && incoming > 1 {
                    let key = node.id@;
                    let c = if popped.join_counters.contains_key(key) {
                        popped.join_counters[key] as int
                    } else {
                        0
                    };
                    if popped.join_counters.contains_key(key) {
                        lemma_map_sum_remove(popped.join_counters, key);
                        lemma_map_sum_nonnegative(popped.join_counters.remove(key));
                    }
                    let arrived = c + 1;
                    if arrived != incoming {
                        lemma_map_sum_insert(popped.join_counters, key, arrived as usize);
                        if !popped.join_counters.contains_key(key) {
                            assert(popped.join_counters.remove(key) =~= popped.join_counters);
                        }
                    } else {
                        if !popped.join_counters.contains_key(key) {
                            assert(popped.join_counters.remove(key) =~= popped.join_counters);
                        }
                    }
                }
            },
            _ => {},
        }
    }
}

/// Handing a task result back keeps a well-counted instance well counted,
/// where the count stays in range.
pub proof fn law_resume_keeps_tokens_counted(inst: InstanceView, output: Map<Seq<char>, Seq<char>>)
    requires
        well_counted(inst),
        inst.pending is Some,
    ensures
        resume(inst, output) matches Step::Next(n) ==> well_counted(n),
{
}

/// A run of a well-counted instance keeps it well counted, and ends out of
/// range only at a fork into more paths than `usize` can count.
pub proof fn law_run_keeps_tokens_counted(defs: Map<Seq<char>, ProcessDefinition>, inst: InstanceView, fuel: nat)
    requires
        well_counted(inst),
    ensures
        well_counted(run(defs, inst, fuel).1),
        run(defs, inst, fuel).0 is OutOfRange ==> {
            let last = run(defs, inst, fuel).1;
            let node = defs[last.process_def_id].nodes@[last.tokens[0]];
            &&& node.outgoing@.len() > 1
            &&& last.active_tokens + node.outgoing@.len() - 1 > usize::MAX
        },
    decreases fuel,
{
    if fuel > 0 {
        law_step_keeps_tokens_counted(defs, inst);
        if let Step::Next(n) = step(defs, inst) {
            law_run_keeps_tokens_counted(defs, n, (fuel - 1) as nat);
        }
    }
}


/// Output mappings whose process variables are pairwise distinct.
pub open spec fn distinct_targets(mappings: Seq<(Seq<char>, Seq<char>)>) -> bool {
    forall|i: int, j: int|
        0 <= i < mappings.len() && 0 <= j < mappings.len() && i != j ==> #[trigger] mappings[i].1
            != #[trigger] mappings[j].1
}

/// Where no two mappings set the same process variable, the order of the
/// mappings does not matter: each mapping whose task variable the output
/// has sets its process variable to that value, each other mapping leaves
/// its process variable as it was, and every variable that no mapping names
/// is left as it was.
pub proof fn law_apply_mappings(
    vars: Map<Seq<char>, Seq<char>>,
    mappings: Seq<(Seq<char>, Seq<char>)>,
    output: Map<Seq<char>, Seq<char>>,
)
    requires
        distinct_targets(mappings),
    ensures
        forall|i: int|
            0 <= i < mappings.len() ==> {
                let r = apply_mappings(vars, mappings, output);
                let (tv, pv) = #[trigger] mappings[i];
                if output.contains_key(tv) {
                    r.contains_key(pv) && r[pv] == output[tv]
                } else {
                    r.contains_key(pv) == vars.contains_key(pv) && (vars.contains_key(pv) ==> r[pv]
                        == vars[pv])
                }
            },
        forall|k: Seq<char>|
            (forall|i: int| 0 <= i < mappings.len() ==> #[trigger] mappings[i].1 != k) ==> (
            #[trigger] apply_mappings(vars, mappings, output).contains_key(k) == vars.contains_key(k)
                && (vars.contains_key(k) ==> apply_mappings(vars, mappings, output)[k] == vars[k])),
    decreases mappings.len(),
{
    if mappings.len() > 0 {
        let q = mappings.drop_last();
        assert(distinct_targets(q)) by {
            assert forall|a: int, b: int|
                0 <= a < q.len() && 0 <= b < q.len() && a != b implies #[trigger] q[a].1
                != #[trigger] q[b].1 by {
                assert(q[a] == mappings[a] && q[b] == mappings[b]);
            }
        }
        law_apply_mappings(vars, q, output);
        let last = mappings.last();
        assert forall|i: int| 0 <= i < q.len() implies #[trigger] q[i].1 != last.1 by {
            assert(q[i] == mappings[i]);
            assert(mappings[mappings.len() - 1] == last);
        }
        assert forall|i: int| 0 <= i < mappings.len() implies {
            let r = apply_mappings(vars, mappings, output);
            let (tv, pv) = #[trigger] mappings[i];
            if output.contains_key(tv) {
                r.contains_key(pv) && r[pv] == output[tv]
            } else {
                r.contains_key(pv) == vars.contains_key(pv) && (vars.contains_key(pv) ==> r[pv]
                    == vars[pv])
            }
        } by {
            let r = apply_mappings(vars, mappings, output);
            let rq = apply_mappings(vars, q, output);
            assert(r == if output.contains_key(last.0) {
                rq.insert(last.1, output[last.0])
            } else {
                rq
            });
            if i < q.len() {
                assert(q[i] == mappings[i]);
                assert(q[i].1 != last.1);
                let (tv, pv) = q[i];
                assert(output.contains_key(tv) ==> rq.contains_key(pv) && rq[pv] == output[tv]);
            } else {
                assert(mappings[i] == last);
                assert forall|j: int| 0 <= j < q.len() implies #[trigger] q[j].1 != last.1 by {
                    assert(q[j] == mappings[j]);
                }
            }
        }
        assert forall|k: Seq<char>|
            (forall|i: int| 0 <= i < mappings.len() ==> #[trigger] mappings[i].1 != k) implies (
            #[trigger] apply_mappings(vars, mappings, output).contains_key(k) == vars.contains_key(k)
                && (vars.contains_key(k) ==> apply_mappings(vars, mappings, output)[k] == vars[k])) by {
            assert forall|i: int| 0 <= i < q.len() implies #[trigger] q[i].1 != k by {
                assert(q[i] == mappings[i]);
            }
            assert(mappings[mappings.len() - 1] == last);
            let r = apply_mappings(vars, mappings, output);
            let rq = apply_mappings(vars, q, output);
            assert(r == if output.contains_key(last.0) {
                rq.insert(last.1, output[last.0])
            } else {
                rq
            });
            assert(rq.contains_key(k) == vars.contains_key(k));
        }
    }
}


/// Running again an instance that a run left behind does the same again:
/// it ends the same way and changes nothing, unless the first run spent its
/// whole budget on steps that each made progress.
pub proof fn law_run_again_changes_nothing(
    defs: Map<Seq<char>, ProcessDefinition>,
    inst: InstanceView,
    fuel: nat,
    again: nat,
)
    requires
        again > 0,
        !run_spends_budget(defs, inst, fuel),
    ensures
        run(defs, run(defs, inst, fuel).1, again) == run(defs, inst, fuel),
{
    law_run_ends_where_steps_end(defs, inst, fuel);
    let (end, last) = run(defs, inst, fuel);
    if let RunEnd::Stopped = end {
        law_halted_instance_is_left_alone(defs, last, again);
    }
}

/// The active-token count covers the queued tokens and the tokens waiting at
/// joins.
pub open spec fn tokens_covered(inst: InstanceView) -> bool {
    &&& inst.join_counters.dom().finite()
    &&& 0 <= inst.active_tokens <= usize::MAX
    &&& inst.active_tokens >= inst.tokens.len() + map_sum(inst.join_counters)
}

/// A run of an instance whose active-token count covers its queued and
/// waiting tokens (as for every instance that `instantiate` makes) never
/// takes a count below zero: it ends out of range only at a fork into more
/// paths than `usize` can count. The instance it leaves behind, whether the
/// run stops or fails, is covered in the same way.
pub proof fn law_run_keeps_tokens_covered(defs: Map<Seq<char>, ProcessDefinition>, inst: InstanceView, fuel: nat)
    requires
        tokens_covered(inst),
    ensures
        tokens_covered(run(defs, inst, fuel).1),
        run(defs, inst, fuel).0 is OutOfRange ==> {
            let last = run(defs, inst, fuel).1;
            let node = defs[last.process_def_id].nodes@[last.tokens[0]];
            &&& node.outgoing@.len() > 1
            &&& last.active_tokens + node.outgoing@.len() - 1 > usize::MAX
        },
{
    if inst.pending is Some {
        law_halted_instance_is_left_alone(defs, inst, fuel);
    } else {
        law_run_keeps_tokens_counted(defs, inst, fuel);
        lemma_map_sum_nonnegative(run(defs, inst, fuel).1.join_counters);
    }
}


/// Every join counter of the instance counts at least one waiting token.
pub open spec fn counters_positive(inst: InstanceView) -> bool {
    forall|k: Seq<char>| #[trigger] inst.join_counters.contains_key(k) ==> inst.join_counters[k] >= 1
}

proof fn lemma_map_sum_zero_is_empty(m: Map<Seq<char>, usize>)
    requires
        m.dom().finite(),
        forall|k: Seq<char>| #[trigger] m.contains_key(k) ==> m[k] >= 1,
        map_sum(m) <= 0,
    ensures
        m == Map::<Seq<char>, usize>::empty(),
{
    if m.dom().len() > 0 {
        let k = m.dom().choose();
        assert(m.dom().contains(k));
        lemma_map_sum_remove(m, k);
        lemma_map_sum_nonnegative(m.remove(k));
        assert(false);
    }
    assert(m.dom() =~= Set::<Seq<char>>::empty());
    assert(m =~= Map::<Seq<char>, usize>::empty());
}

/// A step keeps every join counter at one or more, and it completes a running
/// instance only at an end node.
pub proof fn law_step_counters_and_completion(defs: Map<Seq<char>, ProcessDefinition>, inst: InstanceView)
    requires
        counters_positive(inst),
    ensures
        step(defs, inst) matches Step::Next(n) ==> {
            &&& counters_positive(n)
            &&& inst.state == ProcessState::Running && n.state == ProcessState::Completed ==> defs[inst.process_def_id].nodes@[inst.tokens[0]].node_type is End
        },
{
    if let Step::Next(n) = step(defs, inst) {
        assert forall|k: Seq<char>| #[trigger] n.join_counters.contains_key(k) implies n.join_counters[k] >= 1 by {
            assert(inst.join_counters.contains_key(k) ==> inst.join_counters[k] >= 1);
        }
    }
}

proof fn lemma_run_keeps_counters_positive(defs: Map<Seq<char>, ProcessDefinition>, inst: InstanceView, fuel: nat)
    requires
        counters_positive(inst),
    ensures
        counters_positive(run(defs, inst, fuel).1),
    decreases fuel,
{
    if fuel > 0 {
        law_step_counters_and_completion(defs, inst);
        if let Step::Next(n) = step(defs, inst) {
            lemma_run_keeps_counters_positive(defs, n, (fuel - 1) as nat);
        }
    }
}

/// A run of a running instance whose active-token count covers its queued
/// and waiting tokens and whose join counters are at one or more (as for
/// every instance that `instantiate` makes) leaves it running or completed,
/// never failed; and a completed instance has no active token, no queued
/// token, no join counter and no pending task.
pub proof fn law_completion(defs: Map<Seq<char>, ProcessDefinition>, inst: InstanceView, fuel: nat)
    requires
        tokens_covered(inst),
        counters_positive(inst),
        inst.state == ProcessState::Running,
    ensures
        ({
            let last = run(defs, inst, fuel).1;
            &&& last.state == ProcessState::Running || last.state == ProcessState::Completed
            &&& last.state == ProcessState::Completed ==> {
                &&& last.active_tokens == 0
                &&& last.tokens.len() == 0
                &&& last.join_counters == Map::<Seq<char>, usize>::empty()
                &&& last.pending is None
            }
        }),
{
    let last = run(defs, inst, fuel).1;
    law_run_frame(defs, inst, fuel);
    if inst.pending is Some {
        law_halted_instance_is_left_alone(defs, inst, fuel);
    } else {
        law_run_keeps_tokens_counted(defs, inst, fuel);
        lemma_run_keeps_counters_positive(defs, inst, fuel);
        law_run_state(defs, inst, fuel);
        if last.state == ProcessState::Completed {
            lemma_map_sum_nonnegative(last.join_counters);
            lemma_map_sum_zero_is_empty(last.join_counters);
        }
    }
}

/// A run never sets the failed state: it leaves the state as it was or moves
/// a running instance to completed.
pub proof fn law_run_state(defs: Map<Seq<char>, ProcessDefinition>, inst: InstanceView, fuel: nat)
    ensures
        run(defs, inst, fuel).1.state == inst.state || (inst.state == ProcessState::Running
            && run(defs, inst, fuel).1.state == ProcessState::Completed),
    decreases fuel,
{
    if fuel > 0 {
        law_step_frame(defs, inst);
        if let Step::Next(n) = step(defs, inst) {
            law_run_state(defs, n, (fuel - 1) as nat);
        }
    }
}

/// A new instance has no join counter.
pub proof fn law_fresh_instance_counters(id: Seq<char>, def_id: Seq<char>, start: Seq<char>)
    ensures
        counters_positive(fresh_instance(id, def_id, start)),
        tokens_covered(fresh_instance(id, def_id, start)),
{
    law_fresh_instance_is_well_counted(id, def_id, start);
}


/// An exclusive gateway takes its first path: the token at the gateway
/// leaves the queue, a token for the first outgoing node joins it at the end
/// (none where the gateway has no outgoing edge), and nothing else changes.
pub proof fn law_exclusive_gateway_takes_first_path(defs: Map<Seq<char>, ProcessDefinition>, inst: InstanceView)
    requires
        inst.state == ProcessState::Running,
        inst.pending is None,
        inst.tokens.len() > 0,
        defs.contains_key(inst.process_def_id),
        defs[inst.process_def_id].nodes@.contains_key(inst.tokens[0]),
        defs[inst.process_def_id].nodes@[inst.tokens[0]].node_type is ExclusiveGateway,
        inst.active_tokens <= usize::MAX,
    ensures
        ({
            let out = strings_view(defs[inst.process_def_id].nodes@[inst.tokens[0]].outgoing@);
            &&& step(defs, inst) is Next
            &&& step(defs, inst) matches Step::Next(n) && {
                &&& out.len() > 0 ==> n.tokens == inst.tokens.drop_first().push(out[0])
                &&& out.len() == 0 ==> n.tokens == inst.tokens.drop_first()
                &&& n.active_tokens == inst.active_tokens
                &&& n.join_counters == inst.join_counters
                &&& n.variables == inst.variables
                &&& n.state == inst.state
                &&& n.pending == inst.pending
            }
        }),
{
    let out = strings_view(defs[inst.process_def_id].nodes@[inst.tokens[0]].outgoing@);
    if out.len() > 0 {
        assert(inst.tokens.drop_first() + seq![out[0]] =~= inst.tokens.drop_first().push(out[0]));
    }
    assert(inst.tokens.drop_first() + Seq::<Seq<char>>::empty() =~= inst.tokens.drop_first());
}

/// An end node ends one path: the token at the end node leaves the queue,
/// the active-token count goes down by exactly one, the queued tokens and
/// join counters are left as they are, and the instance is completed exactly
/// when no active token is left.
pub proof fn law_end_node_ends_one_path(defs: Map<Seq<char>, ProcessDefinition>, inst: InstanceView)
    requires
        inst.state == ProcessState::Running,
        inst.pending is None,
        inst.tokens.len() > 0,
        defs.contains_key(inst.process_def_id),
        defs[inst.process_def_id].nodes@.contains_key(inst.tokens[0]),
        defs[inst.process_def_id].nodes@[inst.tokens[0]].node_type is End,
        inst.active_tokens > 0,
    ensures
        step(defs, inst) matches Step::Next(n) && {
            &&& n.active_tokens == inst.active_tokens - 1
            &&& n.tokens == inst.tokens.drop_first()
            &&& n.join_counters == inst.join_counters
            &&& n.variables == inst.variables
            &&& n.pending == inst.pending
            &&& (n.state == ProcessState::Completed <==> n.active_tokens == 0)
            &&& (n.state == ProcessState::Running <==> n.active_tokens > 0)
        },
{
}

/// Every node with an edge to `target` counts towards the target's incoming
/// edges, whatever its kind: taking away a node with such an edge lowers the
/// count by exactly one, taking away any other node leaves it as it is, and
/// no nodes give no incoming edge.
pub proof fn law_count_incoming(nodes: Map<Seq<char>, Node>, target: Seq<char>, k: Seq<char>)
    requires
        nodes.dom().finite(),
        nodes.contains_key(k),
    ensures
        count_incoming(Map::<Seq<char>, Node>::empty(), target) == 0,
        strings_view(nodes[k].outgoing@).contains(target) ==> count_incoming(nodes, target)
            == count_incoming(nodes.remove(k), target) + 1,
        !strings_view(nodes[k].outgoing@).contains(target) ==> count_incoming(nodes, target)
            == count_incoming(nodes.remove(k), target),
{
    let f = |m: Map<Seq<char>, Node>| |key: Seq<char>| has_edge_to(target)(m[key]);
    let e = Map::<Seq<char>, Node>::empty();
    assert(e.dom().filter(|key: Seq<char>| has_edge_to(target)(e[key])) =~= Set::<Seq<char>>::empty());
    let r = nodes.remove(k);
    let sa = nodes.dom().filter(|key: Seq<char>| has_edge_to(target)(nodes[key]));
    let sr = r.dom().filter(|key: Seq<char>| has_edge_to(target)(r[key]));
    nodes.dom().lemma_len_filter(|key: Seq<char>| has_edge_to(target)(nodes[key]));
    r.dom().lemma_len_filter(|key: Seq<char>| has_edge_to(target)(r[key]));
    if strings_view(nodes[k].outgoing@).contains(target) {
        assert(sa =~= sr.insert(k));
        assert(!sr.contains(k));
    } else {
        assert(sa =~= sr);
    }
}

proof fn lemma_run_stable(defs: Map<Seq<char>, ProcessDefinition>, inst: InstanceView, k: nat, f: nat)
    requires
        f >= k,
        !run_spends_budget(defs, inst, k),
    ensures
        run(defs, inst, f) == run(defs, inst, k),
    decreases k,
{
    if k > 0 {
        if let Step::Next(n) = step(defs, inst) {
            lemma_run_stable(defs, n, (k - 1) as nat, (f - 1) as nat);
        }
    }
}

/// `execute_instance` runs an instance as far as it goes: where the instance
/// halts, fails or leaves range within any number of steps up to
/// `usize::MAX`, the run of `execute_instance` ends exactly as that shorter
/// run does; in particular it stops at an instance with nothing left to do.
pub proof fn law_execution_runs_to_the_end(defs: Map<Seq<char>, ProcessDefinition>, inst: InstanceView, k: nat)
    requires
        k <= usize::MAX,
        !run_spends_budget(defs, inst, k),
    ensures
        run(defs, inst, step_budget()) == run(defs, inst, k),
        run(defs, inst, step_budget()).0 is Stopped ==> step(defs, run(defs, inst, step_budget()).1) is Halt,
{
    lemma_run_stable(defs, inst, k, step_budget());
    law_run_ends_where_steps_end(defs, inst, k);
}

} // verus!
