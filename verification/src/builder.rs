//! A builder of process definitions.
use crate::model::ProcessDefinition;
use crate::strmap::StrMap;
use crate::tasks::config::TaskConfig;
use crate::tasks::handlers::TaskHandlerType;
use crate::tasks::node::{Node, NodeType};
use crate::text::strings_view;
use vstd::prelude::*;

verus! {

/// A node with the given id, no outgoing edge and no condition.
pub open spec fn is_fresh_node(n: Node, id: Seq<char>) -> bool {
    &&& n.id@ == id
    &&& n.outgoing@.len() == 0
    &&& n.conditions@ == Map::<Seq<char>, String>::empty()
}

/// A configuration with no URL, no method and no mappings.
pub open spec fn is_plain_config(c: TaskConfig) -> bool {
    &&& c.url is None
    &&& c.method is None
    &&& c.input_mappings@ == Map::<Seq<char>, String>::empty()
    &&& c.output_mappings@ == Map::<Seq<char>, String>::empty()
    &&& c.output_mappings.pairs().len() == 0
}

/// A command task node named `name` running `command` (or nothing) with `args`.
pub open spec fn is_command_task(n: Node, name: Seq<char>, command: Option<Seq<char>>, args: Seq<Seq<char>>) -> bool {
    match n.node_type {
        NodeType::Task { name: nm, handler_type, config } => {
            &&& nm@ == name
            &&& handler_type == TaskHandlerType::Command
            &&& is_plain_config(config)
            &&& match command {
                Some(c) => config.command is Some && config.command->Some_0@ == c,
                None => config.command is None,
            }
            &&& strings_view(config.args@) == args
        },
        _ => false,
    }
}

/// Message of `build` without a start node.
pub open spec fn missing_start_message() -> Seq<char> {
    "Process must have a start node"@
}

/// Builds process definitions node by node.
#[derive(Debug, Clone)]
pub struct ProcessBuilder {
    pub id: String,
    pub nodes: StrMap<Node>,
    pub start_node_id: Option<String>,
}

fn plain_node(id: &str, node_type: NodeType) -> (n: Node)
    ensures
        is_fresh_node(n, id@),
        n.node_type == node_type,
{
    Node { id: String::from_str(id), node_type, outgoing: Vec::new(), conditions: StrMap::new() }
}

impl ProcessBuilder {
    /// A builder of a definition with this id and no nodes.
    pub fn new(id: &str) -> (b: Self)
        ensures
            b.id@ == id@,
            b.nodes@ == Map::<Seq<char>, Node>::empty(),
            b.start_node_id is None,
    {
        ProcessBuilder { id: String::from_str(id), nodes: StrMap::new(), start_node_id: None }
    }

    fn add_node(self, id: &str, node_type: NodeType) -> (b: Self)
        ensures
            b.id == self.id,
            b.start_node_id == self.start_node_id,
            b.nodes@ == self.nodes@.insert(id@, b.nodes@[id@]),
            is_fresh_node(b.nodes@[id@], id@),
            b.nodes@[id@].node_type == node_type,
    {
        let mut b = self;
        b.nodes.insert(String::from_str(id), plain_node(id, node_type));
        b
    }

    /// Adds (or replaces) a start node and makes it the start of the process.
    pub fn add_start(self, id: &str) -> (b: Self)
        ensures
            b.id == self.id,
            b.start_node_id is Some && b.start_node_id->Some_0@ == id@,
            b.nodes@ == self.nodes@.insert(id@, b.nodes@[id@]),
            is_fresh_node(b.nodes@[id@], id@),
            b.nodes@[id@].node_type is Start,
    {
        let mut b = self.add_node(id, NodeType::Start);
        b.start_node_id = Some(String::from_str(id));
        b
    }

    /// Adds (or replaces) a task node without a command: running it does
    /// nothing but move its token on.
    pub fn add_task(self, id: &str, name: &str) -> (b: Self)
        ensures
            b.id == self.id,
            b.start_node_id == self.start_node_id,
            b.nodes@ == self.nodes@.insert(id@, b.nodes@[id@]),
            is_fresh_node(b.nodes@[id@], id@),
            is_command_task(b.nodes@[id@], name@, None, Seq::empty()),
    {
        let config = TaskConfig::new();
        assert(strings_view(config.args@) =~= Seq::<Seq<char>>::empty());
        self.add_node(
            id,
            NodeType::Task {
                name: String::from_str(name),
                handler_type: TaskHandlerType::Command,
                config,
            },
        )
    }

    /// Adds (or replaces) a task node that runs `command` with `args`.
    pub fn add_command_task(self, id: &str, name: &str, command: &str, args: Vec<&str>) -> (b:
        Self)
        ensures
            b.id == self.id,
            b.start_node_id == self.start_node_id,
            b.nodes@ == self.nodes@.insert(id@, b.nodes@[id@]),
            is_fresh_node(b.nodes@[id@], id@),
            is_command_task(
                b.nodes@[id@],
                name@,
                Some(command@),
                args@.map_values(|a: &str| a@),
            ),
    {
        let mut config = TaskConfig::new();
        config.command = Some(String::from_str(command));
        let mut owned: Vec<String> = Vec::new();
        let n = args.len();
        for i in 0..n
            invariant
                n == args@.len(),
                owned@.len() == i,
                forall|j: int| 0 <= j < i ==> #[trigger] owned@[j]@ == args@[j]@,
        {
            owned.push(String::from_str(args[i]));
        }
        assert(strings_view(owned@) =~= args@.map_values(|a: &str| a@));
        config.args = owned;
        self.add_node(
            id,
            NodeType::Task {
                name: String::from_str(name),
                handler_type: TaskHandlerType::Command,
                config,
            },
        )
    }

    /// Maps the task output `task_var` of task `task_id` to the process
    /// variable `process_var`; where `task_id` is not a task, changes nothing.
    pub fn set_output_mapping(self, task_id: &str, task_var: &str, process_var: &str) -> (b: Self)
        ensures
            b.id == self.id,
            b.start_node_id == self.start_node_id,
            !(self.nodes@.contains_key(task_id@) && self.nodes@[task_id@].node_type is Task)
                ==> b.nodes@ == self.nodes@,
            self.nodes@.contains_key(task_id@) && self.nodes@[task_id@].node_type is Task ==> {
                let before = self.nodes@[task_id@];
                let after = b.nodes@[task_id@];
                &&& b.nodes@ == self.nodes@.insert(task_id@, after)
                &&& after.id == before.id
                &&& after.outgoing == before.outgoing
                &&& after.conditions == before.conditions
                &&& match (before.node_type, after.node_type) {
                    (
                        NodeType::Task { name: n1, handler_type: h1, config: c1 },
                        NodeType::Task { name: n2, handler_type: h2, config: c2 },
                    ) => {
                        &&& n1 == n2
                        &&& h1 == h2
                        &&& c2.command == c1.command
                        &&& c2.args == c1.args
                        &&& c2.url == c1.url
                        &&& c2.method == c1.method
                        &&& c2.input_mappings == c1.input_mappings
                        &&& c2.output_mappings@ == c1.output_mappings@.insert(
                            task_var@,
                            c2.output_mappings@[task_var@],
                        )
                        &&& c2.output_mappings@[task_var@]@ == process_var@
                        &&& c1.output_mappings@.contains_key(task_var@) ==> exists|i: int|
                            0 <= i < c1.output_mappings.pairs().len()
                                && c1.output_mappings.pairs()[i].0 == task_var@
                                && c2.output_mappings.pairs() == c1.output_mappings.pairs().update(
                                i,
                                (task_var@, c2.output_mappings@[task_var@]),
                            )
                        &&& !c1.output_mappings@.contains_key(task_var@)
                            ==> c2.output_mappings.pairs() == c1.output_mappings.pairs().push(
                            (task_var@, c2.output_mappings@[task_var@]),
                        )
                    },
                    _ => false,
                }
            },
    {
        let mut b = self;
        let is_task = match b.nodes.get(task_id) {
            Some(node) => match &node.node_type {
                NodeType::Task { .. } => true,
                _ => false,
            },
            None => false,
        };
        if !is_task {
            return b;
        }
        let taken = b.nodes.replace(task_id, plain_node("", NodeType::End));
        let node = match taken {
            Some(n) => n,
            None => {
                return b;
            },
        };
        let Node { id, node_type, outgoing, conditions } = node;
        let node_type = match node_type {
            NodeType::Task { name, handler_type, config } => {
                let mut config = config;
                config.output_mappings.insert(String::from_str(task_var), String::from_str(process_var));
                NodeType::Task { name, handler_type, config }
            },
            other => other,
        };
        b.nodes.replace(task_id, Node { id, node_type, outgoing, conditions });
        b
    }

    /// Adds (or replaces) an exclusive gateway, which takes its first path.
    pub fn add_exclusive_gateway(self, id: &str) -> (b: Self)
        ensures
            b.id == self.id,
            b.start_node_id == self.start_node_id,
            b.nodes@ == self.nodes@.insert(id@, b.nodes@[id@]),
            is_fresh_node(b.nodes@[id@], id@),
            b.nodes@[id@].node_type is ExclusiveGateway,
    {
        self.add_node(id, NodeType::ExclusiveGateway)
    }

    /// Adds (or replaces) a parallel gateway, which forks or joins.
    pub fn add_parallel_gateway(self, id: &str) -> (b: Self)
        ensures
            b.id == self.id,
            b.start_node_id == self.start_node_id,
            b.nodes@ == self.nodes@.insert(id@, b.nodes@[id@]),
            is_fresh_node(b.nodes@[id@], id@),
            b.nodes@[id@].node_type is ParallelGateway,
    {
        self.add_node(id, NodeType::ParallelGateway)
    }

    /// Adds (or replaces) an end node.
    pub fn add_end(self, id: &str) -> (b: Self)
        ensures
            b.id == self.id,
            b.start_node_id == self.start_node_id,
            b.nodes@ == self.nodes@.insert(id@, b.nodes@[id@]),
            is_fresh_node(b.nodes@[id@], id@),
            b.nodes@[id@].node_type is End,
    {
        self.add_node(id, NodeType::End)
    }

    /// Adds an edge from `from` to `to`; where there is no node `from`,
    /// changes nothing.
    pub fn connect(self, from: &str, to: &str) -> (b: Self)
        ensures
            b.id == self.id,
            b.start_node_id == self.start_node_id,
            !self.nodes@.contains_key(from@) ==> b.nodes@ == self.nodes@,
            self.nodes@.contains_key(from@) ==> {
                let before = self.nodes@[from@];
                let after = b.nodes@[from@];
                &&& b.nodes@ == self.nodes@.insert(from@, after)
                &&& after.id == before.id
                &&& after.node_type == before.node_type
                &&& after.conditions == before.conditions
                &&& strings_view(after.outgoing@) == strings_view(before.outgoing@).push(to@)
            },
    {
        let mut b = self;
        let taken = b.nodes.replace(from, plain_node("", NodeType::End));
        match taken {
            Some(node) => {
                let mut node = node;
                let ghost before = node;
                node.outgoing.push(String::from_str(to));
                assert(strings_view(node.outgoing@) =~= strings_view(before.outgoing@).push(to@));
                b.nodes.replace(from, node);
                b
            },
            None => b,
        }
    }

    /// The definition; fails where no start node was added.
    pub fn build(self) -> (r: Result<ProcessDefinition, String>)
        ensures
            self.start_node_id is None ==> r is Err && r->Err_0@ == missing_start_message(),
            self.start_node_id is Some ==> r is Ok && r->Ok_0.id == self.id && r->Ok_0.nodes
                == self.nodes && r->Ok_0.start_node_id == self.start_node_id->Some_0,
    {
        match self.start_node_id {
            None => Err(String::from_str("Process must have a start node")),
            Some(start) => Ok(ProcessDefinition { id: self.id, nodes: self.nodes, start_node_id: start }),
        }
    }
}

} // verus!
