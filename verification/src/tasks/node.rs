use crate::strmap::StrMap;
use crate::tasks::config::TaskConfig;
use crate::tasks::handlers::TaskHandlerType;
use vstd::prelude::*;

verus! {

/// The kinds of node in a process graph.
#[derive(Debug, Clone)]
pub enum NodeType {
    Start,
    Task { name: String, handler_type: TaskHandlerType, config: TaskConfig },
    /// Takes one outgoing path.
    ExclusiveGateway,
    /// Forks into all outgoing paths, or joins the paths that come in.
    ParallelGateway,
    End,
}

/// A node of a process definition.
#[derive(Debug, Clone)]
pub struct Node {
    pub id: String,
    pub node_type: NodeType,
    /// Ids of the nodes that follow this one.
    pub outgoing: Vec<String>,
    /// For exclusive gateways: edge id to condition expression.
    pub conditions: StrMap<String>,
}

} // verus!
