//! Nodes of a process graph and the tasks that they run.
pub mod config;
pub mod context;
pub mod handlers;
pub mod node;
pub mod output;
