//! A small process (workflow) engine: process definitions are graphs of
//! start, task, gateway and end nodes; instances move tokens through them.
pub mod builder;
pub mod engine;
pub mod ids;
pub mod model;
pub mod persistence;
pub mod strmap;
pub mod tasks;
pub mod text;

pub use builder::ProcessBuilder;
pub use engine::ProcessEngine;
pub use model::{PendingTask, ProcessDefinition, ProcessInstance, ProcessState};
pub use strmap::StrMap;
