//! Decision logic of a multi-agent coding assistant: task bookkeeping and
//! the agent's decision rules, the resolution of finished tasks, the agent
//! router's graph rules (spawning, waiting, archiving, liveness), sandbox
//! and git command lines, configuration checks, and the text rendering of
//! subagent results.

pub mod ledger;
pub mod text;
pub mod id;
pub mod router;
pub mod status;
pub mod config;
pub mod bwrap;
pub mod subagent;
pub mod reap;
pub mod agent_core;
pub mod events;
pub mod gitops;
pub mod cli;
pub mod tool;
