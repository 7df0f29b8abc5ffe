//! Workflow effect engine: transactional workspaces over per-cell state,
//! workflows that turn an invocation into an effect, and a dispatcher that
//! commits effects atomically, schedules their triggers and routes signals.

pub mod bundle;
pub mod codec;
pub mod crypto;
pub mod dispatcher;
pub mod effect;
pub mod engine;
pub mod error;
pub mod kvmap;
pub mod store;
pub mod sys_time;
pub mod types;
pub mod workflow;
pub mod workspace;
