//! Persisted multi-turn chat conversations whose replies come from a
//! completion service: the message store, the conversation resolver and the
//! two-phase send orchestration, all verified.

pub mod forms;
pub mod laws;
pub mod orchestrator;
pub mod resolver;
pub mod role;
pub mod store;
pub mod text;
