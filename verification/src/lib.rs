//! Two tools for a coding agent: one that runs a swarm of agents, and one that
//! fetches public web pages.
//!
//! The library holds what the tools decide and compute. A swarm and a fetch are
//! state machines: each step names one thing to do outside, and takes its outcome.

pub mod body;
pub mod error;
pub mod fetch;
pub mod page;
pub mod resolve;
pub mod swarm;
pub mod text;
pub mod tool;
pub mod web_url;

pub use tool::KimiCodeExtraHandler;
