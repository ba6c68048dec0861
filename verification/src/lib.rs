//! Agent-loop library: conversation messages, the turn state machine,
//! context compaction, prompt assembly, sessions and the built-in tools.
//!
//! Everything here computes on plain values. Reading files, talking to a
//! provider and running processes is left to the program around it.

pub mod compaction;
pub mod config;
pub mod context;
pub mod json;
pub mod loop_engine;
pub mod message;
pub mod order;
pub mod path;
pub mod prompting;
pub mod runtime_agent;
pub mod session;
pub mod session_registry;
pub mod text;
pub mod tool;
pub mod tool_catalog;
pub mod tools;

pub use compaction::{CompactorConfig, SummaryCompactor};
pub use config::{AgentConfig, ModelConfig, PerryHermesConfig, ProviderConfig, ProviderKind};
pub use loop_engine::agent_loop::AgentLoop;
pub use loop_engine::events::{AgentRunError, FailedTurn, LoopEvent, LoopMetrics, RunResult};
pub use loop_engine::run::{ContextWindow, LoopConfig};
pub use runtime_agent::AIAgent;
pub use session::AgentSession;
pub use session_registry::{default_sessions_dir, SessionEntry, SessionRegistry};
