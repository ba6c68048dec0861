//! The agent loop: what happens in a turn, as steps from one event of the
//! outside world to the next.

pub mod agent_loop;
pub mod events;
pub mod metrics;
pub mod run;
pub mod stream;
