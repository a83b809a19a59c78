//! A small scripting engine for multi-turn conversational flows.
//!
//! Source text is parsed into a `Flow` of named steps; a step's instruction
//! list is executed to produce outbound messages and memory writes, with the
//! ability to suspend mid-step (a `Hold`) and resume later from the recorded
//! position.  A persistence layer builds storage keys and drives a
//! retry-with-backoff discipline for a capacity-limited backend.

pub mod ast;
pub mod keys;
pub mod retry;
pub mod codec;
pub mod parser;
pub mod engine;
pub mod store;
