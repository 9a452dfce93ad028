//! What the agent decided, and why: reasoning traces.

pub mod reasoning_trace;

pub use reasoning_trace::{DecisionType, InMemoryTraceEmitter, ReasoningTrace, TraceEmitter};
