//! The engine: tasks, their parsing and the generation state machine.
pub mod chat;
pub mod completion;
pub mod completion_json;
pub mod engine_loop;
pub mod generation;
pub mod lossy_utf8;
pub mod metrics;
pub mod prompt_cache;
pub mod requests;
pub mod runtime;
pub mod sampler;
pub mod slot;
pub mod task;
