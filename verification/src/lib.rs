//! Verified core of a llama.cpp-compatible completion server: stop-word
//! scanning, incremental UTF-8 decoding, request parsing, the per-token
//! generation state machine, the prompt cache, metrics and error mapping.

pub mod bench;
pub mod config;
pub mod engine;
pub mod http;
pub mod json;
