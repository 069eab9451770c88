//! The HTTP layer: errors, authentication, framing and endpoint decisions.
pub mod error;
pub mod sse;
pub mod auth;
pub mod handlers;
