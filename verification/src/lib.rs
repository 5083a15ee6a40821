//! A bounded-concurrency gateway in front of a logic-programming engine:
//! the value model of its answers, the encoding of engine terms, the
//! evaluation runner, and the admission and lifecycle rules.

pub mod json;
pub mod term;
pub mod codec;
pub mod config;
pub mod dispatch;
pub mod gateway;
pub mod reply;
pub mod runner;
