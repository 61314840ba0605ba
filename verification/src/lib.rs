//! Titan: a verified core for a script-driven HTTP action server.
//!
//! The library covers the route table and matcher, the static-response
//! analyzer, the drift (suspend/resume) bookkeeping of a worker, the request
//! dispatcher, and the JSON model these components share. The HTTP transport,
//! the scripting engine, and the asynchronous I/O executor are outside
//! collaborators: they hand the library plain values and take plain values
//! back.

pub mod strutil;
pub mod utils;
pub mod json;
pub mod strsplit;
pub mod routes;
pub mod runtime;
pub mod fast_path;
pub mod dispatch;
pub mod ops;
pub mod extensions;
pub mod engine;
pub mod parse;
