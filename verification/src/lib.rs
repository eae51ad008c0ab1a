//! A minimal HTTP/1.x file-server library: request parsing, path
//! resolution with traversal containment, content classification, and
//! response construction.
//!
//! The library is purely computational: callers feed it raw request
//! text and what the filesystem holds at the resolved path, and get a
//! structured response back.

pub mod classify;
pub mod request;
pub mod resolve;
pub mod response;
pub mod text;
