//! A small interactive command interpreter, verified with Verus: it lexes a
//! command line into tokens, expands variable and tilde references, resolves
//! command words against `PATH`, groups the result into pipeline stages with
//! redirections and a background flag, and tracks background children in a
//! job table with a concurrency ceiling.


pub mod builtins;
pub mod executor;
pub mod expand;
pub mod job;
pub mod parser;
pub mod pipeline;
pub mod report;
