//! A verified core for a file relocation tool.
//!
//! The library models paths as byte strings, resolves destinations for
//! "move into directory" transfers, and drives a transfer engine that
//! decides, step by step, which filesystem action to perform next.
//! Filesystem effects themselves are carried out by the caller, which
//! reports each action's result back to the engine; an in-memory
//! filesystem model allows whole transfers to run inside the library.

pub mod engine;
pub mod memfs;
pub mod paths;
pub mod request;
pub mod runner;
