//! Port reachability scanning: a codec for compact range notation
//! (`80,443,8000-8100`) and the decision logic of a sequential bind-or-connect
//! scan, with machine-checked contracts.
//!
//! The crate performs no network I/O itself. A driver asks the scan engine
//! what to do next, performs the bind, connect or accept, and hands the
//! outcome back.

pub mod options;
pub mod term;
pub mod bridge;
pub mod portset;
pub mod error;
pub mod parse;
pub mod serialize;
pub mod probe;
pub mod engine;
pub mod cli;
