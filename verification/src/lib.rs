//! Incremental build engine for C-family projects.
//!
//! Given the artifacts of a project — its sources, headers and previously
//! compiled objects, each a path with a modification timestamp — the engine
//! decides which sources are stale relative to the last successful build,
//! accounting transitively for quoted header dependencies, and produces the
//! concrete compiler command lines for whichever compiler family is in use.
//!
//! The engine itself is pure: it works on plain values (paths as strings,
//! timestamps as integers) that a thin shell gathers from the file system,
//! and it returns the decisions (which sources to compile, which command
//! lines to run, whether to link) for that shell to carry out.

pub mod artifact;
pub mod config;
pub mod engine;
pub mod error;
pub mod graph;
pub mod scan;
pub mod stale;
pub mod text;
pub mod tool;
