//! A small snapshot-based version-control library: repository layout,
//! reference handling, commit-log formatting and parsing.

pub mod bindings;
pub mod cli;
pub mod commands;
pub mod dates;
pub mod errors;
pub mod paths;
pub mod support;
pub mod text;
