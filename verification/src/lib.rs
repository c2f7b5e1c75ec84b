pub mod text;
pub mod model;
pub mod git_reader;
pub mod svn_reader;
pub mod snapshot;
pub mod emit_gate;
pub mod config;
pub mod scheduler;
pub mod actions;
pub mod commands;
pub mod batch;
pub mod discovery;
