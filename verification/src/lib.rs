//! Sandboxed execution of npm packages as MCP servers.
pub mod bytes;
pub mod cli;
pub mod config;
pub mod doctor;
pub mod error;
pub mod json;
pub mod paths;
pub mod report;
pub mod rpc;
pub mod runtime;
pub mod table;
pub mod text;
pub mod tunnel;
