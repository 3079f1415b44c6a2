//! State management for a live-coding language server: incremental text
//! documents, per-project sessions, a bounded session cache and the mapping
//! between a project tree and its sandbox copy.

pub mod cache;
pub mod completion;
pub mod config;
pub mod document;
pub mod errors;
pub mod logging;
pub mod manager;
pub mod manifest;
pub mod mirror;
pub mod paths;
pub mod session;
pub mod store;
pub mod text;
pub mod workspace;
