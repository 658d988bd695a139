//! The decision logic of a proxy between JSON-RPC clients and per-workspace backends.

pub mod backend;
pub mod config;
pub mod detect;
pub mod error;
pub mod git_root;
pub mod grouping;
pub mod job_object;
pub mod jsonrpc;
mod names;
pub mod path;
pub mod pending;
pub mod pipeline;
pub mod probe;
pub mod retry;
pub mod roots;
pub mod routing;
pub mod startup;
pub mod text;
pub mod uri;
pub mod windows;
pub mod windows_git_root;
pub mod windows_routing;
