pub mod text;
pub mod json;
pub mod jsonc;
pub mod order;
pub mod kernel;
pub mod error;
pub mod dag;
pub mod command;
pub mod path;
pub mod config;
pub mod orchestrator;
pub mod esc_abort;
pub mod ipc;
pub mod http;
pub mod process;
pub mod git;
pub mod repo_map;
pub mod sandbox;
pub mod mcp;
pub mod dag_ops;
