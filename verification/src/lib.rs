//! Decision core of the roki daemon.
pub mod config;
pub mod json;
pub mod observability;
pub mod orchestrator;
pub mod path;
pub mod permissions;
pub mod recovery_reader;
pub mod routing;
pub mod rule;
pub mod runtime;
pub mod session;
pub mod shutdown;
pub mod store_handle;
pub mod strmap;
pub mod text;
pub mod tools;
pub mod tracker;
pub mod workflow;
pub mod workspace;
pub mod worktree_manager;
pub mod worktrees;
