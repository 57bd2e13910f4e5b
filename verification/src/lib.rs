//! Verified decision and text logic for the Codex desktop companion.
pub mod text;
pub mod paths;
pub mod exit_monitor;
pub mod auto_launch;
pub mod desktop;
pub mod guardian;
pub mod json;
pub mod model_catalog;
pub mod history;
pub mod recent_window;
pub mod history_list;
pub mod compiler;
pub mod projection;
pub mod migration;
pub mod history_ops;
pub mod visibility;
pub mod repair_plan;
pub mod thread_merge;
pub mod thread_store;
pub mod session_meta;
pub mod live_config;
