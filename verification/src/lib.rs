//! The logic of a git client: what to show, what to run, and what to say about it.

pub mod ai;
pub mod app;
pub mod avatar;
pub mod ci;
pub mod commit_details;
pub mod commit_graph;
pub mod config;
pub mod crash_log;
pub mod dialogs;
pub mod diff_view;
pub mod git;
pub mod git_async;
pub mod github;
pub mod history;
pub mod oid;
pub mod order;
pub mod paths;
pub mod row_paths;
pub mod scenes;
pub mod text;
pub mod text_map;
