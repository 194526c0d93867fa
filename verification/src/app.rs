//! What the application decides: which dialog is open, what an event leads to, and what is
//! told to the user. Windows, threads and repositories are driven from outside; they hand in
//! what happened and carry out what is decided here.

pub mod ci_fetch;
pub mod dividers;
pub mod lifecycle;
pub mod messages;
pub mod modal_events;
pub mod modal_state;
pub mod polling;
pub mod remote_ops;
pub mod repo_state;
pub mod reload;
pub mod scheduling;
pub mod settings;
pub mod shortcuts;
pub mod sidebar;
pub mod tabs;
pub mod toast;
pub mod window;
