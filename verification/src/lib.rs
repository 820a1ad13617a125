//! Seeds a newly created git worktree from its main checkout: which files to
//! copy, which commands to run, and whether a hook event should run at all.

pub mod actions;
pub mod claim;
pub mod config;
pub mod event;
pub mod hooks;
pub mod json;
pub mod paths;
pub mod text;
