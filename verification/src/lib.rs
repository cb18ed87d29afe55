//! Core logic of a command-line tool that finds failed executions of a
//! workflow state machine inside a date window and resubmits each one with
//! its original input.
//!
//! Everything here is pure: the remote workflow service and the interactive
//! prompts live outside this crate and exchange plain values with it.

pub mod actions;
pub mod model;
pub mod pagination;
pub mod retry;
pub mod timestamp;
pub mod window;
