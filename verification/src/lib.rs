//! A small verified core for an interactive Unix-style command interpreter.
//!
//! The crate provides the command tokenizer, the dispatcher, the per-builtin
//! argument and flag handling, permission-string rendering, and a filesystem
//! model on which the behaviour of every file-management builtin is stated
//! and proved.  An unverified front end performs the actual console and
//! filesystem input/output and drives this core.

pub mod builtins;
pub mod dispatch;
pub mod errors;
pub mod fsmodel;
pub mod laws;
pub mod listing;
pub mod paths;
pub mod split;
pub mod strutil;
pub mod modefmt;
