//! The decisions behind `dirtail`, a tool that tails every file of a directory
//! whose name matches a glob pattern.
//!
//! The library reads no file, starts no thread and prints nothing. It is told
//! what is on disk and what has changed there, and says which files to tail, in
//! which order and color, what to do next with each, and what to print.

pub mod ansi;
pub mod cli;
pub mod color;
pub mod filter;
pub mod follow;
pub mod listing;
pub mod message;
pub mod notice;
pub mod order;
pub mod path;
pub mod registry;
pub mod startup;
pub mod style;
pub mod tail;
pub mod text;
pub mod watch;
