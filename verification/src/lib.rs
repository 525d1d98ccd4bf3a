//! A local multi-process supervisor and task runner: the decisions.
//!
//! This crate holds everything about the supervisor that can be stated
//! and proved over plain values: how task names are resolved and cycles
//! detected, how composite tasks sequence and aggregate their children,
//! which paths and defaults a process is spawned and recorded with, what
//! the shutdown protocol signals, how log files are tailed and followed
//! without losing or duplicating a line, and how the persisted state is
//! encoded and decoded (with parsing proved to invert encoding). The
//! process spawning, signalling and file I/O around these decisions live
//! in the accompanying binary, which calls into this crate.
pub mod codec;
pub mod color;
pub mod config;
pub mod dirs;
pub mod engine;
pub mod hashing;
pub mod list;
pub mod logs;
pub mod manager;
pub mod num;
pub mod shutdown;
pub mod state;
pub mod strutil;
pub mod task;
