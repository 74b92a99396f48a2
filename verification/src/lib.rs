//! Dev2Step: a plain-text task board kept in an extended todo.txt file.
//!
//! The library parses and formats todo.txt lines, keeps task ids stable,
//! and decides what the command line and the SQLite cache must do.

pub mod status;
pub mod text;
pub mod task;
pub mod clock;
pub mod parser;
pub mod format;
pub mod roundtrip;
pub mod sync;
pub mod board;
pub mod db_plan;
pub mod paths;
pub mod watch;
