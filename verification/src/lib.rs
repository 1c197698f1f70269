//! A task tracker whose whole state lives in one markdown document with
//! three fixed sections, SELECTED, INCOMPLETE and COMPLETE, each bounded
//! by a header line and a separator line. The engine parses the document's
//! lines into tasks, adds tasks, moves them between sections as their
//! status changes, allocates identifiers, and serializes the updated state
//! back to lines. Reading and writing the file, and the command line around
//! it, live outside this crate; every function here works on plain lines
//! and values.

pub mod decimal;
pub mod document;
pub mod engine;
pub mod error;
pub mod status;
pub mod task;
pub mod theorems;
