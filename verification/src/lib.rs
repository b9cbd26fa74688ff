//! Verified core of a small process manager: the process table, its identifiers,
//! the text formats it reads and writes, and the decisions its command line and
//! daemon take.

pub mod text;
pub mod ordmap;
pub mod num;
pub mod id;
pub mod helpers;
pub mod process;
pub mod config;
pub mod cli;
pub mod sys;
pub mod file;
pub mod daemon;
pub mod laws;
