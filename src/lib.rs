//! Operation logs and the decisions of a cross-machine backup tool.
//!
//! The library holds the log model (checksums, piles, hoards, v2 operation
//! logs), the upgrade of v1 logs, the naming and retention of log files, the
//! walk over both sides of a hoard, the classification of differences and
//! their translation into operations, and the games list.

pub mod all_files;
pub mod assoc;
pub mod checksum;
pub mod config;
pub mod diff;
pub mod filters;
pub mod game;
pub mod history;
pub mod log;
pub mod log_name;
pub mod parts;
pub mod paths;
pub mod record;
pub mod retention;
pub mod translate;
pub mod v1;
pub mod upgrade;
