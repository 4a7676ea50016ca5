//! Inventory of macOS launchd service definitions.
//!
//! The library collects the property lists that describe launchd daemons and
//! agents from a [`snapshot::Snapshot`]: a description, as plain values, of the
//! directories and files that a collection consults. It performs no I/O:
//! [`plan::plan`] names what a snapshot still lacks, the caller reads
//! that from disk and records it, and [`launchd::LaunchdPlist`] then decodes
//! and gathers the records. [`guard::admissible`] says which bytes the
//! decoder is given.

pub mod decode;
pub mod error;
pub mod guard;
pub mod launchd;
pub mod laws;
pub mod model;
pub mod paths;
pub mod plan;
pub mod rounds;
pub mod snapshot;
pub mod views;
