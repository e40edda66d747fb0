//! A resident-memory warm-up library: the selection-and-budgeting
//! engine of a daemon that pins a curated set of files in physical
//! memory within a bounded cost.
//!
//! Data flows strictly forward through the modules:
//! [`config`] resolves the effective policy from plain configuration
//! values (sizes through [`sizes`]), [`scan`] filters directory
//! listings to candidate files, [`matcher`] selects load targets by
//! anchored suffix patterns, [`sort`] orders them per policy, and
//! [`registry`] admits them greedily into the total budget.
//!
//! The process shell around the library performs the I/O the engine
//! decides about: reading the configuration, listing directories,
//! querying total memory, and mapping and pinning the admitted files.
pub mod config;
pub mod matcher;
pub mod registry;
pub mod scan;
pub mod sizes;
pub mod sort;
