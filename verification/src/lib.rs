//! Decision logic of a host disk monitor and its temporary-file reaper.
//!
//! The crate holds no I/O. A caller measures the machine (directory sizes,
//! filesystem capacity, file ages), hands the measurements over as plain
//! values, and carries out what the functions here decide: send an alert,
//! rewrite the durable marker, delete a stale file.

pub mod aggregate;
pub mod alert;
pub mod config;
pub mod excursion;
pub mod marker;
pub mod reaper;
pub mod schedule;
pub mod sink;
pub mod size;
pub mod text;
pub mod threshold;
