//! Core engine of a scheduled database-backup tool: cron due-instant
//! evaluation, duplicate-firing suppression, the dump attempt/retry
//! protocol, artifact naming and deduplication, and retention rotation.
//! All file, process and terminal work lives outside this crate; the
//! functions here take plain values and return decisions with contracts.
//! Schedules are evaluated over Unix timestamps in UTC: a cron hour
//! means that hour UTC, wherever the process runs.

pub mod artifacts;
pub mod dedup;
pub mod executor;
pub mod models;
pub mod orchestrator;
pub mod rotate;
pub mod schedule;
pub mod tracker;
pub mod text;
