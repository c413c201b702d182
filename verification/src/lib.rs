//! Incremental SFTP synchronization core: configuration resolution,
//! sync planning, and background task bookkeeping, with verified contracts.

pub mod cli;
pub mod config;
pub mod error;
pub mod i18n;
pub mod strutil;
pub mod sync;
pub mod tasks;
pub mod types;
