//! A verified core for auditing genetic-optimizer training logs: risk scoring,
//! log-row decoding, session bookkeeping, report text and the file-watch
//! decision loop.
pub mod analyzer;
pub mod models;
pub mod reporter;
pub mod text;
pub mod watcher;
