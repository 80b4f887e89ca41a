//! Verified core of a prediction-market history tracker.
//!
//! The library normalizes per-platform market payloads into one canonical
//! shape, records markets and price snapshots into a store with a unique
//! `(source, source_id)` key, schedules collection cycles across sources,
//! and serves list/search/history queries over the recorded data.
//!
//! Prices are fixed-point integers in ten-thousandths of a unit (so `5000`
//! stands for a probability of one half); monetary volumes are integers in
//! hundredths (cents). This keeps every quantity the logic computes exact.

pub mod api_config;
pub mod collectors;
pub mod config;
pub mod models;
pub mod queries;
pub mod recorder;
pub mod scheduler;
pub mod store;
pub mod text;
pub mod timeparse;

pub use scheduler::per_source_limit;
