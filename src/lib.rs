//! Background dictionary jobs: bounded fan-out fetching of word records,
//! deterministic aggregation into per-letter histograms, and a registry of
//! job states keyed by dictionary name.

pub mod config;
pub mod fetch;
pub mod models;
pub mod records;
pub mod stats;
pub mod store;
