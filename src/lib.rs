//! Behavioural anomaly detection over host-security telemetry events.

pub mod analyzer;
pub mod anomaly;
pub mod context;
pub mod decode;
pub mod display;
pub mod event;
pub mod filters;
pub mod laws;
pub mod lineage;
pub mod rules;
pub mod storm;
pub mod text;
pub mod time;
