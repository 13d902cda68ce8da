//! Verified logic of a network speed meter and usage dashboard: adapter
//! counters to rates, per-process attribution, usage history decisions,
//! data-limit alerts and speed-test scoring.
pub mod accumulator;
pub mod alerts;
pub mod clock;
pub mod db;
pub mod decimal;
pub mod keyed;
pub mod speedtest;
pub mod stats;
pub mod telemetry;
pub mod text;
pub mod tick;
pub mod tracking;
pub mod traffic;
pub mod ui;
