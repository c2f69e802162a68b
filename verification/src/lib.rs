//! A verified discrete-time traffic simulator: vehicles advance over a fixed
//! sequence of typed road segments, and co-located vehicle pairs are tested
//! once per run for a collision against a per-segment risk table.

pub mod car;
pub mod config;
pub mod engine;
pub mod fleet;
pub mod road;
pub mod sim_checks;
