//! The verified core of a sensor ingest gateway.

pub mod ieee;
pub mod rounding;
pub mod text;
pub mod types;
pub mod config;
pub mod error;
pub mod metrics;
pub mod registry;
pub mod listener;
pub mod health;
pub mod threshold;
pub mod limiter;
pub mod limiter_laws;
pub mod exact_laws;
pub mod ingest;
pub mod ingest_laws;
pub mod ingest_steps;
pub mod shield_laws;
pub mod copy;
pub mod warm;
pub mod warm_steps;
pub mod spool;
pub mod hot;
pub mod hot_laws;
pub mod hot_steps;
pub mod plant;
pub mod table_laws;
