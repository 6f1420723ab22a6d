//! A discrete-time simulator of how a multi-core server spreads network
//! requests over its cores, with every scheduling decision verified.

pub mod request;
pub mod worker_core;
pub mod outside;
pub mod config;
pub mod config_json;
pub mod simulation;
pub mod sweep;
pub mod dispatch;
pub mod laws;
pub mod conservation;
pub mod counting;
pub mod outcomes;
