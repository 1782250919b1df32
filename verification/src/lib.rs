//! Procedural generation and validation of bounded 2D arenas built from
//! gameplay modules, driven by a catalog of weighted module types and a set
//! of mutually interacting gameplay rules, with a severity-tiered anomaly
//! monitor and a standalone structural audit.

#![verifier::loop_isolation(false)]

pub mod counting;
pub mod errors;
pub mod ids;
pub mod isqrt;
pub mod params;
pub mod catalog;
pub mod arena;
pub mod monitor;
pub mod reach;
pub mod rng;
pub mod filler;
pub mod generator;
pub mod validator;
pub mod metrics;
