//! A DNS load generator's logic: queries, pacing, in-flight bookkeeping,
//! packet layouts, rings, ramping and result accounting, each with its contract.

pub mod autodetect;
pub mod config;
pub mod dns;
pub mod engine;
pub mod governor;
pub mod output;
pub mod query;
pub mod simd;
pub mod stats;
pub mod text;
pub mod transport;
