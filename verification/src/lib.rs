//! Core library of a resumable, concurrency-bounded, checksum-verified
//! download engine, together with the pure helpers of the surrounding
//! launcher (manifest assembly, pull-record statistics, text formatting).
//!
//! All logic here is verified; network, file and clock access live in the
//! thin unverified shell around this crate.

pub mod checksum;
pub mod config;
pub mod error;
pub mod gacha;
pub mod game;
pub mod limiter;
pub mod manager;
pub mod shell;
pub mod task;
pub mod text;
pub mod transfer;
