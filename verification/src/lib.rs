//! Verified core of a distributed bioacoustic monitoring pipeline.
//!
//! The library holds the logic of the analysis node: model manifests and
//! variant selection, resumable-download and backoff bookkeeping, model
//! artifact validation, audio chunk planning, the detection pipeline with
//! its privacy filter, discovery instance naming, and the naming and
//! formatting rules for persisted results.

pub mod analysis;
pub mod audio;
pub mod client;
pub mod config;
pub mod date;
pub mod detection;
pub mod discovery;
pub mod download;
pub mod filename;
pub mod manifest;
pub mod model;
pub mod protocol;
pub mod reporting;
pub mod strmap;
pub mod text;
pub mod web;
