//! Core of a media clipping server: a time-range validator, an admission-
//! controlled job queue for transcode jobs, and a case-insensitive path
//! search index. The surrounding process glue (HTTP handlers, environment
//! configuration, filesystem walking, process spawning) lives outside this
//! crate and talks to it through plain values.

pub mod app;
pub mod clips;
pub mod config;
pub mod error;
pub mod files;
pub mod jobs;
pub mod models;
pub mod numfmt;
pub mod search;
pub mod strutil;
pub mod time;
pub mod tracks;
