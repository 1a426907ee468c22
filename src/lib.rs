//! Turns a mono 16 kHz recording into a timestamped transcript report.
//!
//! `pipeline` decides the order of the work and when a run aborts, `audio`
//! holds the rules on the recording, `config` the fixed decoding settings and
//! `report` the exact text of the transcript file.
pub mod audio;
pub mod config;
pub mod pipeline;
pub mod report;
