//! The verified core of a video re-encoder: which files to convert, what the
//! result is called, how `ffmpeg` is driven, and what is remembered between passes.
pub mod batch;
pub mod command;
pub mod config;
pub mod ffmpeg;
pub mod laws;
pub mod logging;
pub mod naming;
pub mod order;
pub mod pass;
pub mod path;
pub mod path_laws;
pub mod ratio;
pub mod report;
pub mod rounding;
pub mod scan;
pub mod state;
pub mod text;
pub mod utf8;
pub mod worker;
