//! Audio preparation and transcript handling for a desktop transcriber.
//!
//! The modules decide and compute; running ffmpeg, talking to the transcriber and showing
//! progress is left to the application around them.

pub mod binary;
pub mod envelope;
pub mod ffmpeg;
pub mod history;
pub mod level;
pub mod names;
pub mod navigation;
pub mod report;
pub mod search;
pub mod seconds;
pub mod session;
pub mod text;
pub mod transcript;
pub mod turns;
