//! Playback queue engine and playback decisions of a music-streaming server.

pub mod model;
pub mod queue;
pub mod laws;
pub mod playback;
pub mod flatten;
pub mod resolve;
pub mod audio;
pub mod ui;
pub mod provider_config;
