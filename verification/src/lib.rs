//! Playback core of a streaming audio player.

pub mod continuity;
pub mod control_laws;
pub mod conversion_laws;
pub mod decode;
pub mod device;
pub mod display_laws;
pub mod effects;
pub mod engine;
pub mod enums;
pub mod error;
pub mod events;
pub mod ffi;
pub mod filter_laws;
pub mod http_stream;
pub mod ieee;
pub mod laws;
pub mod math;
pub mod metadata;
pub mod output;
pub mod playback_laws;
pub mod player_state;
pub mod processor;
pub mod resample;
pub mod run_laws;
pub mod source;
pub mod spectrum_laws;
pub mod state_laws;
pub mod stream_laws;
pub mod surface_laws;
pub mod text;
