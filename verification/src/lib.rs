//! Core of a stereo audio visualizer: a fixed-capacity ring buffer of recent
//! samples, the shared producer/consumer audio state, the trigger-synced
//! oscilloscope, the log-frequency spectrogram with scrolling waterfall, and
//! the vectorscope, all computing over fixed-point integer samples and levels.
//!
//! Samples are signed fixed-point values with [`sample::SAMPLE_UNIT`] standing
//! for 1.0; levels (scaled base-10 logarithms of spectral magnitudes) are
//! fixed-point values with [`levels::LEVEL_UNIT`] standing for 1.0. Audio
//! capture, the forward FFT and all drawing live outside this crate and talk
//! to it in plain integer values.

pub mod fifo;
pub mod sample;
pub mod state;
pub mod warp;
pub mod levels;
pub mod scope;
pub mod waterfall;
pub mod spectrogram;
pub mod vector;
pub mod render;
pub mod window;
