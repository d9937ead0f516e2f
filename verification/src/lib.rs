//! Microphone capture core: resampling schedule for 16 kHz mono output,
//! the sample ring between the audio callback and the delivery thread,
//! and the decisions of the capture engine.

pub mod capture;
pub mod normalizer;
pub mod ring;

pub use normalizer::{output_sample_rate_hz, AudioStreamNormalizer};

