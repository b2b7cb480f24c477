//! Offline speech-to-text front end: locate an acoustic model and optional
//! scorer in a directory, decode a mono audio file to 16-bit samples, and
//! resample the samples to the rate the recognition engine expects.

pub mod audio;
pub mod errors;
pub mod locator;
pub mod resample;
pub mod stage;
