//! The error taxonomy of the pipeline. Every failure is reported to the
//! caller as one of these kinds; nothing is recovered locally.

use vstd::prelude::*;

verus! {

/// What went wrong, by pipeline stage.
#[derive(Clone, Copy, PartialEq, Eq, Structural, Debug)]
pub enum PipelineError {
    /// Missing arguments or an unreadable model directory.
    Configuration,
    /// The acoustic model could not be loaded or the scorer not attached.
    ModelLoad,
    /// The audio file could not be decoded, or it is not single-channel.
    AudioFormat,
    /// The recognition engine failed during transcription.
    Inference,
}

impl PipelineError {
    /// A human-readable description of the error kind.
    pub fn message(&self) -> (r: &'static str)
        ensures
            *self is Configuration ==> r@ == "missing argument or unreadable model directory"@,
            *self is ModelLoad ==> r@ == "could not load the acoustic model or attach the scorer"@,
            *self is AudioFormat ==> r@ == "could not decode the audio file as single-channel 16-bit audio"@,
            *self is Inference ==> r@ == "the recognition engine failed during transcription"@,
    {
        match self {
            PipelineError::Configuration => "missing argument or unreadable model directory",
            PipelineError::ModelLoad => "could not load the acoustic model or attach the scorer",
            PipelineError::AudioFormat => "could not decode the audio file as single-channel 16-bit audio",
            PipelineError::Inference => "the recognition engine failed during transcription",
        }
    }
}

} // verus!
