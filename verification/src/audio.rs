//! Audio decode and normalization: turn a container file's bytes into a
//! validated single-channel sample buffer at the engine's sample rate.
//!
//! The container decode itself is done by the `audrey` reader; everything it
//! reports is a function of the bytes alone, named by the `decoded_*` spec
//! functions below. The mono check and the rate normalization are verified
//! against those names.

use vstd::prelude::*;
use vstd::arithmetic::div_mod::{lemma_fundamental_div_mod, lemma_mod_bound};
use vstd::arithmetic::mul::{
    lemma_mul_inequality, lemma_mul_is_commutative, lemma_mul_is_distributive_add_other_way,
};
use std::io::Cursor;
use crate::errors::PipelineError;
use crate::resample::{resample, resampled, TARGET_SAMPLE_RATE};

verus! {

/// Decoded audio exactly as the container reader reports it: the declared
/// channel count and sample rate, and every sample as a signed 16-bit value.
pub struct RawAudio {
    pub channels: u32,
    pub sample_rate: u32,
    pub samples: Vec<i16>,
}

/// A decoded stream that passed validation. Invariant: exactly one channel.
#[derive(Debug)]
pub struct AudioStream {
    pub channel_count: u32,
    pub sample_rate: u32,
    pub samples: Vec<i16>,
}

impl AudioStream {
    /// The stream invariant: single-channel audio is the only supported
    /// configuration.
    pub open spec fn wf(&self) -> bool {
        self.channel_count == 1
    }
}

/// Whether the byte sequence is a decodable audio container.
pub uninterp spec fn decode_ok(bytes: Seq<u8>) -> bool;

/// The channel count the container declares.
pub uninterp spec fn decoded_channels(bytes: Seq<u8>) -> u32;

/// The sample rate the container declares, in Hertz.
pub uninterp spec fn decoded_rate(bytes: Seq<u8>) -> u32;

/// The decoded samples, interleaved when there are several channels.
pub uninterp spec fn decoded_samples(bytes: Seq<u8>) -> Seq<i16>;

/// Relies on audrey::read::Reader with the `wav`, `flac` and `ogg_vorbis`
/// backends: `Reader::new` recognizes the container format from the bytes,
/// `description` reports the declared channel count and sample rate, and the
/// `samples::<i16>` iterator yields every decoded sample converted to `i16`.
/// The reader consumes nothing but the bytes, so what it reports is a
/// function of them. The `caf_alac` backend stays disabled: the caf crate
/// panics on a chunk of unspecified size (legal in that format) instead of
/// returning an error, which would break this wrapper's promise to return
/// `None` on every undecodable input.
#[verifier::external_body]
fn decode_bytes(bytes: &[u8]) -> (r: Option<RawAudio>)
    ensures
        (r is Some) == decode_ok(bytes@),
        (r matches Some(raw) ==> raw.channels == decoded_channels(bytes@)
            && raw.sample_rate == decoded_rate(bytes@)
            && raw.samples@ == decoded_samples(bytes@)),
{
    let mut reader = audrey::read::Reader::new(Cursor::new(bytes)).ok()?;
    let desc = reader.description();
    let mut samples: Vec<i16> = Vec::new();
    for s in reader.samples::<i16>() {
        samples.push(s.ok()?);
    }
    Some(RawAudio {
        channels: desc.channel_count(),
        sample_rate: desc.sample_rate(),
        samples,
    })
}

/// Decode an audio file's bytes and enforce the mono precondition: any
/// undecodable input, and any declared channel count other than one, is an
/// `AudioFormat` error.
pub fn decode_audio(bytes: &[u8]) -> (r: Result<AudioStream, PipelineError>)
    ensures
        (!decode_ok(bytes@) ==> r == Err::<AudioStream, PipelineError>(
            PipelineError::AudioFormat,
        )),
        (decode_ok(bytes@) && decoded_channels(bytes@) != 1 ==> r == Err::<
            AudioStream,
            PipelineError,
        >(PipelineError::AudioFormat)),
        (decode_ok(bytes@) && decoded_channels(bytes@) == 1 ==> (r matches Ok(s)
            && s.wf()
            && s.sample_rate == decoded_rate(bytes@)
            && s.samples@ == decoded_samples(bytes@))),
{
    match decode_bytes(bytes) {
        None => Err(PipelineError::AudioFormat),
        Some(raw) => {
            if raw.channels != 1 {
                Err(PipelineError::AudioFormat)
            } else {
                Ok(AudioStream {
                    channel_count: raw.channels,
                    sample_rate: raw.sample_rate,
                    samples: raw.samples,
                })
            }
        },
    }
}

/// `len <= (m - rate) / t` is exactly the room check `len * t + rate <= m`.
proof fn lemma_room_check(len: int, t: int, m: int, rate: int)
    requires
        0 <= len,
        0 < t,
        0 <= rate <= m,
    ensures
        len <= (m - rate) / t <==> len * t + rate <= m,
{
    let q = (m - rate) / t;
    let r = (m - rate) % t;
    lemma_fundamental_div_mod(m - rate, t);
    lemma_mod_bound(m - rate, t);
    assert(q * t == t * q) by {
        lemma_mul_is_commutative(q, t);
    }
    if len <= q {
        lemma_mul_inequality(len, q, t);
    } else {
        lemma_mul_inequality(q + 1, len, t);
        assert((q + 1) * t == q * t + 1 * t) by {
            lemma_mul_is_distributive_add_other_way(t, q, 1);
        }
    }
}

/// The audio half of the pipeline: decode the file's bytes, reject anything
/// that is not single-channel, and bring the samples to the engine's rate.
/// A declared rate of zero is rejected, as is a stream so long that the
/// resampled length would not be addressable.
pub fn prepare_audio(bytes: &[u8]) -> (r: Result<Vec<i16>, PipelineError>)
    ensures
        (!decode_ok(bytes@) ==> r == Err::<Vec<i16>, PipelineError>(PipelineError::AudioFormat)),
        (decode_ok(bytes@) && decoded_channels(bytes@) != 1 ==> r == Err::<
            Vec<i16>,
            PipelineError,
        >(PipelineError::AudioFormat)),
        (decode_ok(bytes@) && decoded_channels(bytes@) == 1 && decoded_rate(bytes@) == 0 ==> r
            == Err::<Vec<i16>, PipelineError>(PipelineError::AudioFormat)),
        (decode_ok(bytes@) && decoded_channels(bytes@) == 1 && decoded_rate(bytes@)
            == TARGET_SAMPLE_RATE ==> (r matches Ok(v) && v@ == decoded_samples(bytes@))),
        (decode_ok(bytes@) && decoded_channels(bytes@) == 1 && decoded_rate(bytes@) > 0
            && decoded_samples(bytes@).len() * TARGET_SAMPLE_RATE + decoded_rate(bytes@)
            <= usize::MAX ==> (r matches Ok(v) && v@ == resampled(
            decoded_samples(bytes@),
            decoded_rate(bytes@) as nat,
            TARGET_SAMPLE_RATE as nat,
        ))),
        (decode_ok(bytes@) && decoded_channels(bytes@) == 1 && decoded_rate(bytes@) > 0
            && decoded_rate(bytes@) != TARGET_SAMPLE_RATE && decoded_samples(bytes@).len()
            * TARGET_SAMPLE_RATE + decoded_rate(bytes@) > usize::MAX ==> r == Err::<
            Vec<i16>,
            PipelineError,
        >(PipelineError::AudioFormat)),
{
    let stream: AudioStream = match decode_audio(bytes) {
        Err(e) => {
            return Err(e);
        },
        Ok(s) => s,
    };
    if stream.sample_rate == 0 {
        return Err(PipelineError::AudioFormat);
    }
    if stream.sample_rate == TARGET_SAMPLE_RATE {
        proof {
            crate::resample::lemma_resample_identity(stream.samples@, TARGET_SAMPLE_RATE as nat);
        }
        return Ok(stream.samples);
    }
    let room: usize = (usize::MAX - stream.sample_rate as usize) / (TARGET_SAMPLE_RATE as usize);
    proof {
        lemma_room_check(
            stream.samples@.len() as int,
            TARGET_SAMPLE_RATE as int,
            usize::MAX as int,
            stream.sample_rate as int,
        );
    }
    if stream.samples.len() > room {
        return Err(PipelineError::AudioFormat);
    }
    Ok(resample(&stream.samples, stream.sample_rate, TARGET_SAMPLE_RATE))
}

} // verus!
