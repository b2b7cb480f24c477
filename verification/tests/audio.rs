use speech_pipeline::audio::{decode_audio, prepare_audio};
use speech_pipeline::errors::PipelineError;

/// Build a 16-bit PCM WAV file in memory.
fn wav_bytes(channels: u16, sample_rate: u32, samples: &[i16]) -> Vec<u8> {
    let data_len = (samples.len() * 2) as u32;
    let block_align = channels * 2;
    let byte_rate = sample_rate * block_align as u32;
    let mut out = Vec::new();
    out.extend_from_slice(b"RIFF");
    out.extend_from_slice(&(36 + data_len).to_le_bytes());
    out.extend_from_slice(b"WAVE");
    out.extend_from_slice(b"fmt ");
    out.extend_from_slice(&16u32.to_le_bytes());
    out.extend_from_slice(&1u16.to_le_bytes());
    out.extend_from_slice(&channels.to_le_bytes());
    out.extend_from_slice(&sample_rate.to_le_bytes());
    out.extend_from_slice(&byte_rate.to_le_bytes());
    out.extend_from_slice(&block_align.to_le_bytes());
    out.extend_from_slice(&16u16.to_le_bytes());
    out.extend_from_slice(b"data");
    out.extend_from_slice(&data_len.to_le_bytes());
    for s in samples {
        out.extend_from_slice(&s.to_le_bytes());
    }
    out
}

#[test]
fn mono_wav_decodes_to_its_samples() {
    let samples: Vec<i16> = vec![0, 1000, -1000, 32767, -32768];
    let bytes = wav_bytes(1, 8000, &samples);
    let stream = decode_audio(&bytes).expect("mono wav should decode");
    assert_eq!(stream.channel_count, 1);
    assert_eq!(stream.sample_rate, 8000);
    assert_eq!(stream.samples, samples);
}

#[test]
fn stereo_wav_is_rejected_before_resampling() {
    let samples: Vec<i16> = vec![0, 0, 100, 100];
    let bytes = wav_bytes(2, 16000, &samples);
    assert_eq!(decode_audio(&bytes).unwrap_err(), PipelineError::AudioFormat);
    assert_eq!(prepare_audio(&bytes).unwrap_err(), PipelineError::AudioFormat);
}

#[test]
fn garbage_bytes_are_an_audio_format_error() {
    let bytes: Vec<u8> = vec![0x13, 0x37, 0x00, 0xff, 0x21];
    assert_eq!(prepare_audio(&bytes).unwrap_err(), PipelineError::AudioFormat);
    let empty: Vec<u8> = Vec::new();
    assert_eq!(prepare_audio(&empty).unwrap_err(), PipelineError::AudioFormat);
}

#[test]
fn wav_at_target_rate_passes_through_unchanged() {
    let samples: Vec<i16> = vec![7, -9, 11, -13, 32000, -32000];
    let bytes = wav_bytes(1, 16000, &samples);
    let buffer = prepare_audio(&bytes).expect("mono wav at 16 kHz");
    assert_eq!(buffer, samples);
}

#[test]
fn wav_at_half_rate_roughly_doubles_in_length() {
    let samples: Vec<i16> = vec![10; 500];
    let bytes = wav_bytes(1, 8000, &samples);
    let buffer = prepare_audio(&bytes).expect("mono wav at 8 kHz");
    assert_eq!(buffer.len(), 1000);
    assert!(buffer.iter().all(|&v| v == 10));
}

#[test]
fn wav_at_half_rate_interpolates_midpoints() {
    let samples: Vec<i16> = vec![0, 100];
    let bytes = wav_bytes(1, 8000, &samples);
    let buffer = prepare_audio(&bytes).expect("mono wav at 8 kHz");
    assert_eq!(buffer, vec![0, 50, 100, 100]);
}

#[test]
fn error_messages_name_each_kind() {
    assert!(PipelineError::Configuration.message().contains("directory"));
    assert!(PipelineError::ModelLoad.message().contains("model"));
    assert!(PipelineError::AudioFormat.message().contains("decode"));
    assert!(PipelineError::Inference.message().contains("engine"));
}
