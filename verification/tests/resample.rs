use speech_pipeline::resample::{resample, TARGET_SAMPLE_RATE};

#[test]
fn equal_rates_return_input_unchanged() {
    let s: Vec<i16> = vec![3, -7, 12000, -32768, 32767, 0];
    let r = resample(&s, 44100, 44100);
    assert_eq!(r, s);
}

#[test]
fn equal_rates_at_target_rate_are_identity() {
    let s: Vec<i16> = vec![1, 2, 3, 4, 5];
    let r = resample(&s, TARGET_SAMPLE_RATE, TARGET_SAMPLE_RATE);
    assert_eq!(r, s);
}

#[test]
fn doubling_the_rate_interpolates_midpoints() {
    let s: Vec<i16> = vec![0, 100];
    let r = resample(&s, 8000, 16000);
    assert_eq!(r, vec![0, 50, 100, 100]);
}

#[test]
fn doubling_the_rate_interpolates_negative_midpoints() {
    let s: Vec<i16> = vec![-100, 100];
    let r = resample(&s, 8000, 16000);
    assert_eq!(r, vec![-100, 0, 100, 100]);
}

#[test]
fn halving_the_rate_keeps_every_other_sample() {
    let s: Vec<i16> = vec![0, 100, 200, 300];
    let r = resample(&s, 16000, 8000);
    assert_eq!(r, vec![0, 200]);
}

#[test]
fn output_length_is_within_one_of_rounded_ratio() {
    // 5 samples at 8 kHz span 10 samples at 16 kHz exactly.
    let s: Vec<i16> = vec![1, 2, 3, 4, 5];
    assert_eq!(resample(&s, 8000, 16000).len(), 10);

    // 3 samples at 44.1 kHz: 3 * 16000 / 44100 is about 1.09, and the output
    // spans the full duration, so the length is 2 = round(1.09) + 1.
    let s: Vec<i16> = vec![5, 5, 5];
    let exact = 3.0f64 * 16000.0 / 44100.0;
    let len = resample(&s, 44100, 16000).len() as f64;
    assert!((len - exact.round()).abs() <= 1.0);
    assert_eq!(resample(&s, 44100, 16000).len(), 2);
}

#[test]
fn constant_input_stays_constant() {
    let s: Vec<i16> = vec![-1234; 50];
    for (src, dst) in [(8000u32, 16000u32), (44100, 16000), (16000, 44100), (48000, 16000), (7, 13)] {
        let r = resample(&s, src, dst);
        assert!(!r.is_empty());
        assert!(r.iter().all(|&v| v == -1234), "rates {src}->{dst}");
    }
}

#[test]
fn empty_input_gives_empty_output() {
    let s: Vec<i16> = Vec::new();
    assert!(resample(&s, 8000, 16000).is_empty());
    assert!(resample(&s, 16000, 16000).is_empty());
}

#[test]
fn upsampling_stays_within_input_bounds() {
    let s: Vec<i16> = vec![-30000, 30000, -30000, 30000];
    let r = resample(&s, 8000, 44100);
    assert!(r.iter().all(|&v| (-30000..=30000).contains(&v)));
}
