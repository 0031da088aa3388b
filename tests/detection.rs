use silence_cutter::cache::SampleCache;
use silence_cutter::detect::{
    calculate_statistics, detect_in_samples, detect_silences, merge_close_silences, DetectError,
    SilenceSegment,
};

const RATE: u32 = 16000;

/// Mean-square threshold in sample units for a level in dB full scale.
fn threshold_power(db: f64) -> u64 {
    let lin = 10f64.powf(db / 20.0) * 32768.0;
    (lin * lin).round() as u64
}

fn sine(seconds: f64) -> Vec<i16> {
    let n = (seconds * RATE as f64).round() as usize;
    (0..n)
        .map(|i| {
            let t = i as f64 / RATE as f64;
            (32767.0 * (2.0 * std::f64::consts::PI * 440.0 * t).sin()) as i16
        })
        .collect()
}

fn loud(n: usize) -> Vec<i16> {
    (0..n).map(|i| if i % 2 == 0 { 20000 } else { -20000 }).collect()
}

fn zeros(seconds: f64) -> Vec<i16> {
    vec![0; (seconds * RATE as f64).round() as usize]
}

fn average_db(seg: &SilenceSegment) -> f64 {
    if seg.average_power == 0 {
        -100.0
    } else {
        10.0 * (seg.average_power as f64 / 1073741824.0).log10()
    }
}

#[test]
fn empty_pcm_has_no_silences() {
    let r = detect_in_samples(&[], RATE, threshold_power(-40.0), 500).unwrap();
    assert!(r.is_empty());
}

#[test]
fn scenario_three_seconds_of_zeros() {
    let pcm = zeros(3.0);
    let r = detect_in_samples(&pcm, RATE, threshold_power(-40.0), 500).unwrap();
    assert_eq!(r.len(), 1);
    assert_eq!(r[0].start_us, 0);
    assert_eq!(r[0].end_us, 3_000_000);
    assert_eq!(r[0].duration_us, 3_000_000);
    assert_eq!(average_db(&r[0]), -100.0);
}

#[test]
fn all_silent_pcm_is_one_segment_over_whole_input() {
    let pcm = vec![3i16; 12345];
    let r = detect_in_samples(&pcm, RATE, threshold_power(-40.0), 500).unwrap();
    assert_eq!(r.len(), 1);
    assert_eq!(r[0].start_us, 0);
    assert_eq!(r[0].end_us, 12345 * 1_000_000 / 16000);
    assert_eq!(r[0].average_power, 9);
}

#[test]
fn scenario_sine_silence_sine() {
    let mut pcm = sine(1.0);
    pcm.extend(zeros(1.0));
    pcm.extend(sine(1.0));
    let r = detect_in_samples(&pcm, RATE, threshold_power(-40.0), 500).unwrap();
    assert_eq!(r.len(), 1);
    assert_eq!(r[0].start_us, 1_000_000);
    assert_eq!(r[0].end_us, 2_000_000);
    assert_eq!(average_db(&r[0]), -100.0);
}

#[test]
fn scenario_close_silences_are_merged() {
    let mut pcm = sine(0.5);
    pcm.extend(zeros(0.2));
    pcm.extend(sine(0.05));
    pcm.extend(zeros(0.2));
    pcm.extend(sine(0.5));
    let r = detect_in_samples(&pcm, RATE, threshold_power(-40.0), 150).unwrap();
    assert_eq!(r.len(), 1);
    assert_eq!(r[0].start_us, 500_000);
    // within one 20 ms window of 0.95 s
    assert!((r[0].end_us as i64 - 950_000).abs() <= 20_000);
}

#[test]
fn scenario_continuous_sine_has_no_silence() {
    let pcm = sine(2.0);
    let r = detect_in_samples(&pcm, RATE, threshold_power(-40.0), 500).unwrap();
    assert!(r.is_empty());
}

#[test]
fn silence_of_exactly_the_minimum_is_kept() {
    let mut pcm = loud(16000);
    pcm.extend(vec![0i16; 8000]);
    let r = detect_in_samples(&pcm, RATE, threshold_power(-40.0), 500).unwrap();
    assert_eq!(r.len(), 1);
    assert_eq!(r[0].start_us, 1_000_000);
    assert_eq!(r[0].end_us, 1_500_000);
}

#[test]
fn silence_one_sample_short_is_dropped() {
    let mut pcm = loud(16000);
    pcm.extend(vec![0i16; 7999]);
    let r = detect_in_samples(&pcm, RATE, threshold_power(-40.0), 500).unwrap();
    assert!(r.is_empty());
}

fn seg(start_us: u64, end_us: u64, power: u64) -> SilenceSegment {
    SilenceSegment::new(start_us, end_us, power)
}

#[test]
fn silences_exactly_100ms_apart_are_merged() {
    let r = merge_close_silences(vec![seg(0, 1_000_000, 10), seg(1_100_000, 2_000_000, 30)]);
    assert_eq!(r.len(), 1);
    assert_eq!(r[0].start_us, 0);
    assert_eq!(r[0].end_us, 2_000_000);
    assert_eq!(r[0].duration_us, 2_000_000);
    // duration-weighted: (10 * 1.0 + 30 * 0.9) / 1.9
    assert_eq!(r[0].average_power, (10 * 1_000_000 + 30 * 900_000) / 1_900_000);
}

#[test]
fn silences_101ms_apart_are_not_merged() {
    let r = merge_close_silences(vec![seg(0, 1_000_000, 10), seg(1_101_000, 2_000_000, 30)]);
    assert_eq!(r.len(), 2);
    assert_eq!(r[1].start_us, 1_101_000);
}

#[test]
fn adjacent_detected_silences_are_more_than_100ms_apart() {
    let mut pcm = Vec::new();
    for _ in 0..4 {
        pcm.extend(loud(3200));
        pcm.extend(vec![0i16; 9600]);
    }
    let r = detect_in_samples(&pcm, RATE, threshold_power(-40.0), 200).unwrap();
    assert_eq!(r.len(), 4);
    for w in r.windows(2) {
        assert!(w[1].start_us > w[0].end_us + 100_000);
    }
}

#[test]
fn detected_levels_are_below_the_threshold() {
    let mut pcm = loud(8000);
    pcm.extend((0..16000).map(|i| if i % 2 == 0 { 200 } else { -200 }));
    pcm.extend(loud(8000));
    let t = threshold_power(-40.0);
    let r = detect_in_samples(&pcm, RATE, t, 300).unwrap();
    assert_eq!(r.len(), 1);
    assert_eq!(r[0].average_power, 40000);
    assert!(r[0].average_power < t);
    assert!(average_db(&r[0]) <= -40.0);
}

#[test]
fn detection_is_repeatable() {
    let mut pcm = sine(0.7);
    pcm.extend(zeros(0.9));
    pcm.extend(sine(0.3));
    let a = detect_in_samples(&pcm, RATE, threshold_power(-40.0), 300).unwrap();
    let b = detect_in_samples(&pcm, RATE, threshold_power(-40.0), 300).unwrap();
    assert_eq!(a, b);
    assert_eq!(merge_close_silences(a.clone()), a);
}

#[test]
fn zero_minimum_duration_is_invalid() {
    let pcm = zeros(1.0);
    assert_eq!(detect_in_samples(&pcm, RATE, 100, 0), Err(DetectError::InvalidArgument));
}

#[test]
fn sample_rate_below_50_is_too_low() {
    let pcm = zeros(1.0);
    assert_eq!(detect_in_samples(&pcm, 49, 100, 500), Err(DetectError::SampleRateTooLow));
}

#[test]
fn cache_miss_without_fallback_has_no_samples() {
    let cache = SampleCache::new();
    let r = detect_silences(&cache, "/media/a.mp4", None, RATE, 100, 500);
    assert_eq!(r, Err(DetectError::NoSamples));
}

#[test]
fn cache_is_preferred_over_fallback() {
    let mut cache = SampleCache::new();
    cache.insert("/media/a.mp4".to_string(), zeros(1.0));
    let fallback = sine(1.0);
    let r = detect_silences(&cache, "/media/a.mp4", Some(&fallback), RATE, 100, 500).unwrap();
    assert_eq!(r.len(), 1);
    let r2 = detect_silences(&cache, "/media/b.mp4", Some(&fallback), RATE, 100, 500).unwrap();
    assert!(r2.is_empty());
    cache.insert("/media/a.mp4".to_string(), sine(1.0));
    assert_eq!(cache.len(), 1);
    let r3 = detect_silences(&cache, "/media/a.mp4", None, RATE, 100, 500).unwrap();
    assert!(r3.is_empty());
}

#[test]
fn statistics_of_a_short_buffer() {
    let mut pcm = vec![0i16; 320];
    pcm.extend(loud(320));
    pcm.push(-5);
    let s = calculate_statistics(&pcm, RATE);
    assert_eq!(s.sample_count, 641);
    assert_eq!(s.duration_us, 641 * 1_000_000 / 16000);
    assert_eq!(s.min_value, -20000);
    assert_eq!(s.max_value, 20000);
    assert_eq!(s.peak, 20000);
    assert_eq!(s.total_windows, 3);
    assert_eq!(s.silent_windows, 2);
    assert_eq!(s.mean_power, (320u128 * 400_000_000 + 25) as u64 / 641);
    let e = calculate_statistics(&[], RATE);
    assert_eq!(e.sample_count, 0);
    assert_eq!(e.total_windows, 0);
}
