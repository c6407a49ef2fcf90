use float_cmp::ApproxEq;
use pitch_detector::common::constants::{MAX_FREQ, MIN_FREQ};
use pitch_detector::common::utils::{
    audio_buffer_to_samples, audio_buffer_to_signal, sample_from_bytes,
};
use pitch_detector::pitch::autocorrelation::Autocorrelation;
use pitch_detector::pitch::autocorrelation2::{yin_pitch, Autocorrelation2};
use pitch_detector::pitch::utils::{zero_crossing_count, zero_crossing_rate};
use pitch_detector::pitch::PitchDetector;

const SAMPLE_RATE: u32 = 44100;

fn sine_wave_signal(num_samples: usize, freq: f64, sample_rate: f64) -> Vec<i64> {
    (0..num_samples)
        .map(|r| (2.0 * std::f64::consts::PI * r as f64 * freq / sample_rate).sin())
        .map(|x| (x * 32767.0).round() as i64)
        .collect()
}

fn samples(signal: &[i64]) -> Vec<i16> {
    signal.iter().map(|x| *x as i16).collect()
}

#[test]
fn autocorrelation_it_detects_sine_wave_pitch() {
    let mut detector = Autocorrelation;
    let signal = sine_wave_signal(16384, 440., SAMPLE_RATE as f64);
    let actual_freq = detector
        .detect_pitch_in_range(&signal, SAMPLE_RATE, MIN_FREQ..MAX_FREQ)
        .unwrap() as f64
        / 1000.0;
    assert!(
        actual_freq.approx_eq(441., (0.2, 2)),
        "Expected freq: {}, Actual freq: {}",
        441.,
        actual_freq
    );
}

#[test]
fn it_detects_sine_wave_pitch() {
    // through the trait, by its default
    fn detect<D: PitchDetector>(detector: &mut D, signal: &[i64]) -> f64 {
        detector.detect_pitch(signal, SAMPLE_RATE).unwrap() as f64 / 1000.0
    }
    let signal = sine_wave_signal(16384, 440., SAMPLE_RATE as f64);
    let actual_freq = detect(&mut Autocorrelation, &signal);
    assert!(actual_freq.approx_eq(441., (0.2, 2)));
}

#[test]
fn autocorrelation2_it_detects_sine_wave_pitch() {
    let mut detector = Autocorrelation2::new(100);
    let signal = sine_wave_signal(16384, 440., SAMPLE_RATE as f64);
    let actual_freq = detector
        .detect_pitch_in_range(&signal, SAMPLE_RATE, MIN_FREQ..MAX_FREQ)
        .unwrap() as f64
        / 1000.0;
    assert!(
        actual_freq.approx_eq(441., (0.2, 2)),
        "Expected freq: {}, Actual freq: {}",
        441.,
        actual_freq
    );
}

#[test]
fn autocorrelation_of_a_known_signal() {
    // period 4: the normalized difference is zero at lag 4 and nowhere before
    let signal: Vec<i64> = (0..64).map(|i| [0, 100, 0, -100][i % 4]).collect();
    let mut detector = Autocorrelation;
    assert_eq!(
        detector.detect_pitch_in_range(&signal, 8000, MIN_FREQ..MAX_FREQ).unwrap(),
        2_000_000
    );
    assert_eq!(detector.detect_pitch(&signal, 8000).unwrap(), 2_000_000);
}

#[test]
fn autocorrelation_of_short_and_silent_signals_has_lag_one() {
    let mut detector = Autocorrelation;
    for signal in [vec![], vec![5i64], vec![5, -5], vec![0; 32]] {
        assert_eq!(
            detector.detect_pitch_in_range(&signal, 8000, MIN_FREQ..MAX_FREQ).unwrap(),
            8_000_000
        );
    }
}

#[test]
fn yin_finds_the_first_dip() {
    let signal: Vec<i64> = (0..64).map(|i| [0, 100, 0, -100][i % 4]).collect();
    // the difference at lag 4 is zero, below any threshold above zero, and
    // below the difference at lag 5
    assert_eq!(yin_pitch(&signal, 8000, 100, 20).unwrap(), 2_000_000);
    // too few lags to reach the dip
    let error = yin_pitch(&signal, 8000, 100, 5).unwrap_err();
    assert_eq!(error.to_string(), "No Pitch Detected Error: No pitch detected\n");
    // nothing dips below a threshold of zero
    assert!(yin_pitch(&signal, 8000, 0, 20).is_err());
    // silence has no dip
    assert!(yin_pitch(&vec![0i64; 64], 8000, 100, 20).is_err());
}

#[test]
fn yin_takes_a_long_signal() {
    // a second and a half of a full-scale sine with a period of 100 samples
    let signal = sine_wave_signal(66_150, 441., SAMPLE_RATE as f64);
    assert_eq!(yin_pitch(&signal, SAMPLE_RATE, 100, 300).unwrap(), 441_000);
    let mut detector = Autocorrelation2::new(100);
    assert_eq!(
        detector.detect_pitch_in_range(&signal, SAMPLE_RATE, 200_000..MAX_FREQ).unwrap(),
        441_000
    );
}

#[test]
fn zero_rate_crossing_sine() {
    let rate = zero_crossing_rate(&samples(&sine_wave_signal(16384, 440., 44100.)), 44100).unwrap() as f64
        / 1000.0;
    assert!(rate.approx_eq(877.478, (0.2, 2)), "Expected 877.478 but got {}", rate);
    let rate = zero_crossing_rate(&samples(&sine_wave_signal(10000, 440., 44100.)), 44100).unwrap() as f64
        / 1000.0;
    assert!(rate.approx_eq(877.478, (0.2, 2)), "Expected 877.478 but got {}", rate);
}

#[test]
fn zero_crossings_are_changes_of_sign() {
    for freq in [110., 440., 1234.5] {
        let signal = samples(&sine_wave_signal(4096, freq, 44100.));
        let signs: Vec<f64> = signal.iter().map(|s| num_traits::signum(*s as f64)).collect();
        let changes: f64 = signs.windows(2).map(|w| (w[0] - w[1]).abs()).sum();
        assert_eq!(zero_crossing_count(&signal), changes as usize / 2);
    }
}

#[test]
fn zero_crossings_are_counted_between_neighbours() {
    assert_eq!(zero_crossing_count(&[]), 0);
    assert_eq!(zero_crossing_count(&[7]), 0);
    assert_eq!(zero_crossing_count(&[1, -1]), 1);
    assert_eq!(zero_crossing_count(&[1, -1, 1, 1, -1]), 3);
    // zero counts as above zero
    assert_eq!(zero_crossing_count(&[0, 1, 0, -1, 0]), 2);
    assert_eq!(zero_crossing_rate(&[], 44100), None);
    // 3 crossings in 5 samples at 1000 Hz: 600 Hz
    assert_eq!(zero_crossing_rate(&[1, -1, 1, 1, -1], 1000), Some(600_000));
}

#[test]
fn audio_buffer_is_read_two_bytes_to_a_sample() {
    let samples: Vec<i16> = vec![0, 1, -1, 258, i16::MAX, i16::MIN, -12345];
    let mut bytes: Vec<u8> = samples.iter().flat_map(|s| s.to_ne_bytes()).collect();
    assert_eq!(audio_buffer_to_samples(&bytes), samples);
    let signal: Vec<i64> = samples.iter().map(|s| *s as i64).collect();
    assert_eq!(audio_buffer_to_signal(&bytes), signal);
    // a trailing odd byte is ignored
    bytes.push(0x7f);
    assert_eq!(audio_buffer_to_samples(&bytes), samples);
    assert_eq!(audio_buffer_to_samples(&[]), Vec::<i16>::new());
    assert_eq!(audio_buffer_to_samples(&[1]), Vec::<i16>::new());
    // the two bytes are not handed back in the same order on every machine,
    // but one of the two readings it is
    let sample = audio_buffer_to_samples(&[0x01, 0x02])[0];
    assert!(sample == 0x0201 || sample == 0x0102);
    // and every sample of a buffer is read the same way
    let read = audio_buffer_to_samples(&[0x01, 0x02, 0x03, 0x04, 0xff, 0x80]);
    assert!(read == vec![0x0201, 0x0403, -32513] || read == vec![0x0102, 0x0304, -128]);
}

#[test]
fn a_sample_is_its_low_byte_and_its_high_byte() {
    assert_eq!(sample_from_bytes(0, 0), 0);
    assert_eq!(sample_from_bytes(1, 0), 1);
    assert_eq!(sample_from_bytes(0, 1), 256);
    assert_eq!(sample_from_bytes(0xff, 0x7f), i16::MAX);
    assert_eq!(sample_from_bytes(0x00, 0x80), i16::MIN);
    assert_eq!(sample_from_bytes(0xff, 0xff), -1);
    for sample in [0i16, 1, -1, 258, -12345, i16::MAX, i16::MIN] {
        let [low, high] = sample.to_le_bytes();
        assert_eq!(sample_from_bytes(low, high), sample);
    }
}
