use float_cmp::ApproxEq;
use pitch_detector::common::constants::{MAX_FREQ, MIN_FREQ};
use pitch_detector::common::error::PitchError;
use pitch_detector::common::fft_space::{Complex, FftSpace};
use pitch_detector::common::fixed::BIN_UNIT;
use pitch_detector::common::into_frequency_domain::{BinMapping, IntoFrequencyDomain};
use pitch_detector::common::utils::{interpolated_peak_at, Fit};
use pitch_detector::common::{FrequencyBin, NoteName};
use pitch_detector::note::hinted::{detect_note_with_hint, detect_note_with_hint_and_range};
use pitch_detector::note::note_detection_result::NoteDetection;
use pitch_detector::note::peak_detector::{PeakFinderDetector, ZScoreDetector};
use pitch_detector::note::peak_iter::{strongest_flagged_peak, Flag, FlaggedBin};
use pitch_detector::note::{detect_note, detect_note_in_range};
use pitch_detector::pitch::autocorrelation::Autocorrelation;
use pitch_detector::pitch::autocorrelation_detector::{
    detect_unscaled_freq, lag_pitch, relevant_fft_range, unscaled_spectrum,
    AutocorrelationDetector, CORRELATION_SCALE,
};
use pitch_detector::pitch::cepstrum::PowerCepstrum;
use pitch_detector::pitch::cepstrum2::Cepstrum2;
use pitch_detector::pitch::hanned_fft::{HannedFftDetector, WINDOW_SCALE};
use pitch_detector::pitch::{max_bin, PitchDetector};
use rustfft::num_complex::Complex as FloatComplex;
use rustfft::FftPlanner;

const SAMPLE_RATE: u32 = 44100;
const NUM_SAMPLES: usize = 16384;

fn sine_wave_signal(num_samples: usize, freq: f64, sample_rate: f64) -> Vec<f64> {
    (0..num_samples)
        .map(|r| (2.0 * std::f64::consts::PI * r as f64 * freq / sample_rate).sin())
        .collect()
}

/// Samples of 16 bits, the loudest at full scale.
fn to_fixed(signal: &[f64]) -> Vec<i64> {
    let peak = signal.iter().fold(0.0f64, |a, x| a.max(x.abs()));
    signal
        .iter()
        .map(|x| (x / peak * 32767.0).round() as i64)
        .collect()
}

fn to_float(buffer: &[Complex]) -> Vec<FloatComplex<f64>> {
    buffer
        .iter()
        .map(|c| FloatComplex::new(c.re as f64, c.im as f64))
        .collect()
}

/// The values in fixed point, the largest brought to `limit`.
fn to_buffer(values: &[FloatComplex<f64>], limit: f64) -> Vec<Complex> {
    let peak = values
        .iter()
        .fold(0.0f64, |a, c| a.max(c.re.abs()).max(c.im.abs()));
    let scale = if peak > 0.0 { limit / peak } else { 1.0 };
    values
        .iter()
        .map(|c| Complex {
            re: (c.re * scale).round() as i64,
            im: (c.im * scale).round() as i64,
        })
        .collect()
}

fn hanning(size: usize) -> Vec<i64> {
    apodize::hanning_iter(size)
        .map(|h| (h * WINDOW_SCALE as f64).round() as i64)
        .collect()
}

fn forward(buffer: &[Complex]) -> Vec<Complex> {
    let mut values = to_float(buffer);
    FftPlanner::new()
        .plan_fft_forward(values.len())
        .process(&mut values);
    to_buffer(&values, (1u64 << 31) as f64)
}

fn inverse(buffer: &[Complex]) -> Vec<Complex> {
    let mut values = to_float(buffer);
    FftPlanner::new()
        .plan_fft_inverse(values.len())
        .process(&mut values);
    to_buffer(&values, (1u64 << 31) as f64)
}

fn log_power(value: &Complex) -> Complex {
    let power = (value.re as f64).powi(2) + (value.im as f64).powi(2);
    Complex {
        re: (power.ln() * (1u64 << 20) as f64).round() as i64,
        im: 0,
    }
}

fn peaks(spectrum: &[i64], sigmas: i64) -> Vec<FrequencyBin> {
    let floats: Vec<f64> = spectrum.iter().map(|y| *y as f64).collect();
    peak_finder::peaks::find_peaks_over_stddev(&floats, sigmas as f64 / 1000.0)
        .into_iter()
        .map(|graph_peak| FrequencyBin {
            bin: graph_peak.peak.x,
            magnitude: graph_peak.peak.y.round() as i64,
        })
        .collect()
}

fn fit(x_vals: Vec<i64>, y_vals: Vec<i64>) -> Fit {
    let x_vals: Vec<f64> = x_vals.iter().map(|x| *x as f64 / BIN_UNIT as f64).collect();
    let y_vals: Vec<f64> = y_vals.iter().map(|y| *y as f64).collect();
    #[allow(deprecated)]
    fitting::gaussian::fit(x_vals.into(), y_vals.into())
        .map(|(mu, sigma, a)| {
            (
                (mu * BIN_UNIT as f64).round() as i64,
                (sigma * BIN_UNIT as f64).round() as i64,
                a.round() as i64,
            )
        })
        .map_err(|e| e.to_string())
}

fn cents(freq: i64) -> i64 {
    ((freq as f64 / 440_000.0).log2() * 1_200_000.0).round() as i64
}

fn cepstrum(signal: &[i64]) -> Vec<Complex> {
    let mut values: Vec<FloatComplex<f64>> = signal
        .iter()
        .map(|x| FloatComplex::new(*x as f64, 0.0))
        .collect();
    FftPlanner::new()
        .plan_fft_forward(values.len())
        .process(&mut values);
    for f in values.iter_mut() {
        *f = FloatComplex::new((f.norm_sqr() + 1e-10).ln(), 0.0);
    }
    FftPlanner::new()
        .plan_fft_inverse(values.len())
        .process(&mut values);
    to_buffer(&values, (1u64 << 31) as f64)
}

fn flags(stream: &[i64], lag: usize, threshold: i64, influence: i64) -> Vec<Flag> {
    let mut detector = smoothed_z_score::PeaksDetector::new(
        lag,
        threshold as f64 / 1000.0,
        influence as f64 / 1000.0,
    );
    stream
        .iter()
        .map(|value| match detector.signal(*value as f64) {
            None => Flag::Plain,
            Some(smoothed_z_score::Peak::Low) => Flag::Low,
            Some(smoothed_z_score::Peak::High) => Flag::High,
        })
        .collect()
}

fn assert_detects<D: PitchDetector>(detector: &mut D, signal: &[f64], expected_freq: f64) {
    let actual_freq = detector
        .detect_pitch_in_range(&to_fixed(signal), SAMPLE_RATE, MIN_FREQ..MAX_FREQ)
        .unwrap() as f64
        / 1000.0;
    assert!(
        actual_freq.approx_eq(expected_freq, (0.2, 2)),
        "Expected freq: {}, Actual freq: {}",
        expected_freq,
        actual_freq
    );
}

#[test]
fn test_from_sine_wave() {
    let mut detector = HannedFftDetector::new(hanning, forward, fit);
    let signal = sine_wave_signal(NUM_SAMPLES, 440., SAMPLE_RATE as f64);
    assert_detects(&mut detector, &signal, 440.);
}

#[test]
fn hanned_fft_test_raw_fft_sine() {
    let mut detector = HannedFftDetector::new(hanning, forward, fit);
    let signal = sine_wave_signal(NUM_SAMPLES, 440., SAMPLE_RATE as f64);
    assert_detects(&mut detector, &signal, 440.);
    // within the conventional range as well
    let freq = detector.detect_pitch(&to_fixed(&signal), SAMPLE_RATE).unwrap() as f64 / 1000.0;
    assert!(freq.approx_eq(440., (0.2, 2)));
    assert_eq!(detector.name(), "hannedfft");
    assert_eq!(detector.mapping(), BinMapping::Linear { padded_len: 16384 });
    assert_eq!(detector.bin_to_freq(163_500_000, SAMPLE_RATE), Some(440_085));
    assert_eq!(detector.freq_to_bin(440_085, SAMPLE_RATE), Some(163_500_060));
}

#[test]
fn hanned_detects_sine_waves_across_the_range() {
    for freq in [55.0, 110.0, 261.63, 440.0, 523.25, 987.77] {
        let mut detector = HannedFftDetector::new(hanning, forward, fit);
        let signal = sine_wave_signal(NUM_SAMPLES, freq, SAMPLE_RATE as f64);
        let actual_freq = detector
            .detect_pitch_in_range(&to_fixed(&signal), SAMPLE_RATE, MIN_FREQ..MAX_FREQ)
            .unwrap() as f64
            / 1000.0;
        assert!(
            (actual_freq - freq).abs() < 0.2,
            "Expected freq: {}, Actual freq: {}",
            freq,
            actual_freq
        );
    }
}

#[test]
fn a_frequency_range_without_bins_is_a_mistake() {
    let mut detector = HannedFftDetector::new(hanning, forward, fit);
    let signal = to_fixed(&sine_wave_signal(NUM_SAMPLES, 440., SAMPLE_RATE as f64));
    let error = detector
        .detect_pitch_in_range(&signal, SAMPLE_RATE, 440_000..440_000)
        .unwrap_err();
    assert!(matches!(error, PitchError::IncorrectParameters(_)));
    // a range beyond the buffer has bins, but the buffer has none of them
    let error = detector
        .detect_pitch_in_range(&signal, SAMPLE_RATE, 50_000_000..60_000_000)
        .unwrap_err();
    assert!(matches!(error, PitchError::NoPitchDetected(_)));
}

#[test]
fn a_transform_that_loses_values_leaves_no_spectrum() {
    let mut detector = HannedFftDetector::new(hanning, |_: &[Complex]| Vec::new(), fit);
    let signal = to_fixed(&sine_wave_signal(NUM_SAMPLES, 440., SAMPLE_RATE as f64));
    let (start_bin, spectrum) =
        detector.into_frequency_domain(&signal, Some((MIN_FREQ..MAX_FREQ, SAMPLE_RATE)));
    assert_eq!((start_bin, spectrum), (12, vec![]));
    let error = detector
        .detect_pitch_in_range(&signal, SAMPLE_RATE, MIN_FREQ..MAX_FREQ)
        .unwrap_err();
    assert!(matches!(error, PitchError::NoPitchDetected(_)));
}

#[test]
fn a_failed_fit_is_an_unexpected_error() {
    let failing = |_: Vec<i64>, _: Vec<i64>| -> Fit { Err("no curve".to_string()) };
    let mut detector = HannedFftDetector::new(hanning, forward, failing);
    let signal = to_fixed(&sine_wave_signal(NUM_SAMPLES, 440., SAMPLE_RATE as f64));
    let error = detector
        .detect_pitch_in_range(&signal, SAMPLE_RATE, MIN_FREQ..MAX_FREQ)
        .unwrap_err();
    assert_eq!(error.to_string(), "Unexpected Error: no curve\n");
}

#[test]
fn reused_detector_gives_what_a_fresh_one_gives() {
    let first = to_fixed(&sine_wave_signal(NUM_SAMPLES, 220., SAMPLE_RATE as f64));
    let second = to_fixed(&sine_wave_signal(NUM_SAMPLES, 440., SAMPLE_RATE as f64));
    let range = Some((MIN_FREQ..MAX_FREQ, SAMPLE_RATE));
    let mut reused = HannedFftDetector::new(hanning, forward, fit);
    reused.into_frequency_domain(&first, range.clone());
    let again = reused.into_frequency_domain(&second, range.clone());
    let mut fresh = HannedFftDetector::new(hanning, forward, fit);
    let once = fresh.into_frequency_domain(&second, range);
    assert_eq!(again, once);
    assert_eq!(reused.buffer(), fresh.buffer());
    assert_eq!(
        reused.detect_pitch_in_range(&second, SAMPLE_RATE, MIN_FREQ..MAX_FREQ).unwrap(),
        fresh.detect_pitch_in_range(&second, SAMPLE_RATE, MIN_FREQ..MAX_FREQ).unwrap()
    );
}

fn sine(num_samples: usize, freq: i64, sample_rate: u32) -> Vec<i64> {
    sine_wave_signal(num_samples, freq as f64 / 1000.0, sample_rate as f64)
        .iter()
        .map(|x| (x * 16383.0).round() as i64)
        .collect()
}

fn mixed() -> Vec<i64> {
    pitch_detector::common::utils::mixed_wave_signal(
        NUM_SAMPLES,
        vec![440_000, 523_250],
        SAMPLE_RATE,
        &sine,
    )
}

#[test]
fn test_with_mixed_wave_signal() {
    let mut detector = HannedFftDetector::new(hanning, forward, fit);
    assert_eq!(
        detect_note_with_hint_and_range(
            &mut detector,
            NoteName::A,
            &mixed(),
            SAMPLE_RATE,
            Some(MIN_FREQ..MAX_FREQ),
            &peaks,
            &cents,
            &fit
        )
        .unwrap()
        .note_name,
        NoteName::A
    );
}

#[test]
fn hint_finds_the_other_note_of_the_mix() {
    let mut detector = HannedFftDetector::new(hanning, forward, fit);
    let note = detect_note_with_hint_and_range(
        &mut detector,
        NoteName::C,
        &mixed(),
        SAMPLE_RATE,
        Some(MIN_FREQ..MAX_FREQ),
        &peaks,
        &cents,
        &fit,
    )
    .unwrap();
    assert_eq!(note.note_name, NoteName::C);
    assert_eq!(note.octave, 5);
    assert!(note.in_tune);
    // without a range, the first half of the spectrum is searched
    let note =
        detect_note_with_hint(&mut detector, NoteName::C, &mixed(), SAMPLE_RATE, &peaks, &cents, &fit)
            .unwrap();
    assert_eq!((note.note_name, note.octave), (NoteName::C, 5));
}

#[test]
fn hint_absent_from_the_signal_detects_no_pitch() {
    let mut detector = HannedFftDetector::new(hanning, forward, fit);
    let error = detect_note_with_hint_and_range(
        &mut detector,
        NoteName::FSharp,
        &mixed(),
        SAMPLE_RATE,
        Some(MIN_FREQ..MAX_FREQ),
        &peaks,
        &cents,
        &fit,
    )
    .unwrap_err();
    assert_eq!(
        error.to_string(),
        "No Pitch Detected Error: Did not find pitch that matches hint\n"
    );
}

#[test]
fn the_note_of_a_signal_is_detected() {
    let signal = to_fixed(&sine_wave_signal(NUM_SAMPLES, 448., SAMPLE_RATE as f64));
    let mut detector = HannedFftDetector::new(hanning, forward, fit);
    let note: NoteDetection =
        detect_note_in_range(&signal, &mut detector, SAMPLE_RATE, MIN_FREQ..MAX_FREQ, &cents)
            .unwrap();
    assert_eq!(note.note_name, NoteName::A);
    assert!(note.cents_offset > 0);
    assert!((note.cents_offset - 31_194).abs() < 500, "{}", note.cents_offset);
    assert!(!note.in_tune);
    let note = detect_note(&signal, &mut detector, SAMPLE_RATE, &cents).unwrap();
    assert_eq!(note.note_name, NoteName::A);
    // a detector in the time domain will do as well
    let note = detect_note(&signal[..4096], &mut Autocorrelation, SAMPLE_RATE, &cents).unwrap();
    assert_eq!(note.note_name, NoteName::A);
    // a pitch above the range is not detected within it
    let high = to_fixed(&sine_wave_signal(NUM_SAMPLES, 2000., SAMPLE_RATE as f64));
    let note =
        detect_note_in_range(&high, &mut detector, SAMPLE_RATE, MIN_FREQ..MAX_FREQ, &cents)
            .unwrap();
    assert!(note.actual_freq < 1_100_000);
}

fn harmonics(freq: f64) -> Vec<f64> {
    let mut signal = vec![0.0; NUM_SAMPLES];
    for harmonic in 1..=12 {
        let partial = sine_wave_signal(NUM_SAMPLES, freq * harmonic as f64, SAMPLE_RATE as f64);
        for (a, b) in signal.iter_mut().zip(partial.iter()) {
            *a += *b / harmonic as f64;
        }
    }
    signal
}

#[test]
fn the_power_cepstrum_finds_the_fundamental_of_harmonics() {
    let mut detector = PowerCepstrum::new_with_defaults(forward, log_power, inverse, peaks, fit);
    let signal = to_fixed(&harmonics(220.5));
    let (start_bin, spectrum) =
        detector.into_frequency_domain(&signal, Some((MIN_FREQ..MAX_FREQ, SAMPLE_RATE)));
    assert_eq!((start_bin, spectrum.len()), (42, 1349 - 42));
    assert_eq!(detector.name(), "power");
    assert_eq!(detector.mapping(), BinMapping::Reciprocal);
    let freq = detector
        .detect_pitch_in_range(&signal, SAMPLE_RATE, MIN_FREQ..MAX_FREQ)
        .unwrap() as f64
        / 1000.0;
    assert!((freq - 220.5).abs() < 1.0, "{}", freq);
    // with candidates nobody can stand out from, no pitch is detected
    let twins = |_: &[i64], _: i64| {
        vec![
            FrequencyBin { bin: 100, magnitude: 70 },
            FrequencyBin { bin: 158, magnitude: 70 },
        ]
    };
    let mut detector = PowerCepstrum::new_with_defaults(forward, log_power, inverse, twins, fit);
    let error = detector
        .detect_pitch_in_range(&signal, SAMPLE_RATE, MIN_FREQ..MAX_FREQ)
        .unwrap_err();
    assert!(matches!(error, PitchError::NoPitchDetected(_)));
    // and with one that stands out, that one is the pitch
    let clear = |_: &[i64], _: i64| {
        vec![
            FrequencyBin { bin: 100, magnitude: 70 },
            FrequencyBin { bin: 158, magnitude: 88 },
        ]
    };
    let mut detector = PowerCepstrum::new_with_defaults(forward, log_power, inverse, clear, fit);
    let freq = detector
        .detect_pitch_in_range(&signal, SAMPLE_RATE, MIN_FREQ..MAX_FREQ)
        .unwrap() as f64
        / 1000.0;
    assert!((freq - 220.5).abs() < 1.0, "{}", freq);
}

#[test]
fn detection_repeats_on_a_reused_buffer() {
    let signal = to_fixed(&harmonics(220.5));
    let other = to_fixed(&harmonics(330.));
    let mut reused = PowerCepstrum::new_with_defaults(forward, log_power, inverse, peaks, fit);
    let first = reused.detect_pitch_in_range(&signal, SAMPLE_RATE, MIN_FREQ..MAX_FREQ).unwrap();
    let second = reused.detect_pitch_in_range(&signal, SAMPLE_RATE, MIN_FREQ..MAX_FREQ).unwrap();
    assert_eq!(first, second);
    let _ = reused.detect_pitch_in_range(&other, SAMPLE_RATE, MIN_FREQ..MAX_FREQ);
    let third = reused.detect_pitch_in_range(&signal, SAMPLE_RATE, MIN_FREQ..MAX_FREQ).unwrap();
    assert_eq!(first, third);
    let mut fresh = PowerCepstrum::new_with_defaults(forward, log_power, inverse, peaks, fit);
    assert_eq!(
        fresh.detect_pitch_in_range(&signal, SAMPLE_RATE, MIN_FREQ..MAX_FREQ).unwrap(),
        first
    );
    let sine = to_fixed(&sine_wave_signal(NUM_SAMPLES, 440., SAMPLE_RATE as f64));
    let mut reused = HannedFftDetector::new(hanning, forward, fit);
    let first = reused.detect_pitch_in_range(&sine, SAMPLE_RATE, MIN_FREQ..MAX_FREQ).unwrap();
    let second = reused.detect_pitch_in_range(&sine, SAMPLE_RATE, MIN_FREQ..MAX_FREQ).unwrap();
    assert_eq!(first, second);
    // an error repeats as well
    let first = reused.detect_pitch_in_range(&sine, SAMPLE_RATE, 440_000..440_000).unwrap_err();
    let second = reused.detect_pitch_in_range(&sine, SAMPLE_RATE, 440_000..440_000).unwrap_err();
    assert!(matches!(first, PitchError::IncorrectParameters(_)));
    assert!(matches!(second, PitchError::IncorrectParameters(_)));
}

#[test]
fn the_largest_value_of_the_cepstrum_is_the_pitch() {
    let mut detector = Cepstrum2::new(cepstrum);
    let signal = to_fixed(&harmonics(220.5));
    let freq = detector
        .detect_pitch_in_range(&signal, SAMPLE_RATE, MIN_FREQ..MAX_FREQ)
        .unwrap();
    assert_eq!(freq, 220_500);
}

// every run above zero fitted, the strongest taken
#[test]
fn test_autocorrelation_sine() {
    let mut detector = AutocorrelationDetector::new(forward, inverse, fit);
    let signal = sine_wave_signal(NUM_SAMPLES, 440., SAMPLE_RATE as f64);
    assert_detects(&mut detector, &signal, 440.);
    // a buffer of one's own may be used again and again
    let mut fft_space = FftSpace::new(NUM_SAMPLES);
    for _ in 0..2 {
        let freq = detector
            .detect_frequency_with_fft_space(&to_fixed(&signal), SAMPLE_RATE, &mut fft_space)
            .unwrap() as f64
            / 1000.0;
        assert!(freq.approx_eq(440., (0.2, 2)));
    }
}

// the largest lag, refined by its neighbourhood
#[test]
fn autocorrelation_test_autocorrelation_sine() {
    let detector = AutocorrelationDetector::new(forward, inverse, fit);
    let signal = to_fixed(&sine_wave_signal(NUM_SAMPLES, 440., SAMPLE_RATE as f64));
    let mut fft_space = FftSpace::new(signal.len());
    fft_space.init_with_signal(&signal);
    let freq = detector
        .detect_with_fft_space(SAMPLE_RATE, &mut fft_space)
        .unwrap() as f64
        / 1000.0;
    assert!(
        freq.approx_eq(440., (0.2, 2)),
        "Expected freq: {}, Actual freq: {}",
        440.,
        freq
    );
    // step by step
    fft_space.init_with_signal(&signal);
    assert!(detector.process_fft(&mut fft_space));
    let (lower_limit, upper_limit) = relevant_fft_range(SAMPLE_RATE);
    assert_eq!((lower_limit, upper_limit), (42, 1349));
    let spectrum = unscaled_spectrum(
        fft_space.space(),
        (lower_limit, upper_limit),
        CORRELATION_SCALE,
    );
    let bin = max_bin(&spectrum).unwrap();
    assert_eq!(bin + lower_limit, 100);
    assert!(detect_unscaled_freq(&spectrum).is_some());
    let peak = interpolated_peak_at(&spectrum, bin, &fit).unwrap();
    assert_eq!(
        lag_pitch(peak, lower_limit, SAMPLE_RATE).unwrap(),
        (freq * 1000.0).round() as i64
    );
}

// the strongest of the peaks that the flags of a streaming detector mark
#[test]
fn raw_fft_test_raw_fft_sine() {
    let mut detector = HannedFftDetector::new(hanning, forward, fit);
    let signal = to_fixed(&sine_wave_signal(NUM_SAMPLES, 440., SAMPLE_RATE as f64));
    let (start_bin, spectrum) =
        detector.into_frequency_domain(&signal, Some((MIN_FREQ..MAX_FREQ, SAMPLE_RATE)));
    let stream: Vec<FlaggedBin> = flags(&spectrum, 40, 10_000, 0)
        .into_iter()
        .enumerate()
        .map(|(i, flag)| FlaggedBin {
            bin: start_bin + i,
            magnitude: spectrum[i],
            flag,
        })
        .collect();
    let peak = strongest_flagged_peak(stream, &fit).unwrap();
    let freq = detector.bin_to_freq(peak.x, SAMPLE_RATE).unwrap() as f64 / 1000.0;
    assert!(
        freq.approx_eq(440., (0.2, 2)),
        "Expected freq: {}, Actual freq: {}",
        440.,
        freq
    );
}

#[test]
fn peaks_are_found_by_their_detectors() {
    let mut spectrum = vec![10i64; 200];
    for (i, value) in spectrum.iter_mut().enumerate() {
        *value += (i % 3) as i64;
    }
    spectrum[120] = 400;
    spectrum[121] = 900;
    spectrum[122] = 500;
    let found = PeakFinderDetector::new(3000).detect_peaks(&spectrum, &peaks);
    assert_eq!(found.len(), 1);
    assert_eq!(found[0].bin, 121);
    let found = ZScoreDetector::new(40, 6000, 0).detect_peaks(&spectrum, &flags);
    assert_eq!(
        found,
        vec![FrequencyBin {
            bin: 121,
            magnitude: 900
        }]
    );
    // flags that do not go with the values leave no peaks
    let none = |_: &[i64], _: usize, _: i64, _: i64| vec![Flag::High];
    assert_eq!(
        ZScoreDetector::new(40, 6000, 0).detect_peaks(&spectrum, &none),
        vec![]
    );
}
