use pitch_detector::common::error::PitchError;
use pitch_detector::common::fft_space::{sqrt_floor, Complex, FftSpace};
use pitch_detector::common::fixed::{
    div_floor, div_round, fraction_less, magnitude_of, ratio_less, to_microbins, BIN_UNIT,
};
use pitch_detector::common::into_frequency_domain::{round_to_bin, BinMapping};
use pitch_detector::common::utils::{
    calc_optimized_fft_space_size, interpolated_peak_at, mixed_wave_signal, peak_estimate_at,
    refine, Fit, PeakEstimate,
};
use pitch_detector::common::{FftPoint, FrequencyBin, NoteName};
use pitch_detector::common::into_frequency_domain::IntoFrequencyDomain;
use pitch_detector::note::hinted::{
    candidate_frequencies, candidate_pitches, detect_note_in_domain, detect_peak_with_hint,
    find_hinted, hint_peak_detector, hinted_note,
};
use pitch_detector::note::note_detection_result::Pitch;
use pitch_detector::note::peak_detector::{descending_order, sort_candidates, ZScoreDetector};
use pitch_detector::note::peak_iter::{
    peak_of_estimate, strongest_flagged_peak, Flag, FlaggedBin, PeakIter,
};
use pitch_detector::pitch::autocorrelation_detector::{
    detect_unscaled_freq, lag_pitch, positive_runs, relevant_fft_range, skip_first_slide,
    strongest, unscaled_spectrum,
};
use pitch_detector::pitch::cepstrum::{
    detect_pitch_of_candidates, dominant_candidate, PowerCepstrum,
};
use pitch_detector::pitch::cepstrum2::{cepstrum_pitch, pitch_of_cepstrum, Cepstrum2};
use pitch_detector::pitch::hanned_fft::HannedFftDetector;
use pitch_detector::pitch::{
    detect_pitch_in_spectrum, max_bin, nearest_whole_bin, nearest_whole_lag, peak_in_range,
    pitch_at, PitchDetector,
};

fn point(x: i64, y: i64) -> FftPoint {
    FftPoint { x, y }
}

fn bin(bin: usize, magnitude: i64) -> FrequencyBin {
    FrequencyBin { bin, magnitude }
}

// Collaborators that need no arithmetic: a window that leaves the signal
// as it is, a transform that leaves the buffer as it is, a fit that takes
// the middle of what it is given, and so on.
fn flat_window(size: usize) -> Vec<i64> {
    vec![pitch_detector::pitch::hanned_fft::WINDOW_SCALE; size]
}

fn same(buffer: &[Complex]) -> Vec<Complex> {
    buffer.to_vec()
}

fn same_value(value: &Complex) -> Complex {
    *value
}

fn middle(x_vals: Vec<i64>, y_vals: Vec<i64>) -> Fit {
    Ok((x_vals[x_vals.len() / 2] + 250_000, 1_000_000, y_vals[y_vals.len() / 2] + 1))
}

fn failing(_: Vec<i64>, _: Vec<i64>) -> Fit {
    Err("singular".to_string())
}

fn no_peaks(_: &[i64], _: i64) -> Vec<FrequencyBin> {
    vec![]
}

fn cents(freq: i64) -> i64 {
    ((freq as f64 / 440_000.0).log2() * 1_200_000.0).round() as i64
}

#[test]
fn waves_are_mixed_sample_by_sample() {
    // a square wave with a period of as many samples as the frequency says
    let square = |num_samples: usize, freq: i64, _: u32| -> Vec<i64> {
        (0..num_samples as i64)
            .map(|i| if i % freq < freq / 2 { 100 } else { -100 })
            .collect()
    };
    assert_eq!(
        mixed_wave_signal(8, vec![2, 4], 44100, &square),
        vec![200, 0, 0, -200, 200, 0, 0, -200]
    );
    assert_eq!(mixed_wave_signal(3, vec![], 44100, &square), vec![0, 0, 0]);
    assert_eq!(mixed_wave_signal(0, vec![2], 44100, &square), vec![]);
    // a wave that ends early leaves the rest as it is; sums saturate
    let short = |_: usize, freq: i64, _: u32| vec![freq; 2];
    assert_eq!(
        mixed_wave_signal(3, vec![i64::MAX, 5, 1], 44100, &short),
        vec![i64::MAX, i64::MAX, 0]
    );
}

#[test]
fn buffer_sizes_are_powers_of_two_from_1024() {
    assert_eq!(calc_optimized_fft_space_size(0), 1024);
    assert_eq!(calc_optimized_fft_space_size(1), 1024);
    assert_eq!(calc_optimized_fft_space_size(1024), 1024);
    assert_eq!(calc_optimized_fft_space_size(1025), 2048);
    assert_eq!(calc_optimized_fft_space_size(16384), 16384);
    assert_eq!(calc_optimized_fft_space_size(16385), 32768);
    assert_eq!(calc_optimized_fft_space_size(44100), 65536);
    assert_eq!(calc_optimized_fft_space_size(0x8000_0000), 0x8000_0000);
}

#[test]
fn rounding_is_to_the_nearest_with_halves_away_from_zero() {
    assert_eq!(div_round(7, 2), 4);
    assert_eq!(div_round(-7, 2), -4);
    assert_eq!(div_round(5, 10), 1);
    assert_eq!(div_round(4, 10), 0);
    assert_eq!(div_round(-5, 10), -1);
    assert_eq!(div_round(-4, 10), 0);
    assert_eq!(div_round(0, 3), 0);
    assert_eq!(div_round(i128::MAX, 1), i128::MAX);
    assert_eq!(div_round(i128::MAX, 2), i128::MAX / 2 + 1);
    assert_eq!(div_round(-i128::MAX, i128::MAX), -1);
    assert_eq!(div_floor(7, 2), (3, 1));
    assert_eq!(div_floor(-7, 2), (-4, 1));
    assert_eq!(div_floor(-8, 2), (-4, 0));
    assert_eq!(div_floor(-1, 12), (-1, 11));
    assert_eq!(to_microbins(3), 3_000_000);
    assert_eq!(to_microbins(usize::MAX), i64::MAX);
}

#[test]
fn quotients_are_compared_as_the_reals_are() {
    assert!(ratio_less(1, 2, 2, 3));
    assert!(!ratio_less(2, 3, 1, 2));
    assert!(!ratio_less(1, 2, 2, 4));
    // negative denominators
    assert!(ratio_less(1, -2, 1, 3));
    assert!(ratio_less(-1, 2, -1, -3));
    assert!(!ratio_less(1, -2, -1, 2));
    // over zero: infinite, by the sign of the numerator
    assert!(ratio_less(5, 7, 1, 0));
    assert!(ratio_less(-1, 0, 5, 7));
    assert!(ratio_less(-1, 0, 1, 0));
    assert!(!ratio_less(1, 0, 5, 7));
    assert!(!ratio_less(1, 0, 2, 0));
    assert!(!ratio_less(5, 7, -1, 0));
    // zero over zero is less than nothing and nothing is less than it
    assert!(!ratio_less(0, 0, 1, 1));
    assert!(!ratio_less(-1, 1, 0, 0));
    assert!(!ratio_less(0, 0, 0, 0));
}

#[test]
fn quotients_of_any_size_are_compared() {
    let big: i128 = 1 << 100;
    assert!(ratio_less(big, 3, big + 1, 3));
    assert!(!ratio_less(big + 1, 3, big, 3));
    assert!(!ratio_less(big, big, big + 1, big + 1));
    // 1 - 1/big < 1 - 1/(big + 1)
    assert!(ratio_less(big - 1, big, big, big + 1));
    assert!(!ratio_less(big, big + 1, big - 1, big));
    assert!(ratio_less(-big, big - 1, -big - 1, big));
    assert!(ratio_less(i128::MAX - 1, i128::MAX, 1, 1));
    assert!(!ratio_less(i128::MAX, i128::MAX, 1, 1));
    assert!(ratio_less(i128::MIN, 1, i128::MIN + 1, 1));
    assert!(ratio_less(i128::MIN, 1, i128::MAX, 1));
    assert!(!ratio_less(i128::MIN, i128::MIN, i128::MAX, i128::MAX));
    assert!(ratio_less(i128::MAX, i128::MIN, i128::MIN, i128::MIN));
    assert!(ratio_less(1, i128::MAX, 1, i128::MAX - 1));
    assert_eq!(magnitude_of(i128::MIN), 1u128 << 127);
    assert_eq!(magnitude_of(-5), 5);
    assert_eq!(magnitude_of(7), 7);
    // against the products, where they fit
    let terms: [i128; 7] = [-7, -2, -1, 0, 1, 3, 8];
    for a in terms {
        for b in terms {
            for c in terms {
                for d in terms {
                    if b != 0 && d != 0 {
                        let expected = if (b > 0) == (d > 0) { a * d < c * b } else { a * d > c * b };
                        assert_eq!(ratio_less(a, b, c, d), expected, "{a}/{b} < {c}/{d}");
                    }
                    if b > 0 && d > 0 && a >= 0 && c >= 0 {
                        assert_eq!(
                            fraction_less(a as u128, b as u128, c as u128, d as u128),
                            a * d < c * b
                        );
                    }
                }
            }
        }
    }
    assert!(fraction_less(u128::MAX - 1, u128::MAX, u128::MAX, u128::MAX));
    assert!(!fraction_less(u128::MAX, u128::MAX, u128::MAX - 1, u128::MAX - 1));
}

#[test]
fn an_empty_neighborhood_is_an_error() {
    for (spectrum, at) in [(vec![], 0), (vec![], 3), (vec![1, 2, 3], 3), (vec![5], 7)] {
        let error = peak_estimate_at(&spectrum, at).unwrap_err();
        assert!(matches!(error, PitchError::IncorrectParameters(_)));
        assert_eq!(
            error.to_string(),
            "Incorrect Parameters Error: Expected at least one x value\n"
        );
    }
}

#[test]
fn a_neighborhood_of_one_point_is_returned_unchanged() {
    assert_eq!(peak_estimate_at(&[7], 0).unwrap(), PeakEstimate::Exact(point(0, 7)));
    // neighbours at or below zero lie outside the peak
    assert_eq!(peak_estimate_at(&[0, 9, -3], 1).unwrap(), PeakEstimate::Exact(point(1_000_000, 9)));
    // a higher neighbour ends the neighbourhood
    assert_eq!(peak_estimate_at(&[8, 5, 6], 1).unwrap(), PeakEstimate::Exact(point(1_000_000, 5)));
    assert_eq!(peak_estimate_at(&[-4], 0).unwrap(), PeakEstimate::Exact(point(0, -4)));
}

#[test]
fn of_two_points_the_larger_is_returned() {
    assert_eq!(peak_estimate_at(&[0, 9, 4, 0], 1).unwrap(), PeakEstimate::Exact(point(1_000_000, 9)));
    assert_eq!(peak_estimate_at(&[0, 4, 9, 0], 2).unwrap(), PeakEstimate::Exact(point(2_000_000, 9)));
    // equal: the second
    assert_eq!(peak_estimate_at(&[0, 9, 9], 1).unwrap(), PeakEstimate::Exact(point(2_000_000, 9)));
    assert_eq!(peak_estimate_at(&[10, 9, 4], 1).unwrap(), PeakEstimate::Exact(point(1_000_000, 9)));
}

#[test]
fn three_points_or_more_are_to_be_fitted() {
    let spectrum = [0, 1, 4, 9, 4, 1, 0, 3, 5];
    assert_eq!(peak_estimate_at(&spectrum, 3).unwrap(), PeakEstimate::Fit { begin: 1, end: 5 });
    // from a flank, only the way down belongs to the neighbourhood
    assert_eq!(peak_estimate_at(&spectrum, 4).unwrap(), PeakEstimate::Exact(point(4_000_000, 4)));
    assert_eq!(peak_estimate_at(&[5, 5, 5, 5], 1).unwrap(), PeakEstimate::Fit { begin: 0, end: 3 });
    assert_eq!(peak_estimate_at(&[1, 2, 3], 2).unwrap(), PeakEstimate::Fit { begin: 0, end: 2 });
}

#[test]
fn a_fit_becomes_a_point_and_a_failed_fit_an_error() {
    let spectrum = [0, 1, 4, 9, 4, 1, 0, 3, 5];
    // the fit is given the bins in millionths and the magnitudes there
    let record = |x: Vec<i64>, y: Vec<i64>| -> Fit {
        assert_eq!(x, vec![1_000_000, 2_000_000, 3_000_000, 4_000_000, 5_000_000]);
        assert_eq!(y, vec![1, 4, 9, 4, 1]);
        Ok((3_200_000, 700_000, 10))
    };
    assert_eq!(interpolated_peak_at(&spectrum, 3, &record).unwrap(), point(3_200_000, 10));
    assert_eq!(
        refine(&spectrum, PeakEstimate::Fit { begin: 1, end: 5 }, &record).unwrap(),
        point(3_200_000, 10)
    );
    let error = interpolated_peak_at(&spectrum, 3, &failing).unwrap_err();
    assert_eq!(error.to_string(), "Unexpected Error: singular\n");
    // neighbourhoods of one and two bins need no fit
    assert_eq!(interpolated_peak_at(&spectrum, 4, &failing).unwrap(), point(4_000_000, 4));
    assert_eq!(interpolated_peak_at(&[0, 4, 9, 0], 2, &failing).unwrap(), point(2_000_000, 9));
    assert_eq!(
        refine(&spectrum, PeakEstimate::Exact(point(7000, 7)), &failing).unwrap(),
        point(7000, 7)
    );
    let error = interpolated_peak_at(&spectrum, 9, &middle).unwrap_err();
    assert!(matches!(error, PitchError::IncorrectParameters(_)));
}

fn gaussian_fit(x: Vec<i64>, y: Vec<i64>) -> Fit {
    let x: Vec<f64> = x.iter().map(|x| *x as f64 / BIN_UNIT as f64).collect();
    let y: Vec<f64> = y.iter().map(|y| *y as f64 / 1e12).collect();
    #[allow(deprecated)]
    let (mu, sigma, a) = fitting::gaussian::fit(x.into(), y.into()).map_err(|e| e.to_string())?;
    Ok((
        (mu * BIN_UNIT as f64).round() as i64,
        (sigma * BIN_UNIT as f64).round() as i64,
        (a * 1e12).round() as i64,
    ))
}

fn gaussian_spectrum(mu: f64, sigma: f64, a: f64) -> Vec<i64> {
    (0..11)
        .map(|x| a * (-(x as f64 - mu).powi(2) / (2.0 * sigma * sigma)).exp())
        .map(|y| (y * 1e12).round() as i64)
        .collect()
}

#[test]
fn a_gaussian_peak_is_recovered_by_the_fit() {
    let (mu, sigma, a) = (5.3f64, 1.7f64, 1.0f64);
    let scale = 1e12;
    let spectrum = gaussian_spectrum(mu, sigma, a);
    let (at, _) = spectrum
        .iter()
        .enumerate()
        .max_by_key(|(_, y)| **y)
        .unwrap();
    assert_eq!(max_bin(&spectrum), Some(at));
    let (begin, end) = match peak_estimate_at(&spectrum, at).unwrap() {
        PeakEstimate::Fit { begin, end } => (begin, end),
        other => panic!("{:?}", other),
    };
    assert_eq!((begin, end), (0, 10));
    let x_vals: Vec<f64> = (begin..=end).map(|i| i as f64).collect();
    let y_vals: Vec<f64> = spectrum[begin..=end].iter().map(|y| *y as f64 / scale).collect();
    #[allow(deprecated)]
    let (fit_mu, _, fit_a) = fitting::gaussian::fit(x_vals.into(), y_vals.into()).unwrap();
    assert!((fit_mu - mu).abs() < 1e-6, "{}", fit_mu);
    assert!((fit_a - a).abs() < 1e-6, "{}", fit_a);
    let peak = interpolated_peak_at(&spectrum, at, &gaussian_fit).unwrap();
    // within a millionth of a bin
    assert!((peak.x - 5_300_000).abs() <= 1, "{}", peak.x);
    assert!((peak.x as f64 / BIN_UNIT as f64 - mu).abs() <= 1e-6);
    assert!((peak.y as f64 / scale - a).abs() < 1e-6);
}

#[test]
fn a_peak_between_thousandths_of_a_bin_is_recovered() {
    for (mu, sigma) in [(5.3217f64, 1.7f64), (4.618034, 1.3), (5.000001, 2.1), (6.2718281, 1.9)] {
        let spectrum = gaussian_spectrum(mu, sigma, 1.0);
        let at = max_bin(&spectrum).unwrap();
        let peak = interpolated_peak_at(&spectrum, at, &gaussian_fit).unwrap();
        let expected = (mu * 1e6).round() as i64;
        assert!((peak.x - expected).abs() <= 1, "{} for {}", peak.x, mu);
        assert!((peak.y as f64 / 1e12 - 1.0).abs() < 1e-6);
    }
}

#[test]
fn the_largest_magnitude_is_found_where_it_first_occurs() {
    assert_eq!(max_bin(&[]), None);
    assert_eq!(max_bin(&[3]), Some(0));
    assert_eq!(max_bin(&[1, 9, 3, 9, 2]), Some(1));
    assert_eq!(max_bin(&[-5, -2, -9]), Some(1));
    assert_eq!(max_bin(&[4, 4, 4]), Some(0));
    let error = peak_in_range((12, 389), &[]).unwrap_err();
    assert_eq!(
        error.to_string(),
        "No Pitch Detected Error: Spectrum had no elements\n"
    );
    for bin_range in [(12, 12), (389, 12)] {
        let error = peak_in_range(bin_range, &[]).unwrap_err();
        assert_eq!(
            error.to_string(),
            "Incorrect Parameters Error: Frequency range has no bins\n"
        );
    }
    assert_eq!(
        peak_in_range((12, 19), &[0, 1, 4, 9, 4, 1, 0]).unwrap(),
        PeakEstimate::Fit { begin: 1, end: 5 }
    );
    // from the spectrum to the pitch in one go
    let linear = BinMapping::Linear { padded_len: 1024 };
    assert_eq!(
        detect_pitch_in_spectrum((9, 13), &[0, 5, 3, 0], &failing, linear, 44100).unwrap(),
        430_664
    );
    assert_eq!(
        detect_pitch_in_spectrum((9, 14), &[3, 5, 4, 3, 0], &middle, linear, 44100).unwrap(),
        484_497
    );
    let error =
        detect_pitch_in_spectrum((9, 14), &[3, 5, 4, 3, 0], &failing, linear, 44100).unwrap_err();
    assert_eq!(error.to_string(), "Unexpected Error: singular\n");
    assert!(matches!(
        detect_pitch_in_spectrum((9, 9), &[3, 5, 4], &middle, linear, 44100),
        Err(PitchError::IncorrectParameters(_))
    ));
    assert!(matches!(
        detect_pitch_in_spectrum((9, 12), &[], &middle, linear, 44100),
        Err(PitchError::NoPitchDetected(_))
    ));
    assert_eq!(detect_unscaled_freq(&[]), None);
    assert_eq!(
        detect_unscaled_freq(&[-1, 6, -1]),
        Some(PeakEstimate::Exact(point(1_000_000, 6)))
    );
}

#[test]
fn candidates_are_sorted_from_the_largest_down() {
    let candidates = vec![bin(10, 5), bin(20, 9), bin(30, 5), bin(40, 12), bin(50, 9)];
    assert_eq!(descending_order(&candidates), vec![3, 1, 4, 0, 2]);
    assert_eq!(
        sort_candidates(&candidates),
        vec![bin(40, 12), bin(20, 9), bin(50, 9), bin(10, 5), bin(30, 5)]
    );
    assert_eq!(sort_candidates(&vec![]), vec![]);
    assert_eq!(descending_order(&vec![bin(1, -3)]), vec![0]);
    assert!(bin(3, 1).less_than(&bin(2, 4)));
    assert!(!bin(3, 4).less_than(&bin(2, 4)));
    assert_eq!(FftPoint::from(bin(12, 7)), point(12_000_000, 7));
    assert_eq!(FrequencyBin::default(), bin(0, 0));
    assert_eq!(FftPoint::default(), point(0, 0));
}

#[test]
fn the_best_candidate_has_to_stand_out() {
    // equal peaks: a ratio of 1.0 does not exceed 1.25
    let equal = vec![bin(100, 8000), bin(200, 8000)];
    let error = dominant_candidate(&equal, 1250).unwrap_err();
    assert!(matches!(error, PitchError::NoPitchDetected(_)));
    // exactly at the threshold is not above it
    let at = vec![bin(100, 1250), bin(200, 1000)];
    assert!(matches!(
        dominant_candidate(&at, 1250),
        Err(PitchError::NoPitchDetected(_))
    ));
    let above = vec![bin(100, 1000), bin(200, 1251), bin(300, 999)];
    assert_eq!(dominant_candidate(&above, 1250).unwrap(), bin(200, 1251));
    // one candidate is accepted as it is
    assert_eq!(dominant_candidate(&vec![bin(7, 1)], 1250).unwrap(), bin(7, 1));
    // none
    let error = dominant_candidate(&vec![], 1250).unwrap_err();
    assert_eq!(
        error.to_string(),
        "Incorrect Parameters Error: Expected to have at least one bin value\n"
    );
    // a second candidate of magnitude zero is exceeded by any ratio
    assert_eq!(dominant_candidate(&vec![bin(1, 5), bin(2, 0)], 1250).unwrap(), bin(1, 5));
    assert!(dominant_candidate(&vec![bin(1, 0), bin(2, 0)], 1250).is_err());
}

#[test]
fn the_cepstrum_detector_returns_the_frequency_of_the_dominant_peak() {
    let detector = PowerCepstrum::new_with_defaults(same, same_value, same, no_peaks, middle);
    assert_eq!(detector.peak_detector().get_sigmas(), 6000);
    let mut spectrum = vec![0i64; 200];
    spectrum[57] = 9000;
    spectrum[143] = 4000;
    let candidates = vec![bin(143, 4000), bin(57, 9000)];
    let peak = match detector.detect_peak(&spectrum, &candidates).unwrap() {
        PeakEstimate::Exact(peak) => peak,
        other => panic!("{:?}", other),
    };
    assert_eq!(peak, point(57_000_000, 9000));
    // lag 43 + 57 = 100 at 44100 Hz
    assert_eq!(detector.pitch(peak, 43, 44100).unwrap(), 441_000);
    // two peaks too close
    spectrum[143] = 8000;
    let candidates = vec![bin(143, 8000), bin(57, 9000)];
    assert!(matches!(
        detector.detect_peak(&spectrum, &candidates),
        Err(PitchError::NoPitchDetected(_))
    ));
    // with a lower threshold the same peak is accepted
    let lenient =
        PowerCepstrum::new(500, 1100, same, same_value, same, no_peaks, middle).with_sigmas(6000);
    assert!(lenient.detect_peak(&spectrum, &candidates).is_ok());
    let strict = lenient.with_promince_threshold(1125);
    assert!(strict.detect_peak(&spectrum, &candidates).is_err());
    // lag zero has no frequency
    assert!(matches!(
        detector.pitch(point(0, 1), 0, 44100),
        Err(PitchError::NoPitchDetected(_))
    ));
    // a candidate outside the spectrum
    assert!(matches!(
        detector.detect_peak(&spectrum, &vec![bin(500, 1)]),
        Err(PitchError::IncorrectParameters(_))
    ));
    // from the candidates to the pitch in one go
    spectrum[143] = 4000;
    let candidates = vec![bin(143, 4000), bin(57, 9000)];
    assert_eq!(
        detect_pitch_of_candidates(&spectrum, &candidates, 1250, &failing, 43, 44100).unwrap(),
        441_000
    );
    spectrum[56] = 7000;
    spectrum[58] = 6000;
    // the fit puts the peak a quarter of a lag beyond lag 100
    assert_eq!(
        detect_pitch_of_candidates(&spectrum, &candidates, 1250, &middle, 43, 44100).unwrap(),
        439_900
    );
    let error = detect_pitch_of_candidates(&spectrum, &candidates, 1250, &failing, 43, 44100)
        .unwrap_err();
    assert!(matches!(error, PitchError::UnexpectedError(_)));
    let error =
        detect_pitch_of_candidates(&spectrum, &vec![], 1250, &middle, 43, 44100).unwrap_err();
    assert!(matches!(error, PitchError::IncorrectParameters(_)));
}

#[test]
fn the_cepstrum_detector_reads_its_range_and_its_buffer() {
    let mut detector = PowerCepstrum::new_with_defaults(same, same_value, same, no_peaks, middle);
    assert_eq!(detector.padded_len(), None);
    assert_eq!(
        detector.bin_range(16384, Some((32_700..1_046_500, 44100))),
        (42, 1349)
    );
    assert_eq!(detector.bin_range(16384, None), (3, 16384));
    assert_eq!(detector.bin_to_freq(100_000_000, 44100), Some(441_000));
    assert_eq!(detector.freq_to_bin(441_000, 44100), Some(100_000_000));
    assert_eq!(detector.bin_to_freq(0, 44100), None);
    assert_eq!(detector.freq_to_bin(0, 44100), None);
    detector.load(&[3, -4, 5]);
    assert_eq!(detector.padded_len(), Some(1024));
    assert_eq!(detector.buffer()[1], Complex { re: -4, im: 0 });
    let mut values = vec![Complex { re: 0, im: 0 }; 1024];
    values[2] = Complex { re: 3, im: -4 };
    values[3] = Complex { re: i64::MAX, im: 1 };
    detector.store(&values);
    assert_eq!(detector.unscaled_spectrum((1, 5)), vec![0, 25, i64::MAX, 0]);
    assert_eq!(detector.unscaled_spectrum((1022, 5000)), vec![0, 0]);
    assert_eq!(detector.unscaled_spectrum((5, 1)), vec![]);
    // with transforms that leave the buffer as it is, the frequency domain
    // holds the squares of the samples
    let (start_bin, domain) = detector.into_frequency_domain(&[3, -4, 5, 0, 2], None);
    assert_eq!((start_bin, domain), (3, vec![0, 4]));
    let (start_bin, domain) =
        detector.into_frequency_domain(&[3, -4, 5, 0, 2], Some((4_410_000..22_050_000, 44100)));
    assert_eq!((start_bin, domain), (2, vec![25, 0, 4, 0, 0, 0, 0, 0]));
    // the logarithm stands between the transforms
    let mut squared = PowerCepstrum::new_with_defaults(
        same,
        |c: &Complex| Complex { re: c.re + 10, im: 1 },
        same,
        no_peaks,
        middle,
    );
    assert_eq!(
        squared.into_frequency_domain(&[3, -4], Some((4_410_000..22_050_000, 44100))).1[..2],
        [101, 101]
    );
    assert_eq!(squared.buffer()[..3], [
        Complex { re: 13, im: 1 },
        Complex { re: 6, im: 1 },
        Complex { re: 10, im: 1 },
    ]);
    // without candidates there is nothing to choose from
    let error = detector.detect_pitch_in_range(&[3, -4, 5], 44100, 32_700..1_046_500).unwrap_err();
    assert!(matches!(error, PitchError::IncorrectParameters(_)));
}

#[test]
fn the_hint_picks_the_first_candidate_of_its_note() {
    let a4 = Pitch { freq: 440_000, cents: 0 };
    let c5 = Pitch { freq: 523_250, cents: 299_996 };
    let a5 = Pitch { freq: 880_000, cents: 1_200_000 };
    let low = Pitch { freq: 27_500, cents: -4_800_000 };
    let pitches = vec![Some(c5), None, Some(low), Some(a5), Some(a4)];
    assert_eq!(find_hinted(&pitches, NoteName::C), Some(0));
    // the A below the range of notes and the missing pitch are passed over
    assert_eq!(find_hinted(&pitches, NoteName::A), Some(3));
    assert_eq!(find_hinted(&pitches, NoteName::G), None);
    assert_eq!(find_hinted(&vec![], NoteName::A), None);

    let spectrum = [0, 2, 0, 7, 0, 5, 0, 9, 0, 1];
    let candidates = vec![bin(7, 9), bin(3, 7), bin(5, 5), bin(1, 2), bin(9, 1)];
    assert_eq!(detect_peak_with_hint(NoteName::A, &spectrum, &candidates, &pitches).unwrap(), PeakEstimate::Exact(point(1_000_000, 2)));
    let error =
        detect_peak_with_hint(NoteName::G, &spectrum, &candidates, &pitches).unwrap_err();
    assert_eq!(
        error.to_string(),
        "No Pitch Detected Error: Did not find pitch that matches hint\n"
    );
    assert_eq!(hint_peak_detector().get_sigmas(), 6000);

    // the whole detection in a frequency domain that begins at bin 12: bins
    // 163 and 194 of 16384 at 44100 Hz sound as an A and as a C
    let mut spectrum = vec![0i64; 400];
    spectrum[151] = 900;
    spectrum[182] = 500;
    let found = |_: &[i64], sigmas: i64| {
        assert_eq!(sigmas, 6000);
        vec![bin(182, 500), bin(151, 900)]
    };
    let linear = BinMapping::Linear { padded_len: 16384 };
    assert_eq!(
        candidate_pitches(linear, &vec![bin(151, 900), bin(16384, 1)], 12, 44100, &cents),
        vec![
            Some(Pitch { freq: 438_739, cents: -4_969 }),
            Some(Pitch { freq: 44_132_300, cents: 7_977_825 })
        ]
    );
    let note =
        detect_note_in_domain(NoteName::C, 12, &spectrum, linear, 44100, &found, &cents, &failing)
            .unwrap();
    assert_eq!(
        (note.note_name, note.octave, note.actual_freq),
        (NoteName::C, 5, 522_180)
    );
    let note =
        detect_note_in_domain(NoteName::A, 12, &spectrum, linear, 44100, &found, &cents, &failing)
            .unwrap();
    assert_eq!((note.note_name, note.octave, note.in_tune), (NoteName::A, 4, true));
    let error =
        detect_note_in_domain(NoteName::B, 12, &spectrum, linear, 44100, &found, &cents, &failing)
            .unwrap_err();
    assert!(matches!(error, PitchError::NoPitchDetected(_)));
    let error =
        detect_note_in_domain(NoteName::A, 12, &spectrum, linear, 44100, &no_peaks, &cents, &middle)
            .unwrap_err();
    assert!(matches!(error, PitchError::NoPitchDetected(_)));
}

fn second_bin(_: &[i64], _: i64) -> Vec<FrequencyBin> {
    vec![bin(1, 10)]
}

fn sharp_of_second(_: Vec<i64>, _: Vec<i64>) -> Fit {
    Ok((1_450_000, 1_000_000, 10))
}

fn at_second(_: Vec<i64>, _: Vec<i64>) -> Fit {
    Ok((1_000_000, 1_000_000, 10))
}

#[test]
fn a_refined_peak_that_leaves_the_hinted_note_is_no_detection() {
    // A buffer of 1024 at 44100 Hz has bins 43 Hz wide: bin 11 is 473.730 Hz,
    // an A#, and 11.45 bins are 493.110 Hz, a B.
    let spectrum = vec![2, 10, 9, 1];
    let coarse = BinMapping::Linear { padded_len: 1024 };
    assert_eq!(coarse.bin_to_freq(11_000_000, 44100), Some(473_730));
    assert_eq!(coarse.bin_to_freq(11_450_000, 44100), Some(493_110));
    let error = detect_note_in_domain(
        NoteName::ASharp,
        10,
        &spectrum,
        coarse,
        44100,
        &second_bin,
        &cents,
        &sharp_of_second,
    )
    .unwrap_err();
    assert!(matches!(error, PitchError::NoPitchDetected(_)));
    let error = detect_note_in_domain(
        NoteName::B,
        10,
        &spectrum,
        coarse,
        44100,
        &second_bin,
        &cents,
        &sharp_of_second,
    )
    .unwrap_err();
    assert!(matches!(error, PitchError::NoPitchDetected(_)));
    let note = detect_note_in_domain(
        NoteName::ASharp,
        10,
        &spectrum,
        coarse,
        44100,
        &second_bin,
        &cents,
        &at_second,
    )
    .unwrap();
    assert_eq!((note.note_name, note.octave, note.actual_freq), (NoteName::ASharp, 4, 473_730));
    assert_eq!(
        hinted_note(NoteName::ASharp, 473_730, &cents).unwrap().note_name,
        NoteName::ASharp
    );
    assert!(matches!(
        hinted_note(NoteName::ASharp, 493_110, &cents),
        Err(PitchError::NoPitchDetected(_))
    ));
    assert!(matches!(
        hinted_note(NoteName::C, 16_350, &cents),
        Err(PitchError::NoPitchDetected(_))
    ));
}

#[test]
fn candidates_have_the_frequencies_of_their_bins() {
    let candidates = vec![bin(0, 1), bin(41, 1), bin(100, 1)];
    let linear = BinMapping::Linear { padded_len: 16384 };
    assert_eq!(
        candidate_frequencies(linear, &candidates, 122, 44100),
        vec![Some(328_381), Some(438_739), Some(597_546)]
    );
    assert_eq!(
        candidate_frequencies(BinMapping::Reciprocal, &candidates, 0, 44100),
        vec![None, Some(1_075_610), Some(441_000)]
    );
}

#[test]
fn bins_and_frequencies_correspond() {
    let linear = BinMapping::Linear { padded_len: 16384 };
    // bin 163.5 of 16384 at 44100 Hz: 440.0848 Hz
    assert_eq!(linear.bin_to_freq(163_500_000, 44100), Some(440_085));
    assert_eq!(linear.freq_to_bin(440_085, 44100), Some(163_500_060));
    assert_eq!(linear.freq_to_bin(440_000, 0), None);
    assert_eq!(BinMapping::Linear { padded_len: 0 }.bin_to_freq(1_000_000, 44100), None);
    assert_eq!(linear.bin_to_freq(-1_000_000, 44100), Some(-2692));
    assert_eq!(linear.freq_to_bin(i64::MAX, 1), Some(i64::MAX));
    assert_eq!(linear.freq_to_bin(i64::MIN, 1), Some(i64::MIN));
    assert_eq!(
        BinMapping::Linear { padded_len: usize::MAX }.freq_to_bin(i64::MAX, u32::MAX),
        Some(i64::MAX)
    );
    assert_eq!(
        BinMapping::Linear { padded_len: usize::MAX }.freq_to_bin(i64::MIN, u32::MAX),
        Some(i64::MIN)
    );
    assert_eq!(linear.bin_to_freq(i64::MAX, u32::MAX), Some(i64::MAX));
    let reciprocal = BinMapping::Reciprocal;
    assert_eq!(reciprocal.bin_to_freq(100_227_000, 44100), Some(440_001));
    assert_eq!(reciprocal.freq_to_bin(440_001, 44100), Some(100_227_045));
    assert_eq!(reciprocal.freq_to_bin(440_000, 44100), Some(100_227_273));
    assert_eq!(reciprocal.bin_to_freq(0, 44100), None);
    assert_eq!(reciprocal.bin_to_freq(-100_000_000, 44100), Some(-441_000));
    assert_eq!(reciprocal.bin_to_freq(1, u32::MAX), Some(4_294_967_295_000_000_000));
    assert_eq!(round_to_bin(163_500_000), 164);
    assert_eq!(round_to_bin(163_499_999), 163);
    assert_eq!(round_to_bin(-700_000), 0);
    for mapping in [linear, reciprocal] {
        for whole in [42usize, 100, 163, 1349] {
            let freq = mapping.bin_to_freq(BIN_UNIT * whole as i64, 44100).unwrap();
            let back = mapping.freq_to_bin(freq, 44100).unwrap();
            assert_eq!(round_to_bin(back), whole);
            // a millihertz is worth less than a hundredth of a bin here
            assert!((back - BIN_UNIT * whole as i64).abs() <= 5_000);
        }
    }
    assert_eq!(nearest_whole_bin(32_700, 44100, 16384), 12);
    assert_eq!(nearest_whole_bin(1_046_500, 44100, 16384), 389);
    assert_eq!(nearest_whole_bin(-5, 44100, 16384), 0);
    assert_eq!(nearest_whole_bin(5, 0, 16384), usize::MAX);
    assert_eq!(nearest_whole_bin(0, 0, 16384), 0);
    assert_eq!(nearest_whole_lag(1_046_500, 44100), 42);
    assert_eq!(nearest_whole_lag(32_700, 44100), 1349);
    assert_eq!(nearest_whole_lag(0, 44100), usize::MAX);
    assert_eq!(nearest_whole_lag(0, 0), 0);
    assert_eq!(nearest_whole_lag(-7, 44100), 0);
    assert_eq!(pitch_at(linear, point(500_000, 1), 163, 44100).unwrap(), 440_085);
}

#[test]
fn a_buffer_is_loaded_padded_and_windowed() {
    let mut space = FftSpace::new(3);
    assert_eq!(space.signal_len(), 3);
    assert_eq!(space.padded_len(), 1024);
    assert!(space.space().iter().all(|c| *c == Complex::zero()));
    space.init_with_signal(&[7, -8, 9, 10]);
    assert_eq!(space.space()[..5], [
        Complex { re: 7, im: 0 },
        Complex { re: -8, im: 0 },
        Complex { re: 9, im: 0 },
        Complex { re: 10, im: 0 },
        Complex { re: 0, im: 0 },
    ]);
    assert_eq!(space.signal(), vec![7, -8, 9]);
    // half, a quarter, three quarters, rounded with halves away from zero
    space.apply_window(&[2, 1, 3], 4);
    assert_eq!(space.signal(), vec![4, -2, 7]);
    assert_eq!(space.space()[3], Complex { re: 10, im: 0 });
    space.map(&|c: &Complex| Complex { re: c.im, im: -c.re });
    space.multiply_by_conjugate();
    assert_eq!(space.space()[0], Complex { re: 16, im: 0 });
    space.map(&|c: &Complex| Complex { re: 0, im: -c.re / 4 });
    assert_eq!(space.space()[0], Complex { re: 0, im: -4 });
    assert_eq!(space.space()[3], Complex { re: 0, im: -25 });
    space.init_with_signal(&[1]);
    assert_eq!(space.space()[..2], [Complex { re: 1, im: 0 }, Complex::zero()]);
    assert!(space.space()[1..].iter().all(|c| *c == Complex::zero()));
    {
        let (buffer, scratch) = space.workspace();
        assert_eq!(buffer.len(), scratch.len());
        buffer[5] = Complex { re: 3, im: 4 };
    }
    assert_eq!(space.freq_domain(false)[5], 25);
    assert_eq!(space.freq_domain(true)[5], 5);
    assert_eq!(space.freq_domain(true)[0], 1);
    assert_eq!(space.freq_domain(true).len(), 1024);
    // a transform is taken over if it keeps the length
    let swapped = |b: &[Complex]| -> Vec<Complex> {
        b.iter().map(|c| Complex { re: c.im, im: c.re }).collect()
    };
    assert!(space.transform(&swapped));
    assert_eq!(space.space()[5], Complex { re: 4, im: 3 });
    assert!(!space.transform(&|_: &[Complex]| vec![Complex::zero(); 3]));
    assert_eq!(space.space()[5], Complex { re: 4, im: 3 });
    let values = vec![Complex { re: -2, im: 2 }; 1024];
    space.store(&values);
    assert_eq!(space.freq_domain(false)[1023], 8);
    assert_eq!(space.freq_domain(true)[1023], 2);
    assert_eq!(FftSpace::new(1025).padded_len(), 2048);
}

#[test]
fn square_roots_are_rounded_down() {
    assert_eq!(sqrt_floor(0), 0);
    assert_eq!(sqrt_floor(1), 1);
    assert_eq!(sqrt_floor(15), 3);
    assert_eq!(sqrt_floor(16), 4);
    assert_eq!(sqrt_floor(17), 4);
    assert_eq!(sqrt_floor(u128::MAX), u64::MAX);
    assert_eq!(sqrt_floor(1 << 126), 1 << 63);
    assert_eq!(Complex { re: i64::MIN, im: i64::MIN }.norm_sqr(), 1u128 << 127);
}

#[test]
fn the_hanned_detector_reads_magnitudes_off_its_buffer() {
    let mut detector = HannedFftDetector::new(flat_window, same, middle);
    assert_eq!(detector.padded_len(), None);
    detector.load(&[100, 100, 100, 100], &[0, 8, 16, 4], 16);
    assert_eq!(detector.padded_len(), Some(1024));
    assert_eq!(
        detector.buffer()[..5],
        [
            Complex { re: 0, im: 0 },
            Complex { re: 50, im: 0 },
            Complex { re: 100, im: 0 },
            Complex { re: 25, im: 0 },
            Complex { re: 0, im: 0 },
        ]
    );
    assert_eq!(
        detector.bin_range(16384, Some((32_700..1_046_500, 44100))),
        (1, 24)
    );
    assert_eq!(detector.bin_range(16384, None), (0, 8192));
    assert_eq!(detector.mapping(), BinMapping::Linear { padded_len: 1024 });
    assert_eq!(detector.bin_to_freq(10_000_000, 44100), Some(430_664));
    assert_eq!(detector.freq_to_bin(430_664, 44100), Some(9_999_999));
    assert_eq!(detector.freq_to_bin(430_664, 0), None);
    let mut values = vec![Complex { re: 0, im: 0 }; 1024];
    values[10] = Complex { re: 3 * 32, im: 4 * 32 };
    values[11] = Complex { re: 0, im: -100 };
    detector.store(&values);
    // magnitude over the square root of the length: 160 / 32 and 100 / 32
    assert_eq!(detector.unscaled_spectrum((9, 13)), vec![0, 5, 3, 0]);
    assert_eq!(detector.unscaled_spectrum((13, 9)), vec![]);
    assert_eq!(detector.unscaled_spectrum((1023, 4000)), vec![0]);
    assert_eq!(detector.pitch(point(1_000_000, 5), 9, 44100).unwrap(), 430_664);
    // a second signal goes into the same buffer
    detector.load(&[1; 1024], &[], 1);
    assert_eq!(detector.padded_len(), Some(1024));
    assert!(detector.buffer().iter().all(|c| *c == Complex { re: 1, im: 0 }));
}

#[test]
fn runs_of_flagged_points_give_one_peak_each() {
    let flags = [
        Flag::Plain,
        Flag::High,
        Flag::High,
        Flag::High,
        Flag::Plain,
        Flag::Plain,
        Flag::High,
        Flag::Plain,
        Flag::High,
        Flag::High,
        Flag::Low,
        Flag::High,
    ];
    let magnitudes = [1, 5, 9, 9, 1, 1, 4, 1, 3, 2, 1, 8];
    let points: Vec<FlaggedBin> = flags
        .iter()
        .zip(magnitudes.iter())
        .enumerate()
        .map(|(i, (flag, magnitude))| FlaggedBin {
            bin: 100 + i,
            magnitude: *magnitude,
            flag: *flag,
        })
        .collect();
    let mut iter = PeakIter::new(points.clone());
    assert_eq!(iter.next(), Some(bin(102, 9)));
    assert_eq!(iter.next(), Some(bin(106, 4)));
    // the point flagged as low ends the run of two and is used up with it
    assert_eq!(iter.next(), Some(bin(108, 3)));
    assert_eq!(iter.next(), Some(bin(111, 8)));
    assert_eq!(iter.next(), None);
    assert_eq!(iter.next(), None);
    assert_eq!(
        PeakIter::new(points.clone()).collect(),
        vec![bin(102, 9), bin(106, 4), bin(108, 3), bin(111, 8)]
    );
    let mut iter = PeakIter::new(points.clone());
    assert_eq!(iter.next_estimate(), Some(PeakEstimate::Fit { begin: 1, end: 3 }));
    assert_eq!(iter.next_estimate(), Some(PeakEstimate::Exact(point(106_000_000, 4))));
    assert_eq!(iter.next_estimate(), Some(PeakEstimate::Exact(point(108_000_000, 3))));
    assert_eq!(iter.next_estimate(), Some(PeakEstimate::Exact(point(111_000_000, 8))));
    assert_eq!(iter.next_estimate(), None);
    // a point flagged as low where a run should begin ends the walk
    let mut stopped = points.clone();
    stopped[6].flag = Flag::Low;
    assert_eq!(PeakIter::new(stopped).collect(), vec![bin(102, 9)]);
    assert_eq!(PeakIter::new(vec![]).collect(), vec![]);
    assert_eq!(
        PeakIter::new(points.clone()).collect_estimates(),
        vec![
            PeakEstimate::Fit { begin: 1, end: 3 },
            PeakEstimate::Exact(point(106_000_000, 4)),
            PeakEstimate::Exact(point(108_000_000, 3)),
            PeakEstimate::Exact(point(111_000_000, 8)),
        ]
    );
    // the run of three is fitted to a peak of 10 at bin 102.25, the strongest
    assert_eq!(
        peak_of_estimate(&points, PeakEstimate::Fit { begin: 1, end: 3 }, &middle),
        Some(point(102_250_000, 10))
    );
    assert_eq!(strongest_flagged_peak(points.clone(), &middle), Some(point(102_250_000, 10)));
    // a fit that fails ends the walk before any peak is found
    assert_eq!(strongest_flagged_peak(points.clone(), &failing), None);
    let mut later = points.clone();
    later.swap(1, 11);
    later[1].flag = Flag::Plain;
    later[2].flag = Flag::Plain;
    later[3].flag = Flag::Plain;
    later[11].flag = Flag::High;
    // without a run of three no fit is needed: 4, 3 and 5 are the peaks
    assert_eq!(strongest_flagged_peak(later, &failing), Some(point(101_000_000, 5)));
    assert_eq!(strongest_flagged_peak(vec![], &middle), None);
    assert_eq!(ZScoreDetector::new(40, 6000, 0).settings(), (40, 6000, 0));
}

#[test]
fn runs_above_zero_are_the_peaks_of_the_autocorrelation() {
    let spectrum = [900, 500, 2, 1, -3, -8, 0, 4, 0, 7, -1, 0, -2, 5, 6];
    assert_eq!(skip_first_slide(&spectrum, 1), 3);
    assert_eq!(skip_first_slide(&spectrum, 1000), 0);
    assert_eq!(skip_first_slide(&spectrum, -9), 15);
    assert_eq!(skip_first_slide(&[], 1), 0);
    assert_eq!(
        positive_runs(&spectrum, 3),
        vec![(3, 4), (7, 10), (13, 15)]
    );
    assert_eq!(
        positive_runs(&spectrum, 0),
        vec![(0, 4), (7, 10), (13, 15)]
    );
    assert_eq!(positive_runs(&spectrum, 15), vec![]);
    assert_eq!(positive_runs(&spectrum, 99), vec![]);
    assert_eq!(positive_runs(&[0, 0, -1], 0), vec![]);
    assert_eq!(strongest(&[]), None);
    assert_eq!(
        strongest(&[point(5000, 3), point(9000, 8), point(12_000, 8), point(1000, 2)]),
        Some(point(9000, 8))
    );
    assert_eq!(lag_pitch(point(227_000, 8), 100, 44100).unwrap(), 440_001);
    assert!(lag_pitch(point(0, 8), 0, 44100).is_err());
}

#[test]
fn the_autocorrelation_is_normalized_by_its_first_value() {
    let buffer: Vec<Complex> = [400, 300, -100, 1, 0]
        .iter()
        .map(|re| Complex { re: *re, im: 77 })
        .collect();
    assert_eq!(
        unscaled_spectrum(&buffer, (1, 9), 1000),
        vec![750, -250, 3, 0]
    );
    assert_eq!(
        unscaled_spectrum(&buffer, (0, 2), 1_000_000),
        vec![1_000_000, 750_000]
    );
    assert_eq!(unscaled_spectrum(&buffer, (3, 3), 1000), vec![]);
    assert_eq!(unscaled_spectrum(&[], (0, 3), 1000), vec![]);
    let silent: Vec<Complex> = [0, 5, -5, 0].iter().map(|re| Complex { re: *re, im: 0 }).collect();
    assert_eq!(
        unscaled_spectrum(&silent, (0, 4), 1000),
        vec![0, i64::MAX, i64::MIN, 0]
    );
    assert_eq!(relevant_fft_range(44100), (42, 1349));
    assert_eq!(relevant_fft_range(0), (0, 0));
}

#[test]
fn the_cepstrum_has_its_pitch_at_its_largest_value() {
    let mut cepstrum = vec![Complex { re: 1, im: 1 }; 2000];
    cepstrum[100] = Complex { re: 30, im: -40 };
    cepstrum[200] = Complex { re: -50, im: 0 };
    cepstrum[20] = Complex { re: 900, im: 0 };
    cepstrum[1500] = Complex { re: 900, im: 0 };
    // lags 42 to 1348 are searched; of two equal values the first counts
    assert_eq!(pitch_of_cepstrum(&cepstrum, 44100, 32_700..1_046_500).unwrap(), 441_000);
    cepstrum[200] = Complex { re: -51, im: 0 };
    let given = |_: &[i64]| cepstrum.clone();
    assert_eq!(
        Cepstrum2::new(given).detect_pitch_in_range(&[], 44100, 32_700..1_046_500).unwrap(),
        220_500
    );
    assert_eq!(cepstrum_pitch(&[], 44100, 32_700..1_046_500, &given).unwrap(), 220_500);
    // a range that begins where it ends searches its first lag alone
    assert_eq!(pitch_of_cepstrum(&cepstrum, 44100, 441_000..441_000).unwrap(), 441_000);
    // a cepstrum shorter than the first lag
    let error = pitch_of_cepstrum(&cepstrum[..42], 44100, 32_700..1_046_500).unwrap_err();
    assert!(matches!(error, PitchError::IncorrectParameters(_)));
    // lag zero is no pitch
    let error = pitch_of_cepstrum(&cepstrum[..1], 44100, 32_700..-1).unwrap_err();
    assert_eq!(error.to_string(), "No Pitch Detected Error: No pitch detected\n");
}
