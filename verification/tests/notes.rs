use float_cmp::ApproxEq;
use pitch_detector::common::error::PitchError;
use pitch_detector::common::NoteName;
use pitch_detector::common::NoteName::{ASharp, CSharp, DSharp, FSharp, GSharp, A, B, C, D, E, F, G};
use pitch_detector::note::note_detection_result::{note_frequency, NoteDetection, Pitch};
use pitch_detector::note_renderers::cmd_line::{CmdLineNoteRenderer, TunerLayout};
use pitch_detector::note_renderers::simple_command_line::SimpleCommandLineRenderer;

fn pitch(freq: f64) -> Pitch {
    Pitch {
        freq: (freq * 1000.0).round() as i64,
        cents: ((freq / 440.0).log2() * 1200.0 * 1000.0).round() as i64,
    }
}

fn test_pitch_from_f64(
    actual_freq: f64,
    note_name: NoteName,
    note_freq: f64,
    octave: i32,
    cents_offset: f64,
    previous_note_name: NoteName,
    next_note_name: NoteName,
    in_tune: bool,
) -> Result<(), PitchError> {
    let pitch = NoteDetection::try_from(pitch(actual_freq))?;
    assert_eq!(
        pitch.note_name,
        note_name,
        "Expected note name {}, got {}",
        note_name.to_string(),
        pitch.note_name.to_string()
    );
    assert!(
        (pitch.note_freq as f64 / 1000.0).approx_eq(note_freq, (0.1, 1)),
        "Expected note_freq: {}, actual note_freq: {}",
        note_freq,
        pitch.note_freq
    );
    assert_eq!(
        pitch.octave, octave,
        "Expected octave {}, got {}",
        octave, pitch.octave
    );
    assert!(
        (pitch.cents_offset as f64 / 1000.0).approx_eq(cents_offset, (0.1, 1)),
        "Expected cents_offset: {}, actual cents_offset: {}",
        cents_offset,
        pitch.cents_offset
    );
    assert_eq!(pitch.previous_note_name, previous_note_name);
    assert_eq!(pitch.next_note_name, next_note_name);
    assert_eq!(
        pitch.in_tune, in_tune,
        "Expected in tune {}, got {}",
        in_tune, pitch.in_tune
    );
    Ok(())
}

#[test]
fn test_name() {}

#[test]
fn note_detection_result_pitch_from_f64_works() {
    test_pitch_from_f64(311.13, DSharp, 311.13, 4, 0., D, E, true).unwrap();
    test_pitch_from_f64(329.63, E, 329.63, 4, 0., DSharp, F, true).unwrap();
    test_pitch_from_f64(349.23, F, 349.23, 4, 0., E, FSharp, true).unwrap();
    test_pitch_from_f64(369.99, FSharp, 369.99, 4, 0., F, G, true).unwrap();
    test_pitch_from_f64(392., G, 392., 4, 0., FSharp, GSharp, true).unwrap();
    test_pitch_from_f64(440., A, 440., 4, 0., GSharp, ASharp, true).unwrap();
    test_pitch_from_f64(493.88, B, 493.88, 4, 0., ASharp, C, true).unwrap();
    test_pitch_from_f64(523.25, C, 523.25, 5, 0., B, CSharp, true).unwrap();
    test_pitch_from_f64(880., A, 880., 5, 0., GSharp, ASharp, true).unwrap();
    test_pitch_from_f64(220., A, 220., 3, 0., GSharp, ASharp, true).unwrap();
    // Slightly sharp A
    test_pitch_from_f64(448., A, 440., 4, 31.194, GSharp, ASharp, false).unwrap();
    assert!(test_pitch_from_f64(0., A, 0., 0, 0., GSharp, ASharp, true).is_err());
}

#[test]
fn pitch_from_f64_works() {
    test_pitch_from_f64(311.13, DSharp, 311.13, 4, 0., D, E, true).unwrap();
    test_pitch_from_f64(329.63, E, 329.63, 4, 0., DSharp, F, true).unwrap();
    test_pitch_from_f64(349.23, F, 349.23, 4, 0., E, FSharp, true).unwrap();
    test_pitch_from_f64(369.99, FSharp, 369.99, 4, 0., F, G, true).unwrap();
    test_pitch_from_f64(392., G, 392., 4, 0., FSharp, GSharp, true).unwrap();
    test_pitch_from_f64(440., A, 440., 4, 0., GSharp, ASharp, true).unwrap();
    test_pitch_from_f64(493.88, B, 493.88, 4, 0., ASharp, C, true).unwrap();
    test_pitch_from_f64(523.25, C, 523.25, 5, 0., B, CSharp, true).unwrap();
    test_pitch_from_f64(880., A, 880., 5, 0., GSharp, ASharp, true).unwrap();
    test_pitch_from_f64(220., A, 220., 3, 0., GSharp, ASharp, true).unwrap();
    test_pitch_from_f64(448., A, 440., 4, 31.194, GSharp, ASharp, false).unwrap();
    assert!(test_pitch_from_f64(0., A, 0., 0, 0., GSharp, ASharp, true).is_err());
}

#[test]
fn a4_is_an_in_tune_a() {
    let note = NoteDetection::try_from(pitch(440.0)).unwrap();
    assert_eq!(
        note,
        NoteDetection {
            actual_freq: 440_000,
            note_name: NoteName::A,
            note_freq: 440_000,
            octave: 4,
            cents_offset: 0,
            previous_note_name: NoteName::GSharp,
            next_note_name: NoteName::ASharp,
            in_tune: true,
        }
    );
}

#[test]
fn c5_is_a_c_in_the_fifth_octave() {
    let note = NoteDetection::try_from(pitch(523.25)).unwrap();
    assert_eq!(note.note_name, NoteName::C);
    assert_eq!(note.octave, 5);
    assert_eq!(note.note_freq, 523_251);
    // 523.25 Hz lies four thousandths of a cent below C5
    assert_eq!(note.cents_offset, -4);
    assert!(note.in_tune);
}

#[test]
fn a_sharp_a_is_an_a_out_of_tune() {
    let note = NoteDetection::try_from(pitch(448.0)).unwrap();
    assert_eq!(note.note_name, NoteName::A);
    assert_eq!(note.actual_freq, 448_000);
    assert_eq!(note.note_freq, 440_000);
    assert_eq!(note.cents_offset, 31_194);
    assert!(!note.in_tune);
}

#[test]
fn a_frequency_below_the_lowest_note_has_no_note() {
    for freq in [0, 1, 32_699, -440_000] {
        let error = NoteDetection::try_from(Pitch { freq, cents: 0 }).unwrap_err();
        assert!(matches!(error, PitchError::IncorrectParameters(_)));
    }
    assert!(NoteDetection::try_from(Pitch { freq: 32_700, cents: -4_500_171 }).is_ok());
}

#[test]
fn the_note_is_read_off_the_cents() {
    // half a semitone rounds away from A4, on either side
    let up = NoteDetection::try_from(Pitch { freq: 452_893, cents: 50_000 }).unwrap();
    assert_eq!((up.note_name, up.cents_offset, up.in_tune), (NoteName::ASharp, -50_000, false));
    let down = NoteDetection::try_from(Pitch { freq: 427_474, cents: -50_000 }).unwrap();
    assert_eq!((down.note_name, down.cents_offset), (NoteName::GSharp, 50_000));
    let nearly = NoteDetection::try_from(Pitch { freq: 452_892, cents: 49_999 }).unwrap();
    assert_eq!((nearly.note_name, nearly.cents_offset), (NoteName::A, 49_999));
    // in tune strictly within ten cents
    let edge = NoteDetection::try_from(Pitch { freq: 442_549, cents: 10_000 }).unwrap();
    assert!(!edge.in_tune);
    let inside = NoteDetection::try_from(Pitch { freq: 442_549, cents: 9_999 }).unwrap();
    assert!(inside.in_tune);
    let flat = NoteDetection::try_from(Pitch { freq: 437_466, cents: -9_999 }).unwrap();
    assert!(flat.in_tune);
    let too_flat = NoteDetection::try_from(Pitch { freq: 437_466, cents: -10_000 }).unwrap();
    assert!(!too_flat.in_tune);
}

#[test]
fn the_octave_turns_two_semitones_above_a() {
    let below = NoteDetection::try_from(Pitch { freq: 493_883, cents: 199_999 }).unwrap();
    assert_eq!((below.note_name, below.octave), (NoteName::B, 4));
    let at = NoteDetection::try_from(Pitch { freq: 493_883, cents: 200_000 }).unwrap();
    assert_eq!((at.note_name, at.octave), (NoteName::B, 5));
    let low = NoteDetection::try_from(Pitch { freq: 55_000, cents: -3_600_000 }).unwrap();
    assert_eq!((low.note_name, low.octave, low.note_freq), (NoteName::A, 1, 55_000));
    let far = NoteDetection::try_from(Pitch { freq: 440_000, cents: i64::MAX }).unwrap();
    assert_eq!(far.octave, i32::MAX);
    assert_eq!(far.note_freq, i64::MAX);
    let deep = NoteDetection::try_from(Pitch { freq: 440_000, cents: i64::MIN }).unwrap();
    assert_eq!(deep.octave, i32::MIN);
    assert_eq!(deep.note_freq, 0);
}

#[test]
fn note_frequencies_are_equal_tempered() {
    let expected = [
        (0, 440_000),
        (1, 466_164),
        (2, 493_883),
        (3, 523_251),
        (12, 880_000),
        (-12, 220_000),
        (-9, 261_626),
        (-45, 32_703),
        (-48, 27_500),
        (39, 4_186_009),
    ];
    for (semitones, freq) in expected {
        assert_eq!(note_frequency(semitones), freq, "{} semitones", semitones);
        let float = 440_000.0 * 2f64.powf(semitones as f64 / 12.0);
        assert!((note_frequency(semitones) as f64 - float).abs() <= 0.6);
    }
}

#[test]
fn note_names_are_written_and_read() {
    let names = [
        "A", "A#", "B", "C", "C#", "D", "D#", "E", "F", "F#", "G", "G#",
    ];
    for (i, name) in names.iter().enumerate() {
        let note = NoteName::from(name);
        assert_eq!(note.index(), i);
        assert_eq!(NoteName::from_index(i), note);
        assert_eq!(note.to_string(), *name);
        assert_eq!(NoteName::parse(name), Some(note));
        assert_eq!(note.next(), NoteName::from_index((i + 1) % 12));
        assert_eq!(note.previous(), NoteName::from_index((i + 11) % 12));
        assert_eq!(note.next().previous(), note);
    }
    for text in ["", "H", "a", "B#", "E#", "A##", "#", "A ", "Ab", "C♯"] {
        assert_eq!(NoteName::parse(text), None, "{:?}", text);
    }
    assert_eq!(NoteName::C.base_freq(), 32_700);
    assert_eq!(NoteName::GSharp.base_freq(), 51_910);
}

#[test]
fn errors_are_displayed_with_their_kind() {
    assert_eq!(
        PitchError::UnexpectedError("fit".to_string()).to_string(),
        "Unexpected Error: fit\n"
    );
    assert_eq!(
        PitchError::IncorrectParameters("range".to_string()).to_string(),
        "Incorrect Parameters Error: range\n"
    );
    assert_eq!(
        PitchError::NoPitchDetected("".to_string()).to_string(),
        "No Pitch Detected Error: \n"
    );
}

#[test]
fn the_tuner_line_shows_the_note_between_its_neighbours() {
    let note = NoteDetection::try_from(pitch(440.0)).unwrap();
    let layout = TunerLayout::new(&note, 21);
    assert_eq!(layout.note_name_pos, 10);
    assert_eq!(layout.left_tick_pos, 9);
    assert_eq!(layout.right_tick_pos, 11);
    assert_eq!(layout.cursor_pos, 10);
    assert_eq!(layout.previous_note_pos, 0);
    assert_eq!(layout.next_note_pos, 20);
    assert_eq!(layout.width, 21);
    let line = layout.build("G#", "A", "A#");
    assert_eq!(line, "G#        |.A.         A#");
    let renderer = CmdLineNoteRenderer::new_with_rows_and_columns(21, 2);
    assert_eq!(renderer.get_size(), (21, 2));
    assert_eq!(renderer.note_line(&note), line);
}

#[test]
fn the_cursor_moves_left_as_the_pitch_gets_sharp() {
    let renderer = CmdLineNoteRenderer::new_with_rows_and_columns(80, 2);
    let sharp = NoteDetection::try_from(pitch(448.0)).unwrap();
    let layout = TunerLayout::new(&sharp, 80);
    // 40 columns times (100 - 31.194) / 100, rounded
    assert_eq!(layout.cursor_pos, 28);
    assert_eq!(layout.left_tick_pos, 36);
    assert_eq!(layout.right_tick_pos, 44);
    let line = renderer.note_line(&sharp);
    assert_eq!(line.chars().count(), 79 + 2 + 1 + 2);
    assert_eq!(line.chars().nth(28), Some('|'));
    assert_eq!(line.matches('|').count(), 1);
    let flat = NoteDetection::try_from(pitch(432.0)).unwrap();
    assert_eq!(TunerLayout::new(&flat, 80).cursor_pos, 53);
    // the narrowest terminal
    let narrow = CmdLineNoteRenderer::new_with_rows_and_columns(1, 1);
    assert_eq!(narrow.note_line(&sharp), "|#AA#");
}

#[test]
fn the_renderer_keeps_the_size_of_the_terminal() {
    let mut renderer = CmdLineNoteRenderer::new_with_rows_and_columns(80, 2);
    assert_eq!(renderer.input_end(), None);
    renderer.input_start(132, 43);
    assert_eq!(renderer.input_end(), Some((132, 43)));
    assert_eq!(renderer.get_size(), (80, 2));
}

#[test]
fn the_simple_renderer_names_the_note() {
    let note = NoteDetection::try_from(pitch(466.16)).unwrap();
    assert_eq!(SimpleCommandLineRenderer.note_line(&note), "Note: A#");
    let error = PitchError::NoPitchDetected("quiet".to_string());
    assert_eq!(
        SimpleCommandLineRenderer.no_note_line(&error),
        "No Pitch Detected Error: quiet\n"
    );
}
