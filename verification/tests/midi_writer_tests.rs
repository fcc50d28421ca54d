use strum2midi::midi_writer::{write_midi, MidiOptions};
use strum2midi::{parser, validate};

fn options() -> MidiOptions {
    MidiOptions {
        velocity: 90,
        strum_spread_ms: 20,
    }
}

fn assert_note_on_order(midi: &[u8], expected: &[u8]) {
    let notes = midi
        .windows(3)
        .filter(|window| window[0] == 0x90 && window[2] > 0)
        .map(|window| window[1])
        .take(expected.len())
        .collect::<Vec<_>>();
    assert_eq!(notes, expected);
}

#[test]
fn writes_valid_midi_header_and_tempo() {
    let song = parser::parse("tempo: 120\ntime: 4/4\n\n| C\n| ---- ---- ---- ----\n").unwrap();
    validate::validate(&song).unwrap();

    let midi = write_midi(&song, options()).unwrap();

    assert_eq!(&midi[..4], b"MThd");
    assert!(midi
        .windows(6)
        .any(|window| window == [0xFF, 0x51, 0x03, 0x07, 0xA1, 0x20]));
    assert!(midi.windows(2).any(|window| window == [0xC0, 25]));
}

#[test]
fn writes_explicit_instrument_program_change() {
    let song = parser::parse(
        "tempo: 120\ntime: 4/4\ninstrument: electric_guitar_clean\n\n| C\n| ---- ---- ---- ----\n",
    )
    .unwrap();
    validate::validate(&song).unwrap();

    let midi = write_midi(&song, options()).unwrap();

    assert!(midi.windows(2).any(|window| window == [0xC0, 27]));
}

#[test]
fn downstroke_orders_notes_low_to_high() {
    let song = parser::parse("tempo: 92\ntime: 4/4\n\n| C\n| D--- ---- ---- ----\n").unwrap();
    validate::validate(&song).unwrap();

    let midi = write_midi(&song, options()).unwrap();

    assert_note_on_order(&midi, &[48, 52, 55]);
}

#[test]
fn upstroke_orders_notes_high_to_low() {
    let song = parser::parse("tempo: 92\ntime: 4/4\n\n| C\n| --U- ---- ---- ----\n").unwrap();
    validate::validate(&song).unwrap();

    let midi = write_midi(&song, options()).unwrap();

    assert_note_on_order(&midi, &[55, 52, 48]);
}

#[test]
fn reports_unsupported_grids_when_rendering() {
    let song = parser::parse("tempo: 92\ntime: 4/4\nsubdivision: 12\n\n| C\n| D--- ---- ---- ----\n").unwrap();
    assert_eq!(write_midi(&song, options()).unwrap_err().to_string(), "unsupported subdivision '12'");
    let song = parser::parse("tempo: 92\ntime: 5/8\nbeat: dotted-quarter\n\n| C\n| D-- D--\n").unwrap();
    assert_eq!(
        write_midi(&song, options()).unwrap_err().to_string(),
        "unsupported time signature 5/8 with selected beat"
    );
}

#[test]
fn renders_unvalidated_bar_shapes_as_written() {
    let song = parser::parse("tempo: 92\ntime: 4/4\n\n| C\n| D--- D---\n").unwrap();
    assert!(validate::validate(&song).is_err());
    let midi = write_midi(&song, options()).unwrap();
    assert_eq!(midi.windows(3).filter(|w| w[0] == 0x90 && w[2] > 0).count(), 6);
}
