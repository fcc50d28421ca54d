use strum2midi::cli::Cli;
use strum2midi::midi_writer::{write_midi, MidiOptions};
use strum2midi::model::Part;
use strum2midi::parser::parse;
use strum2midi::voicing::parse_custom;
use strum2midi::{convert_song_to_midi, convert_song_with_voicings, convert_strum_to_midi};

fn options() -> MidiOptions {
    MidiOptions { velocity: 90, strum_spread_ms: 20 }
}

fn read_delta(midi: &[u8], index: &mut usize) -> u32 {
    let mut value = 0_u32;
    while *index < midi.len() {
        let byte = midi[*index];
        *index += 1;
        value = (value << 7) | u32::from(byte & 0x7F);
        if byte & 0x80 == 0 {
            break;
        }
    }
    value
}

/// (tick, status, data) for every event of the track.
fn events(midi: &[u8]) -> Vec<(u32, u8, Vec<u8>)> {
    let start = midi.windows(4).position(|w| w == b"MTrk").unwrap() + 8;
    let mut index = start;
    let mut tick = 0_u32;
    let mut out = Vec::new();
    while index < midi.len() {
        tick += read_delta(midi, &mut index);
        let status = midi[index];
        index += 1;
        match status {
            0x80..=0x9F => {
                out.push((tick, status, midi[index..index + 2].to_vec()));
                index += 2;
            }
            0xC0..=0xDF => {
                out.push((tick, status, midi[index..index + 1].to_vec()));
                index += 1;
            }
            0xFF => {
                let kind = midi[index];
                let length = usize::from(midi[index + 1]);
                let mut data = vec![kind];
                data.extend_from_slice(&midi[index + 2..index + 2 + length]);
                out.push((tick, status, data));
                index += 2 + length;
            }
            other => panic!("unexpected status {other:#x}"),
        }
    }
    out
}

fn note_ons(midi: &[u8]) -> Vec<(u32, u8, u8)> {
    events(midi)
        .into_iter()
        .filter(|(_, status, data)| *status == 0x90 && data[1] > 0)
        .map(|(tick, _, data)| (tick, data[0], data[1]))
        .collect()
}

fn convert(input: &str) -> Vec<u8> {
    let song = parse(input).unwrap();
    convert_song_to_midi(&song, MidiOptions::from_metadata(&song.metadata)).unwrap()
}

#[test]
fn converts_simple_chart_to_a_complete_file() {
    let midi = convert_strum_to_midi("tempo: 92\ntime: 4/4\n\n| C    G    Am   F\n| D--- D--- D--- D---\n", options()).unwrap();
    assert_eq!(&midi[..14], &[0x4D, 0x54, 0x68, 0x64, 0, 0, 0, 6, 0, 0, 0, 1, 0x01, 0xE0]);
    assert_eq!(&midi[14..18], b"MTrk");
    let length = u32::from_be_bytes([midi[18], midi[19], midi[20], midi[21]]) as usize;
    assert_eq!(length, midi.len() - 22);
    assert!(midi.ends_with(&[0x00, 0xFF, 0x2F, 0x00]));
    let evs = events(&midi);
    assert_eq!(evs[0], (0, 0xFF, vec![0x51, 0x09, 0xF3, 0x8D]));
    assert_eq!(evs[1], (0, 0xFF, vec![0x58, 4, 2, 24, 8]));
    assert_eq!(evs[2], (0, 0xC0, vec![25]));
    assert_eq!(note_ons(&midi).len(), 12);
}

#[test]
fn velocity_comes_from_metadata_unless_the_command_line_overrides_it() {
    let input = "tempo: 92\ntime: 4/4\nvelocity: 64\n\n| C\n| D--- ---- ---- ----\n";
    assert!(convert(input).windows(3).any(|w| w == [0x90, 48, 64]));
    let mut song = parse(input).unwrap();
    let Cli::Convert(cli) = Cli::parse(vec!["a".to_string(), "b".to_string(), "--velocity".to_string(), "80".to_string()]).unwrap() else {
        panic!("expected convert command");
    };
    cli.apply_to(&mut song.metadata);
    let midi = convert_song_to_midi(&song, MidiOptions::from_metadata(&song.metadata)).unwrap();
    assert!(midi.windows(3).any(|w| w == [0x90, 48, 80]));
    let plain = "tempo: 92\ntime: 4/4\n\n| C\n| D--- ---- ---- ----\n";
    assert!(convert(plain).windows(3).any(|w| w == [0x90, 48, 90]));
}

#[test]
fn strum_spread_separates_the_notes_of_a_plain_strum() {
    let midi = convert("tempo: 120\ntime: 4/4\nstrum_spread_ms: 25\n\n| C\n| D--- --U- ---- ----\n");
    let ons = note_ons(&midi);
    assert_eq!(ons[..3], [(0, 48, 90), (24, 52, 90), (48, 55, 90)]);
    assert_eq!(ons[3..], [(720, 55, 90), (744, 52, 90), (768, 48, 90)]);
}

#[test]
fn rests_make_no_note_events() {
    let midi = convert("tempo: 92\ntime: 4/4\n\n| C\n| ---- ---- ---- ----\n");
    assert!(events(&midi).iter().all(|(_, status, _)| *status != 0x90 && *status != 0x80));
}

#[test]
fn muted_strums_are_short_soft_chords() {
    let midi = convert("tempo: 92\ntime: 4/4\n\n| C\n| X--- ---- ---- ----\n");
    assert!(midi.windows(3).any(|w| w == [0x90, 48, 25]));
    assert!(!midi.iter().any(|byte| *byte == 0x99 || *byte == 0x89));
    let evs = events(&midi);
    let ons: Vec<_> = evs.iter().filter(|(_, s, d)| *s == 0x90 && d[1] > 0).collect();
    assert_eq!(ons.len(), 3);
    assert!(ons.iter().all(|(tick, _, d)| *tick == 0 && d[1] == 25));
    let offs: Vec<_> = evs.iter().filter(|(_, s, _)| *s == 0x80).collect();
    assert_eq!(offs.len(), 3);
    assert!(offs.iter().all(|(tick, _, _)| *tick == 30));
}

#[test]
fn every_note_on_has_a_note_off_one_tick_before_the_next_slot() {
    let midi = convert("tempo: 92\ntime: 4/4\n\n| C    G\n| DUDU DUDU DUDU DUDU\n");
    let evs = events(&midi);
    let ons = evs.iter().filter(|(_, s, d)| *s == 0x90 && d[1] > 0).count();
    let offs = evs.iter().filter(|(_, s, _)| *s == 0x80).count();
    assert_eq!(ons, 48);
    assert_eq!(offs, 48);
    let ticks: Vec<u32> = evs.iter().map(|(t, _, _)| *t).collect();
    assert!(ticks.windows(2).all(|w| w[0] <= w[1]));
    assert!(evs.iter().any(|(t, s, d)| *t == 119 && *s == 0x80 && d[0] == 48));
}

#[test]
fn part_names_become_markers_and_repeated_parts_play_again() {
    let midi = convert(
        "tempo: 92\ntime: 4/4\n\npart: verse\n| C\n| D--- ---- ---- ----\npart: chorus\n| G\n| D--- ---- ---- ----\npart: verse\n",
    );
    assert!(midi.windows(8).any(|w| w == b"\xFF\x06\x05verse"));
    let markers: Vec<(u32, Vec<u8>)> = events(&midi)
        .into_iter()
        .filter(|(_, s, d)| *s == 0xFF && d[0] == 0x06)
        .map(|(t, _, d)| (t, d[1..].to_vec()))
        .collect();
    assert_eq!(
        markers,
        vec![(0, b"verse".to_vec()), (1920, b"chorus".to_vec()), (3840, b"verse".to_vec())]
    );
    assert_eq!(note_ons(&midi).len(), 9);
}

#[test]
fn parts_do_not_change_the_notes() {
    let with_parts = convert("tempo: 92\ntime: 4/4\n\npart: verse\n| C\n| D-U- ---- ---- ----\n");
    let without = convert("tempo: 92\ntime: 4/4\n\n| C\n| D-U- ---- ---- ----\n");
    assert_eq!(note_ons(&with_parts), note_ons(&without));
}

#[test]
fn folk_voicing_strums_every_sounding_string() {
    let midi = convert("tempo: 92\ntime: 4/4\nvoicing: folk\n\n| C\n| D--- ---- ---- ----\n");
    let notes: Vec<u8> = note_ons(&midi).iter().map(|(_, n, _)| *n).collect();
    assert_eq!(notes, vec![48, 52, 55, 60, 64]);
    let rock = convert("tempo: 92\ntime: 4/4\nvoicing: rock\n\n| C5\n| D--- ---- ---- ----\n");
    let notes: Vec<u8> = note_ons(&rock).iter().map(|(_, n, _)| *n).collect();
    assert_eq!(notes, vec![48, 55, 60]);
}

#[test]
fn voiced_upstrokes_are_shorter_softer_and_descending() {
    let midi = convert("tempo: 92\ntime: 4/4\nvoicing: folk\n\n| C\n| U--- ---- ---- ----\n");
    let ons = note_ons(&midi);
    let notes: Vec<u8> = ons.iter().map(|(_, n, _)| *n).collect();
    let velocities: Vec<u8> = ons.iter().map(|(_, _, v)| *v).collect();
    assert_eq!(notes, vec![64, 60, 55, 52]);
    assert_eq!(velocities, vec![72, 68, 64, 60]);
}

#[test]
fn voiced_sweeps_spread_notes_evenly() {
    let mut song = parse(
        "tempo: 120\ntime: 4/4\nvoicing: folk\ndownstroke_spread_ms: 100\n\n| C\n| D--- ---- ---- ----\n",
    )
    .unwrap();
    let midi = convert_song_to_midi(&song, options()).unwrap();
    let ticks: Vec<u32> = note_ons(&midi).iter().map(|(t, _, _)| *t).collect();
    assert_eq!(ticks, vec![0, 24, 48, 72, 96]);
    song.metadata.downstroke_spread_ms = Some(200);
    let midi = convert_song_to_midi(&song, options()).unwrap();
    let ticks: Vec<u32> = note_ons(&midi).iter().map(|(t, _, _)| *t).collect();
    assert_eq!(ticks, vec![0, 48, 96, 144, 192]);
}

#[test]
fn custom_voicings_are_used_for_conversion() {
    let song = parse("tempo: 92\ntime: 4/4\nvoicing: folk\n\n| C\n| D--- ---- ---- ----\n").unwrap();
    let custom = parse_custom(
        "name: custom\nvoicings:\n  C:\n    - id: preferred-c\n      frets: [x, 3, 5, 5, 5, 3]\n      priority: 200\n",
    )
    .unwrap();
    let midi = convert_song_with_voicings(&song, options(), Some(&custom)).unwrap();
    let notes: Vec<u8> = note_ons(&midi).iter().map(|(_, n, _)| *n).collect();
    assert_eq!(notes, vec![48, 55, 60, 64, 67]);
}

#[test]
fn conversion_reports_parse_and_validation_errors() {
    assert_eq!(
        convert_strum_to_midi("tempo: 0\ntime: 4/4\n\n| C\n| D--- ---- ---- ----\n", options()).unwrap_err().to_string(),
        "tempo must be greater than zero"
    );
    assert!(convert_strum_to_midi("tempo: 92\ntime: 4/4\n\n| C\n| D-Z- ---- ---- ----\n", options())
        .unwrap_err()
        .to_string()
        .contains("invalid strum symbol 'Z'"));
    let err = convert_strum_to_midi("tempo: 92\ntime: 4/4\nvoicing: folk\n\n| C#13\n| D--- ---- ---- ----\n", options())
        .unwrap_err()
        .to_string();
    assert!(err.contains("C#13") && err.contains("folk") && err.contains("no compatible"));
}

#[test]
fn markers_beyond_the_tick_range_are_an_encoding_error() {
    let mut song = parse("tempo: 92\ntime: 4/4\n\n| C\n| D--- ---- ---- ----\n").unwrap();
    song.parts.push(Part { line: 1, name: "far".to_string(), bar_index: 3_000_000 });
    assert_eq!(write_midi(&song, options()).unwrap_err().to_string(), "MIDI timing exceeds supported range");
    song.parts[0].bar_index = 2_000_000;
    assert!(write_midi(&song, options()).is_ok());
}

#[test]
fn six_eight_bars_hold_two_dotted_quarter_patterns() {
    let midi = convert(
        "tempo: 72\ntime: 6/8\nbeat: dotted-quarter\nsubdivision: 8\ncount: 1&a\n\n| C\n| D-U D-U\n",
    );
    let ticks: Vec<u32> = note_ons(&midi).iter().map(|(t, _, _)| *t).collect();
    assert_eq!(ticks.len(), 12);
    assert_eq!(ticks[3], 480);
    assert_eq!(ticks[6], 720);
    assert!(events(&midi).iter().any(|(_, s, d)| *s == 0xFF && d == &vec![0x58, 6, 3, 24, 8]));
}

#[test]
fn long_gaps_are_written_as_five_byte_deltas() {
    let mut song = parse("tempo: 92\ntime: 4/4\n\n| C\n| D--- ---- ---- ----\n").unwrap();
    song.parts.push(Part { line: 1, name: "coda".to_string(), bar_index: 2_000_000 });
    let midi = write_midi(&song, options()).unwrap();
    let coda = events(&midi)
        .into_iter()
        .find(|(_, s, d)| *s == 0xFF && d[0] == 0x06)
        .unwrap();
    assert_eq!(coda.0, 3_840_000_000);
    assert!(midi
        .windows(8)
        .any(|w| w == [0x8E, 0xA7, 0x86, 0xFE, 0x6D, 0xFF, 0x06, 0x04]));
    let end = events(&midi).last().unwrap().clone();
    assert_eq!(end, (3_840_000_000, 0xFF, vec![0x2F]));
}
