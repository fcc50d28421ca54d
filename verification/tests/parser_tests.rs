use strum2midi::model::{Beat, CountStyle, Instrument, StrumSymbol, TimeSignature};
use strum2midi::parser::parse;

#[test]
fn parses_metadata_and_chart_pair() {
    let song = parse(
        "tempo: 92\ntime: 4/4\nbeat: quarter\nsubdivision: 8\ncount: 1&\n\n| C            Am\n| DU DU DU DU | ...\n",
    )
    .unwrap();

    assert_eq!(song.metadata.tempo, Some(92));
    assert_eq!(song.metadata.velocity, None);
    assert_eq!(song.metadata.strum_spread_ms, None);
    assert_eq!(
        song.metadata.time_signature,
        Some(TimeSignature {
            numerator: 4,
            denominator: 4
        })
    );
    assert_eq!(song.metadata.beat, Some(Beat::Quarter));
    assert_eq!(song.metadata.subdivision, Some(8));
    assert_eq!(song.metadata.count, Some(CountStyle::OneAnd));
    assert_eq!(song.metadata.instrument, None);
    assert_eq!(song.metadata.voicing, None);
    assert!(song.parts.is_empty());
    assert_eq!(song.bars.len(), 2);
    assert_eq!(song.bars[0].beats[0].chord, "C");
    assert_eq!(song.bars[1].beats[0].chord, "Am");
    assert_eq!(song.bars[0].beats[0].slots, song.bars[1].beats[0].slots);
}

#[test]
fn supports_chord_change_inside_bar() {
    let song = parse("tempo: 92\ntime: 4/4\n\n| C         G\n| D--- D-U- --U- D-U-\n").unwrap();

    assert_eq!(song.bars.len(), 1);
    assert_eq!(song.bars[0].beats[0].chord, "C");
    assert_eq!(song.bars[0].beats[2].chord, "G");
}

#[test]
fn parses_part_markers_between_chart_sections() {
    let song = parse(
        "tempo: 92\ntime: 4/4\n\npart: verse\n| C\n| D--- D-U- --U- D-U-\npart: chorus\n| G\n| D--- D-U- --U- D-U-\n",
    )
    .unwrap();

    assert_eq!(song.parts.len(), 2);
    assert_eq!(song.parts[0].name, "verse");
    assert_eq!(song.parts[0].line, 4);
    assert_eq!(song.parts[0].bar_index, 0);
    assert_eq!(song.parts[1].name, "chorus");
    assert_eq!(song.parts[1].line, 7);
    assert_eq!(song.parts[1].bar_index, 1);
    assert_eq!(song.bars.len(), 2);
    assert!(song.warnings.is_empty());
}

#[test]
fn repeats_previously_defined_parts() {
    let song = parse(
        "tempo: 92\ntime: 4/4\n\npart: verse\n| C\n| D--- ---- ---- ----\npart: chorus\n| G\n| D--- ---- ---- ----\npart: verse\npart: chorus\n",
    )
    .unwrap();

    assert_eq!(song.parts.len(), 4);
    assert_eq!(song.parts[0].bar_index, 0);
    assert_eq!(song.parts[1].bar_index, 1);
    assert_eq!(song.parts[2].bar_index, 2);
    assert_eq!(song.parts[3].bar_index, 3);
    assert_eq!(song.bars.len(), 4);
    assert_eq!(song.bars[0].beats[0].chord, "C");
    assert_eq!(song.bars[1].beats[0].chord, "G");
    assert_eq!(song.bars[2].beats[0].chord, "C");
    assert_eq!(song.bars[3].beats[0].chord, "G");
    assert!(song.warnings.is_empty());
}

#[test]
fn warns_and_ignores_undefined_part_repeats() {
    let song = parse("tempo: 92\ntime: 4/4\n\npart: bridge\n").unwrap();

    assert!(song.parts.is_empty());
    assert!(song.bars.is_empty());
    assert_eq!(
        song.warnings,
        vec!["Warning: Line 4: repeated part 'bridge' is not defined; ignoring repeat"]
    );
}

#[test]
fn rejects_empty_part_name() {
    let err = parse("tempo: 92\ntime: 4/4\npart:\n| C\n| D--- D-U- --U- D-U-\n").unwrap_err();
    assert!(err.to_string().contains("malformed metadata line"));
}

#[test]
fn reports_invalid_symbol() {
    let err = parse("tempo: 92\ntime: 4/4\n\n| C\n| D-Z- D-U- --U- D-U-\n").unwrap_err();
    assert!(err.to_string().contains("invalid strum symbol 'Z'"));
}

#[test]
fn parses_instrument_metadata() {
    let song = parse(
        "tempo: 92\ntime: 4/4\ninstrument: electric_guitar_clean\n\n| C\n| D--- ---- ---- ----\n",
    )
    .unwrap();

    assert_eq!(song.metadata.instrument, Some(Instrument::ElectricGuitarClean));
}

#[test]
fn parses_velocity_and_strum_spread_metadata() {
    let song = parse(
        "tempo: 92\ntime: 4/4\nvelocity: 64\nstrum_spread_ms: 15\n\n| C\n| D--- ---- ---- ----\n",
    )
    .unwrap();

    assert_eq!(song.metadata.velocity, Some(64));
    assert_eq!(song.metadata.strum_spread_ms, Some(15));
}

#[test]
fn parses_voicing_metadata() {
    let song = parse("tempo: 92\ntime: 4/4\nvoicing: folk\n\n| C\n| D--- ---- ---- ----\n").unwrap();

    assert_eq!(song.metadata.voicing.as_deref(), Some("folk"));
}

#[test]
fn ignores_one_lyric_line_after_a_chart_pair() {
    let song = parse(
        "tempo: 92\ntime: 4/4\n\n| C     Am\n| D--- | D---\nA lyric line can contain | bar signs\n| F\n| D--- ---- ---- ----\n",
    )
    .unwrap();

    assert_eq!(song.bars.len(), 3);
    assert_eq!(song.bars[0].beats[0].chord, "C");
    assert_eq!(song.bars[1].beats[0].chord, "Am");
    assert_eq!(song.bars[2].beats[0].chord, "F");
}

#[test]
fn rejects_chart_lines_without_required_prefix() {
    let err = parse("tempo: 92\ntime: 4/4\n\nC\nD--- D-U- --U- D-U-\n").unwrap_err();
    assert!(err
        .to_string()
        .contains("chord and strum lines must start with '| '"));
}

#[test]
fn ignores_everything_after_notes_section() {
    let song = parse(
        "tempo: 92\ntime: 4/4\n\n| C\n| D--- ---- ---- ----\n## Notes\nThis can be anything\nC\nbad metadata\n| Hm\n| ZZZZ\n",
    )
    .unwrap();

    assert_eq!(song.bars.len(), 1);
    assert_eq!(song.bars[0].beats[0].chord, "C");
}

#[test]
fn reads_strum_symbols_and_repeat_markers() {
    let song = parse("tempo: 92\ntime: 4/4\n\n| C\n| DUX- DUX- DUX- DUX- | ...\n").unwrap();
    assert_eq!(
        song.bars[0].beats[0].slots,
        vec![StrumSymbol::Down, StrumSymbol::Up, StrumSymbol::Muted, StrumSymbol::Rest]
    );
    assert_eq!(song.bars.len(), 2);
    assert_eq!(song.bars[0].beats.len(), 4);
    assert_eq!(song.bars[1].beats[3].slots, song.bars[0].beats[0].slots);
    assert_eq!(song.bars[1].beats[0].chord, "C");
}

#[test]
fn reports_parse_errors_with_line_numbers() {
    assert_eq!(parse("").unwrap_err().to_string(), "empty input file");
    let err = parse("tempo: 92\ntime: 4/4\n\n| ...\n").unwrap_err().to_string();
    assert!(err.contains("Line 4"), "{err}");
    let err = parse("tempo: fast\ntime: 4/4\n").unwrap_err().to_string();
    assert!(err.contains("Line 1"), "{err}");
}

#[test]
fn notes_section_reads_as_the_text_before_it() {
    let head = "tempo: 92\ntime: 4/4\n\n| C G\n| D--- ---- D--- ----\n";
    let full = format!("{head}## Notes\n| Hm\n| ZZZZ\nbad: line\n");
    assert_eq!(parse(&full).unwrap(), parse(head).unwrap());
    let broken = "tempo: 92\n| C\n";
    let full_broken = format!("{broken}## Notes\nanything\n");
    assert_eq!(
        parse(&full_broken).unwrap_err().to_string(),
        parse(broken).unwrap_err().to_string()
    );
}

#[test]
fn parsed_song_has_full_bars_and_ordered_parts() {
    let input = "tempo: 92\ntime: 4/4\n\npart: verse\n| C      G\n| D-U- D-U- | D--- ----\npart: chorus\n| Am  F\n| DU DU | ...\npart: verse\npart: chorus\n";
    let song = parse(input).unwrap();
    let line_count = input.lines().count();
    assert!(song.bars.len() > 0);
    for bar in &song.bars {
        assert!(bar.line >= 1 && bar.line <= line_count);
        assert!(!bar.beats.is_empty());
        for beat in &bar.beats {
            assert!(!beat.slots.is_empty());
            assert!(!beat.chord.is_empty());
            assert!(!beat.chord.chars().any(char::is_whitespace));
            assert!(beat.chord_line >= 1 && beat.chord_line <= line_count);
        }
    }
    assert_eq!(song.parts.len(), 4);
    for pair in song.parts.windows(2) {
        assert!(pair[0].bar_index <= pair[1].bar_index);
    }
    for part in &song.parts {
        assert!(part.bar_index <= song.bars.len());
    }
}

#[test]
fn a_metadata_line_sets_only_its_key() {
    let song = parse("velocity: 90\n| C\n| D---\n").unwrap();
    let expected = strum2midi::model::Metadata {
        velocity: Some(90),
        ..strum2midi::model::Metadata::default()
    };
    assert_eq!(song.metadata, expected);
    let song = parse("tempo: 100\ntime: 6/8\ninstrument: nylon_guitar\n| C\n| D---\n").unwrap();
    assert_eq!(song.metadata.tempo, Some(100));
    assert_eq!(song.metadata.time_signature, Some(TimeSignature { numerator: 6, denominator: 8 }));
    assert_eq!(song.metadata.instrument, Some(Instrument::NylonGuitar));
    assert_eq!(song.metadata.velocity, None);
    assert_eq!(song.metadata.beat, None);
}

#[test]
fn chord_columns_are_byte_offsets() {
    // Three non-breaking spaces take two bytes each, so `G` starts at byte 7,
    // past the second beat pattern at byte 5: that pattern is still played as `C`.
    let song = parse("| C\u{a0}\u{a0}\u{a0}G\n| D--- D---\n").unwrap();
    assert_eq!(song.bars.len(), 1);
    assert_eq!(song.bars[0].beats[0].chord, "C");
    assert_eq!(song.bars[0].beats[1].chord, "C");
    // With plain spaces the same layout starts `G` at byte 4, at the second pattern.
    let song = parse("| C   G\n| D--- D---\n").unwrap();
    assert_eq!(song.bars[0].beats[1].chord, "G");
}
