use strum2midi::parser::parse;
use strum2midi::validate::{validate, validate_with_voicings};
use strum2midi::voicing::parse_custom;

#[test]
fn accepts_three_four_with_three_quarter_beats() {
    let song = parse("tempo: 92\ntime: 3/4\nsubdivision: 8\ncount: 1&\n\n| C\n| DU DU DU\n").unwrap();

    validate(&song).unwrap();
}

#[test]
fn accepts_six_eight_with_two_dotted_quarter_beats() {
    let song = parse(
        "tempo: 72\ntime: 6/8\nbeat: dotted-quarter\nsubdivision: 8\ncount: 1&a\n\n| C\n| D-U D-U\n",
    )
    .unwrap();

    validate(&song).unwrap();
}

#[test]
fn rejects_six_eight_without_beat() {
    let song = parse("tempo: 72\ntime: 6/8\nsubdivision: 8\ncount: 1&a\n\n| C\n| D-U D-U\n").unwrap();

    assert!(validate(&song)
        .unwrap_err()
        .to_string()
        .contains("missing beat"));
}

fn error_of(input: &str) -> String {
    validate(&parse(input).unwrap()).unwrap_err().to_string()
}

#[test]
fn reports_each_validation_problem() {
    assert_eq!(error_of("time: 4/4\n\n| C\n| D--- ---- ---- ----\n"), "missing tempo");
    assert_eq!(
        error_of("tempo: 0\ntime: 4/4\n\n| C\n| D--- ---- ---- ----\n"),
        "tempo must be greater than zero"
    );
    assert_eq!(error_of("tempo: 92\n\n| C\n| D--- ---- ---- ----\n"), "missing time signature");
    assert_eq!(error_of("tempo: 92\ntime: 4/4\n"), "empty input file");
    assert_eq!(
        error_of("tempo: 92\ntime: 4/4\nsubdivision: 12\n\n| C\n| D--- ---- ---- ----\n"),
        "unsupported subdivision '12'"
    );
    assert_eq!(
        error_of("tempo: 92\ntime: 4/4\ncount: 1&a\n\n| C\n| D--- ---- ---- ----\n"),
        "unsupported count for beat and subdivision"
    );
    assert_eq!(
        error_of("tempo: 92\ntime: 5/8\nbeat: dotted-quarter\n\n| C\n| D--- ---- ---- ----\n"),
        "unsupported time signature 5/8 with selected beat"
    );
    assert_eq!(
        error_of("tempo: 92\ntime: 4/4\n\n| C\n| D--- ---- ----\n"),
        "Line 5: expected 4 beat patterns, found 3"
    );
    assert_eq!(
        error_of("tempo: 92\ntime: 4/4\n\n| Hm\n| D--- ---- ---- ----\n"),
        "Line 4: unknown chord 'Hm'"
    );
    assert_eq!(
        error_of("tempo: 92\ntime: 4/4\nsubdivision: 8\n\n| C\n| D-- -- -- --\n"),
        "Line 6: expected 2 slots per beat pattern, found 3"
    );
}

#[test]
fn rejects_chords_without_a_voicing_in_the_set() {
    let song = parse("tempo: 92\ntime: 4/4\nvoicing: folk\n\n| C#13\n| D--- ---- ---- ----\n").unwrap();
    validate(&song).unwrap();
    assert_eq!(
        validate_with_voicings(&song, None, None).unwrap_err().to_string(),
        "Line 5: chord 'C#13' is valid, but no compatible 'folk' voicing was found"
    );
}

#[test]
fn checks_voicings_of_the_given_set_before_the_metadata() {
    let song = parse("tempo: 92\ntime: 4/4\nvoicing: folk\n\n| C5\n| D--- ---- ---- ----\n").unwrap();
    assert!(validate_with_voicings(&song, None, None).is_err());
    assert!(validate_with_voicings(&song, Some("rock"), None).is_ok());
    assert_eq!(
        validate_with_voicings(&song, Some("jazz"), None).unwrap_err().to_string(),
        "unsupported voicing set 'jazz'"
    );
    let plain = parse("tempo: 92\ntime: 4/4\n\n| C#13\n| D--- ---- ---- ----\n").unwrap();
    assert!(validate_with_voicings(&plain, None, None).is_ok());
}

#[test]
fn custom_voicings_fill_gaps_in_a_set() {
    let song = parse("tempo: 92\ntime: 4/4\nvoicing: rock\n\n| G\n| D--- ---- ---- ----\n").unwrap();
    assert!(validate_with_voicings(&song, None, None).is_err());
    let custom = parse_custom("voicings:\n  G:\n    - id: open-g\n      frets: [3, 2, 0, 0, 0, 3]\n").unwrap();
    validate_with_voicings(&song, None, Some(&custom)).unwrap();
}
