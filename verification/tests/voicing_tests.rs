use strum2midi::harmony;
use strum2midi::voicing::{
    built_in_library, diagram, parse_custom, rendered_notes, select_voicing, shape_line,
    validate_voicing, Voicing, VoicingLibrary,
};

#[test]
fn selects_built_in_folk_and_rock_shapes() {
    assert_eq!(select_voicing("C", "folk", None).unwrap().voicing.shape(), "x32010");
    assert_eq!(select_voicing("C5", "rock", None).unwrap().voicing.shape(), "x355xx");
}

#[test]
fn folk_set_covers_major_minor_and_seventh_chords_for_chromatic_roots() {
    let roots = [
        "C", "B#", "C#", "Db", "D", "D#", "Eb", "E", "Fb", "F", "E#", "F#", "Gb", "G", "G#", "Ab", "A",
        "A#", "Bb", "B", "Cb",
    ];
    for root in roots {
        for suffix in ["", "m", "7", "maj7", "m7"] {
            let symbol = format!("{root}{suffix}");
            select_voicing(&symbol, "folk", None).unwrap_or_else(|err| {
                panic!("{symbol} should have a folk voicing: {}", err.to_string())
            });
        }
    }
}

#[test]
fn validates_power_chord_without_third() {
    let harmony = harmony::resolve("C5").unwrap();
    let valid = Voicing::new("C5", "valid", "x355xx", 100).unwrap();
    assert!(validate_voicing(&harmony, &valid).is_ok());

    let invalid = Voicing::new("C5", "invalid", "x32010", 100).unwrap();
    assert!(validate_voicing(&harmony, &invalid)
        .unwrap_err()
        .to_string()
        .contains("third"));
}

#[test]
fn validates_slash_bass() {
    let harmony = harmony::resolve("C/E").unwrap();
    let valid = Voicing::new("C/E", "slash", "032010", 100).unwrap();
    assert!(validate_voicing(&harmony, &valid).is_ok());

    let invalid = Voicing::new("C/E", "wrong", "x32010", 100).unwrap();
    assert!(validate_voicing(&harmony, &invalid)
        .unwrap_err()
        .to_string()
        .contains("expected E"));
}

#[test]
fn parses_custom_file_and_rejects_bad_frets() {
    let custom = parse_custom(
        "name: custom\nvoicings:\n  C:\n    - id: preferred-c\n      frets: [x, 3, 2, 0, 1, 0]\n      priority: 200\n",
    )
    .unwrap();
    assert_eq!(select_voicing("C", "folk", Some(&custom)).unwrap().voicing.id, "preferred-c");

    let err = parse_custom(
        "name: custom\nvoicings:\n  C:\n    - id: bad\n      frets: [x, 29, 2, 0, 1, 0]\n",
    )
    .unwrap_err();
    assert!(err.to_string().contains("fret value 29"));
}

#[test]
fn reports_each_voicing_problem() {
    let c = harmony::resolve("C").unwrap();
    let muted = Voicing::new("C", "muted", "xxxxxx", 100).unwrap();
    assert_eq!(validate_voicing(&c, &muted).unwrap_err().to_string(), "voicing has no sounding strings");
    let thin = Voicing::new("C", "thin", "x3xxxx", 100).unwrap();
    assert_eq!(
        validate_voicing(&c, &thin).unwrap_err().to_string(),
        "voicing for 'C' is missing required chord tone"
    );
    let extra = Voicing::new("C", "extra", "x32011", 100).unwrap();
    assert_eq!(
        validate_voicing(&c, &extra).unwrap_err().to_string(),
        "voicing for 'C' contains a non-chord tone"
    );
    let slash = harmony::resolve("C/E").unwrap();
    let wrong = Voicing::new("C/E", "wrong", "x32010", 100).unwrap();
    assert_eq!(
        validate_voicing(&slash, &wrong).unwrap_err().to_string(),
        "slash chord 'C/E' expected E as the lowest sounding note"
    );
}

#[test]
fn renders_sounding_strings_from_low_to_high() {
    let v = Voicing::new("C", "open", "x32010", 100).unwrap();
    let notes = rendered_notes(&v);
    let midi: Vec<u8> = notes.iter().map(|n| n.midi_note).collect();
    assert_eq!(midi, vec![48, 52, 55, 60, 64]);
    let names: Vec<&str> = notes.iter().map(|n| n.string_name).collect();
    assert_eq!(names, vec!["A", "D", "G", "B", "high-E"]);
    assert_eq!(notes[0].string_index, 1);
}

#[test]
fn rejects_bad_shapes() {
    assert_eq!(
        Voicing::new("C", "short", "x3201", 100).unwrap_err().to_string(),
        "voicing 'x3201' must contain 6 string values"
    );
    assert_eq!(
        Voicing::new("C", "letter", "x3201a", 100).unwrap_err().to_string(),
        "unsupported fret value 'a'"
    );
}

#[test]
fn shape_round_trips_through_new() {
    for shape in ["x32010", "022100", "xx0232", "355333", "x355xx"] {
        assert_eq!(Voicing::new("X", "id", shape, 0).unwrap().shape(), shape);
    }
}

#[test]
fn rejects_unknown_voicing_sets_and_symbols() {
    assert_eq!(built_in_library("jazz").unwrap_err().to_string(), "unsupported voicing set 'jazz'");
    assert_eq!(
        select_voicing("Cfoo", "folk", None).unwrap_err().to_string(),
        "unsupported chord symbol 'Cfoo' while selecting voicing"
    );
    assert_eq!(
        select_voicing("C#13", "folk", None).unwrap_err().to_string(),
        "chord 'C#13' is valid, but no compatible 'folk' voicing was found"
    );
    assert_eq!(
        select_voicing("C", "jazz", None).unwrap_err().to_string(),
        "unsupported voicing set 'jazz'"
    );
}

#[test]
fn prefers_priority_then_the_earliest_id() {
    let custom = parse_custom(
        "voicings:\n  C:\n    - id: b-shape\n      frets: [x, 3, 2, 0, 1, 0]\n      priority: 100\n    - id: a-shape\n      frets: [x, 3, 5, 5, 5, 3]\n      priority: 100\n",
    )
    .unwrap();
    assert_eq!(select_voicing("C", "rock", Some(&custom)).unwrap().voicing.id, "a-shape");
    let low = parse_custom("voicings:\n  C:\n    - id: low\n      frets: [x, 3, 2, 0, 1, 0]\n      priority: -5\n").unwrap();
    assert_eq!(select_voicing("C", "folk", Some(&low)).unwrap().voicing.id, "folk-major");
}

#[test]
fn reports_custom_file_errors() {
    assert_eq!(
        parse_custom("  C:\n    - id: x\n      frets: x, 3\n").unwrap_err().to_string(),
        "Line 3: malformed frets"
    );
    assert_eq!(
        parse_custom("  C:\n    - id: x\n      frets: [x, 3]\n").unwrap_err().to_string(),
        "Line 3: expected 6 fret values"
    );
    assert_eq!(
        parse_custom("  C:\n    - id: x\n      frets: [x, 3, 2, 0, 1, q]\n").unwrap_err().to_string(),
        "Line 3: malformed fret value"
    );
    assert_eq!(
        parse_custom("  C:\n    - id: x\n      priority: high\n").unwrap_err().to_string(),
        "Line 3: malformed voicing priority"
    );
}

#[test]
fn custom_voicings_need_chord_id_and_frets() {
    let lib = parse_custom("voicings:\n    - id: orphan\n      frets: [x, 3, 2, 0, 1, 0]\n").unwrap();
    let mut empty = VoicingLibrary::default();
    empty.merge(lib);
    assert!(select_voicing("C#13", "folk", Some(&empty)).is_err());
    let two = parse_custom(
        "voicings:\n  D:\n    - id: d1\n      frets: [x, x, 0, 2, 3, 2]\n  D::\n    - id: d2\n      frets: [x, x, 0, 2, 3, 2]\n      priority: 5\n",
    )
    .unwrap();
    assert_eq!(select_voicing("D", "rock", Some(&two)).unwrap().voicing.id, "d2");
}

#[test]
fn shows_shapes_and_diagrams() {
    let c = select_voicing("C", "folk", None).unwrap();
    assert_eq!(shape_line("C", &c.voicing), "C  x32010");
    assert_eq!(diagram(&c.voicing), vec!["e|--0--", "B|--1--", "G|--0--", "D|--2--", "A|--3--", "E|--x--"]);
}

#[test]
fn every_built_in_voicing_fits_its_chord() {
    let groups: [(&[&str], [&str; 5]); 12] = [
        (&["C", "B#"], ["x32010", "x35543", "x32313", "x32000", "x35343"]),
        (&["C#", "Db"], ["x46664", "x46654", "x46464", "x46564", "x46454"]),
        (&["D"], ["xx0232", "xx0231", "xx0212", "xx0222", "xx0211"]),
        (&["D#", "Eb"], ["x68886", "x68876", "x68686", "x68786", "x68676"]),
        (&["E", "Fb"], ["022100", "022000", "020100", "021100", "022030"]),
        (&["F", "E#"], ["133211", "133111", "131211", "133210", "131111"]),
        (&["F#", "Gb"], ["244322", "244222", "242322", "243322", "242222"]),
        (&["G"], ["320003", "355333", "320001", "320002", "353333"]),
        (&["G#", "Ab"], ["466544", "466444", "464544", "465544", "464444"]),
        (&["A"], ["x02220", "x02210", "x02020", "x02120", "x02010"]),
        (&["A#", "Bb"], ["x13331", "x13321", "x13131", "x13231", "x13121"]),
        (&["B", "Cb"], ["x24442", "x24432", "x21202", "x24342", "x20202"]),
    ];
    let suffixes = ["", "m", "7", "maj7", "m7"];
    let mut checked = 0;
    for (roots, shapes) in groups.iter() {
        for root in roots.iter() {
            for (suffix, shape) in suffixes.iter().zip(shapes.iter()) {
                let name = format!("{root}{suffix}");
                let chosen = select_voicing(&name, "folk", None).unwrap();
                assert_eq!(chosen.voicing.shape(), *shape, "{name}");
                checked += 1;
            }
        }
    }
    assert_eq!(select_voicing("C/E", "folk", None).unwrap().voicing.shape(), "032010");
    assert_eq!(checked + 1, 106);
    let rock = [
        ("C5", "x355xx"),
        ("D5", "x577xx"),
        ("E5", "022xxx"),
        ("G5", "355xxx"),
        ("A5", "577xxx"),
        ("C", "x3555x"),
        ("Cm", "x3554x"),
    ];
    for (name, shape) in rock.iter() {
        assert_eq!(select_voicing(name, "rock", None).unwrap().voicing.shape(), *shape, "{name}");
    }
}
