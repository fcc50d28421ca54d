use strum2midi::harmony::{pitch_class, resolve, ChordQuality};

#[test]
fn resolves_conventional_symbols() {
    assert_eq!(resolve("C").unwrap().intervals, vec![0, 4, 7]);
    assert_eq!(resolve("Cm").unwrap().intervals, vec![0, 3, 7]);
    assert_eq!(resolve("C5").unwrap().intervals, vec![0, 7]);
    assert_eq!(resolve("Csus2").unwrap().intervals, vec![0, 2, 7]);
    assert_eq!(resolve("Csus4").unwrap().intervals, vec![0, 5, 7]);
    assert_eq!(resolve("C7").unwrap().intervals, vec![0, 4, 7, 10]);
    assert_eq!(resolve("Cmaj7").unwrap().intervals, vec![0, 4, 7, 11]);
    assert_eq!(resolve("Cm7").unwrap().intervals, vec![0, 3, 7, 10]);
    assert_eq!(resolve("Cadd9").unwrap().intervals, vec![0, 4, 7, 2]);
}

#[test]
fn resolves_accidentals_and_slash_bass() {
    let sharp = resolve("F#m").unwrap();
    assert_eq!(sharp.root, "F#");
    assert_eq!(sharp.quality.name(), "minor");

    let flat = resolve("Bb7").unwrap();
    assert_eq!(flat.root, "Bb");
    assert_eq!(flat.quality.name(), "dominant7");

    let slash = resolve("C/E").unwrap();
    assert_eq!(slash.bass.unwrap().name, "E");
}

#[test]
fn rejects_unsupported_symbols() {
    assert!(resolve("Cfoo").unwrap_err().to_string().contains("Cfoo"));
}

#[test]
fn reports_unsupported_symbol_in_full() {
    assert_eq!(resolve("C#15").unwrap_err().to_string(), "unsupported chord symbol 'C#15'");
    assert_eq!(resolve("C#13").unwrap().intervals, vec![0, 4, 7, 10, 2, 5, 9]);
    assert_eq!(resolve("").unwrap_err().to_string(), "unsupported chord symbol ''");
    assert_eq!(resolve("C/Q").unwrap_err().to_string(), "unsupported chord symbol 'C/Q'");
}

#[test]
fn resolves_root_pitch_class_and_slash_bass_pitch() {
    let h = resolve("D/F#").unwrap();
    assert_eq!(h.root_pc, 2);
    assert_eq!(h.quality, ChordQuality::Major);
    assert_eq!(h.bass.unwrap().pc, 6);
    assert_eq!(resolve("Ebm7").unwrap().root_pc, 3);
    assert_eq!(pitch_class("Ab"), Some(8));
    assert_eq!(pitch_class("X"), None);
}

#[test]
fn symbols_are_root_suffix_and_bass() {
    let roots = [("C", 0u8), ("F#", 6), ("Bb", 10), ("Cb", 11)];
    let suffixes = [("", ChordQuality::Major), ("m", ChordQuality::Minor), ("maj7", ChordQuality::Major7), ("sus4", ChordQuality::Sus4)];
    for (root, pc) in roots {
        for (suffix, quality) in suffixes {
            let plain = resolve(&format!("{root}{suffix}")).unwrap();
            assert_eq!(plain.root, root);
            assert_eq!(plain.root_pc, pc);
            assert_eq!(plain.quality, quality);
            assert!(plain.bass.is_none());
            let slash = resolve(&format!("{root}{suffix}/Eb")).unwrap();
            assert_eq!(slash.root, root);
            assert_eq!(slash.quality, quality);
            let bass = slash.bass.unwrap();
            assert_eq!(bass.name, "Eb");
            assert_eq!(bass.pc, 3);
        }
    }
    assert!(resolve("H").is_err());
    assert!(resolve("Cmaj9").is_err());
    assert!(resolve("C/H").is_err());
}
