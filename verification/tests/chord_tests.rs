use strum2midi::chord::{notes_for_chord, root_pitch_class};

#[test]
fn maps_common_chords() {
    assert_eq!(notes_for_chord("C"), Some(vec![48, 52, 55]));
    assert_eq!(notes_for_chord("Am"), Some(vec![57, 60, 64]));
    assert_eq!(notes_for_chord("G7"), Some(vec![55, 59, 62, 65]));
    assert_eq!(notes_for_chord("Hm"), None);
}

#[test]
fn maps_sharp_and_flat_chords() {
    assert_eq!(notes_for_chord("C#"), Some(vec![49, 53, 56]));
    assert_eq!(notes_for_chord("Db"), Some(vec![49, 53, 56]));
    assert_eq!(notes_for_chord("Bbm"), Some(vec![58, 61, 65]));
    assert_eq!(notes_for_chord("A#7"), Some(vec![58, 62, 65, 68]));
    assert_eq!(notes_for_chord("Eb7"), Some(vec![51, 55, 58, 61]));
}

#[test]
fn enharmonic_spellings_give_the_same_notes() {
    let pairs = [("C#", "Db"), ("D#m", "Ebm"), ("F#7", "Gb7"), ("E#", "F"), ("B#m", "Cm"), ("Cb7", "B7"), ("Fb", "E")];
    for (a, b) in pairs {
        assert_eq!(notes_for_chord(a), notes_for_chord(b), "{a} and {b}");
    }
}

#[test]
fn root_pitch_classes_wrap_around_the_octave() {
    assert_eq!(root_pitch_class("C"), Some(0));
    assert_eq!(root_pitch_class("B#"), Some(0));
    assert_eq!(root_pitch_class("Cb"), Some(11));
    assert_eq!(root_pitch_class("Bb"), Some(10));
    assert_eq!(root_pitch_class("H"), None);
    assert_eq!(root_pitch_class("C##"), None);
}

#[test]
fn slash_chords_sound_their_upper_chord() {
    assert_eq!(notes_for_chord("C/E"), Some(vec![48, 52, 55]));
    assert_eq!(notes_for_chord("C/H"), None);
}
