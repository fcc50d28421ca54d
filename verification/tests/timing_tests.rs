use strum2midi::model::{Beat, Metadata, Song, TimeSignature};
use strum2midi::timing::{bar_ticks, ms_to_ticks, slot_ticks, slots_per_beat, PPQ};

#[test]
fn calculates_sixteenth_slots_for_four_four() {
    let song = Song {
        metadata: Metadata {
            tempo: Some(92),
            time_signature: Some(TimeSignature {
                numerator: 4,
                denominator: 4,
            }),
            velocity: None,
            strum_spread_ms: None,
            downstroke_velocity: None,
            upstroke_velocity: None,
            downstroke_spread_ms: None,
            upstroke_spread_ms: None,
            upstroke_max_strings: None,
            beat: None,
            subdivision: None,
            count: None,
            instrument: None,
            voicing: None,
        },
        parts: Vec::new(),
        warnings: Vec::new(),
        bars: Vec::new(),
    };

    assert_eq!(slot_ticks(&song).unwrap(), 120);
}

#[test]
fn calculates_eighth_slots_for_six_eight_compound() {
    let song = Song {
        metadata: Metadata {
            tempo: Some(72),
            time_signature: Some(TimeSignature {
                numerator: 6,
                denominator: 8,
            }),
            velocity: None,
            strum_spread_ms: None,
            downstroke_velocity: None,
            upstroke_velocity: None,
            downstroke_spread_ms: None,
            upstroke_spread_ms: None,
            upstroke_max_strings: None,
            beat: Some(Beat::DottedQuarter),
            subdivision: Some(8),
            count: None,
            instrument: None,
            voicing: None,
        },
        parts: Vec::new(),
        warnings: Vec::new(),
        bars: Vec::new(),
    };

    assert_eq!(slot_ticks(&song).unwrap(), 240);
    assert_eq!(bar_ticks(&song).unwrap(), u32::from(PPQ) * 3);
}

#[test]
fn counts_slots_per_beat_for_each_grid() {
    assert_eq!(slots_per_beat(Beat::Quarter, 8).unwrap(), 2);
    assert_eq!(slots_per_beat(Beat::Quarter, 16).unwrap(), 4);
    assert_eq!(slots_per_beat(Beat::DottedQuarter, 8).unwrap(), 3);
    assert_eq!(slots_per_beat(Beat::DottedQuarter, 16).unwrap(), 6);
    assert_eq!(
        slots_per_beat(Beat::Quarter, 12).unwrap_err().to_string(),
        "unsupported subdivision '12'"
    );
}

#[test]
fn four_four_bars_hold_eight_or_sixteen_slots() {
    let mut metadata = Metadata::default();
    metadata.time_signature = Some(TimeSignature { numerator: 4, denominator: 4 });
    metadata.subdivision = Some(8);
    let song = Song { metadata, parts: Vec::new(), warnings: Vec::new(), bars: Vec::new() };
    assert_eq!(bar_ticks(&song).unwrap() / slot_ticks(&song).unwrap(), 8);

    let mut metadata = Metadata::default();
    metadata.time_signature = Some(TimeSignature { numerator: 4, denominator: 4 });
    let song = Song { metadata, parts: Vec::new(), warnings: Vec::new(), bars: Vec::new() };
    assert_eq!(bar_ticks(&song).unwrap() / slot_ticks(&song).unwrap(), 16);
}

#[test]
fn reports_unsupported_time_signatures() {
    let mut metadata = Metadata::default();
    metadata.time_signature = Some(TimeSignature { numerator: 5, denominator: 8 });
    metadata.beat = Some(Beat::DottedQuarter);
    let song = Song { metadata, parts: Vec::new(), warnings: Vec::new(), bars: Vec::new() };
    assert_eq!(
        bar_ticks(&song).unwrap_err().to_string(),
        "unsupported time signature 5/8 with selected beat"
    );
    let song = Song { metadata: Metadata::default(), parts: Vec::new(), warnings: Vec::new(), bars: Vec::new() };
    assert_eq!(bar_ticks(&song).unwrap_err().to_string(), "missing time signature");
}

#[test]
fn converts_milliseconds_to_ticks() {
    assert_eq!(ms_to_ticks(200, 120), 192);
    assert_eq!(ms_to_ticks(20, 92), 14);
    assert_eq!(ms_to_ticks(0, 120), 1);
    assert_eq!(ms_to_ticks(65535, 65535), 34358689);
}
