//! Checks that a parsed song can be played: required metadata, a supported
//! meter and grid, and bars of the right shape with known chords.
use vstd::prelude::*;

use crate::chord::{chord_notes, notes_for_chord_chars};
use crate::error::{error_text, line_msg, line_prefix, AppError, ErrorView};
use crate::model::{BarView, Beat, CountStyle, Instrument, Song, SongView, TimeSignature};
use crate::text::{chars_of, decimal, push_decimal, push_str};
use crate::voicing::{
    built_in_library, built_in_spec, custom_fits, custom_fits_song, custom_view, select_spec,
    select_voicing, VoicingLibrary, VoicingView,
};
use crate::timing::{
    slots_per_beat, slots_per_beat_of, unsupported_subdivision, unsupported_subdivision_error,
    unsupported_time, unsupported_time_error,
};

verus! {

pub open spec fn validation(m: Seq<char>) -> ErrorView {
    ErrorView::Validation(m)
}

/// The beat a song is played in: its `beat` metadata, quarter by default,
/// but a meter over eighths must name its beat.
pub open spec fn beat_for(beat: Option<Beat>, ts: TimeSignature) -> Result<Beat, ErrorView> {
    match beat {
        Some(b) => Ok(b),
        None => if ts.denominator == 8 {
            Err(validation("missing beat"@))
        } else {
            Ok(Beat::Quarter)
        },
    }
}

/// The song's subdivision, 16 by default; only 8 and 16 are supported.
pub open spec fn subdivision_for(sub: Option<u8>) -> Result<u8, ErrorView> {
    let d = match sub {
        Some(d) => d,
        None => 16u8,
    };
    if d == 8 || d == 16 {
        Ok(d)
    } else {
        Err(unsupported_subdivision_error(d))
    }
}

/// Each count style fits one beat and subdivision.
pub open spec fn count_fits(count: CountStyle, beat: Beat, subdivision: u8) -> bool {
    match count {
        CountStyle::OneAnd => beat == Beat::Quarter && subdivision == 8,
        CountStyle::OneAndA => beat == Beat::DottedQuarter && subdivision == 8,
        CountStyle::OneEAndA => beat == Beat::Quarter && subdivision == 16,
        CountStyle::OneAAndA => beat == Beat::Quarter && subdivision == 16,
    }
}

/// Beat patterns per bar: a positive numerator over 4 with quarter beats, or
/// a third of a positive multiple of 3 over 8 with dotted-quarter beats.
pub open spec fn expected_beats(ts: TimeSignature, beat: Beat) -> Option<nat> {
    match beat {
        Beat::Quarter => if ts.denominator == 4 && ts.numerator > 0 {
            Some(ts.numerator as nat)
        } else {
            None
        },
        Beat::DottedQuarter => if ts.denominator == 8 && ts.numerator > 0 && ts.numerator % 3 == 0 {
            Some((ts.numerator / 3) as nat)
        } else {
            None
        },
    }
}

pub open spec fn wrong_beats_error(line: usize, expected: nat, found: nat) -> ErrorView {
    validation(line_msg(line as nat, "expected "@ + decimal(expected) + " beat patterns, found "@ + decimal(found)))
}

pub open spec fn unknown_chord_error(line: usize, chord: Seq<char>) -> ErrorView {
    validation(line_msg(line as nat, "unknown chord '"@ + chord + "'"@))
}

pub open spec fn wrong_slots_error(line: usize, expected: nat, found: nat) -> ErrorView {
    validation(line_msg(line as nat, "expected "@ + decimal(expected) + " slots per beat pattern, found "@ + decimal(found)))
}

/// The first problem among the first `k` beat patterns of bar `b`.
pub open spec fn beats_error(b: BarView, k: nat, slots: nat) -> Option<ErrorView>
    decreases k,
{
    if k == 0 {
        None
    } else {
        match beats_error(b, (k - 1) as nat, slots) {
            Some(e) => Some(e),
            None => {
                let beat = b.beats[k - 1];
                if chord_notes(beat.chord).is_none() {
                    Some(unknown_chord_error(beat.chord_line, beat.chord))
                } else if beat.slots.len() != slots {
                    Some(wrong_slots_error(b.line, slots, beat.slots.len()))
                } else {
                    None
                }
            },
        }
    }
}

/// The first problem among the first `k` bars.
pub open spec fn bars_error(bars: Seq<BarView>, k: nat, beats: nat, slots: nat) -> Option<ErrorView>
    decreases k,
{
    if k == 0 {
        None
    } else {
        match bars_error(bars, (k - 1) as nat, beats, slots) {
            Some(e) => Some(e),
            None => {
                let b = bars[k - 1];
                if b.beats.len() != beats {
                    Some(wrong_beats_error(b.line, beats, b.beats.len()))
                } else {
                    beats_error(b, b.beats.len(), slots)
                }
            },
        }
    }
}

/// What `validate` decides for a song.
pub open spec fn validate_spec(s: SongView) -> Result<(), ErrorView> {
    match s.metadata.tempo {
        None => Err(validation("missing tempo"@)),
        Some(tempo) => if tempo == 0 {
            Err(validation("tempo must be greater than zero"@))
        } else {
            match s.metadata.time_signature {
                None => Err(validation("missing time signature"@)),
                Some(ts) => if s.bars.len() == 0 {
                    Err(validation("empty input file"@))
                } else {
                    match beat_for(s.metadata.beat, ts) {
                        Err(e) => Err(e),
                        Ok(beat) => match subdivision_for(s.metadata.subdivision) {
                            Err(e) => Err(e),
                            Ok(sub) => if s.metadata.count.is_some() && !count_fits(s.metadata.count.unwrap(), beat, sub) {
                                Err(validation("unsupported count for beat and subdivision"@))
                            } else {
                                match expected_beats(ts, beat) {
                                    None => Err(unsupported_time_error(ts)),
                                    Some(nb) => match slots_per_beat_of(beat, sub) {
                                        None => Err(unsupported_subdivision_error(sub)),
                                        Some(ns) => match bars_error(s.bars, s.bars.len(), nb, ns) {
                                            Some(e) => Err(e),
                                            None => Ok(()),
                                        },
                                    },
                                }
                            },
                        },
                    }
                },
            }
        },
    }
}

fn validation_error(m: &str) -> (e: AppError)
    ensures
        e@ == validation(m@),
{
    let mut s = String::new();
    push_str(&mut s, m);
    AppError::Validation(s)
}

fn count_message(line: usize, before: &str, expected: usize, middle: &str, found: usize) -> (e: AppError)
    ensures
        e@ == validation(line_msg(line as nat, before@ + decimal(expected as nat) + middle@ + decimal(found as nat))),
{
    let mut m = line_prefix(line);
    push_str(&mut m, before);
    push_decimal(&mut m, expected as u64);
    push_str(&mut m, middle);
    push_decimal(&mut m, found as u64);
    assert(m@ =~= line_msg(line as nat, before@ + decimal(expected as nat) + middle@ + decimal(found as nat)));
    AppError::Validation(m)
}

proof fn lemma_beats_error_stays(b: BarView, k: nat, n: nat, slots: nat)
    requires
        k <= n,
        beats_error(b, k, slots).is_some(),
    ensures
        beats_error(b, n, slots) == beats_error(b, k, slots),
    decreases n - k,
{
    if k < n {
        lemma_beats_error_stays(b, k, (n - 1) as nat, slots);
    }
}

proof fn lemma_bars_error_stays(bars: Seq<BarView>, k: nat, n: nat, beats: nat, slots: nat)
    requires
        k <= n,
        bars_error(bars, k, beats, slots).is_some(),
    ensures
        bars_error(bars, n, beats, slots) == bars_error(bars, k, beats, slots),
    decreases n - k,
{
    if k < n {
        lemma_bars_error_stays(bars, k, (n - 1) as nat, beats, slots);
    }
}

/// Checks that a parsed song can be turned into MIDI.
pub fn validate(song: &Song) -> (r: Result<(), AppError>)
    ensures
        match r {
            Ok(_) => validate_spec(song@) == Ok::<(), ErrorView>(()),
            Err(e) => validate_spec(song@) == Err::<(), ErrorView>(e@),
        },
{
    let tempo = match song.metadata.tempo {
        None => {
            return Err(validation_error("missing tempo"));
        },
        Some(t) => t,
    };
    if tempo == 0 {
        return Err(validation_error("tempo must be greater than zero"));
    }
    let time_signature = match song.metadata.time_signature {
        None => {
            return Err(validation_error("missing time signature"));
        },
        Some(ts) => ts,
    };
    if song.bars.len() == 0 {
        return Err(validation_error("empty input file"));
    }
    let beat = match song.metadata.beat {
        Some(b) => b,
        None => {
            if time_signature.denominator == 8 {
                return Err(validation_error("missing beat"));
            }
            Beat::Quarter
        },
    };
    let subdivision = match song.metadata.subdivision {
        Some(d) => d,
        None => 16,
    };
    if subdivision != 8 && subdivision != 16 {
        return Err(unsupported_subdivision(subdivision));
    }
    validate_count(song.metadata.count, beat, subdivision)?;
    let expected_beats = match expected_beat_patterns(time_signature, beat) {
        Some(n) => n,
        None => {
            return Err(unsupported_time(time_signature));
        },
    };
    let expected_slots = slots_per_beat(beat, subdivision)?;
    check_bars(&song.bars, expected_beats, expected_slots)
}

fn check_beats(bar: &crate::model::Bar, expected_slots: usize) -> (r: Result<(), AppError>)
    ensures
        match r {
            Ok(_) => beats_error(bar@, bar@.beats.len(), expected_slots as nat).is_none(),
            Err(e) => beats_error(bar@, bar@.beats.len(), expected_slots as nat) == Some(e@),
        },
{
    let mut j: usize = 0;
    while j < bar.beats.len()
        invariant
            j <= bar.beats.len(),
            bar@.beats.len() == bar.beats.len(),
            beats_error(bar@, j as nat, expected_slots as nat).is_none(),
        decreases bar.beats.len() - j,
    {
        let beat = &bar.beats[j];
        assert(bar@.beats[j as int] == beat@);
        let chord = chars_of(beat.chord.as_str());
        if notes_for_chord_chars(&chord).is_none() {
            let mut m = line_prefix(beat.chord_line);
            push_str(&mut m, "unknown chord '");
            m.append(beat.chord.as_str());
            push_str(&mut m, "'");
            assert(m@ =~= line_msg(beat.chord_line as nat, "unknown chord '"@ + beat.chord@ + "'"@));
            let e = AppError::Validation(m);
            proof {
                lemma_beats_error_stays(bar@, (j + 1) as nat, bar@.beats.len(), expected_slots as nat);
            }
            return Err(e);
        }
        if beat.slots.len() != expected_slots {
            let e = count_message(bar.line, "expected ", expected_slots, " slots per beat pattern, found ", beat.slots.len());
            proof {
                lemma_beats_error_stays(bar@, (j + 1) as nat, bar@.beats.len(), expected_slots as nat);
            }
            return Err(e);
        }
        j = j + 1;
    }
    Ok(())
}

fn check_bars(bars: &Vec<crate::model::Bar>, expected_beats: usize, expected_slots: usize) -> (r: Result<(), AppError>)
    ensures
        match r {
            Ok(_) => bars_error(crate::model::bar_views(bars@), bars@.len(), expected_beats as nat, expected_slots as nat).is_none(),
            Err(e) => bars_error(crate::model::bar_views(bars@), bars@.len(), expected_beats as nat, expected_slots as nat) == Some(e@),
        },
{
    let ghost bv = crate::model::bar_views(bars@);
    let mut i: usize = 0;
    while i < bars.len()
        invariant
            i <= bars.len(),
            bv == crate::model::bar_views(bars@),
            bv.len() == bars.len(),
            bars_error(bv, i as nat, expected_beats as nat, expected_slots as nat).is_none(),
        decreases bars.len() - i,
    {
        let bar = &bars[i];
        assert(bv[i as int] == bar@);
        if bar.beats.len() != expected_beats {
            let e = count_message(bar.line, "expected ", expected_beats, " beat patterns, found ", bar.beats.len());
            proof {
                lemma_bars_error_stays(bv, (i + 1) as nat, bv.len(), expected_beats as nat, expected_slots as nat);
            }
            return Err(e);
        }
        match check_beats(bar, expected_slots) {
            Ok(_) => {},
            Err(e) => {
                proof {
                    lemma_bars_error_stays(bv, (i + 1) as nat, bv.len(), expected_beats as nat, expected_slots as nat);
                }
                return Err(e);
            },
        }
        i = i + 1;
    }
    Ok(())
}

/// The song's instrument, acoustic guitar by default.
pub open spec fn instrument_of(s: SongView) -> Instrument {
    match s.metadata.instrument {
        Some(i) => i,
        None => Instrument::AcousticGuitar,
    }
}

pub fn resolved_instrument(song: &Song) -> (i: Instrument)
    ensures
        i == instrument_of(song@),
{
    match song.metadata.instrument {
        Some(i) => i,
        None => Instrument::AcousticGuitar,
    }
}

fn validate_count(count: Option<CountStyle>, beat: Beat, subdivision: u8) -> (r: Result<(), AppError>)
    ensures
        match r {
            Ok(_) => count.is_none() || count_fits(count.unwrap(), beat, subdivision),
            Err(e) => count.is_some() && !count_fits(count.unwrap(), beat, subdivision) && e@
                == validation("unsupported count for beat and subdivision"@),
        },
{
    let count = match count {
        None => {
            return Ok(());
        },
        Some(c) => c,
    };
    let valid = match count {
        CountStyle::OneAnd => beat == Beat::Quarter && subdivision == 8,
        CountStyle::OneAndA => beat == Beat::DottedQuarter && subdivision == 8,
        CountStyle::OneEAndA => beat == Beat::Quarter && subdivision == 16,
        CountStyle::OneAAndA => beat == Beat::Quarter && subdivision == 16,
    };
    if valid {
        Ok(())
    } else {
        Err(validation_error("unsupported count for beat and subdivision"))
    }
}

fn expected_beat_patterns(ts: TimeSignature, beat: Beat) -> (r: Option<usize>)
    ensures
        match r {
            Some(n) => expected_beats(ts, beat) == Some(n as nat),
            None => expected_beats(ts, beat).is_none(),
        },
{
    match beat {
        Beat::Quarter => {
            if ts.denominator == 4 && ts.numerator > 0 {
                return Some(ts.numerator as usize);
            }
        },
        Beat::DottedQuarter => {
            if ts.denominator == 8 && ts.numerator > 0 && ts.numerator % 3 == 0 {
                return Some((ts.numerator / 3) as usize);
            }
        },
    }
    None
}

// ---------------------------------------------------------------------
// Voicings
// ---------------------------------------------------------------------

/// The voicing set a song is played with: the one given, else its
/// `voicing` metadata.
pub open spec fn voicing_set_for(s: SongView, voicing: Option<Seq<char>>) -> Option<Seq<char>> {
    match voicing {
        Some(v) => Some(v),
        None => s.metadata.voicing,
    }
}

/// The first beat pattern among the first `k` of bar `b` whose chord has no
/// voicing in the set, reported on the chord's line.
pub open spec fn beats_voicing_error(
    b: BarView,
    k: nat,
    set: Seq<char>,
    custom: Option<Seq<VoicingView>>,
) -> Option<ErrorView>
    decreases k,
{
    if k == 0 {
        None
    } else {
        match beats_voicing_error(b, (k - 1) as nat, set, custom) {
            Some(e) => Some(e),
            None => {
                let beat = b.beats[k - 1];
                match select_spec(beat.chord, set, custom) {
                    Err(e) => Some(validation(line_msg(beat.chord_line as nat, error_text(e)))),
                    Ok(_) => None,
                }
            },
        }
    }
}

/// The first such problem among the first `k` bars.
pub open spec fn bars_voicing_error(
    bars: Seq<BarView>,
    k: nat,
    set: Seq<char>,
    custom: Option<Seq<VoicingView>>,
) -> Option<ErrorView>
    decreases k,
{
    if k == 0 {
        None
    } else {
        match bars_voicing_error(bars, (k - 1) as nat, set, custom) {
            Some(e) => Some(e),
            None => beats_voicing_error(bars[k - 1], bars[k - 1].beats.len(), set, custom),
        }
    }
}

/// What `validate_with_voicings` decides: `validate`, and then, when a
/// voicing set applies, that the set exists and every chord has a voicing
/// in it.
pub open spec fn validate_with_voicings_spec(
    s: SongView,
    voicing: Option<Seq<char>>,
    custom: Option<Seq<VoicingView>>,
) -> Result<(), ErrorView> {
    match validate_spec(s) {
        Err(e) => Err(e),
        Ok(_) => match voicing_set_for(s, voicing) {
            None => Ok(()),
            Some(set) => match built_in_spec(set) {
                Err(e) => Err(e),
                Ok(_) => match bars_voicing_error(s.bars, s.bars.len(), set, custom) {
                    Some(e) => Err(e),
                    None => Ok(()),
                },
            },
        },
    }
}

proof fn lemma_beats_voicing_error_stays(
    b: BarView,
    k: nat,
    n: nat,
    set: Seq<char>,
    custom: Option<Seq<VoicingView>>,
)
    requires
        k <= n,
        beats_voicing_error(b, k, set, custom).is_some(),
    ensures
        beats_voicing_error(b, n, set, custom) == beats_voicing_error(b, k, set, custom),
    decreases n - k,
{
    if k < n {
        lemma_beats_voicing_error_stays(b, k, (n - 1) as nat, set, custom);
    }
}

proof fn lemma_bars_voicing_error_stays(
    bars: Seq<BarView>,
    k: nat,
    n: nat,
    set: Seq<char>,
    custom: Option<Seq<VoicingView>>,
)
    requires
        k <= n,
        bars_voicing_error(bars, k, set, custom).is_some(),
    ensures
        bars_voicing_error(bars, n, set, custom) == bars_voicing_error(bars, k, set, custom),
    decreases n - k,
{
    if k < n {
        lemma_bars_voicing_error_stays(bars, k, (n - 1) as nat, set, custom);
    }
}

fn check_bar_voicings(
    bar: &crate::model::Bar,
    set: &str,
    custom: Option<&VoicingLibrary>,
) -> (r: Result<(), AppError>)
    requires
        forall|j: int| 0 <= j < bar@.beats.len() ==> custom_fits(custom_view(custom), #[trigger] bar@.beats[j].chord),
    ensures
        match r {
            Ok(_) => beats_voicing_error(bar@, bar@.beats.len(), set@, custom_view(custom)).is_none(),
            Err(e) => beats_voicing_error(bar@, bar@.beats.len(), set@, custom_view(custom)) == Some(e@),
        },
{
    let mut j: usize = 0;
    while j < bar.beats.len()
        invariant
            j <= bar.beats.len(),
            bar@.beats.len() == bar.beats.len(),
            forall|k: int| 0 <= k < bar@.beats.len() ==> custom_fits(custom_view(custom), #[trigger] bar@.beats[k].chord),
            beats_voicing_error(bar@, j as nat, set@, custom_view(custom)).is_none(),
        decreases bar.beats.len() - j,
    {
        let beat = &bar.beats[j];
        assert(bar@.beats[j as int] == beat@);
        assert(custom_fits(custom_view(custom), bar@.beats[j as int].chord));
        match select_voicing(beat.chord.as_str(), set, custom) {
            Ok(_) => {},
            Err(e) => {
                let mut m = line_prefix(beat.chord_line);
                m.append(e.to_string().as_str());
                proof {
                    lemma_beats_voicing_error_stays(bar@, (j + 1) as nat, bar@.beats.len(), set@, custom_view(custom));
                }
                return Err(AppError::Validation(m));
            },
        }
        j = j + 1;
    }
    Ok(())
}

/// Checks a song as `validate` does, and, when a voicing set applies
/// (`voicing`, else the song's `voicing` metadata), that the set exists and
/// that each chord has a voicing in it or among the `custom` voicings.
pub fn validate_with_voicings(
    song: &Song,
    voicing: Option<&str>,
    custom: Option<&VoicingLibrary>,
) -> (r: Result<(), AppError>)
    requires
        custom_fits_song(custom_view(custom), song@),
    ensures
        match r {
            Ok(_) => validate_with_voicings_spec(song@, str_view(voicing), custom_view(custom))
                == Ok::<(), ErrorView>(()),
            Err(e) => validate_with_voicings_spec(song@, str_view(voicing), custom_view(custom))
                == Err::<(), ErrorView>(e@),
        },
{
    validate(song)?;
    let set: &str = match voicing {
        Some(v) => v,
        None => match &song.metadata.voicing {
            Some(v) => v.as_str(),
            None => {
                return Ok(());
            },
        },
    };
    let _ = built_in_library(set)?;
    assert(voicing_set_for(song@, str_view(voicing)) == Some(set@));
    let ghost bv = crate::model::bar_views(song.bars@);
    let mut i: usize = 0;
    while i < song.bars.len()
        invariant
            i <= song.bars.len(),
            bv == crate::model::bar_views(song.bars@),
            bv == song@.bars,
            bv.len() == song.bars.len(),
            validate_spec(song@) == Ok::<(), ErrorView>(()),
            voicing_set_for(song@, str_view(voicing)) == Some(set@),
            built_in_spec(set@) is Ok,
            custom_fits_song(custom_view(custom), song@),
            bars_voicing_error(bv, i as nat, set@, custom_view(custom)).is_none(),
        decreases song.bars.len() - i,
    {
        assert(bv[i as int] == song.bars@[i as int]@);
        assert forall|k: int| 0 <= k < bv[i as int].beats.len() implies custom_fits(
            custom_view(custom),
            #[trigger] bv[i as int].beats[k].chord,
        ) by {
            assert(song@.bars[i as int].beats[k].chord == bv[i as int].beats[k].chord);
        }
        match check_bar_voicings(&song.bars[i], set, custom) {
            Ok(_) => {},
            Err(e) => {
                proof {
                    lemma_bars_voicing_error_stays(bv, (i + 1) as nat, bv.len(), set@, custom_view(custom));
                }
                return Err(e);
            },
        }
        i = i + 1;
    }
    Ok(())
}

/// The characters of an optional string slice.
pub open spec fn str_view(s: Option<&str>) -> Option<Seq<char>> {
    match s {
        Some(v) => Some(v@),
        None => None,
    }
}

proof fn lemma_beats_ok(b: BarView, k: nat, slots: nat)
    requires
        beats_error(b, k, slots).is_none(),
    ensures
        forall|j: int|
            0 <= j < k ==> chord_notes(#[trigger] b.beats[j].chord) is Some && b.beats[j].slots.len() == slots,
    decreases k,
{
    if k > 0 {
        lemma_beats_ok(b, (k - 1) as nat, slots);
    }
}

proof fn lemma_bars_ok(bars: Seq<BarView>, k: nat, beats: nat, slots: nat)
    requires
        bars_error(bars, k, beats, slots).is_none(),
    ensures
        forall|i: int| 0 <= i < k ==> (#[trigger] bars[i]).beats.len() == beats && beats_error(
            bars[i],
            bars[i].beats.len(),
            slots,
        ).is_none(),
    decreases k,
{
    if k > 0 {
        lemma_bars_ok(bars, (k - 1) as nat, beats, slots);
    }
}

/// Law: a song that passes `validate` has a positive tempo, a time
/// signature, at least one bar, and bars of the expected shape: each bar
/// holds as many beat patterns as the meter asks for, each pattern as many
/// slots as the grid asks for, and every chord is one the harmony library
/// knows.
pub proof fn lemma_valid_song_shape(s: SongView)
    requires
        validate_spec(s) == Ok::<(), ErrorView>(()),
    ensures
        s.metadata.tempo is Some && s.metadata.tempo.unwrap() > 0,
        s.metadata.time_signature is Some,
        s.bars.len() > 0,
        ({
            let ts = s.metadata.time_signature.unwrap();
            let beat = crate::timing::song_beat(s);
            let sub = crate::timing::song_subdivision(s);
            &&& expected_beats(ts, beat) is Some
            &&& slots_per_beat_of(beat, sub) is Some
            &&& forall|i: int, j: int|
                #![trigger s.bars[i].beats[j]]
                0 <= i < s.bars.len() && 0 <= j < s.bars[i].beats.len() ==> {
                    &&& s.bars[i].beats.len() == expected_beats(ts, beat).unwrap()
                    &&& s.bars[i].beats[j].slots.len() == slots_per_beat_of(beat, sub).unwrap()
                    &&& chord_notes(s.bars[i].beats[j].chord) is Some
                }
        }),
{
    let ts = s.metadata.time_signature.unwrap();
    let beat = crate::timing::song_beat(s);
    let sub = crate::timing::song_subdivision(s);
    assert(beat_for(s.metadata.beat, ts) == Ok::<Beat, ErrorView>(beat));
    assert(subdivision_for(s.metadata.subdivision) == Ok::<u8, ErrorView>(sub));
    let nb = expected_beats(ts, beat).unwrap();
    let ns = slots_per_beat_of(beat, sub).unwrap();
    lemma_bars_ok(s.bars, s.bars.len(), nb, ns);
    assert forall|i: int, j: int|
        #![trigger s.bars[i].beats[j]]
        0 <= i < s.bars.len() && 0 <= j < s.bars[i].beats.len() implies {
            &&& s.bars[i].beats.len() == nb
            &&& s.bars[i].beats[j].slots.len() == ns
            &&& chord_notes(s.bars[i].beats[j].chord) is Some
        } by {
        assert(s.bars[i].beats.len() == nb);
        lemma_beats_ok(s.bars[i], s.bars[i].beats.len(), ns);
    }
}

/// Law: in a song that passes `validate`, the beat patterns of every bar fill
/// the bar's ticks exactly, and the slots of every pattern fill its beat exactly.
pub proof fn lemma_validated_bars_fill(s: SongView)
    requires
        validate_spec(s) == Ok::<(), ErrorView>(()),
    ensures
        crate::timing::bar_ticks_spec(s) is Ok,
        crate::timing::slot_ticks_spec(s) is Ok,
        forall|i: int|
            0 <= i < s.bars.len() ==> (#[trigger] s.bars[i]).beats.len() * crate::timing::beat_ticks_of(crate::timing::song_beat(s))
                == crate::timing::bar_ticks_spec(s)->Ok_0,
        forall|i: int, j: int|
            #![trigger s.bars[i].beats[j]]
            0 <= i < s.bars.len() && 0 <= j < s.bars[i].beats.len() ==> s.bars[i].beats[j].slots.len()
                * crate::timing::slot_ticks_spec(s)->Ok_0 == crate::timing::beat_ticks_of(crate::timing::song_beat(s)),
{
    lemma_valid_song_shape(s);
    let ts = s.metadata.time_signature.unwrap();
    let beat = crate::timing::song_beat(s);
    let sub = crate::timing::song_subdivision(s);
    assert(beat_for(s.metadata.beat, ts) == Ok::<Beat, ErrorView>(beat));
    assert(subdivision_for(s.metadata.subdivision) == Ok::<u8, ErrorView>(sub));
    let nb = expected_beats(ts, beat).unwrap();
    let ns = slots_per_beat_of(beat, sub).unwrap();
    assert(crate::timing::beats_per_bar_of(ts, beat) == Some(nb));
    let bt = crate::timing::beat_ticks_of(beat);
    assert(crate::timing::bar_ticks_spec(s) == Ok::<nat, ErrorView>(bt * nb));
    assert(crate::timing::slot_ticks_spec(s) == Ok::<nat, ErrorView>(bt / ns));
    assert(ns * (bt / ns) == bt) by {
        if beat == Beat::Quarter {
            assert(bt == 480);
            if sub == 8 {
                assert(ns == 2);
                assert(ns * (bt / ns) == bt) by (nonlinear_arith)
                    requires
                        ns == 2,
                        bt == 480,
                ;
            } else {
                assert(ns == 4);
                assert(ns * (bt / ns) == bt) by (nonlinear_arith)
                    requires
                        ns == 4,
                        bt == 480,
                ;
            }
        } else {
            assert(bt == 720);
            if sub == 8 {
                assert(ns == 3);
                assert(ns * (bt / ns) == bt) by (nonlinear_arith)
                    requires
                        ns == 3,
                        bt == 720,
                ;
            } else {
                assert(ns == 6);
                assert(ns * (bt / ns) == bt) by (nonlinear_arith)
                    requires
                        ns == 6,
                        bt == 720,
                ;
            }
        }
    }
    lemma_bars_ok(s.bars, s.bars.len(), nb, ns);
    assert forall|i: int| 0 <= i < s.bars.len() implies (#[trigger] s.bars[i]).beats.len() * bt == bt * nb by {
        assert(s.bars[i].beats.len() == nb);
    }
    assert forall|i: int, j: int|
        #![trigger s.bars[i].beats[j]]
        0 <= i < s.bars.len() && 0 <= j < s.bars[i].beats.len() implies s.bars[i].beats[j].slots.len() * (bt / ns)
            == bt by {
        assert(s.bars[i].beats[j].slots.len() == ns);
    }
}

} // verus!
