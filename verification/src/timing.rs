//! MIDI timing: ticks per slot, per beat and per bar.
use vstd::prelude::*;

use crate::error::{AppError, ErrorView};
use crate::model::{Beat, Song, SongView, TimeSignature};
use crate::text::{decimal, push_decimal, push_str};

verus! {

/// Ticks per quarter note.
pub const PPQ: u16 = 480;

/// Ticks in one beat pattern.
pub open spec fn beat_ticks_of(beat: Beat) -> nat {
    match beat {
        Beat::Quarter => 480,
        Beat::DottedQuarter => 720,
    }
}

/// Slots per beat pattern for each supported beat and subdivision.
pub open spec fn slots_per_beat_of(beat: Beat, subdivision: u8) -> Option<nat> {
    match (beat, subdivision) {
        (Beat::Quarter, 8) => Some(2),
        (Beat::Quarter, 16) => Some(4),
        (Beat::DottedQuarter, 8) => Some(3),
        (Beat::DottedQuarter, 16) => Some(6),
        _ => None,
    }
}

/// Beat patterns per bar: the numerator over a quarter-note denominator, or
/// a third of it over an eighth-note denominator with dotted-quarter beats.
pub open spec fn beats_per_bar_of(ts: TimeSignature, beat: Beat) -> Option<nat> {
    match beat {
        Beat::Quarter => if ts.denominator == 4 {
            Some(ts.numerator as nat)
        } else {
            None
        },
        Beat::DottedQuarter => if ts.denominator == 8 && ts.numerator % 3 == 0 {
            Some((ts.numerator / 3) as nat)
        } else {
            None
        },
    }
}

/// The beat a song uses: its `beat` metadata, quarter by default.
pub open spec fn song_beat(s: SongView) -> Beat {
    match s.metadata.beat {
        Some(b) => b,
        None => Beat::Quarter,
    }
}

/// The subdivision a song uses: its `subdivision` metadata, 16 by default.
pub open spec fn song_subdivision(s: SongView) -> u8 {
    match s.metadata.subdivision {
        Some(d) => d,
        None => 16,
    }
}

pub open spec fn unsupported_subdivision_error(subdivision: u8) -> ErrorView {
    ErrorView::Validation("unsupported subdivision '"@ + decimal(subdivision as nat) + "'"@)
}

pub open spec fn unsupported_time_error(ts: TimeSignature) -> ErrorView {
    ErrorView::Validation(
        "unsupported time signature "@ + decimal(ts.numerator as nat) + "/"@ + decimal(
            ts.denominator as nat,
        ) + " with selected beat"@,
    )
}

pub open spec fn missing_time_error() -> ErrorView {
    ErrorView::Validation("missing time signature"@)
}

/// Ticks per slot: the beat's ticks shared equally among its slots.
pub open spec fn slot_ticks_spec(s: SongView) -> Result<nat, ErrorView> {
    match slots_per_beat_of(song_beat(s), song_subdivision(s)) {
        Some(n) => Ok(beat_ticks_of(song_beat(s)) / n),
        None => Err(unsupported_subdivision_error(song_subdivision(s))),
    }
}

/// Ticks per bar.
pub open spec fn bar_ticks_spec(s: SongView) -> Result<nat, ErrorView> {
    match s.metadata.time_signature {
        None => Err(missing_time_error()),
        Some(ts) => match beats_per_bar_of(ts, song_beat(s)) {
            Some(n) => Ok(beat_ticks_of(song_beat(s)) * n),
            None => Err(unsupported_time_error(ts)),
        },
    }
}

/// `ms` milliseconds at `tempo` beats per minute, in ticks (at least one).
pub open spec fn ms_to_ticks_spec(ms: u16, tempo: u16) -> nat {
    let t = (ms as nat) * (tempo as nat) * 480 / 60000;
    if t >= 1 {
        t
    } else {
        1
    }
}

pub(crate) fn unsupported_subdivision(subdivision: u8) -> (e: AppError)
    ensures
        e@ == unsupported_subdivision_error(subdivision),
{
    let mut m = String::new();
    push_str(&mut m, "unsupported subdivision '");
    push_decimal(&mut m, subdivision as u64);
    push_str(&mut m, "'");
    AppError::Validation(m)
}

pub(crate) fn unsupported_time(ts: TimeSignature) -> (e: AppError)
    ensures
        e@ == unsupported_time_error(ts),
{
    let mut m = String::new();
    push_str(&mut m, "unsupported time signature ");
    push_decimal(&mut m, ts.numerator as u64);
    push_str(&mut m, "/");
    push_decimal(&mut m, ts.denominator as u64);
    push_str(&mut m, " with selected beat");
    AppError::Validation(m)
}

/// Ticks in one slot of the song's grid.
pub fn slot_ticks(song: &Song) -> (r: Result<u32, AppError>)
    ensures
        match r {
            Ok(t) => slot_ticks_spec(song@) == Ok::<nat, ErrorView>(t as nat),
            Err(e) => slot_ticks_spec(song@) == Err::<nat, ErrorView>(e@),
        },
{
    let beat = resolved_beat(song);
    let subdivision = resolved_subdivision(song);
    let n = slots_per_beat(beat, subdivision)?;
    Ok(beat_ticks(beat) / (n as u32))
}

/// Ticks in one bar of the song.
pub fn bar_ticks(song: &Song) -> (r: Result<u32, AppError>)
    ensures
        match r {
            Ok(t) => bar_ticks_spec(song@) == Ok::<nat, ErrorView>(t as nat),
            Err(e) => bar_ticks_spec(song@) == Err::<nat, ErrorView>(e@),
        },
{
    let time_signature = match song.metadata.time_signature {
        Some(ts) => ts,
        None => {
            let mut m = String::new();
            push_str(&mut m, "missing time signature");
            return Err(AppError::Validation(m));
        },
    };
    let beat = resolved_beat(song);
    let n = beats_per_bar(time_signature, beat)?;
    assert(n <= 255);
    Ok(beat_ticks(beat) * (n as u32))
}

/// Slots per beat pattern, or an error for an unsupported subdivision.
pub fn slots_per_beat(beat: Beat, subdivision: u8) -> (r: Result<usize, AppError>)
    ensures
        match r {
            Ok(n) => slots_per_beat_of(beat, subdivision) == Some(n as nat),
            Err(e) => slots_per_beat_of(beat, subdivision).is_none() && e@
                == unsupported_subdivision_error(subdivision),
        },
{
    match (beat, subdivision) {
        (Beat::Quarter, 8) => Ok(2),
        (Beat::Quarter, 16) => Ok(4),
        (Beat::DottedQuarter, 8) => Ok(3),
        (Beat::DottedQuarter, 16) => Ok(6),
        (_, other) => Err(unsupported_subdivision(other)),
    }
}

/// A tick count from milliseconds is below 2^27.
pub proof fn lemma_ms_to_ticks_bound(ms: u16, tempo: u16)
    ensures
        ms_to_ticks_spec(ms, tempo) <= 0x800_0000,
{
    assert((ms as nat) * (tempo as nat) * 480 / 60000 <= 65535 * 65535 * 480 / 60000) by (nonlinear_arith)
        requires
            ms <= 65535,
            tempo <= 65535,
    ;
}

/// Milliseconds at a tempo, in ticks; never less than one tick.
pub fn ms_to_ticks(ms: u16, tempo_bpm: u16) -> (t: u32)
    ensures
        t as nat == ms_to_ticks_spec(ms, tempo_bpm),
{
    assert((ms as u64) * (tempo_bpm as u64) <= 65535 * 65535) by (nonlinear_arith)
        requires
            ms <= 65535,
            tempo_bpm <= 65535,
    ;
    let a = (ms as u64) * (tempo_bpm as u64);
    let ticks = a * 480 / 60000;
    assert(ticks <= 65535 * 65535 * 480 / 60000) by (nonlinear_arith)
        requires
            ticks == a * 480 / 60000,
            a <= 65535 * 65535,
    ;
    if ticks >= 1 {
        ticks as u32
    } else {
        1
    }
}

fn resolved_beat(song: &Song) -> (b: Beat)
    ensures
        b == song_beat(song@),
{
    match song.metadata.beat {
        Some(b) => b,
        None => Beat::Quarter,
    }
}

fn resolved_subdivision(song: &Song) -> (d: u8)
    ensures
        d == song_subdivision(song@),
{
    match song.metadata.subdivision {
        Some(d) => d,
        None => 16,
    }
}

fn beat_ticks(beat: Beat) -> (t: u32)
    ensures
        t as nat == beat_ticks_of(beat),
{
    match beat {
        Beat::Quarter => PPQ as u32,
        Beat::DottedQuarter => (PPQ as u32) * 3 / 2,
    }
}

fn beats_per_bar(time_signature: TimeSignature, beat: Beat) -> (r: Result<usize, AppError>)
    ensures
        match r {
            Ok(n) => beats_per_bar_of(time_signature, beat) == Some(n as nat),
            Err(e) => beats_per_bar_of(time_signature, beat).is_none() && e@
                == unsupported_time_error(time_signature),
        },
{
    match beat {
        Beat::Quarter => {
            if time_signature.denominator == 4 {
                return Ok(time_signature.numerator as usize);
            }
        },
        Beat::DottedQuarter => {
            if time_signature.denominator == 8 && time_signature.numerator % 3 == 0 {
                return Ok((time_signature.numerator / 3) as usize);
            }
        },
    }
    Err(unsupported_time(time_signature))
}

/// Law: a bar lasts what its time signature says, `numerator` notes of one
/// `denominator`-th of a whole note each, a whole note being four quarter notes
/// of 480 ticks.
pub proof fn lemma_bar_length(s: SongView)
    ensures
        bar_ticks_spec(s) matches Ok(t) ==> t * s.metadata.time_signature.unwrap().denominator
            == s.metadata.time_signature.unwrap().numerator * (4 * PPQ),
{
    if let Ok(t) = bar_ticks_spec(s) {
        let ts = s.metadata.time_signature.unwrap();
        let n = ts.numerator as nat;
        match song_beat(s) {
            Beat::Quarter => {
                assert(t == 480 * n);
                assert(ts.denominator == 4);
                assert(480 * n * 4 == n * 1920) by (nonlinear_arith);
            },
            Beat::DottedQuarter => {
                let k = n / 3;
                assert(t == 720 * k);
                assert(n == 3 * k);
                assert(ts.denominator == 8);
                assert(720 * k * 8 == (3 * k) * 1920) by (nonlinear_arith);
            },
        }
    }
}

/// Law: a slot is one `subdivision`-th of a whole note, whatever the beat.
pub proof fn lemma_slot_length(s: SongView)
    ensures
        slot_ticks_spec(s) matches Ok(t) ==> t * song_subdivision(s) == 4 * PPQ,
{
    let d = song_subdivision(s);
    match song_beat(s) {
        Beat::Quarter => {
            if d == 8 {
                assert(480nat / 2 == 240);
            } else if d == 16 {
                assert(480nat / 4 == 120);
            }
        },
        Beat::DottedQuarter => {
            if d == 8 {
                assert(720nat / 3 == 240);
            } else if d == 16 {
                assert(720nat / 6 == 120);
            }
        },
    }
}

} // verus!
