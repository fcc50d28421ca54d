//! MIDI notes of a chord in close position, rooted in the octave above C3.
use vstd::prelude::*;

use crate::harmony::{pitch_class_chars, pitch_class_of, resolve_chars, resolve_spec};
use crate::text::chars_of;

verus! {

/// The MIDI note of the root: the pitch class above C3 (note 48).
pub open spec fn root_note(pc: u8) -> int {
    48 + pc
}

/// The notes of a chord: each interval above the root, in the order the
/// harmony lists them; nothing for a symbol the harmony library rejects.
pub open spec fn chord_notes(s: Seq<char>) -> Option<Seq<u8>> {
    match resolve_spec(s) {
        Ok(h) => Some(h.intervals.map_values(|i: u8| (root_note(h.root_pc) + i) as u8)),
        Err(_) => None,
    }
}

/// The notes of a chord given as characters.
pub fn notes_for_chord_chars(name: &[char]) -> (r: Option<Vec<u8>>)
    ensures
        match r {
            Some(v) => chord_notes(name@) == Some(v@),
            None => chord_notes(name@).is_none(),
        },
{
    let harmony = match resolve_chars(name) {
        Ok(h) => h,
        Err(_) => {
            return None;
        },
    };
    let root_chars = chars_of(harmony.root.as_str());
    let root = match root_midi_note(&root_chars) {
        Some(n) => n,
        None => {
            return None;
        },
    };
    let ghost iv = harmony.intervals@;
    let mut notes: Vec<u8> = Vec::new();
    let mut i: usize = 0;
    while i < harmony.intervals.len()
        invariant
            iv == harmony.intervals@,
            i <= iv.len(),
            root == root_note(harmony.root_pc),
            harmony.root_pc < 12,
            forall|k: int| 0 <= k < iv.len() ==> #[trigger] iv[k] < 12,
            notes@ == iv.subrange(0, i as int).map_values(
                |x: u8| (root_note(harmony.root_pc) + x) as u8,
            ),
        decreases iv.len() - i,
    {
        notes.push(root + harmony.intervals[i]);
        assert(notes@ =~= iv.subrange(0, i + 1).map_values(
            |x: u8| (root_note(harmony.root_pc) + x) as u8,
        ));
        i = i + 1;
    }
    assert(iv.subrange(0, i as int) =~= iv);
    Some(notes)
}

/// The MIDI notes of a chord symbol, or `None` for a symbol that is not supported.
pub fn notes_for_chord(name: &str) -> (r: Option<Vec<u8>>)
    ensures
        match r {
            Some(v) => chord_notes(name@) == Some(v@),
            None => chord_notes(name@).is_none(),
        },
{
    let v = chars_of(name);
    notes_for_chord_chars(&v)
}

/// The pitch class (0 = C) of a root name, for any natural, sharp or flat spelling.
pub fn root_pitch_class(root_name: &str) -> (r: Option<u8>)
    ensures
        r == pitch_class_of(root_name@),
{
    let v = chars_of(root_name);
    pitch_class_chars(&v)
}

fn root_midi_note(root_name: &[char]) -> (r: Option<u8>)
    ensures
        match pitch_class_of(root_name@) {
            Some(pc) => r == Some((48 + pc) as u8),
            None => r.is_none(),
        },
{
    match pitch_class_chars(root_name) {
        Some(pc) => Some(48 + pc),
        None => None,
    }
}

proof fn lemma_no_slash(r: Seq<char>, q: Seq<char>)
    requires
        pitch_class_of(r) is Some,
        !q.contains('/'),
    ensures
        crate::harmony::split_slash(r + q) == (r + q, None::<Seq<char>>),
{
    let s = r + q;
    crate::text::lemma_find_from(s, '/', 0);
    let k = crate::text::find_from(s, '/', 0);
    if k < s.len() {
        if k < r.len() {
            assert(s[k] == r[k]);
        } else {
            assert(s[k] == q[k - r.len()]);
        }
    }
}

/// Law: enharmonic spellings of a root sound the same notes: a chord
/// spelled on one root name has the same notes as the same chord spelled
/// on another name of the same pitch, such as `C#m7` and `Dbm7`, or `E#`
/// and `F`.
pub proof fn lemma_enharmonic_notes(r1: Seq<char>, r2: Seq<char>, q: Seq<char>)
    requires
        pitch_class_of(r1) is Some,
        pitch_class_of(r1) == pitch_class_of(r2),
        !q.contains('/'),
        q.len() == 0 || (q[0] != '#' && q[0] != 'b'),
    ensures
        chord_notes(r1 + q) == chord_notes(r2 + q),
{
    lemma_no_slash(r1, q);
    lemma_no_slash(r2, q);
    assert(crate::harmony::split_root(r1 + q) == Some((r1, q))) by {
        assert((r1 + q).subrange(0, r1.len() as int) =~= r1);
        assert((r1 + q).subrange(r1.len() as int, (r1 + q).len() as int) =~= q);
    }
    assert(crate::harmony::split_root(r2 + q) == Some((r2, q))) by {
        assert((r2 + q).subrange(0, r2.len() as int) =~= r2);
        assert((r2 + q).subrange(r2.len() as int, (r2 + q).len() as int) =~= q);
    }
}

/// Law: a chord that resolves to a diminished triad sounds its root, the minor
/// third above it and the diminished fifth (a tritone, 6 semitones) above it; a
/// minor triad the root, the minor third and the perfect fifth (7); a major triad
/// the root, the major third (4) and the perfect fifth.
pub proof fn lemma_triad_notes(s: Seq<char>)
    requires
        resolve_spec(s) is Ok,
    ensures
        ({
            let h = resolve_spec(s)->Ok_0;
            let n = root_note(h.root_pc);
            &&& h.quality == crate::harmony::ChordQuality::Diminished ==> chord_notes(s) == Some(
                seq![n as u8, (n + 3) as u8, (n + 6) as u8],
            )
            &&& h.quality == crate::harmony::ChordQuality::Minor ==> chord_notes(s) == Some(
                seq![n as u8, (n + 3) as u8, (n + 7) as u8],
            )
            &&& h.quality == crate::harmony::ChordQuality::Major ==> chord_notes(s) == Some(
                seq![n as u8, (n + 4) as u8, (n + 7) as u8],
            )
        }),
{
    let h = resolve_spec(s)->Ok_0;
    crate::harmony::lemma_resolve_outcome(s);
    crate::harmony::lemma_quality_intervals(h.quality);
    let n = root_note(h.root_pc);
    let ns = h.intervals.map_values(|i: u8| (n + i) as u8);
    if h.quality == crate::harmony::ChordQuality::Diminished {
        assert(ns =~= seq![n as u8, (n + 3) as u8, (n + 6) as u8]);
    }
    if h.quality == crate::harmony::ChordQuality::Minor {
        assert(ns =~= seq![n as u8, (n + 3) as u8, (n + 7) as u8]);
    }
    if h.quality == crate::harmony::ChordQuality::Major {
        assert(ns =~= seq![n as u8, (n + 4) as u8, (n + 7) as u8]);
    }
}

} // verus!
