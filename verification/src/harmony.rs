//! Chord symbols: root, quality, intervals and an optional slash bass.
use vstd::prelude::*;

use crate::error::{AppError, ErrorView};
use crate::text::{
    chars_of, copy_range, find_char, find_from, has_char, is_word, lemma_find_from, push_chars,
    push_str, string_of, word,
};

verus! {

/// The resolved harmony of a chord symbol.
#[derive(Debug, Clone, PartialEq, Eq)]
pub struct ChordHarmony {
    pub symbol: String,
    pub root: String,
    pub root_pc: u8,
    pub quality: ChordQuality,
    pub intervals: Vec<u8>,
    pub bass: Option<BassNote>,
}

/// The required lowest note of a slash chord.
#[derive(Debug, Clone, PartialEq, Eq)]
pub struct BassNote {
    pub name: String,
    pub pc: u8,
}

#[derive(Debug, Clone, Copy, PartialEq, Eq, Structural)]
pub enum ChordQuality {
    Major,
    Minor,
    Power,
    Sus2,
    Sus4,
    Diminished,
    Augmented,
    Six,
    MinorSix,
    Dominant7,
    Major7,
    Minor7,
    MinorMajor7,
    Nine,
    Minor9,
    Add9,
    MinorAdd9,
    Eleven,
    Thirteen,
}

pub struct HarmonyView {
    pub symbol: Seq<char>,
    pub root: Seq<char>,
    pub root_pc: u8,
    pub quality: ChordQuality,
    pub intervals: Seq<u8>,
    pub bass: Option<(Seq<char>, u8)>,
}

impl View for ChordHarmony {
    type V = HarmonyView;

    open spec fn view(&self) -> HarmonyView {
        HarmonyView {
            symbol: self.symbol@,
            root: self.root@,
            root_pc: self.root_pc,
            quality: self.quality,
            intervals: self.intervals@,
            bass: match self.bass {
                Some(b) => Some((b.name@, b.pc)),
                None => None,
            },
        }
    }
}

pub open spec fn quality_name(q: ChordQuality) -> Seq<char> {
    match q {
        ChordQuality::Major => "major"@,
        ChordQuality::Minor => "minor"@,
        ChordQuality::Power => "power"@,
        ChordQuality::Sus2 => "sus2"@,
        ChordQuality::Sus4 => "sus4"@,
        ChordQuality::Diminished => "diminished"@,
        ChordQuality::Augmented => "augmented"@,
        ChordQuality::Six => "6"@,
        ChordQuality::MinorSix => "minor6"@,
        ChordQuality::Dominant7 => "dominant7"@,
        ChordQuality::Major7 => "major7"@,
        ChordQuality::Minor7 => "minor7"@,
        ChordQuality::MinorMajor7 => "minor-major7"@,
        ChordQuality::Nine => "9"@,
        ChordQuality::Minor9 => "minor9"@,
        ChordQuality::Add9 => "add9"@,
        ChordQuality::MinorAdd9 => "minor-add9"@,
        ChordQuality::Eleven => "11"@,
        ChordQuality::Thirteen => "13"@,
    }
}

impl ChordQuality {
    /// The quality's name, as the harmony library spells it.
    pub fn name(self) -> (n: &'static str)
        ensures
            n@ == quality_name(self),
    {
        match self {
            Self::Major => "major",
            Self::Minor => "minor",
            Self::Power => "power",
            Self::Sus2 => "sus2",
            Self::Sus4 => "sus4",
            Self::Diminished => "diminished",
            Self::Augmented => "augmented",
            Self::Six => "6",
            Self::MinorSix => "minor6",
            Self::Dominant7 => "dominant7",
            Self::Major7 => "major7",
            Self::Minor7 => "minor7",
            Self::MinorMajor7 => "minor-major7",
            Self::Nine => "9",
            Self::Minor9 => "minor9",
            Self::Add9 => "add9",
            Self::MinorAdd9 => "minor-add9",
            Self::Eleven => "11",
            Self::Thirteen => "13",
        }
    }
}

// ---------------------------------------------------------------------
// Note names
// ---------------------------------------------------------------------

/// The pitch class of a natural note letter.
pub open spec fn natural_pc(c: char) -> Option<int> {
    if c == 'C' {
        Some(0)
    } else if c == 'D' {
        Some(2)
    } else if c == 'E' {
        Some(4)
    } else if c == 'F' {
        Some(5)
    } else if c == 'G' {
        Some(7)
    } else if c == 'A' {
        Some(9)
    } else if c == 'B' {
        Some(11)
    } else {
        None
    }
}

/// The pitch class of a note name: a letter `A`..`G`, optionally followed by
/// `#` (one semitone up) or `b` (one semitone down), counted modulo 12.
pub open spec fn pitch_class_of(s: Seq<char>) -> Option<u8> {
    if s.len() == 1 {
        match natural_pc(s[0]) {
            Some(p) => Some(p as u8),
            None => None,
        }
    } else if s.len() == 2 {
        match natural_pc(s[0]) {
            Some(p) => if s[1] == '#' {
                Some(((p + 1) % 12) as u8)
            } else if s[1] == 'b' {
                Some(((p + 11) % 12) as u8)
            } else {
                None
            },
            None => None,
        }
    } else {
        None
    }
}

fn natural_pc_exec(c: char) -> (r: Option<u8>)
    ensures
        match natural_pc(c) {
            Some(p) => r == Some(p as u8),
            None => r.is_none(),
        },
{
    match c {
        'C' => Some(0),
        'D' => Some(2),
        'E' => Some(4),
        'F' => Some(5),
        'G' => Some(7),
        'A' => Some(9),
        'B' => Some(11),
        _ => None,
    }
}

/// The pitch class of a note name given as characters.
pub fn pitch_class_chars(v: &[char]) -> (r: Option<u8>)
    ensures
        r == pitch_class_of(v@),
{
    if v.len() == 1 {
        natural_pc_exec(v[0])
    } else if v.len() == 2 {
        match natural_pc_exec(v[0]) {
            Some(p) => {
                if v[1] == '#' {
                    Some((p + 1) % 12)
                } else if v[1] == 'b' {
                    Some((p + 11) % 12)
                } else {
                    None
                }
            },
            None => None,
        }
    } else {
        None
    }
}

/// The pitch class (0 = C) of a note name such as `C`, `F#` or `Bb`.
pub fn pitch_class(note: &str) -> (r: Option<u8>)
    ensures
        r == pitch_class_of(note@),
{
    let v = chars_of(note);
    pitch_class_chars(&v)
}

// ---------------------------------------------------------------------
// Chord symbols
// ---------------------------------------------------------------------

/// The chord quality that a symbol's suffix names.
pub open spec fn quality_of(s: Seq<char>) -> Option<ChordQuality> {
    if s.len() == 0 {
        Some(ChordQuality::Major)
    } else if (s.len() == 1 && s[0] == 'm') {
        Some(ChordQuality::Minor)
    } else if (s.len() == 1 && s[0] == '5') {
        Some(ChordQuality::Power)
    } else if word(s, seq!['s', 'u', 's', '2']) {
        Some(ChordQuality::Sus2)
    } else if word(s, seq!['s', 'u', 's', '4']) {
        Some(ChordQuality::Sus4)
    } else if word(s, seq!['d', 'i', 'm']) || word(s, seq!['d', 'i', 'm', 'i', 'n', 'i', 's', 'h', 'e', 'd']) {
        Some(ChordQuality::Diminished)
    } else if word(s, seq!['a', 'u', 'g']) || word(s, seq!['a', 'u', 'g', 'm', 'e', 'n', 't', 'e', 'd']) {
        Some(ChordQuality::Augmented)
    } else if (s.len() == 1 && s[0] == '6') {
        Some(ChordQuality::Six)
    } else if word(s, seq!['m', '6']) {
        Some(ChordQuality::MinorSix)
    } else if (s.len() == 1 && s[0] == '7') {
        Some(ChordQuality::Dominant7)
    } else if word(s, seq!['m', 'a', 'j', '7']) {
        Some(ChordQuality::Major7)
    } else if word(s, seq!['m', '7']) {
        Some(ChordQuality::Minor7)
    } else if word(s, seq!['m', 'M', 'a', 'j', '7']) || word(s, seq!['m', 'm', 'a', 'j', '7']) {
        Some(ChordQuality::MinorMajor7)
    } else if (s.len() == 1 && s[0] == '9') || word(s, seq!['7', 'b', '9']) || word(s, seq!['7', '#', '9']) {
        Some(ChordQuality::Nine)
    } else if word(s, seq!['m', '9']) {
        Some(ChordQuality::Minor9)
    } else if word(s, seq!['a', 'd', 'd', '9']) {
        Some(ChordQuality::Add9)
    } else if word(s, seq!['m', 'a', 'd', 'd', '9']) || word(s, seq!['m', '-', 'a', 'd', 'd', '9']) {
        Some(ChordQuality::MinorAdd9)
    } else if word(s, seq!['1', '1']) || word(s, seq!['9', '#', '1', '1']) {
        Some(ChordQuality::Eleven)
    } else if word(s, seq!['1', '3']) || word(s, seq!['1', '3', 'b', '9']) || word(s, seq!['1', '3', '#', '9']) || word(s, seq!['1', '3', 'b', '1', '3']) {
        Some(ChordQuality::Thirteen)
    } else {
        None
    }
}

fn parse_quality(s: &[char]) -> (r: Option<ChordQuality>)
    ensures
        r == quality_of(s@),
{
    let w3: &[char] = &['s', 'u', 's', '2'];
    let w4: &[char] = &['s', 'u', 's', '4'];
    let w5: &[char] = &['d', 'i', 'm'];
    let w6: &[char] = &['d', 'i', 'm', 'i', 'n', 'i', 's', 'h', 'e', 'd'];
    let w7: &[char] = &['a', 'u', 'g'];
    let w8: &[char] = &['a', 'u', 'g', 'm', 'e', 'n', 't', 'e', 'd'];
    let w10: &[char] = &['m', '6'];
    let w12: &[char] = &['m', 'a', 'j', '7'];
    let w13: &[char] = &['m', '7'];
    let w14: &[char] = &['m', 'M', 'a', 'j', '7'];
    let w15: &[char] = &['m', 'm', 'a', 'j', '7'];
    let w17: &[char] = &['7', 'b', '9'];
    let w18: &[char] = &['7', '#', '9'];
    let w19: &[char] = &['m', '9'];
    let w20: &[char] = &['a', 'd', 'd', '9'];
    let w21: &[char] = &['m', 'a', 'd', 'd', '9'];
    let w22: &[char] = &['m', '-', 'a', 'd', 'd', '9'];
    let w23: &[char] = &['1', '1'];
    let w24: &[char] = &['9', '#', '1', '1'];
    let w25: &[char] = &['1', '3'];
    let w26: &[char] = &['1', '3', 'b', '9'];
    let w27: &[char] = &['1', '3', '#', '9'];
    let w28: &[char] = &['1', '3', 'b', '1', '3'];
    if s.len() == 0 {
        Some(ChordQuality::Major)
    } else if (s.len() == 1 && s[0] == 'm') {
        Some(ChordQuality::Minor)
    } else if (s.len() == 1 && s[0] == '5') {
        Some(ChordQuality::Power)
    } else if is_word(s, w3) {
        Some(ChordQuality::Sus2)
    } else if is_word(s, w4) {
        Some(ChordQuality::Sus4)
    } else if is_word(s, w5) || is_word(s, w6) {
        Some(ChordQuality::Diminished)
    } else if is_word(s, w7) || is_word(s, w8) {
        Some(ChordQuality::Augmented)
    } else if (s.len() == 1 && s[0] == '6') {
        Some(ChordQuality::Six)
    } else if is_word(s, w10) {
        Some(ChordQuality::MinorSix)
    } else if (s.len() == 1 && s[0] == '7') {
        Some(ChordQuality::Dominant7)
    } else if is_word(s, w12) {
        Some(ChordQuality::Major7)
    } else if is_word(s, w13) {
        Some(ChordQuality::Minor7)
    } else if is_word(s, w14) || is_word(s, w15) {
        Some(ChordQuality::MinorMajor7)
    } else if (s.len() == 1 && s[0] == '9') || is_word(s, w17) || is_word(s, w18) {
        Some(ChordQuality::Nine)
    } else if is_word(s, w19) {
        Some(ChordQuality::Minor9)
    } else if is_word(s, w20) {
        Some(ChordQuality::Add9)
    } else if is_word(s, w21) || is_word(s, w22) {
        Some(ChordQuality::MinorAdd9)
    } else if is_word(s, w23) || is_word(s, w24) {
        Some(ChordQuality::Eleven)
    } else if is_word(s, w25) || is_word(s, w26) || is_word(s, w27) || is_word(s, w28) {
        Some(ChordQuality::Thirteen)
    } else {
        None
    }
}

/// The intervals, in semitones above the root, that each quality implies.
pub open spec fn intervals_of(q: ChordQuality) -> Seq<u8> {
    match q {
        ChordQuality::Major => seq![0u8, 4, 7],
        ChordQuality::Minor => seq![0u8, 3, 7],
        ChordQuality::Power => seq![0u8, 7],
        ChordQuality::Sus2 => seq![0u8, 2, 7],
        ChordQuality::Sus4 => seq![0u8, 5, 7],
        ChordQuality::Diminished => seq![0u8, 3, 6],
        ChordQuality::Augmented => seq![0u8, 4, 8],
        ChordQuality::Six => seq![0u8, 4, 7, 9],
        ChordQuality::MinorSix => seq![0u8, 3, 7, 9],
        ChordQuality::Dominant7 => seq![0u8, 4, 7, 10],
        ChordQuality::Major7 => seq![0u8, 4, 7, 11],
        ChordQuality::Minor7 => seq![0u8, 3, 7, 10],
        ChordQuality::MinorMajor7 => seq![0u8, 3, 7, 11],
        ChordQuality::Nine => seq![0u8, 4, 7, 10, 2],
        ChordQuality::Minor9 => seq![0u8, 3, 7, 10, 2],
        ChordQuality::Add9 => seq![0u8, 4, 7, 2],
        ChordQuality::MinorAdd9 => seq![0u8, 3, 7, 2],
        ChordQuality::Eleven => seq![0u8, 4, 7, 10, 2, 5],
        ChordQuality::Thirteen => seq![0u8, 4, 7, 10, 2, 5, 9],
    }
}

/// The intervals of thirds stacked on a root, from the root up: each entry the
/// one before it plus the next third.
pub open spec fn stacked(thirds: Seq<u8>) -> Seq<u8>
    decreases thirds.len(),
{
    if thirds.len() == 0 {
        seq![0u8]
    } else {
        let below = stacked(thirds.drop_last());
        below.push((below.last() + thirds.last()) as u8)
    }
}

/// A minor third (3 semitones) and a major third (4 semitones).
pub open spec fn minor_third() -> u8 {
    3
}

pub open spec fn major_third() -> u8 {
    4
}

/// Law: each quality's intervals are its chord built as music theory builds it.
/// Triads stack two thirds on the root: major a major then a minor third, minor a
/// minor then a major third, diminished two minor thirds (a diminished fifth, 6
/// semitones), augmented two major thirds (an augmented fifth, 8 semitones).
/// Seventh chords stack a third third on their triad. Sixths add the major sixth
/// (9) to the triad; ninth, eleventh and thirteenth chords add the ninth (2 within
/// the octave), eleventh (5) and thirteenth (9) to the dominant or minor seventh;
/// added-ninth chords add the ninth to the triad. Suspended chords put the second
/// (2) or fourth (5) in place of the third under a perfect fifth (7), and a power
/// chord is the root and the perfect fifth.
pub proof fn lemma_quality_intervals(q: ChordQuality)
    ensures
        intervals_of(q) == match q {
            ChordQuality::Major => stacked(seq![major_third(), minor_third()]),
            ChordQuality::Minor => stacked(seq![minor_third(), major_third()]),
            ChordQuality::Diminished => stacked(seq![minor_third(), minor_third()]),
            ChordQuality::Augmented => stacked(seq![major_third(), major_third()]),
            ChordQuality::Dominant7 => stacked(seq![major_third(), minor_third(), minor_third()]),
            ChordQuality::Major7 => stacked(seq![major_third(), minor_third(), major_third()]),
            ChordQuality::Minor7 => stacked(seq![minor_third(), major_third(), minor_third()]),
            ChordQuality::MinorMajor7 => stacked(seq![minor_third(), major_third(), major_third()]),
            ChordQuality::Six => stacked(seq![major_third(), minor_third()]).push(9),
            ChordQuality::MinorSix => stacked(seq![minor_third(), major_third()]).push(9),
            ChordQuality::Nine => stacked(seq![major_third(), minor_third(), minor_third()]).push(2),
            ChordQuality::Minor9 => stacked(seq![minor_third(), major_third(), minor_third()]).push(2),
            ChordQuality::Add9 => stacked(seq![major_third(), minor_third()]).push(2),
            ChordQuality::MinorAdd9 => stacked(seq![minor_third(), major_third()]).push(2),
            ChordQuality::Eleven => stacked(seq![major_third(), minor_third(), minor_third()]).push(2).push(5),
            ChordQuality::Thirteen => stacked(seq![major_third(), minor_third(), minor_third()]).push(2).push(5).push(9),
            ChordQuality::Sus2 => seq![0u8, 2, 7],
            ChordQuality::Sus4 => seq![0u8, 5, 7],
            ChordQuality::Power => seq![0u8, 7],
        },
{
    reveal_with_fuel(stacked, 4);
    assert(stacked(seq![major_third(), minor_third()]) =~= seq![0u8, 4, 7]);
    assert(stacked(seq![minor_third(), major_third()]) =~= seq![0u8, 3, 7]);
    assert(stacked(seq![minor_third(), minor_third()]) =~= seq![0u8, 3, 6]);
    assert(stacked(seq![major_third(), major_third()]) =~= seq![0u8, 4, 8]);
    assert(seq![major_third(), minor_third(), minor_third()].drop_last() =~= seq![major_third(), minor_third()]);
    assert(seq![major_third(), minor_third(), major_third()].drop_last() =~= seq![major_third(), minor_third()]);
    assert(seq![minor_third(), major_third(), minor_third()].drop_last() =~= seq![minor_third(), major_third()]);
    assert(seq![minor_third(), major_third(), major_third()].drop_last() =~= seq![minor_third(), major_third()]);
    assert(seq![major_third(), minor_third()].drop_last() =~= seq![major_third()]);
    assert(seq![minor_third(), major_third()].drop_last() =~= seq![minor_third()]);
    assert(seq![minor_third(), minor_third()].drop_last() =~= seq![minor_third()]);
    assert(seq![major_third(), major_third()].drop_last() =~= seq![major_third()]);
    assert(stacked(seq![major_third(), minor_third(), minor_third()]) =~= seq![0u8, 4, 7, 10]);
    assert(stacked(seq![major_third(), minor_third(), major_third()]) =~= seq![0u8, 4, 7, 11]);
    assert(stacked(seq![minor_third(), major_third(), minor_third()]) =~= seq![0u8, 3, 7, 10]);
    assert(stacked(seq![minor_third(), major_third(), major_third()]) =~= seq![0u8, 3, 7, 11]);
    assert(seq![0u8, 4, 7].push(9) =~= seq![0u8, 4, 7, 9]);
    assert(seq![0u8, 3, 7].push(9) =~= seq![0u8, 3, 7, 9]);
    assert(seq![0u8, 4, 7, 10].push(2) =~= seq![0u8, 4, 7, 10, 2]);
    assert(seq![0u8, 3, 7, 10].push(2) =~= seq![0u8, 3, 7, 10, 2]);
    assert(seq![0u8, 4, 7].push(2) =~= seq![0u8, 4, 7, 2]);
    assert(seq![0u8, 3, 7].push(2) =~= seq![0u8, 3, 7, 2]);
    assert(seq![0u8, 4, 7, 10].push(2).push(5) =~= seq![0u8, 4, 7, 10, 2, 5]);
    assert(seq![0u8, 4, 7, 10].push(2).push(5).push(9) =~= seq![0u8, 4, 7, 10, 2, 5, 9]);
}

/// Law: no two qualities have the same intervals.
pub proof fn lemma_qualities_differ(q1: ChordQuality, q2: ChordQuality)
    requires
        q1 != q2,
    ensures
        intervals_of(q1) != intervals_of(q2),
{
    let a = intervals_of(q1);
    let b = intervals_of(q2);
    if a == b {
        assert(a.len() == b.len());
        assert(a[1] == b[1]);
        if a.len() >= 3 {
            assert(a[2] == b[2]);
        }
        if a.len() >= 4 {
            assert(a[3] == b[3]);
        }
        if a.len() >= 5 {
            assert(a[4] == b[4]);
        }
    }
}

fn intervals_for_quality(q: ChordQuality) -> (r: Vec<u8>)
    ensures
        r@ == intervals_of(q),
{
    let r = match q {
        ChordQuality::Major => vec![0, 4, 7],
        ChordQuality::Minor => vec![0, 3, 7],
        ChordQuality::Power => vec![0, 7],
        ChordQuality::Sus2 => vec![0, 2, 7],
        ChordQuality::Sus4 => vec![0, 5, 7],
        ChordQuality::Diminished => vec![0, 3, 6],
        ChordQuality::Augmented => vec![0, 4, 8],
        ChordQuality::Six => vec![0, 4, 7, 9],
        ChordQuality::MinorSix => vec![0, 3, 7, 9],
        ChordQuality::Dominant7 => vec![0, 4, 7, 10],
        ChordQuality::Major7 => vec![0, 4, 7, 11],
        ChordQuality::Minor7 => vec![0, 3, 7, 10],
        ChordQuality::MinorMajor7 => vec![0, 3, 7, 11],
        ChordQuality::Nine => vec![0, 4, 7, 10, 2],
        ChordQuality::Minor9 => vec![0, 3, 7, 10, 2],
        ChordQuality::Add9 => vec![0, 4, 7, 2],
        ChordQuality::MinorAdd9 => vec![0, 3, 7, 2],
        ChordQuality::Eleven => vec![0, 4, 7, 10, 2, 5],
        ChordQuality::Thirteen => vec![0, 4, 7, 10, 2, 5, 9],
    };
    assert(r@ =~= intervals_of(q));
    r
}

/// The part of a symbol before the first `/`, and the part after it if there is one.
pub open spec fn split_slash(s: Seq<char>) -> (Seq<char>, Option<Seq<char>>) {
    let k = find_from(s, '/', 0);
    if k < s.len() {
        (s.subrange(0, k), Some(s.subrange(k + 1, s.len() as int)))
    } else {
        (s, None)
    }
}

/// A chord's root (a letter `A`..`G` and an optional `#` or `b`) and the suffix after it.
pub open spec fn split_root(main: Seq<char>) -> Option<(Seq<char>, Seq<char>)> {
    if main.len() == 0 || !(65 <= (main[0] as u32) <= 71) {
        None
    } else if main.len() >= 2 && (main[1] == '#' || main[1] == 'b') {
        Some((main.subrange(0, 2), main.subrange(2, main.len() as int)))
    } else {
        Some((main.subrange(0, 1), main.subrange(1, main.len() as int)))
    }
}

/// The error for a symbol the harmony library does not know.
pub open spec fn unsupported_error(s: Seq<char>) -> ErrorView {
    ErrorView::Validation("unsupported chord symbol '"@ + s + "'"@)
}

/// What `resolve` gives for a symbol.
pub open spec fn resolve_spec(s: Seq<char>) -> Result<HarmonyView, ErrorView> {
    let (main, bass) = split_slash(s);
    match split_root(main) {
        None => Err(unsupported_error(s)),
        Some((root, suffix)) => match (pitch_class_of(root), quality_of(suffix)) {
            (Some(pc), Some(q)) => match bass {
                None => Ok(
                    HarmonyView {
                        symbol: s,
                        root,
                        root_pc: pc,
                        quality: q,
                        intervals: intervals_of(q),
                        bass: None,
                    },
                ),
                Some(b) => match pitch_class_of(b) {
                    Some(bpc) => Ok(
                        HarmonyView {
                            symbol: s,
                            root,
                            root_pc: pc,
                            quality: q,
                            intervals: intervals_of(q),
                            bass: Some((b, bpc)),
                        },
                    ),
                    None => Err(unsupported_error(s)),
                },
            },
            _ => Err(unsupported_error(s)),
        },
    }
}

/// The symbol written as a root, a quality suffix and, where there is one, `/` and a bass note.
pub open spec fn symbol_text(root: Seq<char>, suffix: Seq<char>, bass: Option<Seq<char>>) -> Seq<char> {
    root + suffix + match bass {
        Some(b) => seq!['/'] + b,
        None => seq![],
    }
}

/// A root spelling, a quality suffix without `/`, and a bass spelling where there is one.
pub open spec fn symbol_parts_ok(root: Seq<char>, suffix: Seq<char>, bass: Option<Seq<char>>) -> bool {
    &&& pitch_class_of(root) is Some
    &&& quality_of(suffix) is Some
    &&& !has_char(suffix, '/')
    &&& bass matches Some(b) ==> pitch_class_of(b) is Some
}

/// The harmony that such parts name.
pub open spec fn harmony_of(root: Seq<char>, suffix: Seq<char>, bass: Option<Seq<char>>) -> HarmonyView {
    let q = quality_of(suffix)->Some_0;
    HarmonyView {
        symbol: symbol_text(root, suffix, bass),
        root,
        root_pc: pitch_class_of(root)->Some_0,
        quality: q,
        intervals: intervals_of(q),
        bass: match bass {
            Some(b) => Some((b, pitch_class_of(b)->Some_0)),
            None => None,
        },
    }
}

proof fn lemma_suffix_start(x: Seq<char>)
    requires
        quality_of(x) is Some,
    ensures
        x.len() > 0 ==> x[0] != '#' && x[0] != 'b',
{
}

/// A symbol made of a root spelling, a quality suffix and an optional `/` bass
/// spelling resolves to exactly the harmony those parts name.
pub proof fn lemma_resolve_parts(root: Seq<char>, suffix: Seq<char>, bass: Option<Seq<char>>)
    requires
        symbol_parts_ok(root, suffix, bass),
    ensures
        resolve_spec(symbol_text(root, suffix, bass)) == Ok::<HarmonyView, ErrorView>(
            harmony_of(root, suffix, bass),
        ),
{
    let s = symbol_text(root, suffix, bass);
    let main = root + suffix;
    lemma_suffix_start(suffix);
    lemma_find_from(suffix, '/', 0);
    lemma_find_from(s, '/', 0);
    assert(root.len() == 1 || root.len() == 2);
    assert forall|k: int| 0 <= k < main.len() implies main[k] != '/' by {
        if k >= root.len() {
            assert(main[k] == suffix[k - root.len()]);
        }
    }
    let f = find_from(s, '/', 0);
    assert forall|k: int| 0 <= k < main.len() implies s[k] != '/' by {
        assert(s[k] == main[k]);
    }
    match bass {
        Some(b) => {
            assert(s[main.len() as int] == '/');
            assert(f == main.len());
            assert(s.subrange(0, f) =~= main);
            assert(s.subrange(f + 1, s.len() as int) =~= b);
        },
        None => {
            assert(s =~= main);
            assert(f == s.len());
        },
    }
    assert(65 <= (main[0] as u32) <= 71);
    if root.len() == 2 {
        assert(main[1] == root[1]);
        assert(main.subrange(0, 2) =~= root);
        assert(main.subrange(2, main.len() as int) =~= suffix);
    } else if main.len() >= 2 {
        assert(main[1] == suffix[0]);
        assert(main.subrange(0, 1) =~= root);
        assert(main.subrange(1, main.len() as int) =~= suffix);
    } else {
        assert(main.subrange(0, 1) =~= root);
        assert(main.subrange(1, main.len() as int) =~= suffix);
    }
}

/// A symbol that resolves is a root spelling, a quality suffix and an optional
/// `/` bass spelling.
pub proof fn lemma_resolve_form(s: Seq<char>)
    requires
        resolve_spec(s) is Ok,
    ensures
        exists|root: Seq<char>, suffix: Seq<char>, bass: Option<Seq<char>>|
            symbol_parts_ok(root, suffix, bass) && #[trigger] symbol_text(root, suffix, bass) == s,
{
    let (main, bass) = split_slash(s);
    let k = find_from(s, '/', 0);
    lemma_find_from(s, '/', 0);
    let (root, suffix) = split_root(main)->Some_0;
    if main.len() >= 2 && (main[1] == '#' || main[1] == 'b') {
        assert(main =~= root + suffix);
    } else {
        assert(main =~= root + suffix);
    }
    assert forall|j: int| 0 <= j < suffix.len() implies suffix[j] != '/' by {
        assert(suffix[j] == main[j + root.len()]);
        assert(main[j + root.len()] == s[j + root.len()]);
    }
    lemma_find_from(suffix, '/', 0);
    assert(!has_char(suffix, '/'));
    match bass {
        Some(b) => {
            assert(s =~= main + (seq!['/'] + b));
        },
        None => {
            assert(s =~= main);
        },
    }
    assert(symbol_text(root, suffix, bass) == s);
    assert(symbol_parts_ok(root, suffix, bass));
}

/// A symbol that resolves keeps itself as the harmony's symbol, its root's
/// pitch class, and intervals that start at the root; a symbol that does not
/// resolve is refused with an `unsupported chord symbol` error.
pub proof fn lemma_resolve_outcome(s: Seq<char>)
    ensures
        resolve_spec(s) matches Ok(h) ==> h.symbol == s && pitch_class_of(h.root) == Some(h.root_pc)
            && h.intervals == intervals_of(h.quality) && h.intervals.len() > 0 && h.intervals[0] == 0,
        resolve_spec(s) is Err ==> resolve_spec(s) == Err::<HarmonyView, ErrorView>(unsupported_error(s)),
{
}

fn unsupported(s: &[char]) -> (e: AppError)
    ensures
        e@ == unsupported_error(s@),
{
    let mut m = String::new();
    push_str(&mut m, "unsupported chord symbol '");
    push_chars(&mut m, s);
    push_str(&mut m, "'");
    AppError::Validation(m)
}

/// Resolves a chord symbol given as characters.
pub fn resolve_chars(s: &[char]) -> (r: Result<ChordHarmony, AppError>)
    ensures
        match r {
            Ok(h) => resolve_spec(s@) == Ok::<HarmonyView, ErrorView>(h@),
            Err(e) => resolve_spec(s@) == Err::<HarmonyView, ErrorView>(e@),
        },
{
    let k = find_char(s, '/', 0);
    proof {
        lemma_find_from(s@, '/', 0);
    }
    let main = copy_range(s, 0, k);
    let bass: Option<Vec<char>> = if k < s.len() {
        Some(copy_range(s, k + 1, s.len()))
    } else {
        assert(main@ =~= s@);
        None
    };
    if main.len() == 0 {
        return Err(unsupported(s));
    }
    let first = main[0];
    if !('A' <= first && first <= 'G') {
        return Err(unsupported(s));
    }
    let end: usize = if main.len() >= 2 && (main[1] == '#' || main[1] == 'b') {
        2
    } else {
        1
    };
    let root = copy_range(&main, 0, end);
    let suffix = copy_range(&main, end, main.len());
    let pc = match pitch_class_chars(&root) {
        Some(p) => p,
        None => {
            return Err(unsupported(s));
        },
    };
    let quality = match parse_quality(&suffix) {
        Some(q) => q,
        None => {
            return Err(unsupported(s));
        },
    };
    let bass_note = match bass {
        None => None,
        Some(b) => match pitch_class_chars(&b) {
            Some(bpc) => Some(BassNote { name: string_of(&b), pc: bpc }),
            None => {
                return Err(unsupported(s));
            },
        },
    };
    let h = ChordHarmony {
        symbol: string_of(s),
        root: string_of(&root),
        root_pc: pc,
        quality,
        intervals: intervals_for_quality(quality),
        bass: bass_note,
    };
    Ok(h)
}

/// Resolves a chord symbol such as `C`, `F#m7` or `D/F#` to its harmony.
pub fn resolve(symbol: &str) -> (r: Result<ChordHarmony, AppError>)
    ensures
        match r {
            Ok(h) => resolve_spec(symbol@) == Ok::<HarmonyView, ErrorView>(h@),
            Err(e) => resolve_spec(symbol@) == Err::<HarmonyView, ErrorView>(e@),
        },
{
    let v = chars_of(symbol);
    resolve_chars(&v)
}

} // verus!
