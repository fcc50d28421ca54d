//! Guitar voicings: fret shapes per chord, the built-in `folk` and `rock`
//! sets, custom voicing files, and checking a shape against a chord's harmony.
use vstd::prelude::*;

use crate::error::{line_msg, line_prefix, AppError, ErrorView};
use crate::harmony::{
    harmony_of, lemma_resolve_parts, resolve_spec, symbol_parts_ok, symbol_text, ChordHarmony,
    ChordQuality, HarmonyView,
};
use crate::text::{push_chars, push_decimal, push_str};

verus! {

/// One guitar shape for a chord: a fret (or a muted string) for each string,
/// from low E to high E.
#[derive(Debug, Clone, PartialEq, Eq)]
pub struct Voicing {
    pub chord: String,
    pub id: String,
    pub frets: [Option<u8>; 6],
    pub priority: i16,
}

pub struct VoicingView {
    pub chord: Seq<char>,
    pub id: Seq<char>,
    pub frets: Seq<Option<u8>>,
    pub priority: i16,
}

impl View for Voicing {
    type V = VoicingView;

    open spec fn view(&self) -> VoicingView {
        VoicingView { chord: self.chord@, id: self.id@, frets: self.frets@, priority: self.priority }
    }
}

/// A fret whose note on string `i` fits in a byte.
pub open spec fn fret_fits(i: int, f: Option<u8>) -> bool {
    match f {
        Some(x) => base_note(i) + x <= 255,
        None => true,
    }
}

/// Frets whose notes all fit in a byte, as rendering a voicing needs.
pub open spec fn frets_in_range(frets: Seq<Option<u8>>) -> bool {
    forall|i: int| 0 <= i < frets.len() ==> fret_fits(i, #[trigger] frets[i])
}

/// Frets whose shape characters (`'0'` plus the fret) fit in a byte.
pub open spec fn frets_showable(frets: Seq<Option<u8>>) -> bool {
    forall|i: int| 0 <= i < frets.len() ==> match #[trigger] frets[i] {
        Some(x) => x <= 207,
        None => true,
    }
}

/// Frets no higher than `max`.
pub open spec fn frets_at_most(frets: Seq<Option<u8>>, max: nat) -> bool {
    forall|i: int| 0 <= i < frets.len() ==> match #[trigger] frets[i] {
        Some(x) => x <= max,
        None => true,
    }
}

/// Frets up to 24 fit every string and every shape character.
pub proof fn lemma_low_frets_fit(frets: Seq<Option<u8>>)
    requires
        frets_at_most(frets, 24),
    ensures
        frets_in_range(frets),
        frets_showable(frets),
{
    assert forall|i: int| 0 <= i < frets.len() implies fret_fits(i, #[trigger] frets[i]) by {
        assert(base_note(i) <= 64);
    }
}

/// The open-string notes of standard tuning: E2 A2 D3 G3 B3 E4.
pub open spec fn base_note(i: int) -> u8 {
    if i == 0 {
        40
    } else if i == 1 {
        45
    } else if i == 2 {
        50
    } else if i == 3 {
        55
    } else if i == 4 {
        59
    } else {
        64
    }
}

pub open spec fn string_name_of(i: int) -> Seq<char> {
    if i == 0 {
        "E"@
    } else if i == 1 {
        "A"@
    } else if i == 2 {
        "D"@
    } else if i == 3 {
        "G"@
    } else if i == 4 {
        "B"@
    } else {
        "high-E"@
    }
}

fn base_note_exec(i: usize) -> (n: u8)
    requires
        i < 6,
    ensures
        n == base_note(i as int),
{
    if i == 0 {
        40
    } else if i == 1 {
        45
    } else if i == 2 {
        50
    } else if i == 3 {
        55
    } else if i == 4 {
        59
    } else {
        64
    }
}

fn string_name(i: usize) -> (s: &'static str)
    requires
        i < 6,
    ensures
        s@ == string_name_of(i as int),
{
    if i == 0 {
        "E"
    } else if i == 1 {
        "A"
    } else if i == 2 {
        "D"
    } else if i == 3 {
        "G"
    } else if i == 4 {
        "B"
    } else {
        "high-E"
    }
}

/// A sounding string of a voicing and its MIDI note.
#[derive(Debug, Clone, PartialEq, Eq)]
pub struct StringNote {
    pub string_index: usize,
    pub string_name: &'static str,
    pub midi_note: u8,
}

pub struct StringNoteView {
    pub string_index: usize,
    pub string_name: Seq<char>,
    pub midi_note: u8,
}

impl View for StringNote {
    type V = StringNoteView;

    open spec fn view(&self) -> StringNoteView {
        StringNoteView {
            string_index: self.string_index,
            string_name: self.string_name@,
            midi_note: self.midi_note,
        }
    }
}

pub open spec fn note_views(s: Seq<StringNote>) -> Seq<StringNoteView> {
    s.map_values(|n: StringNote| n@)
}

/// A voicing checked against a chord, with its sounding notes.
#[derive(Debug, Clone, PartialEq, Eq)]
pub struct RenderedVoicing {
    pub voicing: Voicing,
    pub notes: Vec<StringNote>,
}

/// The sounding strings from string `i` up: muted strings are skipped.
pub open spec fn sounding_from(frets: Seq<Option<u8>>, i: int) -> Seq<StringNoteView>
    decreases 6 - i,
{
    if i < 0 || i >= 6 {
        seq![]
    } else {
        match frets[i] {
            Some(f) => seq![
                StringNoteView {
                    string_index: i as usize,
                    string_name: string_name_of(i),
                    midi_note: (base_note(i) + f) as u8,
                },
            ] + sounding_from(frets, i + 1),
            None => sounding_from(frets, i + 1),
        }
    }
}

/// The notes a voicing sounds, from low E to high E.
pub open spec fn sounding(v: VoicingView) -> Seq<StringNoteView> {
    sounding_from(v.frets, 0)
}

/// What holds of the notes sounded from string `i` up: each is a string at or
/// above `i` that is fretted, its note the open string's note plus the fret;
/// they come from low to high; and every fretted string from `i` up is there.
pub open spec fn sounding_shape(frets: Seq<Option<u8>>, i: int, ns: Seq<StringNoteView>) -> bool {
    &&& forall|k: int| 0 <= k < ns.len() ==> {
        let j = (#[trigger] ns[k]).string_index as int;
        &&& i <= j < 6
        &&& frets[j] is Some
        &&& ns[k].midi_note == base_note(j) + frets[j]->Some_0
        &&& ns[k].string_name == string_name_of(j)
    }
    &&& forall|a: int, b: int| 0 <= a < b < ns.len() ==> #[trigger] ns[a].string_index < #[trigger] ns[b].string_index
    &&& forall|j: int| i <= j < 6 && #[trigger] frets[j] is Some ==> exists|k: int| 0 <= k < ns.len() && ns[k].string_index == j
}

proof fn lemma_sounding_from(frets: Seq<Option<u8>>, i: int)
    requires
        0 <= i <= 6,
        frets.len() == 6,
        frets_in_range(frets),
    ensures
        sounding_shape(frets, i, sounding_from(frets, i)),
    decreases 6 - i,
{
    if i < 6 {
        lemma_sounding_from(frets, i + 1);
        let rest = sounding_from(frets, i + 1);
        let ns = sounding_from(frets, i);
        match frets[i] {
            Some(f) => {
                assert(fret_fits(i, frets[i]));
                let first = StringNoteView {
                    string_index: i as usize,
                    string_name: string_name_of(i),
                    midi_note: (base_note(i) + f) as u8,
                };
                assert(ns == seq![first] + rest);
                assert forall|k: int| 0 <= k < ns.len() implies {
                    let j = (#[trigger] ns[k]).string_index as int;
                    &&& i <= j < 6
                    &&& frets[j] is Some
                    &&& ns[k].midi_note == base_note(j) + frets[j]->Some_0
                    &&& ns[k].string_name == string_name_of(j)
                } by {
                    if k > 0 {
                        assert(ns[k] == rest[k - 1]);
                    }
                }
                assert forall|a: int, b: int| 0 <= a < b < ns.len() implies #[trigger] ns[a].string_index
                    < #[trigger] ns[b].string_index by {
                    assert(ns[b] == rest[b - 1]);
                    if a > 0 {
                        assert(ns[a] == rest[a - 1]);
                    }
                }
                assert forall|j: int| i <= j < 6 && #[trigger] frets[j] is Some implies exists|k: int|
                    0 <= k < ns.len() && ns[k].string_index == j by {
                    if j == i {
                        assert(ns[0].string_index == j);
                    } else {
                        let k = choose|k: int| 0 <= k < rest.len() && rest[k].string_index == j;
                        assert(ns[k + 1] == rest[k]);
                    }
                }
            },
            None => {
                assert(ns == rest);
            },
        }
    } else {
        assert(sounding_from(frets, i) =~= seq![]);
    }
}

/// The notes of a voicing whose frets fit are its fretted strings from low E to
/// high E, muted strings skipped, each the open string's note plus its fret.
pub proof fn lemma_sounding_strings(v: VoicingView)
    requires
        v.frets.len() == 6,
        frets_in_range(v.frets),
    ensures
        sounding_shape(v.frets, 0, sounding(v)),
{
    lemma_sounding_from(v.frets, 0);
}

/// The notes a voicing sounds, from the lowest string to the highest.
pub fn rendered_notes(voicing: &Voicing) -> (r: Vec<StringNote>)
    requires
        frets_in_range(voicing.frets@),
    ensures
        note_views(r@) == sounding(voicing@),
{
    let mut r: Vec<StringNote> = Vec::new();
    let mut i: usize = 0;
    while i < 6
        invariant
            i <= 6,
            voicing.frets@.len() == 6,
            frets_in_range(voicing.frets@),
            note_views(r@) + sounding_from(voicing.frets@, i as int) == sounding(voicing@),
        decreases 6 - i,
    {
        let ghost prev = r@;
        match voicing.frets[i] {
            Some(fret) => {
                assert(fret_fits(i as int, voicing.frets@[i as int]));
                let note = StringNote {
                    string_index: i,
                    string_name: string_name(i),
                    midi_note: base_note_exec(i) + fret,
                };
                r.push(note);
                assert(note_views(r@) =~= note_views(prev).push(note@));
                assert(note_views(r@) + sounding_from(voicing.frets@, i + 1) =~= note_views(prev)
                    + sounding_from(voicing.frets@, i as int));
            },
            None => {},
        }
        i = i + 1;
    }
    assert(sounding_from(voicing.frets@, 6) =~= seq![]);
    assert(note_views(r@) =~= note_views(r@) + sounding_from(voicing.frets@, 6));
    r
}

// ---------------------------------------------------------------------
// Shapes
// ---------------------------------------------------------------------

/// A shape character: `x` for a muted string, or a fret from 0 to 9.
pub open spec fn fret_char_ok(c: char) -> bool {
    c == 'x' || (48 <= (c as u32) <= 57)
}

pub open spec fn fret_of(c: char) -> Option<u8> {
    if c == 'x' {
        None
    } else {
        Some(((c as u32) - 48) as u8)
    }
}

/// The frets a six-character shape such as `x32010` names.
pub open spec fn shape_frets(s: Seq<char>) -> Seq<Option<u8>> {
    seq![fret_of(s[0]), fret_of(s[1]), fret_of(s[2]), fret_of(s[3]), fret_of(s[4]), fret_of(s[5])]
}

/// The first shape character that is not `x` or a digit, from index `i` on.
pub open spec fn bad_fret_char(s: Seq<char>, i: int) -> Option<char>
    decreases s.len() - i,
{
    if i < 0 || i >= s.len() {
        None
    } else if !fret_char_ok(s[i]) {
        Some(s[i])
    } else {
        bad_fret_char(s, i + 1)
    }
}

/// What `Voicing::new` gives.
pub open spec fn new_voicing(chord: Seq<char>, id: Seq<char>, shape: Seq<char>, priority: i16) -> Result<VoicingView, ErrorView> {
    if shape.len() != 6 {
        Err(ErrorView::Validation("voicing '"@ + shape + "' must contain 6 string values"@))
    } else {
        match bad_fret_char(shape, 0) {
            Some(c) => Err(ErrorView::Validation("unsupported fret value '"@ + seq![c] + "'"@)),
            None => Ok(VoicingView { chord, id, frets: shape_frets(shape), priority }),
        }
    }
}

fn fret_exec(c: char) -> (f: Option<u8>)
    requires
        fret_char_ok(c),
    ensures
        f == fret_of(c),
        match f {
            Some(x) => x <= 9,
            None => true,
        },
{
    if c == 'x' {
        None
    } else {
        Some(((c as u32) - 48) as u8)
    }
}

fn frets_of_shape(s: &[char]) -> (frets: [Option<u8>; 6])
    requires
        s@.len() == 6,
        bad_fret_char(s@, 0).is_none(),
    ensures
        frets@ == shape_frets(s@),
        frets_at_most(frets@, 24),
        frets_in_range(frets@),
        frets_showable(frets@),
{
    proof {
        lemma_no_bad_fret(s@, 0);
    }
    let frets = [fret_exec(s[0]), fret_exec(s[1]), fret_exec(s[2]), fret_exec(s[3]), fret_exec(s[4]), fret_exec(s[5])];
    assert(frets@ =~= shape_frets(s@));
    proof {
        lemma_low_frets_fit(frets@);
    }
    frets
}

proof fn lemma_no_bad_fret(s: Seq<char>, i: int)
    requires
        0 <= i <= s.len(),
        bad_fret_char(s, i).is_none(),
    ensures
        forall|k: int| i <= k < s.len() ==> fret_char_ok(#[trigger] s[k]),
    decreases s.len() - i,
{
    if i < s.len() {
        lemma_no_bad_fret(s, i + 1);
    }
}

/// The shape character of a fret: `x`, or the character `'0' + fret`.
pub open spec fn shape_char(f: Option<u8>) -> char {
    match f {
        Some(x) => ((48 + x) as u8) as char,
        None => 'x',
    }
}

impl Voicing {
    /// A voicing from a six-character shape such as `x32010`.
    pub fn new(chord: &str, id: &str, shape: &str, priority: i16) -> (r: Result<Self, AppError>)
        ensures
            match r {
                Ok(v) => new_voicing(chord@, id@, shape@, priority) == Ok::<VoicingView, ErrorView>(v@)
                    && frets_in_range(v.frets@) && frets_showable(v.frets@),
                Err(e) => new_voicing(chord@, id@, shape@, priority) == Err::<VoicingView, ErrorView>(e@),
            },
    {
        let s = crate::text::chars_of(shape);
        if s.len() != 6 {
            let mut m = String::new();
            push_str(&mut m, "voicing '");
            push_str(&mut m, shape);
            push_str(&mut m, "' must contain 6 string values");
            return Err(AppError::Validation(m));
        }
        let mut i: usize = 0;
        while i < 6
            invariant
                i <= 6,
                s@.len() == 6,
                s@ == shape@,
                bad_fret_char(s@, 0) == bad_fret_char(s@, i as int),
            decreases 6 - i,
        {
            let c = s[i];
            let u = c as u32;
            if !(c == 'x' || (48 <= u && u <= 57)) {
                let mut m = String::new();
                push_str(&mut m, "unsupported fret value '");
                push_chars(&mut m, &[c]);
                push_str(&mut m, "'");
                assert(m@ =~= "unsupported fret value '"@ + seq![c] + "'"@);
                return Err(AppError::Validation(m));
            }
            i = i + 1;
        }
        let frets = frets_of_shape(&s);
        Ok(Voicing { chord: chord.to_owned(), id: id.to_owned(), frets, priority })
    }

    /// The voicing's compact shape, such as `x32010`.
    pub fn shape(&self) -> (s: String)
        requires
            frets_showable(self.frets@),
        ensures
            s@ == self.frets@.map_values(|f: Option<u8>| shape_char(f)),
    {
        let mut s = String::new();
        let mut i: usize = 0;
        while i < 6
            invariant
                i <= 6,
                self.frets@.len() == 6,
                frets_showable(self.frets@),
                s@ == self.frets@.subrange(0, i as int).map_values(|f: Option<u8>| shape_char(f)),
            decreases 6 - i,
        {
            let c = match self.frets[i] {
                Some(fret) => {
                    assert(match self.frets@[i as int] {
                        Some(x) => x <= 207,
                        None => true,
                    });
                    ((48 + fret) as u8) as char
                },
                None => 'x',
            };
            crate::text::push_char(&mut s, c);
            assert(s@ =~= self.frets@.subrange(0, i + 1).map_values(|f: Option<u8>| shape_char(f)));
            i = i + 1;
        }
        assert(self.frets@.subrange(0, 6) =~= self.frets@);
        s
    }
}

// ---------------------------------------------------------------------
// Checking a voicing against a chord
// ---------------------------------------------------------------------

/// Harmony values whose pitch-class sums stay within a byte.
pub open spec fn harmony_in_range(h: HarmonyView) -> bool {
    &&& h.quality == ChordQuality::Power ==> h.root_pc as int + 4 <= 255
    &&& forall|k: int| 0 <= k < h.intervals.len() ==> h.root_pc as int + #[trigger] h.intervals[k] <= 255
}

/// The pitch classes of the chord tones.
pub open spec fn chord_tones(h: HarmonyView) -> Seq<u8> {
    h.intervals.map_values(|x: u8| ((h.root_pc + x) % 12) as u8)
}

/// The pitch classes that a voicing sounds.
pub open spec fn sounding_pcs(notes: Seq<StringNoteView>) -> Seq<u8> {
    notes.map_values(|n: StringNoteView| (n.midi_note % 12) as u8)
}

/// What `validate_voicing` decides: the voicing sounds at least one string,
/// every chord tone, no third in a power chord, no tone outside the chord,
/// and the slash bass as its lowest note.
pub open spec fn check_voicing(h: HarmonyView, v: VoicingView) -> Result<Seq<StringNoteView>, ErrorView> {
    let notes = sounding(v);
    let pcs = sounding_pcs(notes);
    let allowed = chord_tones(h);
    if notes.len() == 0 {
        Err(ErrorView::Validation("voicing has no sounding strings"@))
    } else if exists|k: int| 0 <= k < allowed.len() && !pcs.contains(#[trigger] allowed[k]) {
        Err(ErrorView::Validation("voicing for '"@ + h.symbol + "' is missing required chord tone"@))
    } else if h.quality == ChordQuality::Power && (pcs.contains(((h.root_pc + 4) % 12) as u8)
        || pcs.contains(((h.root_pc + 3) % 12) as u8)) {
        Err(ErrorView::Validation("power chord voicing must not contain a third"@))
    } else if exists|k: int| 0 <= k < pcs.len() && !allowed.contains(#[trigger] pcs[k]) {
        Err(ErrorView::Validation("voicing for '"@ + h.symbol + "' contains a non-chord tone"@))
    } else {
        match h.bass {
            Some((name, pc)) => if notes[0].midi_note % 12 != pc {
                Err(
                    ErrorView::Validation(
                        "slash chord '"@ + h.symbol + "' expected "@ + name
                            + " as the lowest sounding note"@,
                    ),
                )
            } else {
                Ok(notes)
            },
            None => Ok(notes),
        }
    }
}

fn contains_u8(v: &Vec<u8>, x: u8) -> (r: bool)
    ensures
        r == v@.contains(x),
{
    let mut i: usize = 0;
    while i < v.len()
        invariant
            i <= v.len(),
            forall|k: int| 0 <= k < i ==> v@[k] != x,
        decreases v.len() - i,
    {
        if v[i] == x {
            assert(v@[i as int] == x);
            return true;
        }
        i = i + 1;
    }
    false
}

fn symbol_message(before: &str, symbol: &String, after: &str) -> (e: AppError)
    ensures
        e@ == ErrorView::Validation(before@ + symbol@ + after@),
{
    let mut m = String::new();
    push_str(&mut m, before);
    m.append(symbol.as_str());
    push_str(&mut m, after);
    AppError::Validation(m)
}

/// Checks a voicing against a chord's harmony and returns its sounding notes.
pub fn validate_voicing(harmony: &ChordHarmony, voicing: &Voicing) -> (r: Result<Vec<StringNote>, AppError>)
    requires
        harmony_in_range(harmony@),
        frets_in_range(voicing.frets@),
    ensures
        match r {
            Ok(notes) => check_voicing(harmony@, voicing@) == Ok::<Seq<StringNoteView>, ErrorView>(note_views(notes@)),
            Err(e) => check_voicing(harmony@, voicing@) == Err::<Seq<StringNoteView>, ErrorView>(e@),
        },
{
    let notes = rendered_notes(voicing);
    let ghost nv = note_views(notes@);
    if notes.len() == 0 {
        let mut m = String::new();
        push_str(&mut m, "voicing has no sounding strings");
        return Err(AppError::Validation(m));
    }
    let mut pcs: Vec<u8> = Vec::new();
    let mut i: usize = 0;
    while i < notes.len()
        invariant
            i <= notes.len(),
            nv == note_views(notes@),
            pcs@ == sounding_pcs(nv.subrange(0, i as int)),
        decreases notes.len() - i,
    {
        pcs.push(notes[i].midi_note % 12);
        assert(pcs@ =~= sounding_pcs(nv.subrange(0, i + 1)));
        i = i + 1;
    }
    assert(nv.subrange(0, i as int) =~= nv);
    let ghost h = harmony@;
    let mut allowed: Vec<u8> = Vec::new();
    let mut i: usize = 0;
    while i < harmony.intervals.len()
        invariant
            i <= harmony.intervals.len(),
            h == harmony@,
            harmony_in_range(h),
            allowed@ == chord_tones(h).subrange(0, i as int),
        decreases harmony.intervals.len() - i,
    {
        assert(h.root_pc as int + h.intervals[i as int] <= 255);
        allowed.push((harmony.root_pc + harmony.intervals[i]) % 12);
        assert(allowed@ =~= chord_tones(h).subrange(0, i + 1));
        i = i + 1;
    }
    assert(chord_tones(h).subrange(0, i as int) =~= chord_tones(h));
    let mut i: usize = 0;
    while i < allowed.len()
        invariant
            i <= allowed.len(),
            forall|k: int| 0 <= k < i ==> pcs@.contains(#[trigger] allowed@[k]),
            pcs@ == sounding_pcs(nv),
            allowed@ == chord_tones(h),
            nv == sounding(voicing@),
            h == harmony@,
            nv.len() > 0,
        decreases allowed.len() - i,
    {
        if !contains_u8(&pcs, allowed[i]) {
            assert(!sounding_pcs(nv).contains(chord_tones(h)[i as int]));
            return Err(symbol_message("voicing for '", &harmony.symbol, "' is missing required chord tone"));
        }
        i = i + 1;
    }
    if harmony.quality == ChordQuality::Power {
        let major_third = (harmony.root_pc + 4) % 12;
        let minor_third = (harmony.root_pc + 3) % 12;
        if contains_u8(&pcs, major_third) || contains_u8(&pcs, minor_third) {
            let mut m = String::new();
            push_str(&mut m, "power chord voicing must not contain a third");
            return Err(AppError::Validation(m));
        }
    }
    let mut i: usize = 0;
    while i < pcs.len()
        invariant
            i <= pcs.len(),
            forall|k: int| 0 <= k < i ==> allowed@.contains(#[trigger] pcs@[k]),
            pcs@ == sounding_pcs(nv),
            allowed@ == chord_tones(h),
            nv == sounding(voicing@),
            h == harmony@,
            nv.len() > 0,
            forall|k: int| 0 <= k < allowed@.len() ==> pcs@.contains(#[trigger] allowed@[k]),
            !(h.quality == ChordQuality::Power && (pcs@.contains(((h.root_pc + 4) % 12) as u8)
                || pcs@.contains(((h.root_pc + 3) % 12) as u8))),
        decreases pcs.len() - i,
    {
        if !contains_u8(&allowed, pcs[i]) {
            assert(!chord_tones(h).contains(sounding_pcs(nv)[i as int]));
            return Err(symbol_message("voicing for '", &harmony.symbol, "' contains a non-chord tone"));
        }
        i = i + 1;
    }
    match &harmony.bass {
        Some(bass) => {
            let lowest = notes[0].midi_note % 12;
            assert(nv[0] == notes@[0]@);
            if lowest != bass.pc {
                let mut m = String::new();
                push_str(&mut m, "slash chord '");
                m.append(harmony.symbol.as_str());
                push_str(&mut m, "' expected ");
                m.append(bass.name.as_str());
                push_str(&mut m, " as the lowest sounding note");
                return Err(AppError::Validation(m));
            }
        },
        None => {},
    }
    Ok(notes)
}


// ---------------------------------------------------------------------
// Voicing libraries
// ---------------------------------------------------------------------

/// A collection of voicings, each filed under its chord name.
#[derive(Debug, Clone, PartialEq, Eq)]
pub struct VoicingLibrary {
    voicings: Vec<Voicing>,
}

pub open spec fn voicing_views(s: Seq<Voicing>) -> Seq<VoicingView> {
    s.map_values(|v: Voicing| v@)
}

pub open spec fn all_in_range(s: Seq<VoicingView>) -> bool {
    forall|i: int| 0 <= i < s.len() ==> frets_in_range(#[trigger] s[i].frets)
}

impl View for VoicingLibrary {
    type V = Seq<VoicingView>;

    /// Every voicing, in the order it was added.
    closed spec fn view(&self) -> Seq<VoicingView> {
        voicing_views(self.voicings@)
    }
}

impl VoicingLibrary {
    /// Every voicing's frets are in range.
    pub open spec fn wf(&self) -> bool {
        all_in_range(self@)
    }

    /// An empty library.
    pub fn empty() -> (l: Self)
        ensures
            l@ == Seq::<VoicingView>::empty(),
            l.wf(),
    {
        let l = VoicingLibrary { voicings: Vec::new() };
        assert(l@ =~= Seq::<VoicingView>::empty());
        l
    }

    /// Adds a voicing under its chord name, after the ones already there.
    pub fn insert(&mut self, voicing: Voicing)
        ensures
            final(self)@ == old(self)@.push(voicing@),
            old(self).wf() && frets_in_range(voicing.frets@) ==> final(self).wf(),
    {
        let ghost prev = self.voicings@;
        self.voicings.push(voicing);
        assert(voicing_views(self.voicings@) =~= voicing_views(prev).push(voicing@));
    }

    /// Adds every voicing of `other`, keeping their order.
    pub fn merge(&mut self, other: Self)
        ensures
            final(self)@ == old(self)@ + other@,
            old(self).wf() && other.wf() ==> final(self).wf(),
    {
        let mut i: usize = 0;
        let ghost start = self@;
        let ghost fits = self.wf() && other.wf();
        while i < other.voicings.len()
            invariant
                i <= other.voicings.len(),
                fits ==> other.wf() && self.wf(),
                self@ == start + other@.subrange(0, i as int),
            decreases other.voicings.len() - i,
        {
            let v = copy_voicing(&other.voicings[i]);
            assert(other@[i as int] == other.voicings@[i as int]@);
            self.insert(v);
            assert(other@.subrange(0, i + 1) =~= other@.subrange(0, i as int).push(other@[i as int]));
            i = i + 1;
        }
        assert(other@.subrange(0, i as int) =~= other@);
    }

    /// A copy of this library.
    pub fn duplicate(&self) -> (l: Self)
        ensures
            l@ == self@,
            self.wf() ==> l.wf(),
    {
        let mut l = Self::empty();
        let mut i: usize = 0;
        while i < self.voicings.len()
            invariant
                i <= self.voicings.len(),
                self.wf() ==> l.wf(),
                l@ == self@.subrange(0, i as int),
            decreases self.voicings.len() - i,
        {
            let v = copy_voicing(&self.voicings[i]);
            assert(self@[i as int] == self.voicings@[i as int]@);
            l.insert(v);
            assert(self@.subrange(0, i + 1) =~= self@.subrange(0, i as int).push(self@[i as int]));
            i = i + 1;
        }
        assert(self@.subrange(0, i as int) =~= self@);
        l
    }
}

impl Default for VoicingLibrary {
    fn default() -> (l: Self)
        ensures
            l@ == Seq::<VoicingView>::empty(),
    {
        Self::empty()
    }
}

fn copy_voicing(v: &Voicing) -> (r: Voicing)
    ensures
        r@ == v@,
{
    Voicing { chord: v.chord.clone(), id: v.id.clone(), frets: v.frets, priority: v.priority }
}

/// Six shape characters, each `x` or a digit.
pub open spec fn shape_ok(s: Seq<char>) -> bool {
    &&& s.len() == 6
    &&& fret_char_ok(s[0])
    &&& fret_char_ok(s[1])
    &&& fret_char_ok(s[2])
    &&& fret_char_ok(s[3])
    &&& fret_char_ok(s[4])
    &&& fret_char_ok(s[5])
}

/// The voicing that a chord name, id, shape and priority describe.
pub open spec fn entry(chord: Seq<char>, id: Seq<char>, shape: Seq<char>, priority: i16) -> VoicingView {
    VoicingView { chord, id, frets: shape_frets(shape), priority }
}

fn make_voicing(chord: String, id: &str, shape: &[char], priority: i16) -> (v: Voicing)
    requires
        shape_ok(shape@),
    ensures
        v@ == entry(chord@, id@, shape@, priority),
        frets_in_range(v.frets@),
{
    let frets = [fret_exec(shape[0]), fret_exec(shape[1]), fret_exec(shape[2]), fret_exec(shape[3]), fret_exec(shape[4]), fret_exec(shape[5])];
    assert(frets@ =~= shape_frets(shape@));
    Voicing { chord, id: id.to_owned(), frets, priority }
}

/// The five folk shapes of one root: major, minor, dominant seventh, major
/// seventh and minor seventh.
pub open spec fn root_voicings(
    root: Seq<char>,
    major: Seq<char>,
    minor: Seq<char>,
    dominant7: Seq<char>,
    major7: Seq<char>,
    minor7: Seq<char>,
) -> Seq<VoicingView> {
    seq![
        entry(root, "folk-major"@, major, 100),
        entry(root.push('m'), "folk-minor"@, minor, 100),
        entry(root.push('7'), "folk-dominant7"@, dominant7, 100),
        entry(root + "maj7"@, "folk-major7"@, major7, 90),
        entry(root.push('m').push('7'), "folk-minor7"@, minor7, 90),
    ]
}

/// The name of a root: its letter, then its accidental if it has one.
pub open spec fn root_name(letter: char, accidental: Option<char>) -> Seq<char> {
    match accidental {
        Some(a) => seq![letter, a],
        None => seq![letter],
    }
}

fn root_string(letter: char, accidental: Option<char>) -> (s: String)
    ensures
        s@ == root_name(letter, accidental),
{
    let mut s = String::new();
    crate::text::push_char(&mut s, letter);
    if let Some(a) = accidental {
        crate::text::push_char(&mut s, a);
    }
    assert(s@ =~= root_name(letter, accidental));
    s
}

fn add_root(
    library: &mut VoicingLibrary,
    letter: char,
    accidental: Option<char>,
    major: &[char],
    minor: &[char],
    dominant7: &[char],
    major7: &[char],
    minor7: &[char],
)
    requires
        old(library).wf(),
        shape_ok(major@),
        shape_ok(minor@),
        shape_ok(dominant7@),
        shape_ok(major7@),
        shape_ok(minor7@),
    ensures
        final(library).wf(),
        final(library)@ == old(library)@ + root_voicings(
            root_name(letter, accidental),
            major@,
            minor@,
            dominant7@,
            major7@,
            minor7@,
        ),
{
    let ghost root = root_name(letter, accidental);
    let root_s = root_string(letter, accidental);
    let mut minor_s = root_string(letter, accidental);
    crate::text::push_char(&mut minor_s, 'm');
    let mut seventh_s = root_string(letter, accidental);
    crate::text::push_char(&mut seventh_s, '7');
    let mut major7_s = root_string(letter, accidental);
    push_str(&mut major7_s, "maj7");
    let mut minor7_s = root_string(letter, accidental);
    crate::text::push_char(&mut minor7_s, 'm');
    crate::text::push_char(&mut minor7_s, '7');
    library.insert(make_voicing(root_s, "folk-major", major, 100));
    library.insert(make_voicing(minor_s, "folk-minor", minor, 100));
    library.insert(make_voicing(seventh_s, "folk-dominant7", dominant7, 100));
    library.insert(make_voicing(major7_s, "folk-major7", major7, 90));
    library.insert(make_voicing(minor7_s, "folk-minor7", minor7, 90));
    assert(library@ =~= old(library)@ + root_voicings(root, major@, minor@, dominant7@, major7@, minor7@));
}

/// The built-in `folk` set: open-position shapes for major, minor and seventh
/// chords on every natural, sharp and flat root, and a `C/E` slash chord.
pub open spec fn folk_voicings() -> Seq<VoicingView> {
    (root_voicings(seq!['C'], seq!['x', '3', '2', '0', '1', '0'], seq!['x', '3', '5', '5', '4', '3'], seq!['x', '3', '2', '3', '1', '3'], seq!['x', '3', '2', '0', '0', '0'], seq!['x', '3', '5', '3', '4', '3'])
        + root_voicings(seq!['B', '#'], seq!['x', '3', '2', '0', '1', '0'], seq!['x', '3', '5', '5', '4', '3'], seq!['x', '3', '2', '3', '1', '3'], seq!['x', '3', '2', '0', '0', '0'], seq!['x', '3', '5', '3', '4', '3'])
        + root_voicings(seq!['C', '#'], seq!['x', '4', '6', '6', '6', '4'], seq!['x', '4', '6', '6', '5', '4'], seq!['x', '4', '6', '4', '6', '4'], seq!['x', '4', '6', '5', '6', '4'], seq!['x', '4', '6', '4', '5', '4'])
        + root_voicings(seq!['D', 'b'], seq!['x', '4', '6', '6', '6', '4'], seq!['x', '4', '6', '6', '5', '4'], seq!['x', '4', '6', '4', '6', '4'], seq!['x', '4', '6', '5', '6', '4'], seq!['x', '4', '6', '4', '5', '4'])
        + root_voicings(seq!['D'], seq!['x', 'x', '0', '2', '3', '2'], seq!['x', 'x', '0', '2', '3', '1'], seq!['x', 'x', '0', '2', '1', '2'], seq!['x', 'x', '0', '2', '2', '2'], seq!['x', 'x', '0', '2', '1', '1'])
        + root_voicings(seq!['D', '#'], seq!['x', '6', '8', '8', '8', '6'], seq!['x', '6', '8', '8', '7', '6'], seq!['x', '6', '8', '6', '8', '6'], seq!['x', '6', '8', '7', '8', '6'], seq!['x', '6', '8', '6', '7', '6'])
        + root_voicings(seq!['E', 'b'], seq!['x', '6', '8', '8', '8', '6'], seq!['x', '6', '8', '8', '7', '6'], seq!['x', '6', '8', '6', '8', '6'], seq!['x', '6', '8', '7', '8', '6'], seq!['x', '6', '8', '6', '7', '6'])
        + root_voicings(seq!['E'], seq!['0', '2', '2', '1', '0', '0'], seq!['0', '2', '2', '0', '0', '0'], seq!['0', '2', '0', '1', '0', '0'], seq!['0', '2', '1', '1', '0', '0'], seq!['0', '2', '2', '0', '3', '0'])
        + root_voicings(seq!['F', 'b'], seq!['0', '2', '2', '1', '0', '0'], seq!['0', '2', '2', '0', '0', '0'], seq!['0', '2', '0', '1', '0', '0'], seq!['0', '2', '1', '1', '0', '0'], seq!['0', '2', '2', '0', '3', '0'])
        + root_voicings(seq!['F'], seq!['1', '3', '3', '2', '1', '1'], seq!['1', '3', '3', '1', '1', '1'], seq!['1', '3', '1', '2', '1', '1'], seq!['1', '3', '3', '2', '1', '0'], seq!['1', '3', '1', '1', '1', '1'])
        + root_voicings(seq!['E', '#'], seq!['1', '3', '3', '2', '1', '1'], seq!['1', '3', '3', '1', '1', '1'], seq!['1', '3', '1', '2', '1', '1'], seq!['1', '3', '3', '2', '1', '0'], seq!['1', '3', '1', '1', '1', '1'])
        + root_voicings(seq!['F', '#'], seq!['2', '4', '4', '3', '2', '2'], seq!['2', '4', '4', '2', '2', '2'], seq!['2', '4', '2', '3', '2', '2'], seq!['2', '4', '3', '3', '2', '2'], seq!['2', '4', '2', '2', '2', '2'])
        + root_voicings(seq!['G', 'b'], seq!['2', '4', '4', '3', '2', '2'], seq!['2', '4', '4', '2', '2', '2'], seq!['2', '4', '2', '3', '2', '2'], seq!['2', '4', '3', '3', '2', '2'], seq!['2', '4', '2', '2', '2', '2'])
        + root_voicings(seq!['G'], seq!['3', '2', '0', '0', '0', '3'], seq!['3', '5', '5', '3', '3', '3'], seq!['3', '2', '0', '0', '0', '1'], seq!['3', '2', '0', '0', '0', '2'], seq!['3', '5', '3', '3', '3', '3'])
        + root_voicings(seq!['G', '#'], seq!['4', '6', '6', '5', '4', '4'], seq!['4', '6', '6', '4', '4', '4'], seq!['4', '6', '4', '5', '4', '4'], seq!['4', '6', '5', '5', '4', '4'], seq!['4', '6', '4', '4', '4', '4'])
        + root_voicings(seq!['A', 'b'], seq!['4', '6', '6', '5', '4', '4'], seq!['4', '6', '6', '4', '4', '4'], seq!['4', '6', '4', '5', '4', '4'], seq!['4', '6', '5', '5', '4', '4'], seq!['4', '6', '4', '4', '4', '4'])
        + root_voicings(seq!['A'], seq!['x', '0', '2', '2', '2', '0'], seq!['x', '0', '2', '2', '1', '0'], seq!['x', '0', '2', '0', '2', '0'], seq!['x', '0', '2', '1', '2', '0'], seq!['x', '0', '2', '0', '1', '0'])
        + root_voicings(seq!['A', '#'], seq!['x', '1', '3', '3', '3', '1'], seq!['x', '1', '3', '3', '2', '1'], seq!['x', '1', '3', '1', '3', '1'], seq!['x', '1', '3', '2', '3', '1'], seq!['x', '1', '3', '1', '2', '1'])
        + root_voicings(seq!['B', 'b'], seq!['x', '1', '3', '3', '3', '1'], seq!['x', '1', '3', '3', '2', '1'], seq!['x', '1', '3', '1', '3', '1'], seq!['x', '1', '3', '2', '3', '1'], seq!['x', '1', '3', '1', '2', '1'])
        + root_voicings(seq!['B'], seq!['x', '2', '4', '4', '4', '2'], seq!['x', '2', '4', '4', '3', '2'], seq!['x', '2', '1', '2', '0', '2'], seq!['x', '2', '4', '3', '4', '2'], seq!['x', '2', '0', '2', '0', '2'])
        + root_voicings(seq!['C', 'b'], seq!['x', '2', '4', '4', '4', '2'], seq!['x', '2', '4', '4', '3', '2'], seq!['x', '2', '1', '2', '0', '2'], seq!['x', '2', '4', '3', '4', '2'], seq!['x', '2', '0', '2', '0', '2'])).push(entry(seq!['C', '/', 'E'], "folk-slash"@, seq!['0', '3', '2', '0', '1', '0'], 100))
}

/// The built-in `rock` set: power chords and barre shapes.
pub open spec fn rock_voicings() -> Seq<VoicingView> {
    seq![
        entry(seq!['C', '5'], "rock"@, seq!['x', '3', '5', '5', 'x', 'x'], 100),
        entry(seq!['D', '5'], "rock"@, seq!['x', '5', '7', '7', 'x', 'x'], 100),
        entry(seq!['E', '5'], "rock"@, seq!['0', '2', '2', 'x', 'x', 'x'], 100),
        entry(seq!['G', '5'], "rock"@, seq!['3', '5', '5', 'x', 'x', 'x'], 100),
        entry(seq!['A', '5'], "rock"@, seq!['5', '7', '7', 'x', 'x', 'x'], 100),
        entry(seq!['C'], "rock"@, seq!['x', '3', '5', '5', '5', 'x'], 100),
        entry(seq!['C', 'm'], "rock"@, seq!['x', '3', '5', '5', '4', 'x'], 100),
    ]
}

fn folk_library() -> (l: VoicingLibrary)
    ensures
        l@ == folk_voicings(),
        l.wf(),
{
    let mut l = VoicingLibrary::empty();
    let s1_0: &[char] = &['x', '3', '2', '0', '1', '0'];
    assert(s1_0@ == seq!['x', '3', '2', '0', '1', '0']);
    let s1_1: &[char] = &['x', '3', '5', '5', '4', '3'];
    assert(s1_1@ == seq!['x', '3', '5', '5', '4', '3']);
    let s1_2: &[char] = &['x', '3', '2', '3', '1', '3'];
    assert(s1_2@ == seq!['x', '3', '2', '3', '1', '3']);
    let s1_3: &[char] = &['x', '3', '2', '0', '0', '0'];
    assert(s1_3@ == seq!['x', '3', '2', '0', '0', '0']);
    let s1_4: &[char] = &['x', '3', '5', '3', '4', '3'];
    assert(s1_4@ == seq!['x', '3', '5', '3', '4', '3']);
    add_root(&mut l, 'C', None, s1_0, s1_1, s1_2, s1_3, s1_4);
    add_root(&mut l, 'B', Some('#'), s1_0, s1_1, s1_2, s1_3, s1_4);
    let s2_0: &[char] = &['x', '4', '6', '6', '6', '4'];
    assert(s2_0@ == seq!['x', '4', '6', '6', '6', '4']);
    let s2_1: &[char] = &['x', '4', '6', '6', '5', '4'];
    assert(s2_1@ == seq!['x', '4', '6', '6', '5', '4']);
    let s2_2: &[char] = &['x', '4', '6', '4', '6', '4'];
    assert(s2_2@ == seq!['x', '4', '6', '4', '6', '4']);
    let s2_3: &[char] = &['x', '4', '6', '5', '6', '4'];
    assert(s2_3@ == seq!['x', '4', '6', '5', '6', '4']);
    let s2_4: &[char] = &['x', '4', '6', '4', '5', '4'];
    assert(s2_4@ == seq!['x', '4', '6', '4', '5', '4']);
    add_root(&mut l, 'C', Some('#'), s2_0, s2_1, s2_2, s2_3, s2_4);
    add_root(&mut l, 'D', Some('b'), s2_0, s2_1, s2_2, s2_3, s2_4);
    let s3_0: &[char] = &['x', 'x', '0', '2', '3', '2'];
    assert(s3_0@ == seq!['x', 'x', '0', '2', '3', '2']);
    let s3_1: &[char] = &['x', 'x', '0', '2', '3', '1'];
    assert(s3_1@ == seq!['x', 'x', '0', '2', '3', '1']);
    let s3_2: &[char] = &['x', 'x', '0', '2', '1', '2'];
    assert(s3_2@ == seq!['x', 'x', '0', '2', '1', '2']);
    let s3_3: &[char] = &['x', 'x', '0', '2', '2', '2'];
    assert(s3_3@ == seq!['x', 'x', '0', '2', '2', '2']);
    let s3_4: &[char] = &['x', 'x', '0', '2', '1', '1'];
    assert(s3_4@ == seq!['x', 'x', '0', '2', '1', '1']);
    add_root(&mut l, 'D', None, s3_0, s3_1, s3_2, s3_3, s3_4);
    let s4_0: &[char] = &['x', '6', '8', '8', '8', '6'];
    assert(s4_0@ == seq!['x', '6', '8', '8', '8', '6']);
    let s4_1: &[char] = &['x', '6', '8', '8', '7', '6'];
    assert(s4_1@ == seq!['x', '6', '8', '8', '7', '6']);
    let s4_2: &[char] = &['x', '6', '8', '6', '8', '6'];
    assert(s4_2@ == seq!['x', '6', '8', '6', '8', '6']);
    let s4_3: &[char] = &['x', '6', '8', '7', '8', '6'];
    assert(s4_3@ == seq!['x', '6', '8', '7', '8', '6']);
    let s4_4: &[char] = &['x', '6', '8', '6', '7', '6'];
    assert(s4_4@ == seq!['x', '6', '8', '6', '7', '6']);
    add_root(&mut l, 'D', Some('#'), s4_0, s4_1, s4_2, s4_3, s4_4);
    add_root(&mut l, 'E', Some('b'), s4_0, s4_1, s4_2, s4_3, s4_4);
    let s5_0: &[char] = &['0', '2', '2', '1', '0', '0'];
    assert(s5_0@ == seq!['0', '2', '2', '1', '0', '0']);
    let s5_1: &[char] = &['0', '2', '2', '0', '0', '0'];
    assert(s5_1@ == seq!['0', '2', '2', '0', '0', '0']);
    let s5_2: &[char] = &['0', '2', '0', '1', '0', '0'];
    assert(s5_2@ == seq!['0', '2', '0', '1', '0', '0']);
    let s5_3: &[char] = &['0', '2', '1', '1', '0', '0'];
    assert(s5_3@ == seq!['0', '2', '1', '1', '0', '0']);
    let s5_4: &[char] = &['0', '2', '2', '0', '3', '0'];
    assert(s5_4@ == seq!['0', '2', '2', '0', '3', '0']);
    add_root(&mut l, 'E', None, s5_0, s5_1, s5_2, s5_3, s5_4);
    add_root(&mut l, 'F', Some('b'), s5_0, s5_1, s5_2, s5_3, s5_4);
    let s6_0: &[char] = &['1', '3', '3', '2', '1', '1'];
    assert(s6_0@ == seq!['1', '3', '3', '2', '1', '1']);
    let s6_1: &[char] = &['1', '3', '3', '1', '1', '1'];
    assert(s6_1@ == seq!['1', '3', '3', '1', '1', '1']);
    let s6_2: &[char] = &['1', '3', '1', '2', '1', '1'];
    assert(s6_2@ == seq!['1', '3', '1', '2', '1', '1']);
    let s6_3: &[char] = &['1', '3', '3', '2', '1', '0'];
    assert(s6_3@ == seq!['1', '3', '3', '2', '1', '0']);
    let s6_4: &[char] = &['1', '3', '1', '1', '1', '1'];
    assert(s6_4@ == seq!['1', '3', '1', '1', '1', '1']);
    add_root(&mut l, 'F', None, s6_0, s6_1, s6_2, s6_3, s6_4);
    add_root(&mut l, 'E', Some('#'), s6_0, s6_1, s6_2, s6_3, s6_4);
    let s7_0: &[char] = &['2', '4', '4', '3', '2', '2'];
    assert(s7_0@ == seq!['2', '4', '4', '3', '2', '2']);
    let s7_1: &[char] = &['2', '4', '4', '2', '2', '2'];
    assert(s7_1@ == seq!['2', '4', '4', '2', '2', '2']);
    let s7_2: &[char] = &['2', '4', '2', '3', '2', '2'];
    assert(s7_2@ == seq!['2', '4', '2', '3', '2', '2']);
    let s7_3: &[char] = &['2', '4', '3', '3', '2', '2'];
    assert(s7_3@ == seq!['2', '4', '3', '3', '2', '2']);
    let s7_4: &[char] = &['2', '4', '2', '2', '2', '2'];
    assert(s7_4@ == seq!['2', '4', '2', '2', '2', '2']);
    add_root(&mut l, 'F', Some('#'), s7_0, s7_1, s7_2, s7_3, s7_4);
    add_root(&mut l, 'G', Some('b'), s7_0, s7_1, s7_2, s7_3, s7_4);
    let s8_0: &[char] = &['3', '2', '0', '0', '0', '3'];
    assert(s8_0@ == seq!['3', '2', '0', '0', '0', '3']);
    let s8_1: &[char] = &['3', '5', '5', '3', '3', '3'];
    assert(s8_1@ == seq!['3', '5', '5', '3', '3', '3']);
    let s8_2: &[char] = &['3', '2', '0', '0', '0', '1'];
    assert(s8_2@ == seq!['3', '2', '0', '0', '0', '1']);
    let s8_3: &[char] = &['3', '2', '0', '0', '0', '2'];
    assert(s8_3@ == seq!['3', '2', '0', '0', '0', '2']);
    let s8_4: &[char] = &['3', '5', '3', '3', '3', '3'];
    assert(s8_4@ == seq!['3', '5', '3', '3', '3', '3']);
    add_root(&mut l, 'G', None, s8_0, s8_1, s8_2, s8_3, s8_4);
    let s9_0: &[char] = &['4', '6', '6', '5', '4', '4'];
    assert(s9_0@ == seq!['4', '6', '6', '5', '4', '4']);
    let s9_1: &[char] = &['4', '6', '6', '4', '4', '4'];
    assert(s9_1@ == seq!['4', '6', '6', '4', '4', '4']);
    let s9_2: &[char] = &['4', '6', '4', '5', '4', '4'];
    assert(s9_2@ == seq!['4', '6', '4', '5', '4', '4']);
    let s9_3: &[char] = &['4', '6', '5', '5', '4', '4'];
    assert(s9_3@ == seq!['4', '6', '5', '5', '4', '4']);
    let s9_4: &[char] = &['4', '6', '4', '4', '4', '4'];
    assert(s9_4@ == seq!['4', '6', '4', '4', '4', '4']);
    add_root(&mut l, 'G', Some('#'), s9_0, s9_1, s9_2, s9_3, s9_4);
    add_root(&mut l, 'A', Some('b'), s9_0, s9_1, s9_2, s9_3, s9_4);
    let s10_0: &[char] = &['x', '0', '2', '2', '2', '0'];
    assert(s10_0@ == seq!['x', '0', '2', '2', '2', '0']);
    let s10_1: &[char] = &['x', '0', '2', '2', '1', '0'];
    assert(s10_1@ == seq!['x', '0', '2', '2', '1', '0']);
    let s10_2: &[char] = &['x', '0', '2', '0', '2', '0'];
    assert(s10_2@ == seq!['x', '0', '2', '0', '2', '0']);
    let s10_3: &[char] = &['x', '0', '2', '1', '2', '0'];
    assert(s10_3@ == seq!['x', '0', '2', '1', '2', '0']);
    let s10_4: &[char] = &['x', '0', '2', '0', '1', '0'];
    assert(s10_4@ == seq!['x', '0', '2', '0', '1', '0']);
    add_root(&mut l, 'A', None, s10_0, s10_1, s10_2, s10_3, s10_4);
    let s11_0: &[char] = &['x', '1', '3', '3', '3', '1'];
    assert(s11_0@ == seq!['x', '1', '3', '3', '3', '1']);
    let s11_1: &[char] = &['x', '1', '3', '3', '2', '1'];
    assert(s11_1@ == seq!['x', '1', '3', '3', '2', '1']);
    let s11_2: &[char] = &['x', '1', '3', '1', '3', '1'];
    assert(s11_2@ == seq!['x', '1', '3', '1', '3', '1']);
    let s11_3: &[char] = &['x', '1', '3', '2', '3', '1'];
    assert(s11_3@ == seq!['x', '1', '3', '2', '3', '1']);
    let s11_4: &[char] = &['x', '1', '3', '1', '2', '1'];
    assert(s11_4@ == seq!['x', '1', '3', '1', '2', '1']);
    add_root(&mut l, 'A', Some('#'), s11_0, s11_1, s11_2, s11_3, s11_4);
    add_root(&mut l, 'B', Some('b'), s11_0, s11_1, s11_2, s11_3, s11_4);
    let s12_0: &[char] = &['x', '2', '4', '4', '4', '2'];
    assert(s12_0@ == seq!['x', '2', '4', '4', '4', '2']);
    let s12_1: &[char] = &['x', '2', '4', '4', '3', '2'];
    assert(s12_1@ == seq!['x', '2', '4', '4', '3', '2']);
    let s12_2: &[char] = &['x', '2', '1', '2', '0', '2'];
    assert(s12_2@ == seq!['x', '2', '1', '2', '0', '2']);
    let s12_3: &[char] = &['x', '2', '4', '3', '4', '2'];
    assert(s12_3@ == seq!['x', '2', '4', '3', '4', '2']);
    let s12_4: &[char] = &['x', '2', '0', '2', '0', '2'];
    assert(s12_4@ == seq!['x', '2', '0', '2', '0', '2']);
    add_root(&mut l, 'B', None, s12_0, s12_1, s12_2, s12_3, s12_4);
    add_root(&mut l, 'C', Some('b'), s12_0, s12_1, s12_2, s12_3, s12_4);
    let slash: &[char] = &['0', '3', '2', '0', '1', '0'];
    assert(slash@ == seq!['0', '3', '2', '0', '1', '0']);
    let slash_chord: &[char] = &['C', '/', 'E'];
    assert(slash_chord@ == seq!['C', '/', 'E']);
    l.insert(make_voicing(crate::text::string_of(slash_chord), "folk-slash", slash, 100));
    l
}

fn rock_library() -> (l: VoicingLibrary)
    ensures
        l@ == rock_voicings(),
        l.wf(),
{
    let mut l = VoicingLibrary::empty();
    let c: &[char] = &['C', '5'];
    let s: &[char] = &['x', '3', '5', '5', 'x', 'x'];
    assert(c@ == seq!['C', '5']);
    assert(s@ == seq!['x', '3', '5', '5', 'x', 'x']);
    l.insert(make_voicing(crate::text::string_of(c), "rock", s, 100));
    let c: &[char] = &['D', '5'];
    let s: &[char] = &['x', '5', '7', '7', 'x', 'x'];
    assert(c@ == seq!['D', '5']);
    assert(s@ == seq!['x', '5', '7', '7', 'x', 'x']);
    l.insert(make_voicing(crate::text::string_of(c), "rock", s, 100));
    let c: &[char] = &['E', '5'];
    let s: &[char] = &['0', '2', '2', 'x', 'x', 'x'];
    assert(c@ == seq!['E', '5']);
    assert(s@ == seq!['0', '2', '2', 'x', 'x', 'x']);
    l.insert(make_voicing(crate::text::string_of(c), "rock", s, 100));
    let c: &[char] = &['G', '5'];
    let s: &[char] = &['3', '5', '5', 'x', 'x', 'x'];
    assert(c@ == seq!['G', '5']);
    assert(s@ == seq!['3', '5', '5', 'x', 'x', 'x']);
    l.insert(make_voicing(crate::text::string_of(c), "rock", s, 100));
    let c: &[char] = &['A', '5'];
    let s: &[char] = &['5', '7', '7', 'x', 'x', 'x'];
    assert(c@ == seq!['A', '5']);
    assert(s@ == seq!['5', '7', '7', 'x', 'x', 'x']);
    l.insert(make_voicing(crate::text::string_of(c), "rock", s, 100));
    let c: &[char] = &['C'];
    let s: &[char] = &['x', '3', '5', '5', '5', 'x'];
    assert(c@ == seq!['C']);
    assert(s@ == seq!['x', '3', '5', '5', '5', 'x']);
    l.insert(make_voicing(crate::text::string_of(c), "rock", s, 100));
    let c: &[char] = &['C', 'm'];
    let s: &[char] = &['x', '3', '5', '5', '4', 'x'];
    assert(c@ == seq!['C', 'm']);
    assert(s@ == seq!['x', '3', '5', '5', '4', 'x']);
    l.insert(make_voicing(crate::text::string_of(c), "rock", s, 100));
    assert(l@ =~= rock_voicings());
    l
}

// ---------------------------------------------------------------------
// The built-in sets fit their chords
// ---------------------------------------------------------------------

/// Whether the voicing's chord resolves and the voicing passes the check against it.
pub open spec fn voicing_checks(v: VoicingView) -> bool {
    match resolve_spec(v.chord) {
        Ok(h) => check_voicing(h, v) is Ok,
        Err(_) => false,
    }
}

spec fn has_u8(s: Seq<u8>, x: u8) -> bool
    decreases s.len(),
{
    s.len() > 0 && (s[0] == x || has_u8(s.drop_first(), x))
}

spec fn all_u8_in(a: Seq<u8>, b: Seq<u8>) -> bool
    decreases a.len(),
{
    a.len() == 0 || (has_u8(b, a[0]) && all_u8_in(a.drop_first(), b))
}

proof fn lemma_has_u8(s: Seq<u8>, x: u8)
    ensures
        has_u8(s, x) <==> s.contains(x),
    decreases s.len(),
{
    if s.len() > 0 {
        lemma_has_u8(s.drop_first(), x);
        if s.contains(x) && s[0] != x {
            let i = choose|i: int| 0 <= i < s.len() && s[i] == x;
            assert(s.drop_first()[i - 1] == x);
        }
        if s.drop_first().contains(x) {
            let i = choose|i: int| 0 <= i < s.drop_first().len() && s.drop_first()[i] == x;
            assert(s[i + 1] == x);
        }
        if s[0] == x {
            assert(s[0] == x);
        }
    }
}

proof fn lemma_all_u8_in(a: Seq<u8>, b: Seq<u8>)
    ensures
        all_u8_in(a, b) ==> forall|k: int| 0 <= k < a.len() ==> b.contains(#[trigger] a[k]),
    decreases a.len(),
{
    if a.len() > 0 {
        lemma_all_u8_in(a.drop_first(), b);
        lemma_has_u8(b, a[0]);
        if all_u8_in(a, b) {
            assert forall|k: int| 0 <= k < a.len() implies b.contains(#[trigger] a[k]) by {
                if k > 0 {
                    assert(a[k] == a.drop_first()[k - 1]);
                }
            }
        }
    }
}

spec fn passes(h: HarmonyView, v: VoicingView) -> bool {
    let notes = sounding(v);
    let pcs = sounding_pcs(notes);
    let allowed = chord_tones(h);
    &&& notes.len() > 0
    &&& all_u8_in(allowed, pcs)
    &&& !(h.quality == ChordQuality::Power && (has_u8(pcs, ((h.root_pc + 4) % 12) as u8)
        || has_u8(pcs, ((h.root_pc + 3) % 12) as u8)))
    &&& all_u8_in(pcs, allowed)
    &&& match h.bass {
        Some((_, pc)) => notes[0].midi_note % 12 == pc,
        None => true,
    }
}

proof fn lemma_passes_checks(root: Seq<char>, suffix: Seq<char>, bass: Option<Seq<char>>, v: VoicingView)
    requires
        symbol_parts_ok(root, suffix, bass),
        v.chord == symbol_text(root, suffix, bass),
        passes(harmony_of(root, suffix, bass), v),
    ensures
        voicing_checks(v),
{
    let h = harmony_of(root, suffix, bass);
    lemma_resolve_parts(root, suffix, bass);
    let notes = sounding(v);
    let pcs = sounding_pcs(notes);
    let allowed = chord_tones(h);
    lemma_all_u8_in(allowed, pcs);
    lemma_all_u8_in(pcs, allowed);
    lemma_has_u8(pcs, ((h.root_pc + 4) % 12) as u8);
    lemma_has_u8(pcs, ((h.root_pc + 3) % 12) as u8);
}

/// Every voicing of `lib` names a chord that resolves and passes the check against it.
pub open spec fn all_check(lib: Seq<VoicingView>) -> bool {
    forall|i: int| 0 <= i < lib.len() ==> voicing_checks(#[trigger] lib[i])
}

proof fn lemma_all_check_add(a: Seq<VoicingView>, b: Seq<VoicingView>)
    requires
        all_check(a),
        all_check(b),
    ensures
        all_check(a + b),
{
    assert forall|i: int| 0 <= i < (a + b).len() implies voicing_checks(#[trigger] (a + b)[i]) by {
        if i < a.len() {
            assert((a + b)[i] == a[i]);
        } else {
            assert((a + b)[i] == b[i - a.len()]);
        }
    }
}

// Each folk voicing is checked in a lemma of its own, which keeps each proof
// small; the group lemmas then gather five of them.
#[verifier::spinoff_prover]
proof fn lemma_folk_voicing_0_0()
    ensures
        voicing_checks(root_voicings(seq!['C'], seq!['x', '3', '2', '0', '1', '0'], seq!['x', '3', '5', '5', '4', '3'], seq!['x', '3', '2', '3', '1', '3'], seq!['x', '3', '2', '0', '0', '0'], seq!['x', '3', '5', '3', '4', '3'])[0]),
{
    reveal_with_fuel(sounding_from, 7);
    reveal_with_fuel(has_u8, 7);
    reveal_with_fuel(all_u8_in, 7);
    reveal_with_fuel(crate::text::find_from, 5);
    reveal_strlit("maj7");
    let v = root_voicings(seq!['C'], seq!['x', '3', '2', '0', '1', '0'], seq!['x', '3', '5', '5', '4', '3'], seq!['x', '3', '2', '3', '1', '3'], seq!['x', '3', '2', '0', '0', '0'], seq!['x', '3', '5', '3', '4', '3'])[0];
    assert(symbol_text(seq!['C'], seq![], None) =~= v.chord);
    lemma_passes_checks(seq!['C'], seq![], None, v);
}

#[verifier::spinoff_prover]
proof fn lemma_folk_voicing_0_1()
    ensures
        voicing_checks(root_voicings(seq!['C'], seq!['x', '3', '2', '0', '1', '0'], seq!['x', '3', '5', '5', '4', '3'], seq!['x', '3', '2', '3', '1', '3'], seq!['x', '3', '2', '0', '0', '0'], seq!['x', '3', '5', '3', '4', '3'])[1]),
{
    reveal_with_fuel(sounding_from, 7);
    reveal_with_fuel(has_u8, 7);
    reveal_with_fuel(all_u8_in, 7);
    reveal_with_fuel(crate::text::find_from, 5);
    reveal_strlit("maj7");
    let v = root_voicings(seq!['C'], seq!['x', '3', '2', '0', '1', '0'], seq!['x', '3', '5', '5', '4', '3'], seq!['x', '3', '2', '3', '1', '3'], seq!['x', '3', '2', '0', '0', '0'], seq!['x', '3', '5', '3', '4', '3'])[1];
    assert(symbol_text(seq!['C'], seq!['m'], None) =~= v.chord);
    lemma_passes_checks(seq!['C'], seq!['m'], None, v);
}

#[verifier::spinoff_prover]
proof fn lemma_folk_voicing_0_2()
    ensures
        voicing_checks(root_voicings(seq!['C'], seq!['x', '3', '2', '0', '1', '0'], seq!['x', '3', '5', '5', '4', '3'], seq!['x', '3', '2', '3', '1', '3'], seq!['x', '3', '2', '0', '0', '0'], seq!['x', '3', '5', '3', '4', '3'])[2]),
{
    reveal_with_fuel(sounding_from, 7);
    reveal_with_fuel(has_u8, 7);
    reveal_with_fuel(all_u8_in, 7);
    reveal_with_fuel(crate::text::find_from, 5);
    reveal_strlit("maj7");
    let v = root_voicings(seq!['C'], seq!['x', '3', '2', '0', '1', '0'], seq!['x', '3', '5', '5', '4', '3'], seq!['x', '3', '2', '3', '1', '3'], seq!['x', '3', '2', '0', '0', '0'], seq!['x', '3', '5', '3', '4', '3'])[2];
    assert(symbol_text(seq!['C'], seq!['7'], None) =~= v.chord);
    lemma_passes_checks(seq!['C'], seq!['7'], None, v);
}

#[verifier::spinoff_prover]
proof fn lemma_folk_voicing_0_3()
    ensures
        voicing_checks(root_voicings(seq!['C'], seq!['x', '3', '2', '0', '1', '0'], seq!['x', '3', '5', '5', '4', '3'], seq!['x', '3', '2', '3', '1', '3'], seq!['x', '3', '2', '0', '0', '0'], seq!['x', '3', '5', '3', '4', '3'])[3]),
{
    reveal_with_fuel(sounding_from, 7);
    reveal_with_fuel(has_u8, 7);
    reveal_with_fuel(all_u8_in, 7);
    reveal_with_fuel(crate::text::find_from, 5);
    reveal_strlit("maj7");
    let v = root_voicings(seq!['C'], seq!['x', '3', '2', '0', '1', '0'], seq!['x', '3', '5', '5', '4', '3'], seq!['x', '3', '2', '3', '1', '3'], seq!['x', '3', '2', '0', '0', '0'], seq!['x', '3', '5', '3', '4', '3'])[3];
    assert(symbol_text(seq!['C'], seq!['m', 'a', 'j', '7'], None) =~= v.chord);
    lemma_passes_checks(seq!['C'], seq!['m', 'a', 'j', '7'], None, v);
}

#[verifier::spinoff_prover]
proof fn lemma_folk_voicing_0_4()
    ensures
        voicing_checks(root_voicings(seq!['C'], seq!['x', '3', '2', '0', '1', '0'], seq!['x', '3', '5', '5', '4', '3'], seq!['x', '3', '2', '3', '1', '3'], seq!['x', '3', '2', '0', '0', '0'], seq!['x', '3', '5', '3', '4', '3'])[4]),
{
    reveal_with_fuel(sounding_from, 7);
    reveal_with_fuel(has_u8, 7);
    reveal_with_fuel(all_u8_in, 7);
    reveal_with_fuel(crate::text::find_from, 5);
    reveal_strlit("maj7");
    let v = root_voicings(seq!['C'], seq!['x', '3', '2', '0', '1', '0'], seq!['x', '3', '5', '5', '4', '3'], seq!['x', '3', '2', '3', '1', '3'], seq!['x', '3', '2', '0', '0', '0'], seq!['x', '3', '5', '3', '4', '3'])[4];
    assert(symbol_text(seq!['C'], seq!['m', '7'], None) =~= v.chord);
    lemma_passes_checks(seq!['C'], seq!['m', '7'], None, v);
}

#[verifier::spinoff_prover]
#[verifier::rlimit(40)]
proof fn lemma_folk_group_0()
    ensures
        all_check(root_voicings(seq!['C'], seq!['x', '3', '2', '0', '1', '0'], seq!['x', '3', '5', '5', '4', '3'], seq!['x', '3', '2', '3', '1', '3'], seq!['x', '3', '2', '0', '0', '0'], seq!['x', '3', '5', '3', '4', '3'])),
{
    lemma_folk_voicing_0_0();
    lemma_folk_voicing_0_1();
    lemma_folk_voicing_0_2();
    lemma_folk_voicing_0_3();
    lemma_folk_voicing_0_4();
}

#[verifier::spinoff_prover]
proof fn lemma_folk_voicing_1_0()
    ensures
        voicing_checks(root_voicings(seq!['B', '#'], seq!['x', '3', '2', '0', '1', '0'], seq!['x', '3', '5', '5', '4', '3'], seq!['x', '3', '2', '3', '1', '3'], seq!['x', '3', '2', '0', '0', '0'], seq!['x', '3', '5', '3', '4', '3'])[0]),
{
    reveal_with_fuel(sounding_from, 7);
    reveal_with_fuel(has_u8, 7);
    reveal_with_fuel(all_u8_in, 7);
    reveal_with_fuel(crate::text::find_from, 5);
    reveal_strlit("maj7");
    let v = root_voicings(seq!['B', '#'], seq!['x', '3', '2', '0', '1', '0'], seq!['x', '3', '5', '5', '4', '3'], seq!['x', '3', '2', '3', '1', '3'], seq!['x', '3', '2', '0', '0', '0'], seq!['x', '3', '5', '3', '4', '3'])[0];
    assert(symbol_text(seq!['B', '#'], seq![], None) =~= v.chord);
    lemma_passes_checks(seq!['B', '#'], seq![], None, v);
}

#[verifier::spinoff_prover]
proof fn lemma_folk_voicing_1_1()
    ensures
        voicing_checks(root_voicings(seq!['B', '#'], seq!['x', '3', '2', '0', '1', '0'], seq!['x', '3', '5', '5', '4', '3'], seq!['x', '3', '2', '3', '1', '3'], seq!['x', '3', '2', '0', '0', '0'], seq!['x', '3', '5', '3', '4', '3'])[1]),
{
    reveal_with_fuel(sounding_from, 7);
    reveal_with_fuel(has_u8, 7);
    reveal_with_fuel(all_u8_in, 7);
    reveal_with_fuel(crate::text::find_from, 5);
    reveal_strlit("maj7");
    let v = root_voicings(seq!['B', '#'], seq!['x', '3', '2', '0', '1', '0'], seq!['x', '3', '5', '5', '4', '3'], seq!['x', '3', '2', '3', '1', '3'], seq!['x', '3', '2', '0', '0', '0'], seq!['x', '3', '5', '3', '4', '3'])[1];
    assert(symbol_text(seq!['B', '#'], seq!['m'], None) =~= v.chord);
    lemma_passes_checks(seq!['B', '#'], seq!['m'], None, v);
}

#[verifier::spinoff_prover]
proof fn lemma_folk_voicing_1_2()
    ensures
        voicing_checks(root_voicings(seq!['B', '#'], seq!['x', '3', '2', '0', '1', '0'], seq!['x', '3', '5', '5', '4', '3'], seq!['x', '3', '2', '3', '1', '3'], seq!['x', '3', '2', '0', '0', '0'], seq!['x', '3', '5', '3', '4', '3'])[2]),
{
    reveal_with_fuel(sounding_from, 7);
    reveal_with_fuel(has_u8, 7);
    reveal_with_fuel(all_u8_in, 7);
    reveal_with_fuel(crate::text::find_from, 5);
    reveal_strlit("maj7");
    let v = root_voicings(seq!['B', '#'], seq!['x', '3', '2', '0', '1', '0'], seq!['x', '3', '5', '5', '4', '3'], seq!['x', '3', '2', '3', '1', '3'], seq!['x', '3', '2', '0', '0', '0'], seq!['x', '3', '5', '3', '4', '3'])[2];
    assert(symbol_text(seq!['B', '#'], seq!['7'], None) =~= v.chord);
    lemma_passes_checks(seq!['B', '#'], seq!['7'], None, v);
}

#[verifier::spinoff_prover]
proof fn lemma_folk_voicing_1_3()
    ensures
        voicing_checks(root_voicings(seq!['B', '#'], seq!['x', '3', '2', '0', '1', '0'], seq!['x', '3', '5', '5', '4', '3'], seq!['x', '3', '2', '3', '1', '3'], seq!['x', '3', '2', '0', '0', '0'], seq!['x', '3', '5', '3', '4', '3'])[3]),
{
    reveal_with_fuel(sounding_from, 7);
    reveal_with_fuel(has_u8, 7);
    reveal_with_fuel(all_u8_in, 7);
    reveal_with_fuel(crate::text::find_from, 5);
    reveal_strlit("maj7");
    let v = root_voicings(seq!['B', '#'], seq!['x', '3', '2', '0', '1', '0'], seq!['x', '3', '5', '5', '4', '3'], seq!['x', '3', '2', '3', '1', '3'], seq!['x', '3', '2', '0', '0', '0'], seq!['x', '3', '5', '3', '4', '3'])[3];
    assert(symbol_text(seq!['B', '#'], seq!['m', 'a', 'j', '7'], None) =~= v.chord);
    lemma_passes_checks(seq!['B', '#'], seq!['m', 'a', 'j', '7'], None, v);
}

#[verifier::spinoff_prover]
proof fn lemma_folk_voicing_1_4()
    ensures
        voicing_checks(root_voicings(seq!['B', '#'], seq!['x', '3', '2', '0', '1', '0'], seq!['x', '3', '5', '5', '4', '3'], seq!['x', '3', '2', '3', '1', '3'], seq!['x', '3', '2', '0', '0', '0'], seq!['x', '3', '5', '3', '4', '3'])[4]),
{
    reveal_with_fuel(sounding_from, 7);
    reveal_with_fuel(has_u8, 7);
    reveal_with_fuel(all_u8_in, 7);
    reveal_with_fuel(crate::text::find_from, 5);
    reveal_strlit("maj7");
    let v = root_voicings(seq!['B', '#'], seq!['x', '3', '2', '0', '1', '0'], seq!['x', '3', '5', '5', '4', '3'], seq!['x', '3', '2', '3', '1', '3'], seq!['x', '3', '2', '0', '0', '0'], seq!['x', '3', '5', '3', '4', '3'])[4];
    assert(symbol_text(seq!['B', '#'], seq!['m', '7'], None) =~= v.chord);
    lemma_passes_checks(seq!['B', '#'], seq!['m', '7'], None, v);
}

#[verifier::spinoff_prover]
#[verifier::rlimit(40)]
proof fn lemma_folk_group_1()
    ensures
        all_check(root_voicings(seq!['B', '#'], seq!['x', '3', '2', '0', '1', '0'], seq!['x', '3', '5', '5', '4', '3'], seq!['x', '3', '2', '3', '1', '3'], seq!['x', '3', '2', '0', '0', '0'], seq!['x', '3', '5', '3', '4', '3'])),
{
    lemma_folk_voicing_1_0();
    lemma_folk_voicing_1_1();
    lemma_folk_voicing_1_2();
    lemma_folk_voicing_1_3();
    lemma_folk_voicing_1_4();
}

#[verifier::spinoff_prover]
proof fn lemma_folk_voicing_2_0()
    ensures
        voicing_checks(root_voicings(seq!['C', '#'], seq!['x', '4', '6', '6', '6', '4'], seq!['x', '4', '6', '6', '5', '4'], seq!['x', '4', '6', '4', '6', '4'], seq!['x', '4', '6', '5', '6', '4'], seq!['x', '4', '6', '4', '5', '4'])[0]),
{
    reveal_with_fuel(sounding_from, 7);
    reveal_with_fuel(has_u8, 7);
    reveal_with_fuel(all_u8_in, 7);
    reveal_with_fuel(crate::text::find_from, 5);
    reveal_strlit("maj7");
    let v = root_voicings(seq!['C', '#'], seq!['x', '4', '6', '6', '6', '4'], seq!['x', '4', '6', '6', '5', '4'], seq!['x', '4', '6', '4', '6', '4'], seq!['x', '4', '6', '5', '6', '4'], seq!['x', '4', '6', '4', '5', '4'])[0];
    assert(symbol_text(seq!['C', '#'], seq![], None) =~= v.chord);
    lemma_passes_checks(seq!['C', '#'], seq![], None, v);
}

#[verifier::spinoff_prover]
proof fn lemma_folk_voicing_2_1()
    ensures
        voicing_checks(root_voicings(seq!['C', '#'], seq!['x', '4', '6', '6', '6', '4'], seq!['x', '4', '6', '6', '5', '4'], seq!['x', '4', '6', '4', '6', '4'], seq!['x', '4', '6', '5', '6', '4'], seq!['x', '4', '6', '4', '5', '4'])[1]),
{
    reveal_with_fuel(sounding_from, 7);
    reveal_with_fuel(has_u8, 7);
    reveal_with_fuel(all_u8_in, 7);
    reveal_with_fuel(crate::text::find_from, 5);
    reveal_strlit("maj7");
    let v = root_voicings(seq!['C', '#'], seq!['x', '4', '6', '6', '6', '4'], seq!['x', '4', '6', '6', '5', '4'], seq!['x', '4', '6', '4', '6', '4'], seq!['x', '4', '6', '5', '6', '4'], seq!['x', '4', '6', '4', '5', '4'])[1];
    assert(symbol_text(seq!['C', '#'], seq!['m'], None) =~= v.chord);
    lemma_passes_checks(seq!['C', '#'], seq!['m'], None, v);
}

#[verifier::spinoff_prover]
proof fn lemma_folk_voicing_2_2()
    ensures
        voicing_checks(root_voicings(seq!['C', '#'], seq!['x', '4', '6', '6', '6', '4'], seq!['x', '4', '6', '6', '5', '4'], seq!['x', '4', '6', '4', '6', '4'], seq!['x', '4', '6', '5', '6', '4'], seq!['x', '4', '6', '4', '5', '4'])[2]),
{
    reveal_with_fuel(sounding_from, 7);
    reveal_with_fuel(has_u8, 7);
    reveal_with_fuel(all_u8_in, 7);
    reveal_with_fuel(crate::text::find_from, 5);
    reveal_strlit("maj7");
    let v = root_voicings(seq!['C', '#'], seq!['x', '4', '6', '6', '6', '4'], seq!['x', '4', '6', '6', '5', '4'], seq!['x', '4', '6', '4', '6', '4'], seq!['x', '4', '6', '5', '6', '4'], seq!['x', '4', '6', '4', '5', '4'])[2];
    assert(symbol_text(seq!['C', '#'], seq!['7'], None) =~= v.chord);
    lemma_passes_checks(seq!['C', '#'], seq!['7'], None, v);
}

#[verifier::spinoff_prover]
proof fn lemma_folk_voicing_2_3()
    ensures
        voicing_checks(root_voicings(seq!['C', '#'], seq!['x', '4', '6', '6', '6', '4'], seq!['x', '4', '6', '6', '5', '4'], seq!['x', '4', '6', '4', '6', '4'], seq!['x', '4', '6', '5', '6', '4'], seq!['x', '4', '6', '4', '5', '4'])[3]),
{
    reveal_with_fuel(sounding_from, 7);
    reveal_with_fuel(has_u8, 7);
    reveal_with_fuel(all_u8_in, 7);
    reveal_with_fuel(crate::text::find_from, 5);
    reveal_strlit("maj7");
    let v = root_voicings(seq!['C', '#'], seq!['x', '4', '6', '6', '6', '4'], seq!['x', '4', '6', '6', '5', '4'], seq!['x', '4', '6', '4', '6', '4'], seq!['x', '4', '6', '5', '6', '4'], seq!['x', '4', '6', '4', '5', '4'])[3];
    assert(symbol_text(seq!['C', '#'], seq!['m', 'a', 'j', '7'], None) =~= v.chord);
    lemma_passes_checks(seq!['C', '#'], seq!['m', 'a', 'j', '7'], None, v);
}

#[verifier::spinoff_prover]
proof fn lemma_folk_voicing_2_4()
    ensures
        voicing_checks(root_voicings(seq!['C', '#'], seq!['x', '4', '6', '6', '6', '4'], seq!['x', '4', '6', '6', '5', '4'], seq!['x', '4', '6', '4', '6', '4'], seq!['x', '4', '6', '5', '6', '4'], seq!['x', '4', '6', '4', '5', '4'])[4]),
{
    reveal_with_fuel(sounding_from, 7);
    reveal_with_fuel(has_u8, 7);
    reveal_with_fuel(all_u8_in, 7);
    reveal_with_fuel(crate::text::find_from, 5);
    reveal_strlit("maj7");
    let v = root_voicings(seq!['C', '#'], seq!['x', '4', '6', '6', '6', '4'], seq!['x', '4', '6', '6', '5', '4'], seq!['x', '4', '6', '4', '6', '4'], seq!['x', '4', '6', '5', '6', '4'], seq!['x', '4', '6', '4', '5', '4'])[4];
    assert(symbol_text(seq!['C', '#'], seq!['m', '7'], None) =~= v.chord);
    lemma_passes_checks(seq!['C', '#'], seq!['m', '7'], None, v);
}

#[verifier::spinoff_prover]
#[verifier::rlimit(40)]
proof fn lemma_folk_group_2()
    ensures
        all_check(root_voicings(seq!['C', '#'], seq!['x', '4', '6', '6', '6', '4'], seq!['x', '4', '6', '6', '5', '4'], seq!['x', '4', '6', '4', '6', '4'], seq!['x', '4', '6', '5', '6', '4'], seq!['x', '4', '6', '4', '5', '4'])),
{
    lemma_folk_voicing_2_0();
    lemma_folk_voicing_2_1();
    lemma_folk_voicing_2_2();
    lemma_folk_voicing_2_3();
    lemma_folk_voicing_2_4();
}

#[verifier::spinoff_prover]
proof fn lemma_folk_voicing_3_0()
    ensures
        voicing_checks(root_voicings(seq!['D', 'b'], seq!['x', '4', '6', '6', '6', '4'], seq!['x', '4', '6', '6', '5', '4'], seq!['x', '4', '6', '4', '6', '4'], seq!['x', '4', '6', '5', '6', '4'], seq!['x', '4', '6', '4', '5', '4'])[0]),
{
    reveal_with_fuel(sounding_from, 7);
    reveal_with_fuel(has_u8, 7);
    reveal_with_fuel(all_u8_in, 7);
    reveal_with_fuel(crate::text::find_from, 5);
    reveal_strlit("maj7");
    let v = root_voicings(seq!['D', 'b'], seq!['x', '4', '6', '6', '6', '4'], seq!['x', '4', '6', '6', '5', '4'], seq!['x', '4', '6', '4', '6', '4'], seq!['x', '4', '6', '5', '6', '4'], seq!['x', '4', '6', '4', '5', '4'])[0];
    assert(symbol_text(seq!['D', 'b'], seq![], None) =~= v.chord);
    lemma_passes_checks(seq!['D', 'b'], seq![], None, v);
}

#[verifier::spinoff_prover]
proof fn lemma_folk_voicing_3_1()
    ensures
        voicing_checks(root_voicings(seq!['D', 'b'], seq!['x', '4', '6', '6', '6', '4'], seq!['x', '4', '6', '6', '5', '4'], seq!['x', '4', '6', '4', '6', '4'], seq!['x', '4', '6', '5', '6', '4'], seq!['x', '4', '6', '4', '5', '4'])[1]),
{
    reveal_with_fuel(sounding_from, 7);
    reveal_with_fuel(has_u8, 7);
    reveal_with_fuel(all_u8_in, 7);
    reveal_with_fuel(crate::text::find_from, 5);
    reveal_strlit("maj7");
    let v = root_voicings(seq!['D', 'b'], seq!['x', '4', '6', '6', '6', '4'], seq!['x', '4', '6', '6', '5', '4'], seq!['x', '4', '6', '4', '6', '4'], seq!['x', '4', '6', '5', '6', '4'], seq!['x', '4', '6', '4', '5', '4'])[1];
    assert(symbol_text(seq!['D', 'b'], seq!['m'], None) =~= v.chord);
    lemma_passes_checks(seq!['D', 'b'], seq!['m'], None, v);
}

#[verifier::spinoff_prover]
proof fn lemma_folk_voicing_3_2()
    ensures
        voicing_checks(root_voicings(seq!['D', 'b'], seq!['x', '4', '6', '6', '6', '4'], seq!['x', '4', '6', '6', '5', '4'], seq!['x', '4', '6', '4', '6', '4'], seq!['x', '4', '6', '5', '6', '4'], seq!['x', '4', '6', '4', '5', '4'])[2]),
{
    reveal_with_fuel(sounding_from, 7);
    reveal_with_fuel(has_u8, 7);
    reveal_with_fuel(all_u8_in, 7);
    reveal_with_fuel(crate::text::find_from, 5);
    reveal_strlit("maj7");
    let v = root_voicings(seq!['D', 'b'], seq!['x', '4', '6', '6', '6', '4'], seq!['x', '4', '6', '6', '5', '4'], seq!['x', '4', '6', '4', '6', '4'], seq!['x', '4', '6', '5', '6', '4'], seq!['x', '4', '6', '4', '5', '4'])[2];
    assert(symbol_text(seq!['D', 'b'], seq!['7'], None) =~= v.chord);
    lemma_passes_checks(seq!['D', 'b'], seq!['7'], None, v);
}

#[verifier::spinoff_prover]
proof fn lemma_folk_voicing_3_3()
    ensures
        voicing_checks(root_voicings(seq!['D', 'b'], seq!['x', '4', '6', '6', '6', '4'], seq!['x', '4', '6', '6', '5', '4'], seq!['x', '4', '6', '4', '6', '4'], seq!['x', '4', '6', '5', '6', '4'], seq!['x', '4', '6', '4', '5', '4'])[3]),
{
    reveal_with_fuel(sounding_from, 7);
    reveal_with_fuel(has_u8, 7);
    reveal_with_fuel(all_u8_in, 7);
    reveal_with_fuel(crate::text::find_from, 5);
    reveal_strlit("maj7");
    let v = root_voicings(seq!['D', 'b'], seq!['x', '4', '6', '6', '6', '4'], seq!['x', '4', '6', '6', '5', '4'], seq!['x', '4', '6', '4', '6', '4'], seq!['x', '4', '6', '5', '6', '4'], seq!['x', '4', '6', '4', '5', '4'])[3];
    assert(symbol_text(seq!['D', 'b'], seq!['m', 'a', 'j', '7'], None) =~= v.chord);
    lemma_passes_checks(seq!['D', 'b'], seq!['m', 'a', 'j', '7'], None, v);
}

#[verifier::spinoff_prover]
proof fn lemma_folk_voicing_3_4()
    ensures
        voicing_checks(root_voicings(seq!['D', 'b'], seq!['x', '4', '6', '6', '6', '4'], seq!['x', '4', '6', '6', '5', '4'], seq!['x', '4', '6', '4', '6', '4'], seq!['x', '4', '6', '5', '6', '4'], seq!['x', '4', '6', '4', '5', '4'])[4]),
{
    reveal_with_fuel(sounding_from, 7);
    reveal_with_fuel(has_u8, 7);
    reveal_with_fuel(all_u8_in, 7);
    reveal_with_fuel(crate::text::find_from, 5);
    reveal_strlit("maj7");
    let v = root_voicings(seq!['D', 'b'], seq!['x', '4', '6', '6', '6', '4'], seq!['x', '4', '6', '6', '5', '4'], seq!['x', '4', '6', '4', '6', '4'], seq!['x', '4', '6', '5', '6', '4'], seq!['x', '4', '6', '4', '5', '4'])[4];
    assert(symbol_text(seq!['D', 'b'], seq!['m', '7'], None) =~= v.chord);
    lemma_passes_checks(seq!['D', 'b'], seq!['m', '7'], None, v);
}

#[verifier::spinoff_prover]
#[verifier::rlimit(40)]
proof fn lemma_folk_group_3()
    ensures
        all_check(root_voicings(seq!['D', 'b'], seq!['x', '4', '6', '6', '6', '4'], seq!['x', '4', '6', '6', '5', '4'], seq!['x', '4', '6', '4', '6', '4'], seq!['x', '4', '6', '5', '6', '4'], seq!['x', '4', '6', '4', '5', '4'])),
{
    lemma_folk_voicing_3_0();
    lemma_folk_voicing_3_1();
    lemma_folk_voicing_3_2();
    lemma_folk_voicing_3_3();
    lemma_folk_voicing_3_4();
}

#[verifier::spinoff_prover]
proof fn lemma_folk_voicing_4_0()
    ensures
        voicing_checks(root_voicings(seq!['D'], seq!['x', 'x', '0', '2', '3', '2'], seq!['x', 'x', '0', '2', '3', '1'], seq!['x', 'x', '0', '2', '1', '2'], seq!['x', 'x', '0', '2', '2', '2'], seq!['x', 'x', '0', '2', '1', '1'])[0]),
{
    reveal_with_fuel(sounding_from, 7);
    reveal_with_fuel(has_u8, 7);
    reveal_with_fuel(all_u8_in, 7);
    reveal_with_fuel(crate::text::find_from, 5);
    reveal_strlit("maj7");
    let v = root_voicings(seq!['D'], seq!['x', 'x', '0', '2', '3', '2'], seq!['x', 'x', '0', '2', '3', '1'], seq!['x', 'x', '0', '2', '1', '2'], seq!['x', 'x', '0', '2', '2', '2'], seq!['x', 'x', '0', '2', '1', '1'])[0];
    assert(symbol_text(seq!['D'], seq![], None) =~= v.chord);
    lemma_passes_checks(seq!['D'], seq![], None, v);
}

#[verifier::spinoff_prover]
proof fn lemma_folk_voicing_4_1()
    ensures
        voicing_checks(root_voicings(seq!['D'], seq!['x', 'x', '0', '2', '3', '2'], seq!['x', 'x', '0', '2', '3', '1'], seq!['x', 'x', '0', '2', '1', '2'], seq!['x', 'x', '0', '2', '2', '2'], seq!['x', 'x', '0', '2', '1', '1'])[1]),
{
    reveal_with_fuel(sounding_from, 7);
    reveal_with_fuel(has_u8, 7);
    reveal_with_fuel(all_u8_in, 7);
    reveal_with_fuel(crate::text::find_from, 5);
    reveal_strlit("maj7");
    let v = root_voicings(seq!['D'], seq!['x', 'x', '0', '2', '3', '2'], seq!['x', 'x', '0', '2', '3', '1'], seq!['x', 'x', '0', '2', '1', '2'], seq!['x', 'x', '0', '2', '2', '2'], seq!['x', 'x', '0', '2', '1', '1'])[1];
    assert(symbol_text(seq!['D'], seq!['m'], None) =~= v.chord);
    lemma_passes_checks(seq!['D'], seq!['m'], None, v);
}

#[verifier::spinoff_prover]
proof fn lemma_folk_voicing_4_2()
    ensures
        voicing_checks(root_voicings(seq!['D'], seq!['x', 'x', '0', '2', '3', '2'], seq!['x', 'x', '0', '2', '3', '1'], seq!['x', 'x', '0', '2', '1', '2'], seq!['x', 'x', '0', '2', '2', '2'], seq!['x', 'x', '0', '2', '1', '1'])[2]),
{
    reveal_with_fuel(sounding_from, 7);
    reveal_with_fuel(has_u8, 7);
    reveal_with_fuel(all_u8_in, 7);
    reveal_with_fuel(crate::text::find_from, 5);
    reveal_strlit("maj7");
    let v = root_voicings(seq!['D'], seq!['x', 'x', '0', '2', '3', '2'], seq!['x', 'x', '0', '2', '3', '1'], seq!['x', 'x', '0', '2', '1', '2'], seq!['x', 'x', '0', '2', '2', '2'], seq!['x', 'x', '0', '2', '1', '1'])[2];
    assert(symbol_text(seq!['D'], seq!['7'], None) =~= v.chord);
    lemma_passes_checks(seq!['D'], seq!['7'], None, v);
}

#[verifier::spinoff_prover]
proof fn lemma_folk_voicing_4_3()
    ensures
        voicing_checks(root_voicings(seq!['D'], seq!['x', 'x', '0', '2', '3', '2'], seq!['x', 'x', '0', '2', '3', '1'], seq!['x', 'x', '0', '2', '1', '2'], seq!['x', 'x', '0', '2', '2', '2'], seq!['x', 'x', '0', '2', '1', '1'])[3]),
{
    reveal_with_fuel(sounding_from, 7);
    reveal_with_fuel(has_u8, 7);
    reveal_with_fuel(all_u8_in, 7);
    reveal_with_fuel(crate::text::find_from, 5);
    reveal_strlit("maj7");
    let v = root_voicings(seq!['D'], seq!['x', 'x', '0', '2', '3', '2'], seq!['x', 'x', '0', '2', '3', '1'], seq!['x', 'x', '0', '2', '1', '2'], seq!['x', 'x', '0', '2', '2', '2'], seq!['x', 'x', '0', '2', '1', '1'])[3];
    assert(symbol_text(seq!['D'], seq!['m', 'a', 'j', '7'], None) =~= v.chord);
    lemma_passes_checks(seq!['D'], seq!['m', 'a', 'j', '7'], None, v);
}

#[verifier::spinoff_prover]
proof fn lemma_folk_voicing_4_4()
    ensures
        voicing_checks(root_voicings(seq!['D'], seq!['x', 'x', '0', '2', '3', '2'], seq!['x', 'x', '0', '2', '3', '1'], seq!['x', 'x', '0', '2', '1', '2'], seq!['x', 'x', '0', '2', '2', '2'], seq!['x', 'x', '0', '2', '1', '1'])[4]),
{
    reveal_with_fuel(sounding_from, 7);
    reveal_with_fuel(has_u8, 7);
    reveal_with_fuel(all_u8_in, 7);
    reveal_with_fuel(crate::text::find_from, 5);
    reveal_strlit("maj7");
    let v = root_voicings(seq!['D'], seq!['x', 'x', '0', '2', '3', '2'], seq!['x', 'x', '0', '2', '3', '1'], seq!['x', 'x', '0', '2', '1', '2'], seq!['x', 'x', '0', '2', '2', '2'], seq!['x', 'x', '0', '2', '1', '1'])[4];
    assert(symbol_text(seq!['D'], seq!['m', '7'], None) =~= v.chord);
    lemma_passes_checks(seq!['D'], seq!['m', '7'], None, v);
}

#[verifier::spinoff_prover]
#[verifier::rlimit(40)]
proof fn lemma_folk_group_4()
    ensures
        all_check(root_voicings(seq!['D'], seq!['x', 'x', '0', '2', '3', '2'], seq!['x', 'x', '0', '2', '3', '1'], seq!['x', 'x', '0', '2', '1', '2'], seq!['x', 'x', '0', '2', '2', '2'], seq!['x', 'x', '0', '2', '1', '1'])),
{
    lemma_folk_voicing_4_0();
    lemma_folk_voicing_4_1();
    lemma_folk_voicing_4_2();
    lemma_folk_voicing_4_3();
    lemma_folk_voicing_4_4();
}

#[verifier::spinoff_prover]
proof fn lemma_folk_voicing_5_0()
    ensures
        voicing_checks(root_voicings(seq!['D', '#'], seq!['x', '6', '8', '8', '8', '6'], seq!['x', '6', '8', '8', '7', '6'], seq!['x', '6', '8', '6', '8', '6'], seq!['x', '6', '8', '7', '8', '6'], seq!['x', '6', '8', '6', '7', '6'])[0]),
{
    reveal_with_fuel(sounding_from, 7);
    reveal_with_fuel(has_u8, 7);
    reveal_with_fuel(all_u8_in, 7);
    reveal_with_fuel(crate::text::find_from, 5);
    reveal_strlit("maj7");
    let v = root_voicings(seq!['D', '#'], seq!['x', '6', '8', '8', '8', '6'], seq!['x', '6', '8', '8', '7', '6'], seq!['x', '6', '8', '6', '8', '6'], seq!['x', '6', '8', '7', '8', '6'], seq!['x', '6', '8', '6', '7', '6'])[0];
    assert(symbol_text(seq!['D', '#'], seq![], None) =~= v.chord);
    lemma_passes_checks(seq!['D', '#'], seq![], None, v);
}

#[verifier::spinoff_prover]
proof fn lemma_folk_voicing_5_1()
    ensures
        voicing_checks(root_voicings(seq!['D', '#'], seq!['x', '6', '8', '8', '8', '6'], seq!['x', '6', '8', '8', '7', '6'], seq!['x', '6', '8', '6', '8', '6'], seq!['x', '6', '8', '7', '8', '6'], seq!['x', '6', '8', '6', '7', '6'])[1]),
{
    reveal_with_fuel(sounding_from, 7);
    reveal_with_fuel(has_u8, 7);
    reveal_with_fuel(all_u8_in, 7);
    reveal_with_fuel(crate::text::find_from, 5);
    reveal_strlit("maj7");
    let v = root_voicings(seq!['D', '#'], seq!['x', '6', '8', '8', '8', '6'], seq!['x', '6', '8', '8', '7', '6'], seq!['x', '6', '8', '6', '8', '6'], seq!['x', '6', '8', '7', '8', '6'], seq!['x', '6', '8', '6', '7', '6'])[1];
    assert(symbol_text(seq!['D', '#'], seq!['m'], None) =~= v.chord);
    lemma_passes_checks(seq!['D', '#'], seq!['m'], None, v);
}

#[verifier::spinoff_prover]
proof fn lemma_folk_voicing_5_2()
    ensures
        voicing_checks(root_voicings(seq!['D', '#'], seq!['x', '6', '8', '8', '8', '6'], seq!['x', '6', '8', '8', '7', '6'], seq!['x', '6', '8', '6', '8', '6'], seq!['x', '6', '8', '7', '8', '6'], seq!['x', '6', '8', '6', '7', '6'])[2]),
{
    reveal_with_fuel(sounding_from, 7);
    reveal_with_fuel(has_u8, 7);
    reveal_with_fuel(all_u8_in, 7);
    reveal_with_fuel(crate::text::find_from, 5);
    reveal_strlit("maj7");
    let v = root_voicings(seq!['D', '#'], seq!['x', '6', '8', '8', '8', '6'], seq!['x', '6', '8', '8', '7', '6'], seq!['x', '6', '8', '6', '8', '6'], seq!['x', '6', '8', '7', '8', '6'], seq!['x', '6', '8', '6', '7', '6'])[2];
    assert(symbol_text(seq!['D', '#'], seq!['7'], None) =~= v.chord);
    lemma_passes_checks(seq!['D', '#'], seq!['7'], None, v);
}

#[verifier::spinoff_prover]
proof fn lemma_folk_voicing_5_3()
    ensures
        voicing_checks(root_voicings(seq!['D', '#'], seq!['x', '6', '8', '8', '8', '6'], seq!['x', '6', '8', '8', '7', '6'], seq!['x', '6', '8', '6', '8', '6'], seq!['x', '6', '8', '7', '8', '6'], seq!['x', '6', '8', '6', '7', '6'])[3]),
{
    reveal_with_fuel(sounding_from, 7);
    reveal_with_fuel(has_u8, 7);
    reveal_with_fuel(all_u8_in, 7);
    reveal_with_fuel(crate::text::find_from, 5);
    reveal_strlit("maj7");
    let v = root_voicings(seq!['D', '#'], seq!['x', '6', '8', '8', '8', '6'], seq!['x', '6', '8', '8', '7', '6'], seq!['x', '6', '8', '6', '8', '6'], seq!['x', '6', '8', '7', '8', '6'], seq!['x', '6', '8', '6', '7', '6'])[3];
    assert(symbol_text(seq!['D', '#'], seq!['m', 'a', 'j', '7'], None) =~= v.chord);
    lemma_passes_checks(seq!['D', '#'], seq!['m', 'a', 'j', '7'], None, v);
}

#[verifier::spinoff_prover]
proof fn lemma_folk_voicing_5_4()
    ensures
        voicing_checks(root_voicings(seq!['D', '#'], seq!['x', '6', '8', '8', '8', '6'], seq!['x', '6', '8', '8', '7', '6'], seq!['x', '6', '8', '6', '8', '6'], seq!['x', '6', '8', '7', '8', '6'], seq!['x', '6', '8', '6', '7', '6'])[4]),
{
    reveal_with_fuel(sounding_from, 7);
    reveal_with_fuel(has_u8, 7);
    reveal_with_fuel(all_u8_in, 7);
    reveal_with_fuel(crate::text::find_from, 5);
    reveal_strlit("maj7");
    let v = root_voicings(seq!['D', '#'], seq!['x', '6', '8', '8', '8', '6'], seq!['x', '6', '8', '8', '7', '6'], seq!['x', '6', '8', '6', '8', '6'], seq!['x', '6', '8', '7', '8', '6'], seq!['x', '6', '8', '6', '7', '6'])[4];
    assert(symbol_text(seq!['D', '#'], seq!['m', '7'], None) =~= v.chord);
    lemma_passes_checks(seq!['D', '#'], seq!['m', '7'], None, v);
}

#[verifier::spinoff_prover]
#[verifier::rlimit(40)]
proof fn lemma_folk_group_5()
    ensures
        all_check(root_voicings(seq!['D', '#'], seq!['x', '6', '8', '8', '8', '6'], seq!['x', '6', '8', '8', '7', '6'], seq!['x', '6', '8', '6', '8', '6'], seq!['x', '6', '8', '7', '8', '6'], seq!['x', '6', '8', '6', '7', '6'])),
{
    lemma_folk_voicing_5_0();
    lemma_folk_voicing_5_1();
    lemma_folk_voicing_5_2();
    lemma_folk_voicing_5_3();
    lemma_folk_voicing_5_4();
}

#[verifier::spinoff_prover]
proof fn lemma_folk_voicing_6_0()
    ensures
        voicing_checks(root_voicings(seq!['E', 'b'], seq!['x', '6', '8', '8', '8', '6'], seq!['x', '6', '8', '8', '7', '6'], seq!['x', '6', '8', '6', '8', '6'], seq!['x', '6', '8', '7', '8', '6'], seq!['x', '6', '8', '6', '7', '6'])[0]),
{
    reveal_with_fuel(sounding_from, 7);
    reveal_with_fuel(has_u8, 7);
    reveal_with_fuel(all_u8_in, 7);
    reveal_with_fuel(crate::text::find_from, 5);
    reveal_strlit("maj7");
    let v = root_voicings(seq!['E', 'b'], seq!['x', '6', '8', '8', '8', '6'], seq!['x', '6', '8', '8', '7', '6'], seq!['x', '6', '8', '6', '8', '6'], seq!['x', '6', '8', '7', '8', '6'], seq!['x', '6', '8', '6', '7', '6'])[0];
    assert(symbol_text(seq!['E', 'b'], seq![], None) =~= v.chord);
    lemma_passes_checks(seq!['E', 'b'], seq![], None, v);
}

#[verifier::spinoff_prover]
proof fn lemma_folk_voicing_6_1()
    ensures
        voicing_checks(root_voicings(seq!['E', 'b'], seq!['x', '6', '8', '8', '8', '6'], seq!['x', '6', '8', '8', '7', '6'], seq!['x', '6', '8', '6', '8', '6'], seq!['x', '6', '8', '7', '8', '6'], seq!['x', '6', '8', '6', '7', '6'])[1]),
{
    reveal_with_fuel(sounding_from, 7);
    reveal_with_fuel(has_u8, 7);
    reveal_with_fuel(all_u8_in, 7);
    reveal_with_fuel(crate::text::find_from, 5);
    reveal_strlit("maj7");
    let v = root_voicings(seq!['E', 'b'], seq!['x', '6', '8', '8', '8', '6'], seq!['x', '6', '8', '8', '7', '6'], seq!['x', '6', '8', '6', '8', '6'], seq!['x', '6', '8', '7', '8', '6'], seq!['x', '6', '8', '6', '7', '6'])[1];
    assert(symbol_text(seq!['E', 'b'], seq!['m'], None) =~= v.chord);
    lemma_passes_checks(seq!['E', 'b'], seq!['m'], None, v);
}

#[verifier::spinoff_prover]
proof fn lemma_folk_voicing_6_2()
    ensures
        voicing_checks(root_voicings(seq!['E', 'b'], seq!['x', '6', '8', '8', '8', '6'], seq!['x', '6', '8', '8', '7', '6'], seq!['x', '6', '8', '6', '8', '6'], seq!['x', '6', '8', '7', '8', '6'], seq!['x', '6', '8', '6', '7', '6'])[2]),
{
    reveal_with_fuel(sounding_from, 7);
    reveal_with_fuel(has_u8, 7);
    reveal_with_fuel(all_u8_in, 7);
    reveal_with_fuel(crate::text::find_from, 5);
    reveal_strlit("maj7");
    let v = root_voicings(seq!['E', 'b'], seq!['x', '6', '8', '8', '8', '6'], seq!['x', '6', '8', '8', '7', '6'], seq!['x', '6', '8', '6', '8', '6'], seq!['x', '6', '8', '7', '8', '6'], seq!['x', '6', '8', '6', '7', '6'])[2];
    assert(symbol_text(seq!['E', 'b'], seq!['7'], None) =~= v.chord);
    lemma_passes_checks(seq!['E', 'b'], seq!['7'], None, v);
}

#[verifier::spinoff_prover]
proof fn lemma_folk_voicing_6_3()
    ensures
        voicing_checks(root_voicings(seq!['E', 'b'], seq!['x', '6', '8', '8', '8', '6'], seq!['x', '6', '8', '8', '7', '6'], seq!['x', '6', '8', '6', '8', '6'], seq!['x', '6', '8', '7', '8', '6'], seq!['x', '6', '8', '6', '7', '6'])[3]),
{
    reveal_with_fuel(sounding_from, 7);
    reveal_with_fuel(has_u8, 7);
    reveal_with_fuel(all_u8_in, 7);
    reveal_with_fuel(crate::text::find_from, 5);
    reveal_strlit("maj7");
    let v = root_voicings(seq!['E', 'b'], seq!['x', '6', '8', '8', '8', '6'], seq!['x', '6', '8', '8', '7', '6'], seq!['x', '6', '8', '6', '8', '6'], seq!['x', '6', '8', '7', '8', '6'], seq!['x', '6', '8', '6', '7', '6'])[3];
    assert(symbol_text(seq!['E', 'b'], seq!['m', 'a', 'j', '7'], None) =~= v.chord);
    lemma_passes_checks(seq!['E', 'b'], seq!['m', 'a', 'j', '7'], None, v);
}

#[verifier::spinoff_prover]
proof fn lemma_folk_voicing_6_4()
    ensures
        voicing_checks(root_voicings(seq!['E', 'b'], seq!['x', '6', '8', '8', '8', '6'], seq!['x', '6', '8', '8', '7', '6'], seq!['x', '6', '8', '6', '8', '6'], seq!['x', '6', '8', '7', '8', '6'], seq!['x', '6', '8', '6', '7', '6'])[4]),
{
    reveal_with_fuel(sounding_from, 7);
    reveal_with_fuel(has_u8, 7);
    reveal_with_fuel(all_u8_in, 7);
    reveal_with_fuel(crate::text::find_from, 5);
    reveal_strlit("maj7");
    let v = root_voicings(seq!['E', 'b'], seq!['x', '6', '8', '8', '8', '6'], seq!['x', '6', '8', '8', '7', '6'], seq!['x', '6', '8', '6', '8', '6'], seq!['x', '6', '8', '7', '8', '6'], seq!['x', '6', '8', '6', '7', '6'])[4];
    assert(symbol_text(seq!['E', 'b'], seq!['m', '7'], None) =~= v.chord);
    lemma_passes_checks(seq!['E', 'b'], seq!['m', '7'], None, v);
}

#[verifier::spinoff_prover]
#[verifier::rlimit(40)]
proof fn lemma_folk_group_6()
    ensures
        all_check(root_voicings(seq!['E', 'b'], seq!['x', '6', '8', '8', '8', '6'], seq!['x', '6', '8', '8', '7', '6'], seq!['x', '6', '8', '6', '8', '6'], seq!['x', '6', '8', '7', '8', '6'], seq!['x', '6', '8', '6', '7', '6'])),
{
    lemma_folk_voicing_6_0();
    lemma_folk_voicing_6_1();
    lemma_folk_voicing_6_2();
    lemma_folk_voicing_6_3();
    lemma_folk_voicing_6_4();
}

#[verifier::spinoff_prover]
proof fn lemma_folk_voicing_7_0()
    ensures
        voicing_checks(root_voicings(seq!['E'], seq!['0', '2', '2', '1', '0', '0'], seq!['0', '2', '2', '0', '0', '0'], seq!['0', '2', '0', '1', '0', '0'], seq!['0', '2', '1', '1', '0', '0'], seq!['0', '2', '2', '0', '3', '0'])[0]),
{
    reveal_with_fuel(sounding_from, 7);
    reveal_with_fuel(has_u8, 7);
    reveal_with_fuel(all_u8_in, 7);
    reveal_with_fuel(crate::text::find_from, 5);
    reveal_strlit("maj7");
    let v = root_voicings(seq!['E'], seq!['0', '2', '2', '1', '0', '0'], seq!['0', '2', '2', '0', '0', '0'], seq!['0', '2', '0', '1', '0', '0'], seq!['0', '2', '1', '1', '0', '0'], seq!['0', '2', '2', '0', '3', '0'])[0];
    assert(symbol_text(seq!['E'], seq![], None) =~= v.chord);
    lemma_passes_checks(seq!['E'], seq![], None, v);
}

#[verifier::spinoff_prover]
proof fn lemma_folk_voicing_7_1()
    ensures
        voicing_checks(root_voicings(seq!['E'], seq!['0', '2', '2', '1', '0', '0'], seq!['0', '2', '2', '0', '0', '0'], seq!['0', '2', '0', '1', '0', '0'], seq!['0', '2', '1', '1', '0', '0'], seq!['0', '2', '2', '0', '3', '0'])[1]),
{
    reveal_with_fuel(sounding_from, 7);
    reveal_with_fuel(has_u8, 7);
    reveal_with_fuel(all_u8_in, 7);
    reveal_with_fuel(crate::text::find_from, 5);
    reveal_strlit("maj7");
    let v = root_voicings(seq!['E'], seq!['0', '2', '2', '1', '0', '0'], seq!['0', '2', '2', '0', '0', '0'], seq!['0', '2', '0', '1', '0', '0'], seq!['0', '2', '1', '1', '0', '0'], seq!['0', '2', '2', '0', '3', '0'])[1];
    assert(symbol_text(seq!['E'], seq!['m'], None) =~= v.chord);
    lemma_passes_checks(seq!['E'], seq!['m'], None, v);
}

#[verifier::spinoff_prover]
proof fn lemma_folk_voicing_7_2()
    ensures
        voicing_checks(root_voicings(seq!['E'], seq!['0', '2', '2', '1', '0', '0'], seq!['0', '2', '2', '0', '0', '0'], seq!['0', '2', '0', '1', '0', '0'], seq!['0', '2', '1', '1', '0', '0'], seq!['0', '2', '2', '0', '3', '0'])[2]),
{
    reveal_with_fuel(sounding_from, 7);
    reveal_with_fuel(has_u8, 7);
    reveal_with_fuel(all_u8_in, 7);
    reveal_with_fuel(crate::text::find_from, 5);
    reveal_strlit("maj7");
    let v = root_voicings(seq!['E'], seq!['0', '2', '2', '1', '0', '0'], seq!['0', '2', '2', '0', '0', '0'], seq!['0', '2', '0', '1', '0', '0'], seq!['0', '2', '1', '1', '0', '0'], seq!['0', '2', '2', '0', '3', '0'])[2];
    assert(symbol_text(seq!['E'], seq!['7'], None) =~= v.chord);
    lemma_passes_checks(seq!['E'], seq!['7'], None, v);
}

#[verifier::spinoff_prover]
proof fn lemma_folk_voicing_7_3()
    ensures
        voicing_checks(root_voicings(seq!['E'], seq!['0', '2', '2', '1', '0', '0'], seq!['0', '2', '2', '0', '0', '0'], seq!['0', '2', '0', '1', '0', '0'], seq!['0', '2', '1', '1', '0', '0'], seq!['0', '2', '2', '0', '3', '0'])[3]),
{
    reveal_with_fuel(sounding_from, 7);
    reveal_with_fuel(has_u8, 7);
    reveal_with_fuel(all_u8_in, 7);
    reveal_with_fuel(crate::text::find_from, 5);
    reveal_strlit("maj7");
    let v = root_voicings(seq!['E'], seq!['0', '2', '2', '1', '0', '0'], seq!['0', '2', '2', '0', '0', '0'], seq!['0', '2', '0', '1', '0', '0'], seq!['0', '2', '1', '1', '0', '0'], seq!['0', '2', '2', '0', '3', '0'])[3];
    assert(symbol_text(seq!['E'], seq!['m', 'a', 'j', '7'], None) =~= v.chord);
    lemma_passes_checks(seq!['E'], seq!['m', 'a', 'j', '7'], None, v);
}

#[verifier::spinoff_prover]
proof fn lemma_folk_voicing_7_4()
    ensures
        voicing_checks(root_voicings(seq!['E'], seq!['0', '2', '2', '1', '0', '0'], seq!['0', '2', '2', '0', '0', '0'], seq!['0', '2', '0', '1', '0', '0'], seq!['0', '2', '1', '1', '0', '0'], seq!['0', '2', '2', '0', '3', '0'])[4]),
{
    reveal_with_fuel(sounding_from, 7);
    reveal_with_fuel(has_u8, 7);
    reveal_with_fuel(all_u8_in, 7);
    reveal_with_fuel(crate::text::find_from, 5);
    reveal_strlit("maj7");
    let v = root_voicings(seq!['E'], seq!['0', '2', '2', '1', '0', '0'], seq!['0', '2', '2', '0', '0', '0'], seq!['0', '2', '0', '1', '0', '0'], seq!['0', '2', '1', '1', '0', '0'], seq!['0', '2', '2', '0', '3', '0'])[4];
    assert(symbol_text(seq!['E'], seq!['m', '7'], None) =~= v.chord);
    lemma_passes_checks(seq!['E'], seq!['m', '7'], None, v);
}

#[verifier::spinoff_prover]
#[verifier::rlimit(40)]
proof fn lemma_folk_group_7()
    ensures
        all_check(root_voicings(seq!['E'], seq!['0', '2', '2', '1', '0', '0'], seq!['0', '2', '2', '0', '0', '0'], seq!['0', '2', '0', '1', '0', '0'], seq!['0', '2', '1', '1', '0', '0'], seq!['0', '2', '2', '0', '3', '0'])),
{
    lemma_folk_voicing_7_0();
    lemma_folk_voicing_7_1();
    lemma_folk_voicing_7_2();
    lemma_folk_voicing_7_3();
    lemma_folk_voicing_7_4();
}

#[verifier::spinoff_prover]
proof fn lemma_folk_voicing_8_0()
    ensures
        voicing_checks(root_voicings(seq!['F', 'b'], seq!['0', '2', '2', '1', '0', '0'], seq!['0', '2', '2', '0', '0', '0'], seq!['0', '2', '0', '1', '0', '0'], seq!['0', '2', '1', '1', '0', '0'], seq!['0', '2', '2', '0', '3', '0'])[0]),
{
    reveal_with_fuel(sounding_from, 7);
    reveal_with_fuel(has_u8, 7);
    reveal_with_fuel(all_u8_in, 7);
    reveal_with_fuel(crate::text::find_from, 5);
    reveal_strlit("maj7");
    let v = root_voicings(seq!['F', 'b'], seq!['0', '2', '2', '1', '0', '0'], seq!['0', '2', '2', '0', '0', '0'], seq!['0', '2', '0', '1', '0', '0'], seq!['0', '2', '1', '1', '0', '0'], seq!['0', '2', '2', '0', '3', '0'])[0];
    assert(symbol_text(seq!['F', 'b'], seq![], None) =~= v.chord);
    lemma_passes_checks(seq!['F', 'b'], seq![], None, v);
}

#[verifier::spinoff_prover]
proof fn lemma_folk_voicing_8_1()
    ensures
        voicing_checks(root_voicings(seq!['F', 'b'], seq!['0', '2', '2', '1', '0', '0'], seq!['0', '2', '2', '0', '0', '0'], seq!['0', '2', '0', '1', '0', '0'], seq!['0', '2', '1', '1', '0', '0'], seq!['0', '2', '2', '0', '3', '0'])[1]),
{
    reveal_with_fuel(sounding_from, 7);
    reveal_with_fuel(has_u8, 7);
    reveal_with_fuel(all_u8_in, 7);
    reveal_with_fuel(crate::text::find_from, 5);
    reveal_strlit("maj7");
    let v = root_voicings(seq!['F', 'b'], seq!['0', '2', '2', '1', '0', '0'], seq!['0', '2', '2', '0', '0', '0'], seq!['0', '2', '0', '1', '0', '0'], seq!['0', '2', '1', '1', '0', '0'], seq!['0', '2', '2', '0', '3', '0'])[1];
    assert(symbol_text(seq!['F', 'b'], seq!['m'], None) =~= v.chord);
    lemma_passes_checks(seq!['F', 'b'], seq!['m'], None, v);
}

#[verifier::spinoff_prover]
proof fn lemma_folk_voicing_8_2()
    ensures
        voicing_checks(root_voicings(seq!['F', 'b'], seq!['0', '2', '2', '1', '0', '0'], seq!['0', '2', '2', '0', '0', '0'], seq!['0', '2', '0', '1', '0', '0'], seq!['0', '2', '1', '1', '0', '0'], seq!['0', '2', '2', '0', '3', '0'])[2]),
{
    reveal_with_fuel(sounding_from, 7);
    reveal_with_fuel(has_u8, 7);
    reveal_with_fuel(all_u8_in, 7);
    reveal_with_fuel(crate::text::find_from, 5);
    reveal_strlit("maj7");
    let v = root_voicings(seq!['F', 'b'], seq!['0', '2', '2', '1', '0', '0'], seq!['0', '2', '2', '0', '0', '0'], seq!['0', '2', '0', '1', '0', '0'], seq!['0', '2', '1', '1', '0', '0'], seq!['0', '2', '2', '0', '3', '0'])[2];
    assert(symbol_text(seq!['F', 'b'], seq!['7'], None) =~= v.chord);
    lemma_passes_checks(seq!['F', 'b'], seq!['7'], None, v);
}

#[verifier::spinoff_prover]
proof fn lemma_folk_voicing_8_3()
    ensures
        voicing_checks(root_voicings(seq!['F', 'b'], seq!['0', '2', '2', '1', '0', '0'], seq!['0', '2', '2', '0', '0', '0'], seq!['0', '2', '0', '1', '0', '0'], seq!['0', '2', '1', '1', '0', '0'], seq!['0', '2', '2', '0', '3', '0'])[3]),
{
    reveal_with_fuel(sounding_from, 7);
    reveal_with_fuel(has_u8, 7);
    reveal_with_fuel(all_u8_in, 7);
    reveal_with_fuel(crate::text::find_from, 5);
    reveal_strlit("maj7");
    let v = root_voicings(seq!['F', 'b'], seq!['0', '2', '2', '1', '0', '0'], seq!['0', '2', '2', '0', '0', '0'], seq!['0', '2', '0', '1', '0', '0'], seq!['0', '2', '1', '1', '0', '0'], seq!['0', '2', '2', '0', '3', '0'])[3];
    assert(symbol_text(seq!['F', 'b'], seq!['m', 'a', 'j', '7'], None) =~= v.chord);
    lemma_passes_checks(seq!['F', 'b'], seq!['m', 'a', 'j', '7'], None, v);
}

#[verifier::spinoff_prover]
proof fn lemma_folk_voicing_8_4()
    ensures
        voicing_checks(root_voicings(seq!['F', 'b'], seq!['0', '2', '2', '1', '0', '0'], seq!['0', '2', '2', '0', '0', '0'], seq!['0', '2', '0', '1', '0', '0'], seq!['0', '2', '1', '1', '0', '0'], seq!['0', '2', '2', '0', '3', '0'])[4]),
{
    reveal_with_fuel(sounding_from, 7);
    reveal_with_fuel(has_u8, 7);
    reveal_with_fuel(all_u8_in, 7);
    reveal_with_fuel(crate::text::find_from, 5);
    reveal_strlit("maj7");
    let v = root_voicings(seq!['F', 'b'], seq!['0', '2', '2', '1', '0', '0'], seq!['0', '2', '2', '0', '0', '0'], seq!['0', '2', '0', '1', '0', '0'], seq!['0', '2', '1', '1', '0', '0'], seq!['0', '2', '2', '0', '3', '0'])[4];
    assert(symbol_text(seq!['F', 'b'], seq!['m', '7'], None) =~= v.chord);
    lemma_passes_checks(seq!['F', 'b'], seq!['m', '7'], None, v);
}

#[verifier::spinoff_prover]
#[verifier::rlimit(40)]
proof fn lemma_folk_group_8()
    ensures
        all_check(root_voicings(seq!['F', 'b'], seq!['0', '2', '2', '1', '0', '0'], seq!['0', '2', '2', '0', '0', '0'], seq!['0', '2', '0', '1', '0', '0'], seq!['0', '2', '1', '1', '0', '0'], seq!['0', '2', '2', '0', '3', '0'])),
{
    lemma_folk_voicing_8_0();
    lemma_folk_voicing_8_1();
    lemma_folk_voicing_8_2();
    lemma_folk_voicing_8_3();
    lemma_folk_voicing_8_4();
}

#[verifier::spinoff_prover]
proof fn lemma_folk_voicing_9_0()
    ensures
        voicing_checks(root_voicings(seq!['F'], seq!['1', '3', '3', '2', '1', '1'], seq!['1', '3', '3', '1', '1', '1'], seq!['1', '3', '1', '2', '1', '1'], seq!['1', '3', '3', '2', '1', '0'], seq!['1', '3', '1', '1', '1', '1'])[0]),
{
    reveal_with_fuel(sounding_from, 7);
    reveal_with_fuel(has_u8, 7);
    reveal_with_fuel(all_u8_in, 7);
    reveal_with_fuel(crate::text::find_from, 5);
    reveal_strlit("maj7");
    let v = root_voicings(seq!['F'], seq!['1', '3', '3', '2', '1', '1'], seq!['1', '3', '3', '1', '1', '1'], seq!['1', '3', '1', '2', '1', '1'], seq!['1', '3', '3', '2', '1', '0'], seq!['1', '3', '1', '1', '1', '1'])[0];
    assert(symbol_text(seq!['F'], seq![], None) =~= v.chord);
    lemma_passes_checks(seq!['F'], seq![], None, v);
}

#[verifier::spinoff_prover]
proof fn lemma_folk_voicing_9_1()
    ensures
        voicing_checks(root_voicings(seq!['F'], seq!['1', '3', '3', '2', '1', '1'], seq!['1', '3', '3', '1', '1', '1'], seq!['1', '3', '1', '2', '1', '1'], seq!['1', '3', '3', '2', '1', '0'], seq!['1', '3', '1', '1', '1', '1'])[1]),
{
    reveal_with_fuel(sounding_from, 7);
    reveal_with_fuel(has_u8, 7);
    reveal_with_fuel(all_u8_in, 7);
    reveal_with_fuel(crate::text::find_from, 5);
    reveal_strlit("maj7");
    let v = root_voicings(seq!['F'], seq!['1', '3', '3', '2', '1', '1'], seq!['1', '3', '3', '1', '1', '1'], seq!['1', '3', '1', '2', '1', '1'], seq!['1', '3', '3', '2', '1', '0'], seq!['1', '3', '1', '1', '1', '1'])[1];
    assert(symbol_text(seq!['F'], seq!['m'], None) =~= v.chord);
    lemma_passes_checks(seq!['F'], seq!['m'], None, v);
}

#[verifier::spinoff_prover]
proof fn lemma_folk_voicing_9_2()
    ensures
        voicing_checks(root_voicings(seq!['F'], seq!['1', '3', '3', '2', '1', '1'], seq!['1', '3', '3', '1', '1', '1'], seq!['1', '3', '1', '2', '1', '1'], seq!['1', '3', '3', '2', '1', '0'], seq!['1', '3', '1', '1', '1', '1'])[2]),
{
    reveal_with_fuel(sounding_from, 7);
    reveal_with_fuel(has_u8, 7);
    reveal_with_fuel(all_u8_in, 7);
    reveal_with_fuel(crate::text::find_from, 5);
    reveal_strlit("maj7");
    let v = root_voicings(seq!['F'], seq!['1', '3', '3', '2', '1', '1'], seq!['1', '3', '3', '1', '1', '1'], seq!['1', '3', '1', '2', '1', '1'], seq!['1', '3', '3', '2', '1', '0'], seq!['1', '3', '1', '1', '1', '1'])[2];
    assert(symbol_text(seq!['F'], seq!['7'], None) =~= v.chord);
    lemma_passes_checks(seq!['F'], seq!['7'], None, v);
}

#[verifier::spinoff_prover]
proof fn lemma_folk_voicing_9_3()
    ensures
        voicing_checks(root_voicings(seq!['F'], seq!['1', '3', '3', '2', '1', '1'], seq!['1', '3', '3', '1', '1', '1'], seq!['1', '3', '1', '2', '1', '1'], seq!['1', '3', '3', '2', '1', '0'], seq!['1', '3', '1', '1', '1', '1'])[3]),
{
    reveal_with_fuel(sounding_from, 7);
    reveal_with_fuel(has_u8, 7);
    reveal_with_fuel(all_u8_in, 7);
    reveal_with_fuel(crate::text::find_from, 5);
    reveal_strlit("maj7");
    let v = root_voicings(seq!['F'], seq!['1', '3', '3', '2', '1', '1'], seq!['1', '3', '3', '1', '1', '1'], seq!['1', '3', '1', '2', '1', '1'], seq!['1', '3', '3', '2', '1', '0'], seq!['1', '3', '1', '1', '1', '1'])[3];
    assert(symbol_text(seq!['F'], seq!['m', 'a', 'j', '7'], None) =~= v.chord);
    lemma_passes_checks(seq!['F'], seq!['m', 'a', 'j', '7'], None, v);
}

#[verifier::spinoff_prover]
proof fn lemma_folk_voicing_9_4()
    ensures
        voicing_checks(root_voicings(seq!['F'], seq!['1', '3', '3', '2', '1', '1'], seq!['1', '3', '3', '1', '1', '1'], seq!['1', '3', '1', '2', '1', '1'], seq!['1', '3', '3', '2', '1', '0'], seq!['1', '3', '1', '1', '1', '1'])[4]),
{
    reveal_with_fuel(sounding_from, 7);
    reveal_with_fuel(has_u8, 7);
    reveal_with_fuel(all_u8_in, 7);
    reveal_with_fuel(crate::text::find_from, 5);
    reveal_strlit("maj7");
    let v = root_voicings(seq!['F'], seq!['1', '3', '3', '2', '1', '1'], seq!['1', '3', '3', '1', '1', '1'], seq!['1', '3', '1', '2', '1', '1'], seq!['1', '3', '3', '2', '1', '0'], seq!['1', '3', '1', '1', '1', '1'])[4];
    assert(symbol_text(seq!['F'], seq!['m', '7'], None) =~= v.chord);
    lemma_passes_checks(seq!['F'], seq!['m', '7'], None, v);
}

#[verifier::spinoff_prover]
#[verifier::rlimit(40)]
proof fn lemma_folk_group_9()
    ensures
        all_check(root_voicings(seq!['F'], seq!['1', '3', '3', '2', '1', '1'], seq!['1', '3', '3', '1', '1', '1'], seq!['1', '3', '1', '2', '1', '1'], seq!['1', '3', '3', '2', '1', '0'], seq!['1', '3', '1', '1', '1', '1'])),
{
    lemma_folk_voicing_9_0();
    lemma_folk_voicing_9_1();
    lemma_folk_voicing_9_2();
    lemma_folk_voicing_9_3();
    lemma_folk_voicing_9_4();
}

#[verifier::spinoff_prover]
proof fn lemma_folk_voicing_10_0()
    ensures
        voicing_checks(root_voicings(seq!['E', '#'], seq!['1', '3', '3', '2', '1', '1'], seq!['1', '3', '3', '1', '1', '1'], seq!['1', '3', '1', '2', '1', '1'], seq!['1', '3', '3', '2', '1', '0'], seq!['1', '3', '1', '1', '1', '1'])[0]),
{
    reveal_with_fuel(sounding_from, 7);
    reveal_with_fuel(has_u8, 7);
    reveal_with_fuel(all_u8_in, 7);
    reveal_with_fuel(crate::text::find_from, 5);
    reveal_strlit("maj7");
    let v = root_voicings(seq!['E', '#'], seq!['1', '3', '3', '2', '1', '1'], seq!['1', '3', '3', '1', '1', '1'], seq!['1', '3', '1', '2', '1', '1'], seq!['1', '3', '3', '2', '1', '0'], seq!['1', '3', '1', '1', '1', '1'])[0];
    assert(symbol_text(seq!['E', '#'], seq![], None) =~= v.chord);
    lemma_passes_checks(seq!['E', '#'], seq![], None, v);
}

#[verifier::spinoff_prover]
proof fn lemma_folk_voicing_10_1()
    ensures
        voicing_checks(root_voicings(seq!['E', '#'], seq!['1', '3', '3', '2', '1', '1'], seq!['1', '3', '3', '1', '1', '1'], seq!['1', '3', '1', '2', '1', '1'], seq!['1', '3', '3', '2', '1', '0'], seq!['1', '3', '1', '1', '1', '1'])[1]),
{
    reveal_with_fuel(sounding_from, 7);
    reveal_with_fuel(has_u8, 7);
    reveal_with_fuel(all_u8_in, 7);
    reveal_with_fuel(crate::text::find_from, 5);
    reveal_strlit("maj7");
    let v = root_voicings(seq!['E', '#'], seq!['1', '3', '3', '2', '1', '1'], seq!['1', '3', '3', '1', '1', '1'], seq!['1', '3', '1', '2', '1', '1'], seq!['1', '3', '3', '2', '1', '0'], seq!['1', '3', '1', '1', '1', '1'])[1];
    assert(symbol_text(seq!['E', '#'], seq!['m'], None) =~= v.chord);
    lemma_passes_checks(seq!['E', '#'], seq!['m'], None, v);
}

#[verifier::spinoff_prover]
proof fn lemma_folk_voicing_10_2()
    ensures
        voicing_checks(root_voicings(seq!['E', '#'], seq!['1', '3', '3', '2', '1', '1'], seq!['1', '3', '3', '1', '1', '1'], seq!['1', '3', '1', '2', '1', '1'], seq!['1', '3', '3', '2', '1', '0'], seq!['1', '3', '1', '1', '1', '1'])[2]),
{
    reveal_with_fuel(sounding_from, 7);
    reveal_with_fuel(has_u8, 7);
    reveal_with_fuel(all_u8_in, 7);
    reveal_with_fuel(crate::text::find_from, 5);
    reveal_strlit("maj7");
    let v = root_voicings(seq!['E', '#'], seq!['1', '3', '3', '2', '1', '1'], seq!['1', '3', '3', '1', '1', '1'], seq!['1', '3', '1', '2', '1', '1'], seq!['1', '3', '3', '2', '1', '0'], seq!['1', '3', '1', '1', '1', '1'])[2];
    assert(symbol_text(seq!['E', '#'], seq!['7'], None) =~= v.chord);
    lemma_passes_checks(seq!['E', '#'], seq!['7'], None, v);
}

#[verifier::spinoff_prover]
proof fn lemma_folk_voicing_10_3()
    ensures
        voicing_checks(root_voicings(seq!['E', '#'], seq!['1', '3', '3', '2', '1', '1'], seq!['1', '3', '3', '1', '1', '1'], seq!['1', '3', '1', '2', '1', '1'], seq!['1', '3', '3', '2', '1', '0'], seq!['1', '3', '1', '1', '1', '1'])[3]),
{
    reveal_with_fuel(sounding_from, 7);
    reveal_with_fuel(has_u8, 7);
    reveal_with_fuel(all_u8_in, 7);
    reveal_with_fuel(crate::text::find_from, 5);
    reveal_strlit("maj7");
    let v = root_voicings(seq!['E', '#'], seq!['1', '3', '3', '2', '1', '1'], seq!['1', '3', '3', '1', '1', '1'], seq!['1', '3', '1', '2', '1', '1'], seq!['1', '3', '3', '2', '1', '0'], seq!['1', '3', '1', '1', '1', '1'])[3];
    assert(symbol_text(seq!['E', '#'], seq!['m', 'a', 'j', '7'], None) =~= v.chord);
    lemma_passes_checks(seq!['E', '#'], seq!['m', 'a', 'j', '7'], None, v);
}

#[verifier::spinoff_prover]
proof fn lemma_folk_voicing_10_4()
    ensures
        voicing_checks(root_voicings(seq!['E', '#'], seq!['1', '3', '3', '2', '1', '1'], seq!['1', '3', '3', '1', '1', '1'], seq!['1', '3', '1', '2', '1', '1'], seq!['1', '3', '3', '2', '1', '0'], seq!['1', '3', '1', '1', '1', '1'])[4]),
{
    reveal_with_fuel(sounding_from, 7);
    reveal_with_fuel(has_u8, 7);
    reveal_with_fuel(all_u8_in, 7);
    reveal_with_fuel(crate::text::find_from, 5);
    reveal_strlit("maj7");
    let v = root_voicings(seq!['E', '#'], seq!['1', '3', '3', '2', '1', '1'], seq!['1', '3', '3', '1', '1', '1'], seq!['1', '3', '1', '2', '1', '1'], seq!['1', '3', '3', '2', '1', '0'], seq!['1', '3', '1', '1', '1', '1'])[4];
    assert(symbol_text(seq!['E', '#'], seq!['m', '7'], None) =~= v.chord);
    lemma_passes_checks(seq!['E', '#'], seq!['m', '7'], None, v);
}

#[verifier::spinoff_prover]
#[verifier::rlimit(40)]
proof fn lemma_folk_group_10()
    ensures
        all_check(root_voicings(seq!['E', '#'], seq!['1', '3', '3', '2', '1', '1'], seq!['1', '3', '3', '1', '1', '1'], seq!['1', '3', '1', '2', '1', '1'], seq!['1', '3', '3', '2', '1', '0'], seq!['1', '3', '1', '1', '1', '1'])),
{
    lemma_folk_voicing_10_0();
    lemma_folk_voicing_10_1();
    lemma_folk_voicing_10_2();
    lemma_folk_voicing_10_3();
    lemma_folk_voicing_10_4();
}

#[verifier::spinoff_prover]
proof fn lemma_folk_voicing_11_0()
    ensures
        voicing_checks(root_voicings(seq!['F', '#'], seq!['2', '4', '4', '3', '2', '2'], seq!['2', '4', '4', '2', '2', '2'], seq!['2', '4', '2', '3', '2', '2'], seq!['2', '4', '3', '3', '2', '2'], seq!['2', '4', '2', '2', '2', '2'])[0]),
{
    reveal_with_fuel(sounding_from, 7);
    reveal_with_fuel(has_u8, 7);
    reveal_with_fuel(all_u8_in, 7);
    reveal_with_fuel(crate::text::find_from, 5);
    reveal_strlit("maj7");
    let v = root_voicings(seq!['F', '#'], seq!['2', '4', '4', '3', '2', '2'], seq!['2', '4', '4', '2', '2', '2'], seq!['2', '4', '2', '3', '2', '2'], seq!['2', '4', '3', '3', '2', '2'], seq!['2', '4', '2', '2', '2', '2'])[0];
    assert(symbol_text(seq!['F', '#'], seq![], None) =~= v.chord);
    lemma_passes_checks(seq!['F', '#'], seq![], None, v);
}

#[verifier::spinoff_prover]
proof fn lemma_folk_voicing_11_1()
    ensures
        voicing_checks(root_voicings(seq!['F', '#'], seq!['2', '4', '4', '3', '2', '2'], seq!['2', '4', '4', '2', '2', '2'], seq!['2', '4', '2', '3', '2', '2'], seq!['2', '4', '3', '3', '2', '2'], seq!['2', '4', '2', '2', '2', '2'])[1]),
{
    reveal_with_fuel(sounding_from, 7);
    reveal_with_fuel(has_u8, 7);
    reveal_with_fuel(all_u8_in, 7);
    reveal_with_fuel(crate::text::find_from, 5);
    reveal_strlit("maj7");
    let v = root_voicings(seq!['F', '#'], seq!['2', '4', '4', '3', '2', '2'], seq!['2', '4', '4', '2', '2', '2'], seq!['2', '4', '2', '3', '2', '2'], seq!['2', '4', '3', '3', '2', '2'], seq!['2', '4', '2', '2', '2', '2'])[1];
    assert(symbol_text(seq!['F', '#'], seq!['m'], None) =~= v.chord);
    lemma_passes_checks(seq!['F', '#'], seq!['m'], None, v);
}

#[verifier::spinoff_prover]
proof fn lemma_folk_voicing_11_2()
    ensures
        voicing_checks(root_voicings(seq!['F', '#'], seq!['2', '4', '4', '3', '2', '2'], seq!['2', '4', '4', '2', '2', '2'], seq!['2', '4', '2', '3', '2', '2'], seq!['2', '4', '3', '3', '2', '2'], seq!['2', '4', '2', '2', '2', '2'])[2]),
{
    reveal_with_fuel(sounding_from, 7);
    reveal_with_fuel(has_u8, 7);
    reveal_with_fuel(all_u8_in, 7);
    reveal_with_fuel(crate::text::find_from, 5);
    reveal_strlit("maj7");
    let v = root_voicings(seq!['F', '#'], seq!['2', '4', '4', '3', '2', '2'], seq!['2', '4', '4', '2', '2', '2'], seq!['2', '4', '2', '3', '2', '2'], seq!['2', '4', '3', '3', '2', '2'], seq!['2', '4', '2', '2', '2', '2'])[2];
    assert(symbol_text(seq!['F', '#'], seq!['7'], None) =~= v.chord);
    lemma_passes_checks(seq!['F', '#'], seq!['7'], None, v);
}

#[verifier::spinoff_prover]
proof fn lemma_folk_voicing_11_3()
    ensures
        voicing_checks(root_voicings(seq!['F', '#'], seq!['2', '4', '4', '3', '2', '2'], seq!['2', '4', '4', '2', '2', '2'], seq!['2', '4', '2', '3', '2', '2'], seq!['2', '4', '3', '3', '2', '2'], seq!['2', '4', '2', '2', '2', '2'])[3]),
{
    reveal_with_fuel(sounding_from, 7);
    reveal_with_fuel(has_u8, 7);
    reveal_with_fuel(all_u8_in, 7);
    reveal_with_fuel(crate::text::find_from, 5);
    reveal_strlit("maj7");
    let v = root_voicings(seq!['F', '#'], seq!['2', '4', '4', '3', '2', '2'], seq!['2', '4', '4', '2', '2', '2'], seq!['2', '4', '2', '3', '2', '2'], seq!['2', '4', '3', '3', '2', '2'], seq!['2', '4', '2', '2', '2', '2'])[3];
    assert(symbol_text(seq!['F', '#'], seq!['m', 'a', 'j', '7'], None) =~= v.chord);
    lemma_passes_checks(seq!['F', '#'], seq!['m', 'a', 'j', '7'], None, v);
}

#[verifier::spinoff_prover]
proof fn lemma_folk_voicing_11_4()
    ensures
        voicing_checks(root_voicings(seq!['F', '#'], seq!['2', '4', '4', '3', '2', '2'], seq!['2', '4', '4', '2', '2', '2'], seq!['2', '4', '2', '3', '2', '2'], seq!['2', '4', '3', '3', '2', '2'], seq!['2', '4', '2', '2', '2', '2'])[4]),
{
    reveal_with_fuel(sounding_from, 7);
    reveal_with_fuel(has_u8, 7);
    reveal_with_fuel(all_u8_in, 7);
    reveal_with_fuel(crate::text::find_from, 5);
    reveal_strlit("maj7");
    let v = root_voicings(seq!['F', '#'], seq!['2', '4', '4', '3', '2', '2'], seq!['2', '4', '4', '2', '2', '2'], seq!['2', '4', '2', '3', '2', '2'], seq!['2', '4', '3', '3', '2', '2'], seq!['2', '4', '2', '2', '2', '2'])[4];
    assert(symbol_text(seq!['F', '#'], seq!['m', '7'], None) =~= v.chord);
    lemma_passes_checks(seq!['F', '#'], seq!['m', '7'], None, v);
}

#[verifier::spinoff_prover]
#[verifier::rlimit(40)]
proof fn lemma_folk_group_11()
    ensures
        all_check(root_voicings(seq!['F', '#'], seq!['2', '4', '4', '3', '2', '2'], seq!['2', '4', '4', '2', '2', '2'], seq!['2', '4', '2', '3', '2', '2'], seq!['2', '4', '3', '3', '2', '2'], seq!['2', '4', '2', '2', '2', '2'])),
{
    lemma_folk_voicing_11_0();
    lemma_folk_voicing_11_1();
    lemma_folk_voicing_11_2();
    lemma_folk_voicing_11_3();
    lemma_folk_voicing_11_4();
}

#[verifier::spinoff_prover]
proof fn lemma_folk_voicing_12_0()
    ensures
        voicing_checks(root_voicings(seq!['G', 'b'], seq!['2', '4', '4', '3', '2', '2'], seq!['2', '4', '4', '2', '2', '2'], seq!['2', '4', '2', '3', '2', '2'], seq!['2', '4', '3', '3', '2', '2'], seq!['2', '4', '2', '2', '2', '2'])[0]),
{
    reveal_with_fuel(sounding_from, 7);
    reveal_with_fuel(has_u8, 7);
    reveal_with_fuel(all_u8_in, 7);
    reveal_with_fuel(crate::text::find_from, 5);
    reveal_strlit("maj7");
    let v = root_voicings(seq!['G', 'b'], seq!['2', '4', '4', '3', '2', '2'], seq!['2', '4', '4', '2', '2', '2'], seq!['2', '4', '2', '3', '2', '2'], seq!['2', '4', '3', '3', '2', '2'], seq!['2', '4', '2', '2', '2', '2'])[0];
    assert(symbol_text(seq!['G', 'b'], seq![], None) =~= v.chord);
    lemma_passes_checks(seq!['G', 'b'], seq![], None, v);
}

#[verifier::spinoff_prover]
proof fn lemma_folk_voicing_12_1()
    ensures
        voicing_checks(root_voicings(seq!['G', 'b'], seq!['2', '4', '4', '3', '2', '2'], seq!['2', '4', '4', '2', '2', '2'], seq!['2', '4', '2', '3', '2', '2'], seq!['2', '4', '3', '3', '2', '2'], seq!['2', '4', '2', '2', '2', '2'])[1]),
{
    reveal_with_fuel(sounding_from, 7);
    reveal_with_fuel(has_u8, 7);
    reveal_with_fuel(all_u8_in, 7);
    reveal_with_fuel(crate::text::find_from, 5);
    reveal_strlit("maj7");
    let v = root_voicings(seq!['G', 'b'], seq!['2', '4', '4', '3', '2', '2'], seq!['2', '4', '4', '2', '2', '2'], seq!['2', '4', '2', '3', '2', '2'], seq!['2', '4', '3', '3', '2', '2'], seq!['2', '4', '2', '2', '2', '2'])[1];
    assert(symbol_text(seq!['G', 'b'], seq!['m'], None) =~= v.chord);
    lemma_passes_checks(seq!['G', 'b'], seq!['m'], None, v);
}

#[verifier::spinoff_prover]
proof fn lemma_folk_voicing_12_2()
    ensures
        voicing_checks(root_voicings(seq!['G', 'b'], seq!['2', '4', '4', '3', '2', '2'], seq!['2', '4', '4', '2', '2', '2'], seq!['2', '4', '2', '3', '2', '2'], seq!['2', '4', '3', '3', '2', '2'], seq!['2', '4', '2', '2', '2', '2'])[2]),
{
    reveal_with_fuel(sounding_from, 7);
    reveal_with_fuel(has_u8, 7);
    reveal_with_fuel(all_u8_in, 7);
    reveal_with_fuel(crate::text::find_from, 5);
    reveal_strlit("maj7");
    let v = root_voicings(seq!['G', 'b'], seq!['2', '4', '4', '3', '2', '2'], seq!['2', '4', '4', '2', '2', '2'], seq!['2', '4', '2', '3', '2', '2'], seq!['2', '4', '3', '3', '2', '2'], seq!['2', '4', '2', '2', '2', '2'])[2];
    assert(symbol_text(seq!['G', 'b'], seq!['7'], None) =~= v.chord);
    lemma_passes_checks(seq!['G', 'b'], seq!['7'], None, v);
}

#[verifier::spinoff_prover]
proof fn lemma_folk_voicing_12_3()
    ensures
        voicing_checks(root_voicings(seq!['G', 'b'], seq!['2', '4', '4', '3', '2', '2'], seq!['2', '4', '4', '2', '2', '2'], seq!['2', '4', '2', '3', '2', '2'], seq!['2', '4', '3', '3', '2', '2'], seq!['2', '4', '2', '2', '2', '2'])[3]),
{
    reveal_with_fuel(sounding_from, 7);
    reveal_with_fuel(has_u8, 7);
    reveal_with_fuel(all_u8_in, 7);
    reveal_with_fuel(crate::text::find_from, 5);
    reveal_strlit("maj7");
    let v = root_voicings(seq!['G', 'b'], seq!['2', '4', '4', '3', '2', '2'], seq!['2', '4', '4', '2', '2', '2'], seq!['2', '4', '2', '3', '2', '2'], seq!['2', '4', '3', '3', '2', '2'], seq!['2', '4', '2', '2', '2', '2'])[3];
    assert(symbol_text(seq!['G', 'b'], seq!['m', 'a', 'j', '7'], None) =~= v.chord);
    lemma_passes_checks(seq!['G', 'b'], seq!['m', 'a', 'j', '7'], None, v);
}

#[verifier::spinoff_prover]
proof fn lemma_folk_voicing_12_4()
    ensures
        voicing_checks(root_voicings(seq!['G', 'b'], seq!['2', '4', '4', '3', '2', '2'], seq!['2', '4', '4', '2', '2', '2'], seq!['2', '4', '2', '3', '2', '2'], seq!['2', '4', '3', '3', '2', '2'], seq!['2', '4', '2', '2', '2', '2'])[4]),
{
    reveal_with_fuel(sounding_from, 7);
    reveal_with_fuel(has_u8, 7);
    reveal_with_fuel(all_u8_in, 7);
    reveal_with_fuel(crate::text::find_from, 5);
    reveal_strlit("maj7");
    let v = root_voicings(seq!['G', 'b'], seq!['2', '4', '4', '3', '2', '2'], seq!['2', '4', '4', '2', '2', '2'], seq!['2', '4', '2', '3', '2', '2'], seq!['2', '4', '3', '3', '2', '2'], seq!['2', '4', '2', '2', '2', '2'])[4];
    assert(symbol_text(seq!['G', 'b'], seq!['m', '7'], None) =~= v.chord);
    lemma_passes_checks(seq!['G', 'b'], seq!['m', '7'], None, v);
}

#[verifier::spinoff_prover]
#[verifier::rlimit(40)]
proof fn lemma_folk_group_12()
    ensures
        all_check(root_voicings(seq!['G', 'b'], seq!['2', '4', '4', '3', '2', '2'], seq!['2', '4', '4', '2', '2', '2'], seq!['2', '4', '2', '3', '2', '2'], seq!['2', '4', '3', '3', '2', '2'], seq!['2', '4', '2', '2', '2', '2'])),
{
    lemma_folk_voicing_12_0();
    lemma_folk_voicing_12_1();
    lemma_folk_voicing_12_2();
    lemma_folk_voicing_12_3();
    lemma_folk_voicing_12_4();
}

#[verifier::spinoff_prover]
proof fn lemma_folk_voicing_13_0()
    ensures
        voicing_checks(root_voicings(seq!['G'], seq!['3', '2', '0', '0', '0', '3'], seq!['3', '5', '5', '3', '3', '3'], seq!['3', '2', '0', '0', '0', '1'], seq!['3', '2', '0', '0', '0', '2'], seq!['3', '5', '3', '3', '3', '3'])[0]),
{
    reveal_with_fuel(sounding_from, 7);
    reveal_with_fuel(has_u8, 7);
    reveal_with_fuel(all_u8_in, 7);
    reveal_with_fuel(crate::text::find_from, 5);
    reveal_strlit("maj7");
    let v = root_voicings(seq!['G'], seq!['3', '2', '0', '0', '0', '3'], seq!['3', '5', '5', '3', '3', '3'], seq!['3', '2', '0', '0', '0', '1'], seq!['3', '2', '0', '0', '0', '2'], seq!['3', '5', '3', '3', '3', '3'])[0];
    assert(symbol_text(seq!['G'], seq![], None) =~= v.chord);
    lemma_passes_checks(seq!['G'], seq![], None, v);
}

#[verifier::spinoff_prover]
proof fn lemma_folk_voicing_13_1()
    ensures
        voicing_checks(root_voicings(seq!['G'], seq!['3', '2', '0', '0', '0', '3'], seq!['3', '5', '5', '3', '3', '3'], seq!['3', '2', '0', '0', '0', '1'], seq!['3', '2', '0', '0', '0', '2'], seq!['3', '5', '3', '3', '3', '3'])[1]),
{
    reveal_with_fuel(sounding_from, 7);
    reveal_with_fuel(has_u8, 7);
    reveal_with_fuel(all_u8_in, 7);
    reveal_with_fuel(crate::text::find_from, 5);
    reveal_strlit("maj7");
    let v = root_voicings(seq!['G'], seq!['3', '2', '0', '0', '0', '3'], seq!['3', '5', '5', '3', '3', '3'], seq!['3', '2', '0', '0', '0', '1'], seq!['3', '2', '0', '0', '0', '2'], seq!['3', '5', '3', '3', '3', '3'])[1];
    assert(symbol_text(seq!['G'], seq!['m'], None) =~= v.chord);
    lemma_passes_checks(seq!['G'], seq!['m'], None, v);
}

#[verifier::spinoff_prover]
proof fn lemma_folk_voicing_13_2()
    ensures
        voicing_checks(root_voicings(seq!['G'], seq!['3', '2', '0', '0', '0', '3'], seq!['3', '5', '5', '3', '3', '3'], seq!['3', '2', '0', '0', '0', '1'], seq!['3', '2', '0', '0', '0', '2'], seq!['3', '5', '3', '3', '3', '3'])[2]),
{
    reveal_with_fuel(sounding_from, 7);
    reveal_with_fuel(has_u8, 7);
    reveal_with_fuel(all_u8_in, 7);
    reveal_with_fuel(crate::text::find_from, 5);
    reveal_strlit("maj7");
    let v = root_voicings(seq!['G'], seq!['3', '2', '0', '0', '0', '3'], seq!['3', '5', '5', '3', '3', '3'], seq!['3', '2', '0', '0', '0', '1'], seq!['3', '2', '0', '0', '0', '2'], seq!['3', '5', '3', '3', '3', '3'])[2];
    assert(symbol_text(seq!['G'], seq!['7'], None) =~= v.chord);
    lemma_passes_checks(seq!['G'], seq!['7'], None, v);
}

#[verifier::spinoff_prover]
proof fn lemma_folk_voicing_13_3()
    ensures
        voicing_checks(root_voicings(seq!['G'], seq!['3', '2', '0', '0', '0', '3'], seq!['3', '5', '5', '3', '3', '3'], seq!['3', '2', '0', '0', '0', '1'], seq!['3', '2', '0', '0', '0', '2'], seq!['3', '5', '3', '3', '3', '3'])[3]),
{
    reveal_with_fuel(sounding_from, 7);
    reveal_with_fuel(has_u8, 7);
    reveal_with_fuel(all_u8_in, 7);
    reveal_with_fuel(crate::text::find_from, 5);
    reveal_strlit("maj7");
    let v = root_voicings(seq!['G'], seq!['3', '2', '0', '0', '0', '3'], seq!['3', '5', '5', '3', '3', '3'], seq!['3', '2', '0', '0', '0', '1'], seq!['3', '2', '0', '0', '0', '2'], seq!['3', '5', '3', '3', '3', '3'])[3];
    assert(symbol_text(seq!['G'], seq!['m', 'a', 'j', '7'], None) =~= v.chord);
    lemma_passes_checks(seq!['G'], seq!['m', 'a', 'j', '7'], None, v);
}

#[verifier::spinoff_prover]
proof fn lemma_folk_voicing_13_4()
    ensures
        voicing_checks(root_voicings(seq!['G'], seq!['3', '2', '0', '0', '0', '3'], seq!['3', '5', '5', '3', '3', '3'], seq!['3', '2', '0', '0', '0', '1'], seq!['3', '2', '0', '0', '0', '2'], seq!['3', '5', '3', '3', '3', '3'])[4]),
{
    reveal_with_fuel(sounding_from, 7);
    reveal_with_fuel(has_u8, 7);
    reveal_with_fuel(all_u8_in, 7);
    reveal_with_fuel(crate::text::find_from, 5);
    reveal_strlit("maj7");
    let v = root_voicings(seq!['G'], seq!['3', '2', '0', '0', '0', '3'], seq!['3', '5', '5', '3', '3', '3'], seq!['3', '2', '0', '0', '0', '1'], seq!['3', '2', '0', '0', '0', '2'], seq!['3', '5', '3', '3', '3', '3'])[4];
    assert(symbol_text(seq!['G'], seq!['m', '7'], None) =~= v.chord);
    lemma_passes_checks(seq!['G'], seq!['m', '7'], None, v);
}

#[verifier::spinoff_prover]
#[verifier::rlimit(40)]
proof fn lemma_folk_group_13()
    ensures
        all_check(root_voicings(seq!['G'], seq!['3', '2', '0', '0', '0', '3'], seq!['3', '5', '5', '3', '3', '3'], seq!['3', '2', '0', '0', '0', '1'], seq!['3', '2', '0', '0', '0', '2'], seq!['3', '5', '3', '3', '3', '3'])),
{
    lemma_folk_voicing_13_0();
    lemma_folk_voicing_13_1();
    lemma_folk_voicing_13_2();
    lemma_folk_voicing_13_3();
    lemma_folk_voicing_13_4();
}

#[verifier::spinoff_prover]
proof fn lemma_folk_voicing_14_0()
    ensures
        voicing_checks(root_voicings(seq!['G', '#'], seq!['4', '6', '6', '5', '4', '4'], seq!['4', '6', '6', '4', '4', '4'], seq!['4', '6', '4', '5', '4', '4'], seq!['4', '6', '5', '5', '4', '4'], seq!['4', '6', '4', '4', '4', '4'])[0]),
{
    reveal_with_fuel(sounding_from, 7);
    reveal_with_fuel(has_u8, 7);
    reveal_with_fuel(all_u8_in, 7);
    reveal_with_fuel(crate::text::find_from, 5);
    reveal_strlit("maj7");
    let v = root_voicings(seq!['G', '#'], seq!['4', '6', '6', '5', '4', '4'], seq!['4', '6', '6', '4', '4', '4'], seq!['4', '6', '4', '5', '4', '4'], seq!['4', '6', '5', '5', '4', '4'], seq!['4', '6', '4', '4', '4', '4'])[0];
    assert(symbol_text(seq!['G', '#'], seq![], None) =~= v.chord);
    lemma_passes_checks(seq!['G', '#'], seq![], None, v);
}

#[verifier::spinoff_prover]
proof fn lemma_folk_voicing_14_1()
    ensures
        voicing_checks(root_voicings(seq!['G', '#'], seq!['4', '6', '6', '5', '4', '4'], seq!['4', '6', '6', '4', '4', '4'], seq!['4', '6', '4', '5', '4', '4'], seq!['4', '6', '5', '5', '4', '4'], seq!['4', '6', '4', '4', '4', '4'])[1]),
{
    reveal_with_fuel(sounding_from, 7);
    reveal_with_fuel(has_u8, 7);
    reveal_with_fuel(all_u8_in, 7);
    reveal_with_fuel(crate::text::find_from, 5);
    reveal_strlit("maj7");
    let v = root_voicings(seq!['G', '#'], seq!['4', '6', '6', '5', '4', '4'], seq!['4', '6', '6', '4', '4', '4'], seq!['4', '6', '4', '5', '4', '4'], seq!['4', '6', '5', '5', '4', '4'], seq!['4', '6', '4', '4', '4', '4'])[1];
    assert(symbol_text(seq!['G', '#'], seq!['m'], None) =~= v.chord);
    lemma_passes_checks(seq!['G', '#'], seq!['m'], None, v);
}

#[verifier::spinoff_prover]
proof fn lemma_folk_voicing_14_2()
    ensures
        voicing_checks(root_voicings(seq!['G', '#'], seq!['4', '6', '6', '5', '4', '4'], seq!['4', '6', '6', '4', '4', '4'], seq!['4', '6', '4', '5', '4', '4'], seq!['4', '6', '5', '5', '4', '4'], seq!['4', '6', '4', '4', '4', '4'])[2]),
{
    reveal_with_fuel(sounding_from, 7);
    reveal_with_fuel(has_u8, 7);
    reveal_with_fuel(all_u8_in, 7);
    reveal_with_fuel(crate::text::find_from, 5);
    reveal_strlit("maj7");
    let v = root_voicings(seq!['G', '#'], seq!['4', '6', '6', '5', '4', '4'], seq!['4', '6', '6', '4', '4', '4'], seq!['4', '6', '4', '5', '4', '4'], seq!['4', '6', '5', '5', '4', '4'], seq!['4', '6', '4', '4', '4', '4'])[2];
    assert(symbol_text(seq!['G', '#'], seq!['7'], None) =~= v.chord);
    lemma_passes_checks(seq!['G', '#'], seq!['7'], None, v);
}

#[verifier::spinoff_prover]
proof fn lemma_folk_voicing_14_3()
    ensures
        voicing_checks(root_voicings(seq!['G', '#'], seq!['4', '6', '6', '5', '4', '4'], seq!['4', '6', '6', '4', '4', '4'], seq!['4', '6', '4', '5', '4', '4'], seq!['4', '6', '5', '5', '4', '4'], seq!['4', '6', '4', '4', '4', '4'])[3]),
{
    reveal_with_fuel(sounding_from, 7);
    reveal_with_fuel(has_u8, 7);
    reveal_with_fuel(all_u8_in, 7);
    reveal_with_fuel(crate::text::find_from, 5);
    reveal_strlit("maj7");
    let v = root_voicings(seq!['G', '#'], seq!['4', '6', '6', '5', '4', '4'], seq!['4', '6', '6', '4', '4', '4'], seq!['4', '6', '4', '5', '4', '4'], seq!['4', '6', '5', '5', '4', '4'], seq!['4', '6', '4', '4', '4', '4'])[3];
    assert(symbol_text(seq!['G', '#'], seq!['m', 'a', 'j', '7'], None) =~= v.chord);
    lemma_passes_checks(seq!['G', '#'], seq!['m', 'a', 'j', '7'], None, v);
}

#[verifier::spinoff_prover]
proof fn lemma_folk_voicing_14_4()
    ensures
        voicing_checks(root_voicings(seq!['G', '#'], seq!['4', '6', '6', '5', '4', '4'], seq!['4', '6', '6', '4', '4', '4'], seq!['4', '6', '4', '5', '4', '4'], seq!['4', '6', '5', '5', '4', '4'], seq!['4', '6', '4', '4', '4', '4'])[4]),
{
    reveal_with_fuel(sounding_from, 7);
    reveal_with_fuel(has_u8, 7);
    reveal_with_fuel(all_u8_in, 7);
    reveal_with_fuel(crate::text::find_from, 5);
    reveal_strlit("maj7");
    let v = root_voicings(seq!['G', '#'], seq!['4', '6', '6', '5', '4', '4'], seq!['4', '6', '6', '4', '4', '4'], seq!['4', '6', '4', '5', '4', '4'], seq!['4', '6', '5', '5', '4', '4'], seq!['4', '6', '4', '4', '4', '4'])[4];
    assert(symbol_text(seq!['G', '#'], seq!['m', '7'], None) =~= v.chord);
    lemma_passes_checks(seq!['G', '#'], seq!['m', '7'], None, v);
}

#[verifier::spinoff_prover]
#[verifier::rlimit(40)]
proof fn lemma_folk_group_14()
    ensures
        all_check(root_voicings(seq!['G', '#'], seq!['4', '6', '6', '5', '4', '4'], seq!['4', '6', '6', '4', '4', '4'], seq!['4', '6', '4', '5', '4', '4'], seq!['4', '6', '5', '5', '4', '4'], seq!['4', '6', '4', '4', '4', '4'])),
{
    lemma_folk_voicing_14_0();
    lemma_folk_voicing_14_1();
    lemma_folk_voicing_14_2();
    lemma_folk_voicing_14_3();
    lemma_folk_voicing_14_4();
}

#[verifier::spinoff_prover]
proof fn lemma_folk_voicing_15_0()
    ensures
        voicing_checks(root_voicings(seq!['A', 'b'], seq!['4', '6', '6', '5', '4', '4'], seq!['4', '6', '6', '4', '4', '4'], seq!['4', '6', '4', '5', '4', '4'], seq!['4', '6', '5', '5', '4', '4'], seq!['4', '6', '4', '4', '4', '4'])[0]),
{
    reveal_with_fuel(sounding_from, 7);
    reveal_with_fuel(has_u8, 7);
    reveal_with_fuel(all_u8_in, 7);
    reveal_with_fuel(crate::text::find_from, 5);
    reveal_strlit("maj7");
    let v = root_voicings(seq!['A', 'b'], seq!['4', '6', '6', '5', '4', '4'], seq!['4', '6', '6', '4', '4', '4'], seq!['4', '6', '4', '5', '4', '4'], seq!['4', '6', '5', '5', '4', '4'], seq!['4', '6', '4', '4', '4', '4'])[0];
    assert(symbol_text(seq!['A', 'b'], seq![], None) =~= v.chord);
    lemma_passes_checks(seq!['A', 'b'], seq![], None, v);
}

#[verifier::spinoff_prover]
proof fn lemma_folk_voicing_15_1()
    ensures
        voicing_checks(root_voicings(seq!['A', 'b'], seq!['4', '6', '6', '5', '4', '4'], seq!['4', '6', '6', '4', '4', '4'], seq!['4', '6', '4', '5', '4', '4'], seq!['4', '6', '5', '5', '4', '4'], seq!['4', '6', '4', '4', '4', '4'])[1]),
{
    reveal_with_fuel(sounding_from, 7);
    reveal_with_fuel(has_u8, 7);
    reveal_with_fuel(all_u8_in, 7);
    reveal_with_fuel(crate::text::find_from, 5);
    reveal_strlit("maj7");
    let v = root_voicings(seq!['A', 'b'], seq!['4', '6', '6', '5', '4', '4'], seq!['4', '6', '6', '4', '4', '4'], seq!['4', '6', '4', '5', '4', '4'], seq!['4', '6', '5', '5', '4', '4'], seq!['4', '6', '4', '4', '4', '4'])[1];
    assert(symbol_text(seq!['A', 'b'], seq!['m'], None) =~= v.chord);
    lemma_passes_checks(seq!['A', 'b'], seq!['m'], None, v);
}

#[verifier::spinoff_prover]
proof fn lemma_folk_voicing_15_2()
    ensures
        voicing_checks(root_voicings(seq!['A', 'b'], seq!['4', '6', '6', '5', '4', '4'], seq!['4', '6', '6', '4', '4', '4'], seq!['4', '6', '4', '5', '4', '4'], seq!['4', '6', '5', '5', '4', '4'], seq!['4', '6', '4', '4', '4', '4'])[2]),
{
    reveal_with_fuel(sounding_from, 7);
    reveal_with_fuel(has_u8, 7);
    reveal_with_fuel(all_u8_in, 7);
    reveal_with_fuel(crate::text::find_from, 5);
    reveal_strlit("maj7");
    let v = root_voicings(seq!['A', 'b'], seq!['4', '6', '6', '5', '4', '4'], seq!['4', '6', '6', '4', '4', '4'], seq!['4', '6', '4', '5', '4', '4'], seq!['4', '6', '5', '5', '4', '4'], seq!['4', '6', '4', '4', '4', '4'])[2];
    assert(symbol_text(seq!['A', 'b'], seq!['7'], None) =~= v.chord);
    lemma_passes_checks(seq!['A', 'b'], seq!['7'], None, v);
}

#[verifier::spinoff_prover]
proof fn lemma_folk_voicing_15_3()
    ensures
        voicing_checks(root_voicings(seq!['A', 'b'], seq!['4', '6', '6', '5', '4', '4'], seq!['4', '6', '6', '4', '4', '4'], seq!['4', '6', '4', '5', '4', '4'], seq!['4', '6', '5', '5', '4', '4'], seq!['4', '6', '4', '4', '4', '4'])[3]),
{
    reveal_with_fuel(sounding_from, 7);
    reveal_with_fuel(has_u8, 7);
    reveal_with_fuel(all_u8_in, 7);
    reveal_with_fuel(crate::text::find_from, 5);
    reveal_strlit("maj7");
    let v = root_voicings(seq!['A', 'b'], seq!['4', '6', '6', '5', '4', '4'], seq!['4', '6', '6', '4', '4', '4'], seq!['4', '6', '4', '5', '4', '4'], seq!['4', '6', '5', '5', '4', '4'], seq!['4', '6', '4', '4', '4', '4'])[3];
    assert(symbol_text(seq!['A', 'b'], seq!['m', 'a', 'j', '7'], None) =~= v.chord);
    lemma_passes_checks(seq!['A', 'b'], seq!['m', 'a', 'j', '7'], None, v);
}

#[verifier::spinoff_prover]
proof fn lemma_folk_voicing_15_4()
    ensures
        voicing_checks(root_voicings(seq!['A', 'b'], seq!['4', '6', '6', '5', '4', '4'], seq!['4', '6', '6', '4', '4', '4'], seq!['4', '6', '4', '5', '4', '4'], seq!['4', '6', '5', '5', '4', '4'], seq!['4', '6', '4', '4', '4', '4'])[4]),
{
    reveal_with_fuel(sounding_from, 7);
    reveal_with_fuel(has_u8, 7);
    reveal_with_fuel(all_u8_in, 7);
    reveal_with_fuel(crate::text::find_from, 5);
    reveal_strlit("maj7");
    let v = root_voicings(seq!['A', 'b'], seq!['4', '6', '6', '5', '4', '4'], seq!['4', '6', '6', '4', '4', '4'], seq!['4', '6', '4', '5', '4', '4'], seq!['4', '6', '5', '5', '4', '4'], seq!['4', '6', '4', '4', '4', '4'])[4];
    assert(symbol_text(seq!['A', 'b'], seq!['m', '7'], None) =~= v.chord);
    lemma_passes_checks(seq!['A', 'b'], seq!['m', '7'], None, v);
}

#[verifier::spinoff_prover]
#[verifier::rlimit(40)]
proof fn lemma_folk_group_15()
    ensures
        all_check(root_voicings(seq!['A', 'b'], seq!['4', '6', '6', '5', '4', '4'], seq!['4', '6', '6', '4', '4', '4'], seq!['4', '6', '4', '5', '4', '4'], seq!['4', '6', '5', '5', '4', '4'], seq!['4', '6', '4', '4', '4', '4'])),
{
    lemma_folk_voicing_15_0();
    lemma_folk_voicing_15_1();
    lemma_folk_voicing_15_2();
    lemma_folk_voicing_15_3();
    lemma_folk_voicing_15_4();
}

#[verifier::spinoff_prover]
proof fn lemma_folk_voicing_16_0()
    ensures
        voicing_checks(root_voicings(seq!['A'], seq!['x', '0', '2', '2', '2', '0'], seq!['x', '0', '2', '2', '1', '0'], seq!['x', '0', '2', '0', '2', '0'], seq!['x', '0', '2', '1', '2', '0'], seq!['x', '0', '2', '0', '1', '0'])[0]),
{
    reveal_with_fuel(sounding_from, 7);
    reveal_with_fuel(has_u8, 7);
    reveal_with_fuel(all_u8_in, 7);
    reveal_with_fuel(crate::text::find_from, 5);
    reveal_strlit("maj7");
    let v = root_voicings(seq!['A'], seq!['x', '0', '2', '2', '2', '0'], seq!['x', '0', '2', '2', '1', '0'], seq!['x', '0', '2', '0', '2', '0'], seq!['x', '0', '2', '1', '2', '0'], seq!['x', '0', '2', '0', '1', '0'])[0];
    assert(symbol_text(seq!['A'], seq![], None) =~= v.chord);
    lemma_passes_checks(seq!['A'], seq![], None, v);
}

#[verifier::spinoff_prover]
proof fn lemma_folk_voicing_16_1()
    ensures
        voicing_checks(root_voicings(seq!['A'], seq!['x', '0', '2', '2', '2', '0'], seq!['x', '0', '2', '2', '1', '0'], seq!['x', '0', '2', '0', '2', '0'], seq!['x', '0', '2', '1', '2', '0'], seq!['x', '0', '2', '0', '1', '0'])[1]),
{
    reveal_with_fuel(sounding_from, 7);
    reveal_with_fuel(has_u8, 7);
    reveal_with_fuel(all_u8_in, 7);
    reveal_with_fuel(crate::text::find_from, 5);
    reveal_strlit("maj7");
    let v = root_voicings(seq!['A'], seq!['x', '0', '2', '2', '2', '0'], seq!['x', '0', '2', '2', '1', '0'], seq!['x', '0', '2', '0', '2', '0'], seq!['x', '0', '2', '1', '2', '0'], seq!['x', '0', '2', '0', '1', '0'])[1];
    assert(symbol_text(seq!['A'], seq!['m'], None) =~= v.chord);
    lemma_passes_checks(seq!['A'], seq!['m'], None, v);
}

#[verifier::spinoff_prover]
proof fn lemma_folk_voicing_16_2()
    ensures
        voicing_checks(root_voicings(seq!['A'], seq!['x', '0', '2', '2', '2', '0'], seq!['x', '0', '2', '2', '1', '0'], seq!['x', '0', '2', '0', '2', '0'], seq!['x', '0', '2', '1', '2', '0'], seq!['x', '0', '2', '0', '1', '0'])[2]),
{
    reveal_with_fuel(sounding_from, 7);
    reveal_with_fuel(has_u8, 7);
    reveal_with_fuel(all_u8_in, 7);
    reveal_with_fuel(crate::text::find_from, 5);
    reveal_strlit("maj7");
    let v = root_voicings(seq!['A'], seq!['x', '0', '2', '2', '2', '0'], seq!['x', '0', '2', '2', '1', '0'], seq!['x', '0', '2', '0', '2', '0'], seq!['x', '0', '2', '1', '2', '0'], seq!['x', '0', '2', '0', '1', '0'])[2];
    assert(symbol_text(seq!['A'], seq!['7'], None) =~= v.chord);
    lemma_passes_checks(seq!['A'], seq!['7'], None, v);
}

#[verifier::spinoff_prover]
proof fn lemma_folk_voicing_16_3()
    ensures
        voicing_checks(root_voicings(seq!['A'], seq!['x', '0', '2', '2', '2', '0'], seq!['x', '0', '2', '2', '1', '0'], seq!['x', '0', '2', '0', '2', '0'], seq!['x', '0', '2', '1', '2', '0'], seq!['x', '0', '2', '0', '1', '0'])[3]),
{
    reveal_with_fuel(sounding_from, 7);
    reveal_with_fuel(has_u8, 7);
    reveal_with_fuel(all_u8_in, 7);
    reveal_with_fuel(crate::text::find_from, 5);
    reveal_strlit("maj7");
    let v = root_voicings(seq!['A'], seq!['x', '0', '2', '2', '2', '0'], seq!['x', '0', '2', '2', '1', '0'], seq!['x', '0', '2', '0', '2', '0'], seq!['x', '0', '2', '1', '2', '0'], seq!['x', '0', '2', '0', '1', '0'])[3];
    assert(symbol_text(seq!['A'], seq!['m', 'a', 'j', '7'], None) =~= v.chord);
    lemma_passes_checks(seq!['A'], seq!['m', 'a', 'j', '7'], None, v);
}

#[verifier::spinoff_prover]
proof fn lemma_folk_voicing_16_4()
    ensures
        voicing_checks(root_voicings(seq!['A'], seq!['x', '0', '2', '2', '2', '0'], seq!['x', '0', '2', '2', '1', '0'], seq!['x', '0', '2', '0', '2', '0'], seq!['x', '0', '2', '1', '2', '0'], seq!['x', '0', '2', '0', '1', '0'])[4]),
{
    reveal_with_fuel(sounding_from, 7);
    reveal_with_fuel(has_u8, 7);
    reveal_with_fuel(all_u8_in, 7);
    reveal_with_fuel(crate::text::find_from, 5);
    reveal_strlit("maj7");
    let v = root_voicings(seq!['A'], seq!['x', '0', '2', '2', '2', '0'], seq!['x', '0', '2', '2', '1', '0'], seq!['x', '0', '2', '0', '2', '0'], seq!['x', '0', '2', '1', '2', '0'], seq!['x', '0', '2', '0', '1', '0'])[4];
    assert(symbol_text(seq!['A'], seq!['m', '7'], None) =~= v.chord);
    lemma_passes_checks(seq!['A'], seq!['m', '7'], None, v);
}

#[verifier::spinoff_prover]
#[verifier::rlimit(40)]
proof fn lemma_folk_group_16()
    ensures
        all_check(root_voicings(seq!['A'], seq!['x', '0', '2', '2', '2', '0'], seq!['x', '0', '2', '2', '1', '0'], seq!['x', '0', '2', '0', '2', '0'], seq!['x', '0', '2', '1', '2', '0'], seq!['x', '0', '2', '0', '1', '0'])),
{
    lemma_folk_voicing_16_0();
    lemma_folk_voicing_16_1();
    lemma_folk_voicing_16_2();
    lemma_folk_voicing_16_3();
    lemma_folk_voicing_16_4();
}

#[verifier::spinoff_prover]
proof fn lemma_folk_voicing_17_0()
    ensures
        voicing_checks(root_voicings(seq!['A', '#'], seq!['x', '1', '3', '3', '3', '1'], seq!['x', '1', '3', '3', '2', '1'], seq!['x', '1', '3', '1', '3', '1'], seq!['x', '1', '3', '2', '3', '1'], seq!['x', '1', '3', '1', '2', '1'])[0]),
{
    reveal_with_fuel(sounding_from, 7);
    reveal_with_fuel(has_u8, 7);
    reveal_with_fuel(all_u8_in, 7);
    reveal_with_fuel(crate::text::find_from, 5);
    reveal_strlit("maj7");
    let v = root_voicings(seq!['A', '#'], seq!['x', '1', '3', '3', '3', '1'], seq!['x', '1', '3', '3', '2', '1'], seq!['x', '1', '3', '1', '3', '1'], seq!['x', '1', '3', '2', '3', '1'], seq!['x', '1', '3', '1', '2', '1'])[0];
    assert(symbol_text(seq!['A', '#'], seq![], None) =~= v.chord);
    lemma_passes_checks(seq!['A', '#'], seq![], None, v);
}

#[verifier::spinoff_prover]
proof fn lemma_folk_voicing_17_1()
    ensures
        voicing_checks(root_voicings(seq!['A', '#'], seq!['x', '1', '3', '3', '3', '1'], seq!['x', '1', '3', '3', '2', '1'], seq!['x', '1', '3', '1', '3', '1'], seq!['x', '1', '3', '2', '3', '1'], seq!['x', '1', '3', '1', '2', '1'])[1]),
{
    reveal_with_fuel(sounding_from, 7);
    reveal_with_fuel(has_u8, 7);
    reveal_with_fuel(all_u8_in, 7);
    reveal_with_fuel(crate::text::find_from, 5);
    reveal_strlit("maj7");
    let v = root_voicings(seq!['A', '#'], seq!['x', '1', '3', '3', '3', '1'], seq!['x', '1', '3', '3', '2', '1'], seq!['x', '1', '3', '1', '3', '1'], seq!['x', '1', '3', '2', '3', '1'], seq!['x', '1', '3', '1', '2', '1'])[1];
    assert(symbol_text(seq!['A', '#'], seq!['m'], None) =~= v.chord);
    lemma_passes_checks(seq!['A', '#'], seq!['m'], None, v);
}

#[verifier::spinoff_prover]
proof fn lemma_folk_voicing_17_2()
    ensures
        voicing_checks(root_voicings(seq!['A', '#'], seq!['x', '1', '3', '3', '3', '1'], seq!['x', '1', '3', '3', '2', '1'], seq!['x', '1', '3', '1', '3', '1'], seq!['x', '1', '3', '2', '3', '1'], seq!['x', '1', '3', '1', '2', '1'])[2]),
{
    reveal_with_fuel(sounding_from, 7);
    reveal_with_fuel(has_u8, 7);
    reveal_with_fuel(all_u8_in, 7);
    reveal_with_fuel(crate::text::find_from, 5);
    reveal_strlit("maj7");
    let v = root_voicings(seq!['A', '#'], seq!['x', '1', '3', '3', '3', '1'], seq!['x', '1', '3', '3', '2', '1'], seq!['x', '1', '3', '1', '3', '1'], seq!['x', '1', '3', '2', '3', '1'], seq!['x', '1', '3', '1', '2', '1'])[2];
    assert(symbol_text(seq!['A', '#'], seq!['7'], None) =~= v.chord);
    lemma_passes_checks(seq!['A', '#'], seq!['7'], None, v);
}

#[verifier::spinoff_prover]
proof fn lemma_folk_voicing_17_3()
    ensures
        voicing_checks(root_voicings(seq!['A', '#'], seq!['x', '1', '3', '3', '3', '1'], seq!['x', '1', '3', '3', '2', '1'], seq!['x', '1', '3', '1', '3', '1'], seq!['x', '1', '3', '2', '3', '1'], seq!['x', '1', '3', '1', '2', '1'])[3]),
{
    reveal_with_fuel(sounding_from, 7);
    reveal_with_fuel(has_u8, 7);
    reveal_with_fuel(all_u8_in, 7);
    reveal_with_fuel(crate::text::find_from, 5);
    reveal_strlit("maj7");
    let v = root_voicings(seq!['A', '#'], seq!['x', '1', '3', '3', '3', '1'], seq!['x', '1', '3', '3', '2', '1'], seq!['x', '1', '3', '1', '3', '1'], seq!['x', '1', '3', '2', '3', '1'], seq!['x', '1', '3', '1', '2', '1'])[3];
    assert(symbol_text(seq!['A', '#'], seq!['m', 'a', 'j', '7'], None) =~= v.chord);
    lemma_passes_checks(seq!['A', '#'], seq!['m', 'a', 'j', '7'], None, v);
}

#[verifier::spinoff_prover]
proof fn lemma_folk_voicing_17_4()
    ensures
        voicing_checks(root_voicings(seq!['A', '#'], seq!['x', '1', '3', '3', '3', '1'], seq!['x', '1', '3', '3', '2', '1'], seq!['x', '1', '3', '1', '3', '1'], seq!['x', '1', '3', '2', '3', '1'], seq!['x', '1', '3', '1', '2', '1'])[4]),
{
    reveal_with_fuel(sounding_from, 7);
    reveal_with_fuel(has_u8, 7);
    reveal_with_fuel(all_u8_in, 7);
    reveal_with_fuel(crate::text::find_from, 5);
    reveal_strlit("maj7");
    let v = root_voicings(seq!['A', '#'], seq!['x', '1', '3', '3', '3', '1'], seq!['x', '1', '3', '3', '2', '1'], seq!['x', '1', '3', '1', '3', '1'], seq!['x', '1', '3', '2', '3', '1'], seq!['x', '1', '3', '1', '2', '1'])[4];
    assert(symbol_text(seq!['A', '#'], seq!['m', '7'], None) =~= v.chord);
    lemma_passes_checks(seq!['A', '#'], seq!['m', '7'], None, v);
}

#[verifier::spinoff_prover]
#[verifier::rlimit(40)]
proof fn lemma_folk_group_17()
    ensures
        all_check(root_voicings(seq!['A', '#'], seq!['x', '1', '3', '3', '3', '1'], seq!['x', '1', '3', '3', '2', '1'], seq!['x', '1', '3', '1', '3', '1'], seq!['x', '1', '3', '2', '3', '1'], seq!['x', '1', '3', '1', '2', '1'])),
{
    lemma_folk_voicing_17_0();
    lemma_folk_voicing_17_1();
    lemma_folk_voicing_17_2();
    lemma_folk_voicing_17_3();
    lemma_folk_voicing_17_4();
}

#[verifier::spinoff_prover]
proof fn lemma_folk_voicing_18_0()
    ensures
        voicing_checks(root_voicings(seq!['B', 'b'], seq!['x', '1', '3', '3', '3', '1'], seq!['x', '1', '3', '3', '2', '1'], seq!['x', '1', '3', '1', '3', '1'], seq!['x', '1', '3', '2', '3', '1'], seq!['x', '1', '3', '1', '2', '1'])[0]),
{
    reveal_with_fuel(sounding_from, 7);
    reveal_with_fuel(has_u8, 7);
    reveal_with_fuel(all_u8_in, 7);
    reveal_with_fuel(crate::text::find_from, 5);
    reveal_strlit("maj7");
    let v = root_voicings(seq!['B', 'b'], seq!['x', '1', '3', '3', '3', '1'], seq!['x', '1', '3', '3', '2', '1'], seq!['x', '1', '3', '1', '3', '1'], seq!['x', '1', '3', '2', '3', '1'], seq!['x', '1', '3', '1', '2', '1'])[0];
    assert(symbol_text(seq!['B', 'b'], seq![], None) =~= v.chord);
    lemma_passes_checks(seq!['B', 'b'], seq![], None, v);
}

#[verifier::spinoff_prover]
proof fn lemma_folk_voicing_18_1()
    ensures
        voicing_checks(root_voicings(seq!['B', 'b'], seq!['x', '1', '3', '3', '3', '1'], seq!['x', '1', '3', '3', '2', '1'], seq!['x', '1', '3', '1', '3', '1'], seq!['x', '1', '3', '2', '3', '1'], seq!['x', '1', '3', '1', '2', '1'])[1]),
{
    reveal_with_fuel(sounding_from, 7);
    reveal_with_fuel(has_u8, 7);
    reveal_with_fuel(all_u8_in, 7);
    reveal_with_fuel(crate::text::find_from, 5);
    reveal_strlit("maj7");
    let v = root_voicings(seq!['B', 'b'], seq!['x', '1', '3', '3', '3', '1'], seq!['x', '1', '3', '3', '2', '1'], seq!['x', '1', '3', '1', '3', '1'], seq!['x', '1', '3', '2', '3', '1'], seq!['x', '1', '3', '1', '2', '1'])[1];
    assert(symbol_text(seq!['B', 'b'], seq!['m'], None) =~= v.chord);
    lemma_passes_checks(seq!['B', 'b'], seq!['m'], None, v);
}

#[verifier::spinoff_prover]
proof fn lemma_folk_voicing_18_2()
    ensures
        voicing_checks(root_voicings(seq!['B', 'b'], seq!['x', '1', '3', '3', '3', '1'], seq!['x', '1', '3', '3', '2', '1'], seq!['x', '1', '3', '1', '3', '1'], seq!['x', '1', '3', '2', '3', '1'], seq!['x', '1', '3', '1', '2', '1'])[2]),
{
    reveal_with_fuel(sounding_from, 7);
    reveal_with_fuel(has_u8, 7);
    reveal_with_fuel(all_u8_in, 7);
    reveal_with_fuel(crate::text::find_from, 5);
    reveal_strlit("maj7");
    let v = root_voicings(seq!['B', 'b'], seq!['x', '1', '3', '3', '3', '1'], seq!['x', '1', '3', '3', '2', '1'], seq!['x', '1', '3', '1', '3', '1'], seq!['x', '1', '3', '2', '3', '1'], seq!['x', '1', '3', '1', '2', '1'])[2];
    assert(symbol_text(seq!['B', 'b'], seq!['7'], None) =~= v.chord);
    lemma_passes_checks(seq!['B', 'b'], seq!['7'], None, v);
}

#[verifier::spinoff_prover]
proof fn lemma_folk_voicing_18_3()
    ensures
        voicing_checks(root_voicings(seq!['B', 'b'], seq!['x', '1', '3', '3', '3', '1'], seq!['x', '1', '3', '3', '2', '1'], seq!['x', '1', '3', '1', '3', '1'], seq!['x', '1', '3', '2', '3', '1'], seq!['x', '1', '3', '1', '2', '1'])[3]),
{
    reveal_with_fuel(sounding_from, 7);
    reveal_with_fuel(has_u8, 7);
    reveal_with_fuel(all_u8_in, 7);
    reveal_with_fuel(crate::text::find_from, 5);
    reveal_strlit("maj7");
    let v = root_voicings(seq!['B', 'b'], seq!['x', '1', '3', '3', '3', '1'], seq!['x', '1', '3', '3', '2', '1'], seq!['x', '1', '3', '1', '3', '1'], seq!['x', '1', '3', '2', '3', '1'], seq!['x', '1', '3', '1', '2', '1'])[3];
    assert(symbol_text(seq!['B', 'b'], seq!['m', 'a', 'j', '7'], None) =~= v.chord);
    lemma_passes_checks(seq!['B', 'b'], seq!['m', 'a', 'j', '7'], None, v);
}

#[verifier::spinoff_prover]
proof fn lemma_folk_voicing_18_4()
    ensures
        voicing_checks(root_voicings(seq!['B', 'b'], seq!['x', '1', '3', '3', '3', '1'], seq!['x', '1', '3', '3', '2', '1'], seq!['x', '1', '3', '1', '3', '1'], seq!['x', '1', '3', '2', '3', '1'], seq!['x', '1', '3', '1', '2', '1'])[4]),
{
    reveal_with_fuel(sounding_from, 7);
    reveal_with_fuel(has_u8, 7);
    reveal_with_fuel(all_u8_in, 7);
    reveal_with_fuel(crate::text::find_from, 5);
    reveal_strlit("maj7");
    let v = root_voicings(seq!['B', 'b'], seq!['x', '1', '3', '3', '3', '1'], seq!['x', '1', '3', '3', '2', '1'], seq!['x', '1', '3', '1', '3', '1'], seq!['x', '1', '3', '2', '3', '1'], seq!['x', '1', '3', '1', '2', '1'])[4];
    assert(symbol_text(seq!['B', 'b'], seq!['m', '7'], None) =~= v.chord);
    lemma_passes_checks(seq!['B', 'b'], seq!['m', '7'], None, v);
}

#[verifier::spinoff_prover]
#[verifier::rlimit(40)]
proof fn lemma_folk_group_18()
    ensures
        all_check(root_voicings(seq!['B', 'b'], seq!['x', '1', '3', '3', '3', '1'], seq!['x', '1', '3', '3', '2', '1'], seq!['x', '1', '3', '1', '3', '1'], seq!['x', '1', '3', '2', '3', '1'], seq!['x', '1', '3', '1', '2', '1'])),
{
    lemma_folk_voicing_18_0();
    lemma_folk_voicing_18_1();
    lemma_folk_voicing_18_2();
    lemma_folk_voicing_18_3();
    lemma_folk_voicing_18_4();
}

#[verifier::spinoff_prover]
proof fn lemma_folk_voicing_19_0()
    ensures
        voicing_checks(root_voicings(seq!['B'], seq!['x', '2', '4', '4', '4', '2'], seq!['x', '2', '4', '4', '3', '2'], seq!['x', '2', '1', '2', '0', '2'], seq!['x', '2', '4', '3', '4', '2'], seq!['x', '2', '0', '2', '0', '2'])[0]),
{
    reveal_with_fuel(sounding_from, 7);
    reveal_with_fuel(has_u8, 7);
    reveal_with_fuel(all_u8_in, 7);
    reveal_with_fuel(crate::text::find_from, 5);
    reveal_strlit("maj7");
    let v = root_voicings(seq!['B'], seq!['x', '2', '4', '4', '4', '2'], seq!['x', '2', '4', '4', '3', '2'], seq!['x', '2', '1', '2', '0', '2'], seq!['x', '2', '4', '3', '4', '2'], seq!['x', '2', '0', '2', '0', '2'])[0];
    assert(symbol_text(seq!['B'], seq![], None) =~= v.chord);
    lemma_passes_checks(seq!['B'], seq![], None, v);
}

#[verifier::spinoff_prover]
proof fn lemma_folk_voicing_19_1()
    ensures
        voicing_checks(root_voicings(seq!['B'], seq!['x', '2', '4', '4', '4', '2'], seq!['x', '2', '4', '4', '3', '2'], seq!['x', '2', '1', '2', '0', '2'], seq!['x', '2', '4', '3', '4', '2'], seq!['x', '2', '0', '2', '0', '2'])[1]),
{
    reveal_with_fuel(sounding_from, 7);
    reveal_with_fuel(has_u8, 7);
    reveal_with_fuel(all_u8_in, 7);
    reveal_with_fuel(crate::text::find_from, 5);
    reveal_strlit("maj7");
    let v = root_voicings(seq!['B'], seq!['x', '2', '4', '4', '4', '2'], seq!['x', '2', '4', '4', '3', '2'], seq!['x', '2', '1', '2', '0', '2'], seq!['x', '2', '4', '3', '4', '2'], seq!['x', '2', '0', '2', '0', '2'])[1];
    assert(symbol_text(seq!['B'], seq!['m'], None) =~= v.chord);
    lemma_passes_checks(seq!['B'], seq!['m'], None, v);
}

#[verifier::spinoff_prover]
proof fn lemma_folk_voicing_19_2()
    ensures
        voicing_checks(root_voicings(seq!['B'], seq!['x', '2', '4', '4', '4', '2'], seq!['x', '2', '4', '4', '3', '2'], seq!['x', '2', '1', '2', '0', '2'], seq!['x', '2', '4', '3', '4', '2'], seq!['x', '2', '0', '2', '0', '2'])[2]),
{
    reveal_with_fuel(sounding_from, 7);
    reveal_with_fuel(has_u8, 7);
    reveal_with_fuel(all_u8_in, 7);
    reveal_with_fuel(crate::text::find_from, 5);
    reveal_strlit("maj7");
    let v = root_voicings(seq!['B'], seq!['x', '2', '4', '4', '4', '2'], seq!['x', '2', '4', '4', '3', '2'], seq!['x', '2', '1', '2', '0', '2'], seq!['x', '2', '4', '3', '4', '2'], seq!['x', '2', '0', '2', '0', '2'])[2];
    assert(symbol_text(seq!['B'], seq!['7'], None) =~= v.chord);
    lemma_passes_checks(seq!['B'], seq!['7'], None, v);
}

#[verifier::spinoff_prover]
proof fn lemma_folk_voicing_19_3()
    ensures
        voicing_checks(root_voicings(seq!['B'], seq!['x', '2', '4', '4', '4', '2'], seq!['x', '2', '4', '4', '3', '2'], seq!['x', '2', '1', '2', '0', '2'], seq!['x', '2', '4', '3', '4', '2'], seq!['x', '2', '0', '2', '0', '2'])[3]),
{
    reveal_with_fuel(sounding_from, 7);
    reveal_with_fuel(has_u8, 7);
    reveal_with_fuel(all_u8_in, 7);
    reveal_with_fuel(crate::text::find_from, 5);
    reveal_strlit("maj7");
    let v = root_voicings(seq!['B'], seq!['x', '2', '4', '4', '4', '2'], seq!['x', '2', '4', '4', '3', '2'], seq!['x', '2', '1', '2', '0', '2'], seq!['x', '2', '4', '3', '4', '2'], seq!['x', '2', '0', '2', '0', '2'])[3];
    assert(symbol_text(seq!['B'], seq!['m', 'a', 'j', '7'], None) =~= v.chord);
    lemma_passes_checks(seq!['B'], seq!['m', 'a', 'j', '7'], None, v);
}

#[verifier::spinoff_prover]
proof fn lemma_folk_voicing_19_4()
    ensures
        voicing_checks(root_voicings(seq!['B'], seq!['x', '2', '4', '4', '4', '2'], seq!['x', '2', '4', '4', '3', '2'], seq!['x', '2', '1', '2', '0', '2'], seq!['x', '2', '4', '3', '4', '2'], seq!['x', '2', '0', '2', '0', '2'])[4]),
{
    reveal_with_fuel(sounding_from, 7);
    reveal_with_fuel(has_u8, 7);
    reveal_with_fuel(all_u8_in, 7);
    reveal_with_fuel(crate::text::find_from, 5);
    reveal_strlit("maj7");
    let v = root_voicings(seq!['B'], seq!['x', '2', '4', '4', '4', '2'], seq!['x', '2', '4', '4', '3', '2'], seq!['x', '2', '1', '2', '0', '2'], seq!['x', '2', '4', '3', '4', '2'], seq!['x', '2', '0', '2', '0', '2'])[4];
    assert(symbol_text(seq!['B'], seq!['m', '7'], None) =~= v.chord);
    lemma_passes_checks(seq!['B'], seq!['m', '7'], None, v);
}

#[verifier::spinoff_prover]
#[verifier::rlimit(40)]
proof fn lemma_folk_group_19()
    ensures
        all_check(root_voicings(seq!['B'], seq!['x', '2', '4', '4', '4', '2'], seq!['x', '2', '4', '4', '3', '2'], seq!['x', '2', '1', '2', '0', '2'], seq!['x', '2', '4', '3', '4', '2'], seq!['x', '2', '0', '2', '0', '2'])),
{
    lemma_folk_voicing_19_0();
    lemma_folk_voicing_19_1();
    lemma_folk_voicing_19_2();
    lemma_folk_voicing_19_3();
    lemma_folk_voicing_19_4();
}

#[verifier::spinoff_prover]
proof fn lemma_folk_voicing_20_0()
    ensures
        voicing_checks(root_voicings(seq!['C', 'b'], seq!['x', '2', '4', '4', '4', '2'], seq!['x', '2', '4', '4', '3', '2'], seq!['x', '2', '1', '2', '0', '2'], seq!['x', '2', '4', '3', '4', '2'], seq!['x', '2', '0', '2', '0', '2'])[0]),
{
    reveal_with_fuel(sounding_from, 7);
    reveal_with_fuel(has_u8, 7);
    reveal_with_fuel(all_u8_in, 7);
    reveal_with_fuel(crate::text::find_from, 5);
    reveal_strlit("maj7");
    let v = root_voicings(seq!['C', 'b'], seq!['x', '2', '4', '4', '4', '2'], seq!['x', '2', '4', '4', '3', '2'], seq!['x', '2', '1', '2', '0', '2'], seq!['x', '2', '4', '3', '4', '2'], seq!['x', '2', '0', '2', '0', '2'])[0];
    assert(symbol_text(seq!['C', 'b'], seq![], None) =~= v.chord);
    lemma_passes_checks(seq!['C', 'b'], seq![], None, v);
}

#[verifier::spinoff_prover]
proof fn lemma_folk_voicing_20_1()
    ensures
        voicing_checks(root_voicings(seq!['C', 'b'], seq!['x', '2', '4', '4', '4', '2'], seq!['x', '2', '4', '4', '3', '2'], seq!['x', '2', '1', '2', '0', '2'], seq!['x', '2', '4', '3', '4', '2'], seq!['x', '2', '0', '2', '0', '2'])[1]),
{
    reveal_with_fuel(sounding_from, 7);
    reveal_with_fuel(has_u8, 7);
    reveal_with_fuel(all_u8_in, 7);
    reveal_with_fuel(crate::text::find_from, 5);
    reveal_strlit("maj7");
    let v = root_voicings(seq!['C', 'b'], seq!['x', '2', '4', '4', '4', '2'], seq!['x', '2', '4', '4', '3', '2'], seq!['x', '2', '1', '2', '0', '2'], seq!['x', '2', '4', '3', '4', '2'], seq!['x', '2', '0', '2', '0', '2'])[1];
    assert(symbol_text(seq!['C', 'b'], seq!['m'], None) =~= v.chord);
    lemma_passes_checks(seq!['C', 'b'], seq!['m'], None, v);
}

#[verifier::spinoff_prover]
proof fn lemma_folk_voicing_20_2()
    ensures
        voicing_checks(root_voicings(seq!['C', 'b'], seq!['x', '2', '4', '4', '4', '2'], seq!['x', '2', '4', '4', '3', '2'], seq!['x', '2', '1', '2', '0', '2'], seq!['x', '2', '4', '3', '4', '2'], seq!['x', '2', '0', '2', '0', '2'])[2]),
{
    reveal_with_fuel(sounding_from, 7);
    reveal_with_fuel(has_u8, 7);
    reveal_with_fuel(all_u8_in, 7);
    reveal_with_fuel(crate::text::find_from, 5);
    reveal_strlit("maj7");
    let v = root_voicings(seq!['C', 'b'], seq!['x', '2', '4', '4', '4', '2'], seq!['x', '2', '4', '4', '3', '2'], seq!['x', '2', '1', '2', '0', '2'], seq!['x', '2', '4', '3', '4', '2'], seq!['x', '2', '0', '2', '0', '2'])[2];
    assert(symbol_text(seq!['C', 'b'], seq!['7'], None) =~= v.chord);
    lemma_passes_checks(seq!['C', 'b'], seq!['7'], None, v);
}

#[verifier::spinoff_prover]
proof fn lemma_folk_voicing_20_3()
    ensures
        voicing_checks(root_voicings(seq!['C', 'b'], seq!['x', '2', '4', '4', '4', '2'], seq!['x', '2', '4', '4', '3', '2'], seq!['x', '2', '1', '2', '0', '2'], seq!['x', '2', '4', '3', '4', '2'], seq!['x', '2', '0', '2', '0', '2'])[3]),
{
    reveal_with_fuel(sounding_from, 7);
    reveal_with_fuel(has_u8, 7);
    reveal_with_fuel(all_u8_in, 7);
    reveal_with_fuel(crate::text::find_from, 5);
    reveal_strlit("maj7");
    let v = root_voicings(seq!['C', 'b'], seq!['x', '2', '4', '4', '4', '2'], seq!['x', '2', '4', '4', '3', '2'], seq!['x', '2', '1', '2', '0', '2'], seq!['x', '2', '4', '3', '4', '2'], seq!['x', '2', '0', '2', '0', '2'])[3];
    assert(symbol_text(seq!['C', 'b'], seq!['m', 'a', 'j', '7'], None) =~= v.chord);
    lemma_passes_checks(seq!['C', 'b'], seq!['m', 'a', 'j', '7'], None, v);
}

#[verifier::spinoff_prover]
proof fn lemma_folk_voicing_20_4()
    ensures
        voicing_checks(root_voicings(seq!['C', 'b'], seq!['x', '2', '4', '4', '4', '2'], seq!['x', '2', '4', '4', '3', '2'], seq!['x', '2', '1', '2', '0', '2'], seq!['x', '2', '4', '3', '4', '2'], seq!['x', '2', '0', '2', '0', '2'])[4]),
{
    reveal_with_fuel(sounding_from, 7);
    reveal_with_fuel(has_u8, 7);
    reveal_with_fuel(all_u8_in, 7);
    reveal_with_fuel(crate::text::find_from, 5);
    reveal_strlit("maj7");
    let v = root_voicings(seq!['C', 'b'], seq!['x', '2', '4', '4', '4', '2'], seq!['x', '2', '4', '4', '3', '2'], seq!['x', '2', '1', '2', '0', '2'], seq!['x', '2', '4', '3', '4', '2'], seq!['x', '2', '0', '2', '0', '2'])[4];
    assert(symbol_text(seq!['C', 'b'], seq!['m', '7'], None) =~= v.chord);
    lemma_passes_checks(seq!['C', 'b'], seq!['m', '7'], None, v);
}

#[verifier::spinoff_prover]
#[verifier::rlimit(40)]
proof fn lemma_folk_group_20()
    ensures
        all_check(root_voicings(seq!['C', 'b'], seq!['x', '2', '4', '4', '4', '2'], seq!['x', '2', '4', '4', '3', '2'], seq!['x', '2', '1', '2', '0', '2'], seq!['x', '2', '4', '3', '4', '2'], seq!['x', '2', '0', '2', '0', '2'])),
{
    lemma_folk_voicing_20_0();
    lemma_folk_voicing_20_1();
    lemma_folk_voicing_20_2();
    lemma_folk_voicing_20_3();
    lemma_folk_voicing_20_4();
}

proof fn lemma_folk_slash_checks()
    ensures
        all_check(seq![entry(seq!['C', '/', 'E'], "folk-slash"@, seq!['0', '3', '2', '0', '1', '0'], 100)]),
{
    reveal_with_fuel(sounding_from, 7);
    reveal_with_fuel(has_u8, 7);
    reveal_with_fuel(all_u8_in, 7);
    reveal_with_fuel(crate::text::find_from, 3);
    let slash = entry(seq!['C', '/', 'E'], "folk-slash"@, seq!['0', '3', '2', '0', '1', '0'], 100);
    assert(symbol_text(seq!['C'], seq![], Some(seq!['E'])) =~= slash.chord);
    lemma_passes_checks(seq!['C'], seq![], Some(seq!['E']), slash);
}

proof fn lemma_folk_checks()
    ensures
        all_check(folk_voicings()),
{
    let g0 = root_voicings(seq!['C'], seq!['x', '3', '2', '0', '1', '0'], seq!['x', '3', '5', '5', '4', '3'], seq!['x', '3', '2', '3', '1', '3'], seq!['x', '3', '2', '0', '0', '0'], seq!['x', '3', '5', '3', '4', '3']);
    lemma_folk_group_0();
    let g1 = root_voicings(seq!['B', '#'], seq!['x', '3', '2', '0', '1', '0'], seq!['x', '3', '5', '5', '4', '3'], seq!['x', '3', '2', '3', '1', '3'], seq!['x', '3', '2', '0', '0', '0'], seq!['x', '3', '5', '3', '4', '3']);
    lemma_folk_group_1();
    let g2 = root_voicings(seq!['C', '#'], seq!['x', '4', '6', '6', '6', '4'], seq!['x', '4', '6', '6', '5', '4'], seq!['x', '4', '6', '4', '6', '4'], seq!['x', '4', '6', '5', '6', '4'], seq!['x', '4', '6', '4', '5', '4']);
    lemma_folk_group_2();
    let g3 = root_voicings(seq!['D', 'b'], seq!['x', '4', '6', '6', '6', '4'], seq!['x', '4', '6', '6', '5', '4'], seq!['x', '4', '6', '4', '6', '4'], seq!['x', '4', '6', '5', '6', '4'], seq!['x', '4', '6', '4', '5', '4']);
    lemma_folk_group_3();
    let g4 = root_voicings(seq!['D'], seq!['x', 'x', '0', '2', '3', '2'], seq!['x', 'x', '0', '2', '3', '1'], seq!['x', 'x', '0', '2', '1', '2'], seq!['x', 'x', '0', '2', '2', '2'], seq!['x', 'x', '0', '2', '1', '1']);
    lemma_folk_group_4();
    let g5 = root_voicings(seq!['D', '#'], seq!['x', '6', '8', '8', '8', '6'], seq!['x', '6', '8', '8', '7', '6'], seq!['x', '6', '8', '6', '8', '6'], seq!['x', '6', '8', '7', '8', '6'], seq!['x', '6', '8', '6', '7', '6']);
    lemma_folk_group_5();
    let g6 = root_voicings(seq!['E', 'b'], seq!['x', '6', '8', '8', '8', '6'], seq!['x', '6', '8', '8', '7', '6'], seq!['x', '6', '8', '6', '8', '6'], seq!['x', '6', '8', '7', '8', '6'], seq!['x', '6', '8', '6', '7', '6']);
    lemma_folk_group_6();
    let g7 = root_voicings(seq!['E'], seq!['0', '2', '2', '1', '0', '0'], seq!['0', '2', '2', '0', '0', '0'], seq!['0', '2', '0', '1', '0', '0'], seq!['0', '2', '1', '1', '0', '0'], seq!['0', '2', '2', '0', '3', '0']);
    lemma_folk_group_7();
    let g8 = root_voicings(seq!['F', 'b'], seq!['0', '2', '2', '1', '0', '0'], seq!['0', '2', '2', '0', '0', '0'], seq!['0', '2', '0', '1', '0', '0'], seq!['0', '2', '1', '1', '0', '0'], seq!['0', '2', '2', '0', '3', '0']);
    lemma_folk_group_8();
    let g9 = root_voicings(seq!['F'], seq!['1', '3', '3', '2', '1', '1'], seq!['1', '3', '3', '1', '1', '1'], seq!['1', '3', '1', '2', '1', '1'], seq!['1', '3', '3', '2', '1', '0'], seq!['1', '3', '1', '1', '1', '1']);
    lemma_folk_group_9();
    let g10 = root_voicings(seq!['E', '#'], seq!['1', '3', '3', '2', '1', '1'], seq!['1', '3', '3', '1', '1', '1'], seq!['1', '3', '1', '2', '1', '1'], seq!['1', '3', '3', '2', '1', '0'], seq!['1', '3', '1', '1', '1', '1']);
    lemma_folk_group_10();
    let g11 = root_voicings(seq!['F', '#'], seq!['2', '4', '4', '3', '2', '2'], seq!['2', '4', '4', '2', '2', '2'], seq!['2', '4', '2', '3', '2', '2'], seq!['2', '4', '3', '3', '2', '2'], seq!['2', '4', '2', '2', '2', '2']);
    lemma_folk_group_11();
    let g12 = root_voicings(seq!['G', 'b'], seq!['2', '4', '4', '3', '2', '2'], seq!['2', '4', '4', '2', '2', '2'], seq!['2', '4', '2', '3', '2', '2'], seq!['2', '4', '3', '3', '2', '2'], seq!['2', '4', '2', '2', '2', '2']);
    lemma_folk_group_12();
    let g13 = root_voicings(seq!['G'], seq!['3', '2', '0', '0', '0', '3'], seq!['3', '5', '5', '3', '3', '3'], seq!['3', '2', '0', '0', '0', '1'], seq!['3', '2', '0', '0', '0', '2'], seq!['3', '5', '3', '3', '3', '3']);
    lemma_folk_group_13();
    let g14 = root_voicings(seq!['G', '#'], seq!['4', '6', '6', '5', '4', '4'], seq!['4', '6', '6', '4', '4', '4'], seq!['4', '6', '4', '5', '4', '4'], seq!['4', '6', '5', '5', '4', '4'], seq!['4', '6', '4', '4', '4', '4']);
    lemma_folk_group_14();
    let g15 = root_voicings(seq!['A', 'b'], seq!['4', '6', '6', '5', '4', '4'], seq!['4', '6', '6', '4', '4', '4'], seq!['4', '6', '4', '5', '4', '4'], seq!['4', '6', '5', '5', '4', '4'], seq!['4', '6', '4', '4', '4', '4']);
    lemma_folk_group_15();
    let g16 = root_voicings(seq!['A'], seq!['x', '0', '2', '2', '2', '0'], seq!['x', '0', '2', '2', '1', '0'], seq!['x', '0', '2', '0', '2', '0'], seq!['x', '0', '2', '1', '2', '0'], seq!['x', '0', '2', '0', '1', '0']);
    lemma_folk_group_16();
    let g17 = root_voicings(seq!['A', '#'], seq!['x', '1', '3', '3', '3', '1'], seq!['x', '1', '3', '3', '2', '1'], seq!['x', '1', '3', '1', '3', '1'], seq!['x', '1', '3', '2', '3', '1'], seq!['x', '1', '3', '1', '2', '1']);
    lemma_folk_group_17();
    let g18 = root_voicings(seq!['B', 'b'], seq!['x', '1', '3', '3', '3', '1'], seq!['x', '1', '3', '3', '2', '1'], seq!['x', '1', '3', '1', '3', '1'], seq!['x', '1', '3', '2', '3', '1'], seq!['x', '1', '3', '1', '2', '1']);
    lemma_folk_group_18();
    let g19 = root_voicings(seq!['B'], seq!['x', '2', '4', '4', '4', '2'], seq!['x', '2', '4', '4', '3', '2'], seq!['x', '2', '1', '2', '0', '2'], seq!['x', '2', '4', '3', '4', '2'], seq!['x', '2', '0', '2', '0', '2']);
    lemma_folk_group_19();
    let g20 = root_voicings(seq!['C', 'b'], seq!['x', '2', '4', '4', '4', '2'], seq!['x', '2', '4', '4', '3', '2'], seq!['x', '2', '1', '2', '0', '2'], seq!['x', '2', '4', '3', '4', '2'], seq!['x', '2', '0', '2', '0', '2']);
    lemma_folk_group_20();
    let c0 = g0;
    let c1 = c0 + g1;
    lemma_all_check_add(c0, g1);
    let c2 = c1 + g2;
    lemma_all_check_add(c1, g2);
    let c3 = c2 + g3;
    lemma_all_check_add(c2, g3);
    let c4 = c3 + g4;
    lemma_all_check_add(c3, g4);
    let c5 = c4 + g5;
    lemma_all_check_add(c4, g5);
    let c6 = c5 + g6;
    lemma_all_check_add(c5, g6);
    let c7 = c6 + g7;
    lemma_all_check_add(c6, g7);
    let c8 = c7 + g8;
    lemma_all_check_add(c7, g8);
    let c9 = c8 + g9;
    lemma_all_check_add(c8, g9);
    let c10 = c9 + g10;
    lemma_all_check_add(c9, g10);
    let c11 = c10 + g11;
    lemma_all_check_add(c10, g11);
    let c12 = c11 + g12;
    lemma_all_check_add(c11, g12);
    let c13 = c12 + g13;
    lemma_all_check_add(c12, g13);
    let c14 = c13 + g14;
    lemma_all_check_add(c13, g14);
    let c15 = c14 + g15;
    lemma_all_check_add(c14, g15);
    let c16 = c15 + g16;
    lemma_all_check_add(c15, g16);
    let c17 = c16 + g17;
    lemma_all_check_add(c16, g17);
    let c18 = c17 + g18;
    lemma_all_check_add(c17, g18);
    let c19 = c18 + g19;
    lemma_all_check_add(c18, g19);
    let c20 = c19 + g20;
    lemma_all_check_add(c19, g20);
    let slash = seq![entry(seq!['C', '/', 'E'], "folk-slash"@, seq!['0', '3', '2', '0', '1', '0'], 100)];
    lemma_folk_slash_checks();
    lemma_all_check_add(c20, slash);
    assert(folk_voicings() =~= c20 + slash);
}

proof fn lemma_rock_checks()
    ensures
        all_check(rock_voicings()),
{
    reveal_with_fuel(sounding_from, 7);
    reveal_with_fuel(has_u8, 7);
    reveal_with_fuel(all_u8_in, 7);
    reveal_with_fuel(crate::text::find_from, 3);
    let l = rock_voicings();
    assert(symbol_text(seq!['C'], seq!['5'], None) =~= l[0].chord);
    lemma_passes_checks(seq!['C'], seq!['5'], None, l[0]);
    assert(symbol_text(seq!['D'], seq!['5'], None) =~= l[1].chord);
    lemma_passes_checks(seq!['D'], seq!['5'], None, l[1]);
    assert(symbol_text(seq!['E'], seq!['5'], None) =~= l[2].chord);
    lemma_passes_checks(seq!['E'], seq!['5'], None, l[2]);
    assert(symbol_text(seq!['G'], seq!['5'], None) =~= l[3].chord);
    lemma_passes_checks(seq!['G'], seq!['5'], None, l[3]);
    assert(symbol_text(seq!['A'], seq!['5'], None) =~= l[4].chord);
    lemma_passes_checks(seq!['A'], seq!['5'], None, l[4]);
    assert(symbol_text(seq!['C'], seq![], None) =~= l[5].chord);
    lemma_passes_checks(seq!['C'], seq![], None, l[5]);
    assert(symbol_text(seq!['C'], seq!['m'], None) =~= l[6].chord);
    lemma_passes_checks(seq!['C'], seq!['m'], None, l[6]);
}

/// Every voicing of a built-in set names a chord that resolves, and passes the
/// check against that chord.
pub proof fn lemma_built_in_voicings_fit(name: Seq<char>)
    ensures
        built_in_spec(name) matches Ok(lib) ==> all_check(lib),
{
    lemma_folk_checks();
    lemma_rock_checks();
}

/// `built_in_library` succeeds exactly for `folk` and `rock`, and refuses any other
/// name with an `unsupported voicing set` error; `rock` is exactly its seven power
/// and barre shapes, and every built-in voicing fits its chord.
pub proof fn lemma_built_in_sets(name: Seq<char>)
    ensures
        built_in_spec(name) is Ok <==> (crate::text::word(name, seq!['f', 'o', 'l', 'k'])
            || crate::text::word(name, seq!['r', 'o', 'c', 'k'])),
        built_in_spec(name) is Err ==> built_in_spec(name) == Err::<Seq<VoicingView>, ErrorView>(
            ErrorView::Validation("unsupported voicing set '"@ + name + "'"@),
        ),
        crate::text::word(name, seq!['f', 'o', 'l', 'k']) ==> built_in_spec(name) == Ok::<Seq<VoicingView>, ErrorView>(folk_voicings()),
        crate::text::word(name, seq!['r', 'o', 'c', 'k']) ==> built_in_spec(name) == Ok::<Seq<VoicingView>, ErrorView>(seq![
            entry(seq!['C', '5'], "rock"@, seq!['x', '3', '5', '5', 'x', 'x'], 100),
            entry(seq!['D', '5'], "rock"@, seq!['x', '5', '7', '7', 'x', 'x'], 100),
            entry(seq!['E', '5'], "rock"@, seq!['0', '2', '2', 'x', 'x', 'x'], 100),
            entry(seq!['G', '5'], "rock"@, seq!['3', '5', '5', 'x', 'x', 'x'], 100),
            entry(seq!['A', '5'], "rock"@, seq!['5', '7', '7', 'x', 'x', 'x'], 100),
            entry(seq!['C'], "rock"@, seq!['x', '3', '5', '5', '5', 'x'], 100),
            entry(seq!['C', 'm'], "rock"@, seq!['x', '3', '5', '5', '4', 'x'], 100),
        ]),
        built_in_spec(name) matches Ok(lib) ==> all_check(lib),
{
    lemma_built_in_voicings_fit(name);
}

/// What `built_in_library` gives for a set name.
pub open spec fn built_in_spec(name: Seq<char>) -> Result<Seq<VoicingView>, ErrorView> {
    if crate::text::word(name, seq!['f', 'o', 'l', 'k']) {
        Ok(folk_voicings())
    } else if crate::text::word(name, seq!['r', 'o', 'c', 'k']) {
        Ok(rock_voicings())
    } else {
        Err(ErrorView::Validation("unsupported voicing set '"@ + name + "'"@))
    }
}

/// The built-in voicing set `folk` or `rock`.
pub fn built_in_library(name: &str) -> (r: Result<VoicingLibrary, AppError>)
    ensures
        match r {
            Ok(l) => built_in_spec(name@) == Ok::<Seq<VoicingView>, ErrorView>(l@) && l.wf(),
            Err(e) => built_in_spec(name@) == Err::<Seq<VoicingView>, ErrorView>(e@),
        },
{
    let v = crate::text::chars_of(name);
    let folk: &[char] = &['f', 'o', 'l', 'k'];
    let rock: &[char] = &['r', 'o', 'c', 'k'];
    if crate::text::is_word(&v, folk) {
        Ok(folk_library())
    } else if crate::text::is_word(&v, rock) {
        Ok(rock_library())
    } else {
        let mut m = String::new();
        push_str(&mut m, "unsupported voicing set '");
        push_str(&mut m, name);
        push_str(&mut m, "'");
        Err(AppError::Validation(m))
    }
}

// ---------------------------------------------------------------------
// Selecting a voicing
// ---------------------------------------------------------------------

impl View for RenderedVoicing {
    type V = (VoicingView, Seq<StringNoteView>);

    open spec fn view(&self) -> (VoicingView, Seq<StringNoteView>) {
        (self.voicing@, note_views(self.notes@))
    }
}

/// `a` comes before `b`, or equals it, in code-point order.
pub open spec fn text_le(a: Seq<char>, b: Seq<char>) -> bool
    decreases a.len(),
{
    if a.len() == 0 {
        true
    } else if b.len() == 0 {
        false
    } else if a[0] != b[0] {
        a[0] < b[0]
    } else {
        text_le(a.drop_first(), b.drop_first())
    }
}

/// `a` ranks at least as high as `b`: a higher priority, or the same
/// priority and an id that does not come after `b`'s.
pub open spec fn ranks_over(a: VoicingView, b: VoicingView) -> bool {
    a.priority > b.priority || (a.priority == b.priority && text_le(a.id, b.id))
}

/// The voicing chosen for `symbol` among `lib`: of the voicings filed
/// under the symbol that fit the harmony, the best ranked, and the last
/// of those ranked equally.
pub open spec fn select_from(h: HarmonyView, lib: Seq<VoicingView>, symbol: Seq<char>) -> Option<
    (VoicingView, Seq<StringNoteView>),
>
    decreases lib.len(),
{
    if lib.len() == 0 {
        None
    } else {
        let prev = select_from(h, lib.drop_last(), symbol);
        let v = lib.last();
        if v.chord == symbol {
            match check_voicing(h, v) {
                Ok(notes) => match prev {
                    None => Some((v, notes)),
                    Some(m) => if ranks_over(v, m.0) {
                        Some((v, notes))
                    } else {
                        prev
                    },
                },
                Err(_) => prev,
            }
        } else {
            prev
        }
    }
}

/// The error when a symbol does not resolve while a voicing is selected.
pub open spec fn selecting_error(e: ErrorView) -> ErrorView {
    ErrorView::Validation(crate::text::trim(crate::error::error_text(e)) + " while selecting voicing"@)
}

/// The error when no voicing of a set fits a chord.
pub open spec fn no_voicing_error(symbol: Seq<char>, set: Seq<char>) -> ErrorView {
    ErrorView::Validation(
        "chord '"@ + symbol + "' is valid, but no compatible '"@ + set + "' voicing was found"@,
    )
}

/// What `select_voicing` gives: the chosen voicing of the built-in set,
/// followed by the custom voicings, for a chord symbol.
pub open spec fn select_spec(symbol: Seq<char>, set: Seq<char>, custom: Option<Seq<VoicingView>>) -> Result<
    (VoicingView, Seq<StringNoteView>),
    ErrorView,
> {
    match resolve_spec(symbol) {
        Err(e) => Err(selecting_error(e)),
        Ok(h) => match built_in_spec(set) {
            Err(e) => Err(e),
            Ok(lib) => {
                let all = match custom {
                    Some(c) => lib + c,
                    None => lib,
                };
                match select_from(h, all, symbol) {
                    Some(x) => Ok(x),
                    None => Err(no_voicing_error(h.symbol, set)),
                }
            },
        },
    }
}

/// Resolved harmonies keep their pitch-class sums within a byte.
pub proof fn lemma_resolved_in_range(s: Seq<char>)
    requires
        resolve_spec(s) is Ok,
    ensures
        harmony_in_range(resolve_spec(s)->Ok_0),
{
    let h = resolve_spec(s)->Ok_0;
    assert(h.root_pc < 12);
    assert forall|k: int| 0 <= k < h.intervals.len() implies #[trigger] h.intervals[k] < 12 by {
        let iv = h.intervals;
        assert(iv == crate::harmony::intervals_of(h.quality));
    }
}

fn text_le_exec(a: &[char], b: &[char]) -> (r: bool)
    ensures
        r == text_le(a@, b@),
{
    let mut i: usize = 0;
    assert(a@.subrange(0, a@.len() as int) =~= a@);
    assert(b@.subrange(0, b@.len() as int) =~= b@);
    while i < a.len() && i < b.len() && a[i] == b[i]
        invariant
            i <= a.len(),
            i <= b.len(),
            text_le(a@, b@) == text_le(a@.subrange(i as int, a@.len() as int), b@.subrange(i as int, b@.len() as int)),
        decreases a.len() - i,
    {
        let ghost sa = a@.subrange(i as int, a@.len() as int);
        let ghost sb = b@.subrange(i as int, b@.len() as int);
        assert(sa.drop_first() =~= a@.subrange(i + 1, a@.len() as int));
        assert(sb.drop_first() =~= b@.subrange(i + 1, b@.len() as int));
        i = i + 1;
    }
    if i == a.len() {
        true
    } else if i == b.len() {
        false
    } else {
        a[i] < b[i]
    }
}

fn ranks_over_exec(a: &Voicing, b: &Voicing) -> (r: bool)
    ensures
        r == ranks_over(a@, b@),
{
    if a.priority > b.priority {
        true
    } else if a.priority == b.priority {
        let ai = crate::text::chars_of(a.id.as_str());
        let bi = crate::text::chars_of(b.id.as_str());
        text_le_exec(&ai, &bi)
    } else {
        false
    }
}

fn same_text(a: &str, b: &str) -> (r: bool)
    ensures
        r == (a@ == b@),
{
    let av = crate::text::chars_of(a);
    let bv = crate::text::chars_of(b);
    crate::text::same_chars(&av, &bv)
}

/// Chooses the voicing for `symbol` from the built-in `set_name`, with the
/// voicings of `custom` after the built-in ones.
pub fn select_voicing(symbol: &str, set_name: &str, custom: Option<&VoicingLibrary>) -> (r: Result<
    RenderedVoicing,
    AppError,
>)
    requires
        custom_fits(custom_view(custom), symbol@),
    ensures
        match r {
            Ok(rv) => select_spec(symbol@, set_name@, custom_view(custom)) == Ok::<
                (VoicingView, Seq<StringNoteView>),
                ErrorView,
            >(rv@),
            Err(e) => select_spec(symbol@, set_name@, custom_view(custom)) == Err::<
                (VoicingView, Seq<StringNoteView>),
                ErrorView,
            >(e@),
        },
{
    let harmony = match crate::harmony::resolve(symbol) {
        Ok(h) => h,
        Err(e) => {
            let text = crate::text::chars_of(e.to_string().as_str());
            let t = crate::text::trim_vec(&text);
            let mut m = crate::text::string_of(&t);
            push_str(&mut m, " while selecting voicing");
            return Err(AppError::Validation(m));
        },
    };
    proof {
        lemma_resolved_in_range(symbol@);
    }
    let mut library = built_in_library(set_name)?;
    let ghost builtin = library@;
    match custom {
        Some(c) => library.merge(c.duplicate()),
        None => {},
    }
    let ghost all = library@;
    let ghost h = harmony@;
    assert forall|k: int| 0 <= k < all.len() && #[trigger] all[k].chord == symbol@ implies frets_in_range(all[k].frets) by {
        if k < builtin.len() {
            assert(all[k] == builtin[k]);
        } else {
            let c = custom.unwrap()@;
            assert(all[k] == c[k - builtin.len()]);
        }
    }
    let mut best: Option<RenderedVoicing> = None;
    let mut i: usize = 0;
    while i < library.voicings.len()
        invariant
            i <= library.voicings.len(),
            all == library@,
            forall|k: int| 0 <= k < all.len() && #[trigger] all[k].chord == symbol@ ==> frets_in_range(all[k].frets),
            h == harmony@,
            harmony_in_range(h),
            match best {
                Some(b) => select_from(h, all.subrange(0, i as int), symbol@) == Some(b@),
                None => select_from(h, all.subrange(0, i as int), symbol@).is_none(),
            },
        decreases library.voicings.len() - i,
    {
        let v = &library.voicings[i];
        assert(all[i as int] == v@);
        assert(all.subrange(0, i + 1).drop_last() =~= all.subrange(0, i as int));
        if same_text(v.chord.as_str(), symbol) {
            assert(all[i as int].chord == symbol@);
            assert(frets_in_range(all[i as int].frets));
            match validate_voicing(&harmony, v) {
                Ok(notes) => {
                    let take = match &best {
                        None => true,
                        Some(b) => ranks_over_exec(v, &b.voicing),
                    };
                    if take {
                        best = Some(RenderedVoicing { voicing: copy_voicing(v), notes });
                    }
                },
                Err(_) => {},
            }
        }
        i = i + 1;
    }
    assert(all.subrange(0, i as int) =~= all);
    match best {
        Some(b) => Ok(b),
        None => {
            let mut m = String::new();
            push_str(&mut m, "chord '");
            m.append(harmony.symbol.as_str());
            push_str(&mut m, "' is valid, but no compatible '");
            push_str(&mut m, set_name);
            push_str(&mut m, "' voicing was found");
            Err(AppError::Validation(m))
        },
    }
}

/// The custom voicings filed under `symbol` have notes that fit in a byte,
/// as checking them against a harmony needs.
pub open spec fn custom_fits(custom: Option<Seq<VoicingView>>, symbol: Seq<char>) -> bool {
    match custom {
        Some(c) => forall|i: int| 0 <= i < c.len() && #[trigger] c[i].chord == symbol ==> frets_in_range(c[i].frets),
        None => true,
    }
}

/// The custom voicings filed under any chord of the song fit, as every
/// chord's voicing is chosen.
pub open spec fn custom_fits_song(custom: Option<Seq<VoicingView>>, s: crate::model::SongView) -> bool {
    forall|i: int, j: int|
        0 <= i < s.bars.len() && 0 <= j < s.bars[i].beats.len() ==> custom_fits(
            custom,
            #[trigger] s.bars[i].beats[j].chord,
        )
}

/// A library whose voicings all fit meets what choosing any chord's
/// voicing needs, for any song.
pub proof fn lemma_fitting_library(c: VoicingLibrary, s: crate::model::SongView)
    requires
        c.wf(),
    ensures
        custom_fits_song(Some(c@), s),
{
}

/// The voicings of an optional custom library.
pub open spec fn custom_view(custom: Option<&VoicingLibrary>) -> Option<Seq<VoicingView>> {
    match custom {
        Some(c) => Some(c@),
        None => None,
    }
}

// ---------------------------------------------------------------------
// Custom voicing files
// ---------------------------------------------------------------------

/// The pieces of `s` between the commas, from index `i` on, as Rust's
/// `str::split(',')` yields them.
pub open spec fn split_commas_from(s: Seq<char>, i: int) -> Seq<Seq<char>>
    decreases s.len() - i,
{
    let j = crate::text::find_from(s, ',', i);
    if i < 0 || i > s.len() {
        seq![]
    } else if i <= j < s.len() {
        seq![s.subrange(i, j)] + split_commas_from(s, j + 1)
    } else {
        seq![s.subrange(i, s.len() as int)]
    }
}

fn split_commas(v: &[char]) -> (r: Vec<Vec<char>>)
    ensures
        crate::text::views(r@) == split_commas_from(v@, 0),
{
    let mut r: Vec<Vec<char>> = Vec::new();
    let mut i: usize = 0;
    loop
        invariant_except_break
            i <= v.len(),
            crate::text::views(r@) + split_commas_from(v@, i as int) == split_commas_from(v@, 0),
        ensures
            crate::text::views(r@) == split_commas_from(v@, 0),
        decreases v.len() - i,
    {
        let j = crate::text::find_char(v, ',', i);
        proof {
            crate::text::lemma_find_from(v@, ',', i as int);
        }
        let ghost prev = r@;
        if j < v.len() {
            let piece = crate::text::copy_range(v, i, j);
            r.push(piece);
            assert(crate::text::views(r@) =~= crate::text::views(prev).push(piece@));
            assert(crate::text::views(r@) + split_commas_from(v@, j + 1) =~= crate::text::views(prev)
                + split_commas_from(v@, i as int));
            i = j + 1;
        } else {
            let piece = crate::text::copy_range(v, i, v.len());
            r.push(piece);
            assert(crate::text::views(r@) =~= crate::text::views(prev).push(piece@));
            assert(crate::text::views(r@) =~= crate::text::views(prev) + split_commas_from(v@, i as int));
            break;
        }
    }
    r
}

/// One fret value of a custom file: `x` for a muted string, or a fret
/// from 0 to 24.
pub open spec fn fret_value(part: Seq<char>, n: nat) -> Result<Option<u8>, ErrorView> {
    let t = crate::text::trim(part);
    if t.len() == 1 && t[0] == 'x' {
        Ok(None)
    } else {
        match crate::text::parse_unsigned(t, 255) {
            None => Err(ErrorView::Parse(line_msg(n, "malformed fret value"@))),
            Some(f) => if f > 24 {
                Err(
                    ErrorView::Validation(
                        line_msg(n, "unsupported fret value "@ + crate::text::decimal(f)),
                    ),
                )
            } else {
                Ok(Some(f as u8))
            },
        }
    }
}

/// The first `k` fret values, or the first error among them.
pub open spec fn frets_fold(parts: Seq<Seq<char>>, n: nat, k: nat) -> Result<Seq<Option<u8>>, ErrorView>
    decreases k,
{
    if k == 0 {
        Ok(seq![])
    } else {
        match frets_fold(parts, n, (k - 1) as nat) {
            Err(e) => Err(e),
            Ok(fs) => match fret_value(parts[k - 1], n) {
                Err(e) => Err(e),
                Ok(f) => Ok(fs.push(f)),
            },
        }
    }
}

/// What a `frets:` value gives: six comma-separated values in brackets.
pub open spec fn parse_frets_spec(value: Seq<char>, n: nat) -> Result<Seq<Option<u8>>, ErrorView> {
    if !(value.len() >= 2 && value[0] == '[' && value.last() == ']') {
        Err(ErrorView::Parse(line_msg(n, "malformed frets"@)))
    } else {
        let parts = split_commas_from(value.subrange(1, value.len() - 1), 0);
        if parts.len() != 6 {
            Err(ErrorView::Parse(line_msg(n, "expected 6 fret values"@)))
        } else {
            frets_fold(parts, n, 6)
        }
    }
}

proof fn lemma_frets_fold_ok(parts: Seq<Seq<char>>, n: nat, k: nat)
    requires
        frets_fold(parts, n, k) is Ok,
    ensures
        (frets_fold(parts, n, k)->Ok_0).len() == k,
        frets_in_range(frets_fold(parts, n, k)->Ok_0),
    decreases k,
{
    if k > 0 {
        lemma_frets_fold_ok(parts, n, (k - 1) as nat);
    }
}

proof fn lemma_frets_fold_err(parts: Seq<Seq<char>>, n: nat, k: nat, m: nat)
    requires
        k <= m,
        frets_fold(parts, n, k) is Err,
    ensures
        frets_fold(parts, n, m) == frets_fold(parts, n, k),
    decreases m - k,
{
    if k < m {
        lemma_frets_fold_err(parts, n, k, (m - 1) as nat);
    }
}

fn parse_frets(value: &[char], n: usize) -> (r: Result<[Option<u8>; 6], AppError>)
    ensures
        match r {
            Ok(f) => parse_frets_spec(value@, n as nat) == Ok::<Seq<Option<u8>>, ErrorView>(f@)
                && frets_in_range(f@),
            Err(e) => parse_frets_spec(value@, n as nat) == Err::<Seq<Option<u8>>, ErrorView>(e@),
        },
{
    if !(value.len() >= 2 && value[0] == '[' && value[value.len() - 1] == ']') {
        return Err(AppError::Parse(crate::error::line_message(n, "malformed frets")));
    }
    let body = crate::text::copy_range(value, 1, value.len() - 1);
    let parts = split_commas(&body);
    let ghost pv = crate::text::views(parts@);
    if parts.len() != 6 {
        return Err(AppError::Parse(crate::error::line_message(n, "expected 6 fret values")));
    }
    let mut fs: Vec<Option<u8>> = Vec::new();
    let mut k: usize = 0;
    while k < 6
        invariant
            k <= 6,
            parts.len() == 6,
            value@.len() >= 2,
            value@[0] == '[',
            value@.last() == ']',
            pv == crate::text::views(parts@),
            pv == split_commas_from(value@.subrange(1, value@.len() - 1), 0),
            frets_fold(pv, n as nat, k as nat) == Ok::<Seq<Option<u8>>, ErrorView>(fs@),
        decreases 6 - k,
    {
        assert(pv[k as int] == parts@[k as int]@);
        let t = crate::text::trim_vec(&parts[k]);
        if t.len() == 1 && t[0] == 'x' {
            fs.push(None);
        } else {
            match crate::text::parse_uint(&t, 255) {
                None => {
                    proof {
                        lemma_frets_fold_err(pv, n as nat, (k + 1) as nat, 6);
                    }
                    return Err(AppError::Parse(crate::error::line_message(n, "malformed fret value")));
                },
                Some(f) => {
                    if f > 24 {
                        let mut m = line_prefix(n);
                        push_str(&mut m, "unsupported fret value ");
                        push_decimal(&mut m, f);
                        assert(m@ =~= line_msg(n as nat, "unsupported fret value "@ + crate::text::decimal(f as nat)));
                        proof {
                            lemma_frets_fold_err(pv, n as nat, (k + 1) as nat, 6);
                        }
                        return Err(AppError::Validation(m));
                    }
                    fs.push(Some(f as u8));
                },
            }
        }
        k = k + 1;
    }
    proof {
        lemma_frets_fold_ok(pv, n as nat, 6);
    }
    let frets = [fs[0], fs[1], fs[2], fs[3], fs[4], fs[5]];
    assert(frets@ =~= fs@);
    Ok(frets)
}

/// What has been read of a custom voicing file so far: the voicings, the
/// current chord heading, and the id, frets and priority of the voicing
/// being read.
pub struct CustomState {
    pub lib: Seq<VoicingView>,
    pub chord: Option<Seq<char>>,
    pub id: Option<Seq<char>>,
    pub frets: Option<Seq<Option<u8>>>,
    pub priority: i16,
}

pub open spec fn custom_start() -> CustomState {
    CustomState { lib: seq![], chord: None, id: None, frets: None, priority: 0 }
}

/// Files the voicing being read when its chord, id and frets are all known,
/// and forgets its id and frets either way.
pub open spec fn flush_custom_spec(st: CustomState) -> CustomState {
    CustomState {
        lib: match (st.chord, st.id, st.frets) {
            (Some(c), Some(i), Some(f)) => st.lib.push(
                VoicingView { chord: c, id: i, frets: f, priority: st.priority },
            ),
            _ => st.lib,
        },
        id: None,
        frets: None,
        ..st
    }
}

/// `s` without trailing colons.
pub open spec fn trim_colons(s: Seq<char>) -> Seq<char>
    decreases s.len(),
{
    if s.len() > 0 && s.last() == ':' {
        trim_colons(s.drop_last())
    } else {
        s
    }
}

/// What one line (number `n`) of a custom file does to what has been read.
pub open spec fn custom_step(st: CustomState, raw: Seq<char>, n: nat) -> Result<CustomState, ErrorView> {
    let line = crate::text::trim(raw);
    if line.len() == 0 || crate::text::word(line, seq!['v', 'o', 'i', 'c', 'i', 'n', 'g', 's', ':']) || crate::text::starts_with(line, seq!['n', 'a', 'm', 'e', ':'])
        || crate::text::starts_with(line, seq!['t', 'a', 'g', 's', ':']) {
        Ok(st)
    } else if crate::text::starts_with(raw, seq![' ', ' ']) && !crate::text::starts_with(raw, seq![' ', ' ', ' ', ' '])
        && line.last() == ':' {
        Ok(CustomState { chord: Some(trim_colons(line)), priority: 0, ..flush_custom_spec(st) })
    } else if crate::text::starts_with(line, seq!['-', ' ', 'i', 'd', ':']) {
        Ok(
            CustomState {
                id: Some(crate::text::trim(line.subrange(5, line.len() as int))),
                priority: 0,
                ..flush_custom_spec(st)
            },
        )
    } else if crate::text::starts_with(line, seq!['i', 'd', ':']) {
        Ok(CustomState { id: Some(crate::text::trim(line.subrange(3, line.len() as int))), ..st })
    } else if crate::text::starts_with(line, seq!['f', 'r', 'e', 't', 's', ':']) {
        match parse_frets_spec(crate::text::trim(line.subrange(6, line.len() as int)), n) {
            Ok(f) => Ok(CustomState { frets: Some(f), ..st }),
            Err(e) => Err(e),
        }
    } else if crate::text::starts_with(line, seq!['p', 'r', 'i', 'o', 'r', 'i', 't', 'y', ':']) {
        match crate::text::parse_i16_spec(crate::text::trim(line.subrange(9, line.len() as int))) {
            Some(p) => Ok(CustomState { priority: p as i16, ..st }),
            None => Err(ErrorView::Parse(line_msg(n, "malformed voicing priority"@))),
        }
    } else {
        Ok(st)
    }
}

/// The state after the first `k` lines, or the first error among them.
pub open spec fn custom_fold(ls: Seq<Seq<char>>, k: nat) -> Result<CustomState, ErrorView>
    decreases k,
{
    if k == 0 {
        Ok(custom_start())
    } else {
        match custom_fold(ls, (k - 1) as nat) {
            Err(e) => Err(e),
            Ok(st) => custom_step(st, ls[k - 1], k),
        }
    }
}

/// What `parse_custom` gives for a file's text.
pub open spec fn parse_custom_spec(content: Seq<char>) -> Result<Seq<VoicingView>, ErrorView> {
    let ls = crate::text::lines(content);
    match custom_fold(ls, ls.len()) {
        Err(e) => Err(e),
        Ok(st) => Ok(flush_custom_spec(st).lib),
    }
}

proof fn lemma_custom_fold_err(ls: Seq<Seq<char>>, k: nat, m: nat)
    requires
        k <= m,
        custom_fold(ls, k) is Err,
    ensures
        custom_fold(ls, m) == custom_fold(ls, k),
    decreases m - k,
{
    if k < m {
        lemma_custom_fold_err(ls, k, (m - 1) as nat);
    }
}

struct CustomReader {
    library: VoicingLibrary,
    chord: Option<String>,
    id: Option<String>,
    frets: Option<[Option<u8>; 6]>,
    priority: i16,
}

impl CustomReader {
    spec fn state(&self) -> CustomState {
        CustomState {
            lib: self.library@,
            chord: crate::model::opt_view(self.chord),
            id: crate::model::opt_view(self.id),
            frets: match self.frets {
                Some(f) => Some(f@),
                None => None,
            },
            priority: self.priority,
        }
    }

    spec fn inv(&self) -> bool {
        &&& self.library.wf()
        &&& match self.frets {
            Some(f) => frets_in_range(f@),
            None => true,
        }
    }

    fn flush(&mut self)
        requires
            old(self).inv(),
        ensures
            final(self).inv(),
            final(self).state() == flush_custom_spec(old(self).state()),
    {
        let mut id: Option<String> = None;
        std::mem::swap(&mut id, &mut self.id);
        let mut frets: Option<[Option<u8>; 6]> = None;
        std::mem::swap(&mut frets, &mut self.frets);
        match (&self.chord, id, frets) {
            (Some(c), Some(i), Some(f)) => {
                self.library.insert(Voicing { chord: c.clone(), id: i, frets: f, priority: self.priority });
            },
            _ => {},
        }
    }

    fn step(&mut self, raw: &[char], n: usize) -> (r: Result<(), AppError>)
        requires
            old(self).inv(),
        ensures
            final(self).inv(),
            match r {
                Ok(_) => custom_step(old(self).state(), raw@, n as nat) == Ok::<CustomState, ErrorView>(final(self).state()),
                Err(e) => custom_step(old(self).state(), raw@, n as nat) == Err::<CustomState, ErrorView>(e@),
            },
    {
        let line = crate::text::trim_vec(raw);
        let kw_voicings: &[char] = &['v', 'o', 'i', 'c', 'i', 'n', 'g', 's', ':'];
        let kw_name: &[char] = &['n', 'a', 'm', 'e', ':'];
        let kw_tags: &[char] = &['t', 'a', 'g', 's', ':'];
        let two: &[char] = &[' ', ' '];
        let four: &[char] = &[' ', ' ', ' ', ' '];
        let kw_dash_id: &[char] = &['-', ' ', 'i', 'd', ':'];
        let kw_id: &[char] = &['i', 'd', ':'];
        let kw_frets: &[char] = &['f', 'r', 'e', 't', 's', ':'];
        let kw_priority: &[char] = &['p', 'r', 'i', 'o', 'r', 'i', 't', 'y', ':'];
        assert(kw_voicings@ == seq!['v', 'o', 'i', 'c', 'i', 'n', 'g', 's', ':']);
        assert(kw_name@ == seq!['n', 'a', 'm', 'e', ':']);
        assert(kw_tags@ == seq!['t', 'a', 'g', 's', ':']);
        assert(two@ == seq![' ', ' ']);
        assert(four@ == seq![' ', ' ', ' ', ' ']);
        assert(kw_dash_id@ == seq!['-', ' ', 'i', 'd', ':']);
        assert(kw_id@ == seq!['i', 'd', ':']);
        assert(kw_frets@ == seq!['f', 'r', 'e', 't', 's', ':']);
        assert(kw_priority@ == seq!['p', 'r', 'i', 'o', 'r', 'i', 't', 'y', ':']);
        if line.len() == 0 || crate::text::is_word(&line, kw_voicings) || crate::text::starts_with_chars(&line, kw_name)
            || crate::text::starts_with_chars(&line, kw_tags) {
            return Ok(());
        }
        if crate::text::starts_with_chars(raw, two) && !crate::text::starts_with_chars(raw, four)
            && line[line.len() - 1] == ':' {
            self.flush();
            let mut j = line.len();
            assert(line@.subrange(0, j as int) =~= line@);
            while j > 0 && line[j - 1] == ':'
                invariant
                    j <= line.len(),
                    trim_colons(line@) == trim_colons(line@.subrange(0, j as int)),
                decreases j,
            {
                assert(line@.subrange(0, j as int).drop_last() =~= line@.subrange(0, j - 1));
                j = j - 1;
            }
            let chord = crate::text::copy_range(&line, 0, j);
            self.chord = Some(crate::text::string_of(&chord));
            self.priority = 0;
            return Ok(());
        }
        if crate::text::starts_with_chars(&line, kw_dash_id) {
            self.flush();
            let rest = crate::text::copy_range(&line, 5, line.len());
            let v = crate::text::trim_vec(&rest);
            self.id = Some(crate::text::string_of(&v));
            self.priority = 0;
            return Ok(());
        }
        if crate::text::starts_with_chars(&line, kw_id) {
            let rest = crate::text::copy_range(&line, 3, line.len());
            let v = crate::text::trim_vec(&rest);
            self.id = Some(crate::text::string_of(&v));
            return Ok(());
        }
        if crate::text::starts_with_chars(&line, kw_frets) {
            let rest = crate::text::copy_range(&line, 6, line.len());
            let v = crate::text::trim_vec(&rest);
            let f = parse_frets(&v, n)?;
            self.frets = Some(f);
            return Ok(());
        }
        if crate::text::starts_with_chars(&line, kw_priority) {
            let rest = crate::text::copy_range(&line, 9, line.len());
            let v = crate::text::trim_vec(&rest);
            match crate::text::parse_i16(&v) {
                Some(p) => {
                    self.priority = p;
                    return Ok(());
                },
                None => {
                    return Err(AppError::Parse(crate::error::line_message(n, "malformed voicing priority")));
                },
            }
        }
        Ok(())
    }
}

/// A line of a custom file that the reader passes over: blank, `voicings:`,
/// `name:` or `tags:`.
pub open spec fn custom_line_skipped(raw: Seq<char>) -> bool {
    let line = crate::text::trim(raw);
    line.len() == 0 || crate::text::word(line, seq!['v', 'o', 'i', 'c', 'i', 'n', 'g', 's', ':'])
        || crate::text::starts_with(line, seq!['n', 'a', 'm', 'e', ':'])
        || crate::text::starts_with(line, seq!['t', 'a', 'g', 's', ':'])
}

/// A line that starts a new entry: a chord heading (indented two spaces, ending
/// in `:`) or an `- id:` line.
pub open spec fn custom_entry_start(raw: Seq<char>) -> bool {
    let line = crate::text::trim(raw);
    !custom_line_skipped(raw) && ((crate::text::starts_with(raw, seq![' ', ' ']) && !crate::text::starts_with(
        raw,
        seq![' ', ' ', ' ', ' '],
    ) && line.last() == ':') || crate::text::starts_with(line, seq!['-', ' ', 'i', 'd', ':']))
}

/// The priority a `priority:` line gives, if the line is one.
pub open spec fn priority_line_value(raw: Seq<char>) -> Option<i16> {
    let line = crate::text::trim(raw);
    if !custom_line_skipped(raw) && !custom_entry_start(raw) && crate::text::starts_with(
        line,
        seq!['p', 'r', 'i', 'o', 'r', 'i', 't', 'y', ':'],
    ) && crate::text::parse_i16_spec(crate::text::trim(line.subrange(9, line.len() as int))) is Some {
        Some(crate::text::parse_i16_spec(crate::text::trim(line.subrange(9, line.len() as int)))->Some_0 as i16)
    } else {
        None
    }
}

/// The priority of the entry that the first `k` lines end in: that of the last
/// `priority:` line since the entry began, or 0 when it has none.
pub open spec fn entry_priority(ls: Seq<Seq<char>>, k: nat) -> i16
    decreases k,
{
    if k == 0 {
        0
    } else if custom_entry_start(ls[k - 1]) {
        0
    } else {
        match priority_line_value(ls[k - 1]) {
            Some(p) => p,
            None => entry_priority(ls, (k - 1) as nat),
        }
    }
}

/// Voicing `v` was filed where an entry began, at one of the first `k` lines
/// (line `m`), with the priority of the entry the first `m` lines end in.
pub open spec fn filed_with_entry_priority(ls: Seq<Seq<char>>, k: int, v: VoicingView) -> bool {
    exists|m: int| 0 <= m < k && custom_entry_start(ls[m]) && v.priority == #[trigger] entry_priority(ls, m as nat)
}

/// What the first `k` lines leave: the priority being read is that of the
/// current entry, and each voicing filed so far was filed with the priority of
/// its entry.
pub open spec fn custom_priorities_ok(ls: Seq<Seq<char>>, k: nat, st: CustomState) -> bool {
    &&& st.priority == entry_priority(ls, k)
    &&& forall|j: int| 0 <= j < st.lib.len() ==> filed_with_entry_priority(ls, k as int, #[trigger] st.lib[j])
}

proof fn lemma_step_priority(st0: CustomState, raw: Seq<char>, n: nat, ls: Seq<Seq<char>>, k: nat)
    requires
        1 <= k <= ls.len(),
        ls[k - 1] == raw,
        st0.priority == entry_priority(ls, (k - 1) as nat),
    ensures
        custom_step(st0, raw, n) matches Ok(st) ==> st.priority == entry_priority(ls, k) && (st.lib == st0.lib
            || (custom_entry_start(raw) && st.lib == flush_custom_spec(st0).lib)),
{
    let line = crate::text::trim(raw);
    if custom_line_skipped(raw) {
        assert(!custom_entry_start(raw));
        assert(priority_line_value(raw) is None);
    } else if custom_entry_start(raw) {
    } else {
        if crate::text::starts_with(line, seq!['p', 'r', 'i', 'o', 'r', 'i', 't', 'y', ':']) {
            assert(!crate::text::starts_with(line, seq!['-', ' ', 'i', 'd', ':']));
            assert(!crate::text::starts_with(line, seq!['i', 'd', ':'])) by {
                assert(line[0] == 'p');
            }
            assert(!crate::text::starts_with(line, seq!['f', 'r', 'e', 't', 's', ':'])) by {
                assert(line[0] == 'p');
            }
        } else {
            assert(priority_line_value(raw) is None);
        }
    }
}

proof fn lemma_custom_priorities(ls: Seq<Seq<char>>, k: nat)
    requires
        k <= ls.len(),
    ensures
        custom_fold(ls, k) matches Ok(st) ==> custom_priorities_ok(ls, k, st),
    decreases k,
{
    if k > 0 {
        lemma_custom_priorities(ls, (k - 1) as nat);
        if let Ok(st0) = custom_fold(ls, (k - 1) as nat) {
            let raw = ls[k - 1];
            lemma_step_priority(st0, raw, k, ls, k);
            if let Ok(st) = custom_step(st0, raw, k) {
                let m = k - 1;
                assert forall|j: int| 0 <= j < st.lib.len() implies filed_with_entry_priority(ls, k as int, #[trigger] st.lib[j]) by {
                    if j < st0.lib.len() {
                        assert(st.lib[j] == st0.lib[j]);
                        assert(filed_with_entry_priority(ls, k - 1, st0.lib[j]));
                        let m2 = choose|m2: int|
                            0 <= m2 < k - 1 && custom_entry_start(ls[m2]) && st0.lib[j].priority == #[trigger] entry_priority(ls, m2 as nat);
                        assert(0 <= m2 < k && custom_entry_start(ls[m2]) && st.lib[j].priority == entry_priority(ls, m2 as nat));
                    } else {
                        assert(st.lib[j].priority == st0.priority);
                        assert(custom_entry_start(ls[m]) && st.lib[j].priority == entry_priority(ls, m as nat));
                    }
                }
                assert(custom_priorities_ok(ls, k, st));
            }
        }
    }
}

/// Law: every voicing that `parse_custom` files has the priority of its own
/// entry: that of the last `priority:` line after the entry's `- id:` line (or
/// chord heading) and before the next entry begins, or 0 when there is none.
/// Each voicing is filed where an entry begins (line `m`), with the priority of
/// the entry the first `m` lines end in, or at the end of the file, with the
/// priority of the last entry; and the reader's priority always is the current
/// entry's.
pub proof fn lemma_custom_priority(content: Seq<char>)
    ensures
        ({
            let ls = crate::text::lines(content);
            &&& forall|k: nat| k <= ls.len() ==> (#[trigger] custom_fold(ls, k) matches Ok(st) ==> st.priority
                == entry_priority(ls, k))
            &&& parse_custom_spec(content) matches Ok(lib) ==> (forall|j: int|
                0 <= j < lib.len() - 1 ==> filed_with_entry_priority(ls, ls.len() as int, #[trigger] lib[j]))
                && (lib.len() > 0 ==> filed_with_entry_priority(ls, ls.len() as int, lib.last())
                || lib.last().priority == entry_priority(ls, ls.len()))
        }),
{
    let ls = crate::text::lines(content);
    assert forall|k: nat| k <= ls.len() implies (#[trigger] custom_fold(ls, k) matches Ok(st) ==> st.priority
        == entry_priority(ls, k)) by {
        lemma_custom_priorities(ls, k);
    }
    lemma_custom_priorities(ls, ls.len());
    if let Ok(st) = custom_fold(ls, ls.len()) {
        let lib = flush_custom_spec(st).lib;
        assert forall|j: int| 0 <= j < lib.len() - 1 implies filed_with_entry_priority(ls, ls.len() as int, #[trigger] lib[j]) by {
            assert(j < st.lib.len());
            assert(lib[j] == st.lib[j]);
        }
        if lib.len() > 0 {
            if lib.len() == st.lib.len() {
                assert(lib.last() == st.lib[st.lib.len() - 1]);
            } else {
                assert(lib.last().priority == st.priority);
            }
        }
    }
}

/// Reads a custom voicing file: chord headings indented by two spaces and
/// ending in `:`, then for each voicing an `- id:`, a `frets:` list from low
/// E to high E (`x` for a muted string, frets up to 24) and an optional
/// `priority:`.
pub fn parse_custom(content: &str) -> (r: Result<VoicingLibrary, AppError>)
    ensures
        match r {
            Ok(l) => parse_custom_spec(content@) == Ok::<Seq<VoicingView>, ErrorView>(l@) && l.wf(),
            Err(e) => parse_custom_spec(content@) == Err::<Seq<VoicingView>, ErrorView>(e@),
        },
{
    let chars = crate::text::chars_of(content);
    let ls = crate::text::split_lines(&chars);
    let ghost lv = crate::text::lines(content@);
    let mut reader = CustomReader { library: VoicingLibrary::empty(), chord: None, id: None, frets: None, priority: 0 };
    let mut i: usize = 0;
    while i < ls.len()
        invariant
            i <= ls.len(),
            lv == crate::text::views(ls@),
            lv == crate::text::lines(content@),
            reader.inv(),
            custom_fold(lv, i as nat) == Ok::<CustomState, ErrorView>(reader.state()),
        decreases ls.len() - i,
    {
        assert(lv[i as int] == ls@[i as int]@);
        match reader.step(&ls[i], i + 1) {
            Ok(_) => {},
            Err(e) => {
                proof {
                    lemma_custom_fold_err(lv, (i + 1) as nat, lv.len());
                }
                return Err(e);
            },
        }
        i = i + 1;
    }
    reader.flush();
    Ok(reader.library)
}

// ---------------------------------------------------------------------
// Showing a voicing
// ---------------------------------------------------------------------

/// The compact shape of a voicing's frets, such as `x32010`.
pub open spec fn shape_text(frets: Seq<Option<u8>>) -> Seq<char> {
    frets.map_values(|f: Option<u8>| shape_char(f))
}

/// `"{chord}  {shape}"`: how the chords command shows a voicing.
pub fn shape_line(chord: &str, voicing: &Voicing) -> (s: String)
    requires
        frets_showable(voicing.frets@),
    ensures
        s@ == chord@ + "  "@ + shape_text(voicing.frets@),
{
    let mut s = String::new();
    push_str(&mut s, chord);
    push_str(&mut s, "  ");
    s.append(voicing.shape().as_str());
    s
}

/// The label of string `i` in a diagram, from low E (`E`) to high E (`e`).
pub open spec fn diagram_label(i: int) -> Seq<char> {
    if i == 0 {
        "E"@
    } else if i == 1 {
        "A"@
    } else if i == 2 {
        "D"@
    } else if i == 3 {
        "G"@
    } else if i == 4 {
        "B"@
    } else {
        "e"@
    }
}

/// A fret as a diagram shows it: its number, or `x` for a muted string.
pub open spec fn fret_text(f: Option<u8>) -> Seq<char> {
    match f {
        Some(x) => crate::text::decimal(x as nat),
        None => "x"@,
    }
}

/// The diagram line of string `i`, such as `A|--3--`.
pub open spec fn diagram_line(frets: Seq<Option<u8>>, i: int) -> Seq<char> {
    diagram_label(i) + "|--"@ + fret_text(frets[i]) + "--"@
}

fn diagram_label_exec(i: usize) -> (s: &'static str)
    requires
        i < 6,
    ensures
        s@ == diagram_label(i as int),
{
    if i == 0 {
        "E"
    } else if i == 1 {
        "A"
    } else if i == 2 {
        "D"
    } else if i == 3 {
        "G"
    } else if i == 4 {
        "B"
    } else {
        "e"
    }
}

/// The lines of a fret diagram, from high E down to low E.
pub fn diagram(voicing: &Voicing) -> (lines: Vec<String>)
    ensures
        lines@.len() == 6,
        forall|k: int| 0 <= k < 6 ==> #[trigger] lines@[k]@ == diagram_line(voicing.frets@, 5 - k),
{
    let mut lines: Vec<String> = Vec::new();
    let mut k: usize = 0;
    while k < 6
        invariant
            k <= 6,
            voicing.frets@.len() == 6,
            lines@.len() == k,
            forall|j: int| 0 <= j < k ==> #[trigger] lines@[j]@ == diagram_line(voicing.frets@, 5 - j),
        decreases 6 - k,
    {
        let i = 5 - k;
        let mut line = String::new();
        push_str(&mut line, diagram_label_exec(i));
        push_str(&mut line, "|--");
        match voicing.frets[i] {
            Some(f) => push_decimal(&mut line, f as u64),
            None => push_str(&mut line, "x"),
        }
        push_str(&mut line, "--");
        assert(line@ =~= diagram_line(voicing.frets@, i as int));
        lines.push(line);
        k = k + 1;
    }
    lines
}

// ---------------------------------------------------------------------
// Laws
// ---------------------------------------------------------------------

proof fn lemma_text_le_refl(a: Seq<char>)
    ensures
        text_le(a, a),
    decreases a.len(),
{
    if a.len() > 0 {
        lemma_text_le_refl(a.drop_first());
    }
}

proof fn lemma_text_le_total(a: Seq<char>, b: Seq<char>)
    ensures
        text_le(a, b) || text_le(b, a),
    decreases a.len(),
{
    if a.len() > 0 && b.len() > 0 && a[0] == b[0] {
        lemma_text_le_total(a.drop_first(), b.drop_first());
    }
}

proof fn lemma_text_le_trans(a: Seq<char>, b: Seq<char>, c: Seq<char>)
    requires
        text_le(a, b),
        text_le(b, c),
    ensures
        text_le(a, c),
    decreases a.len(),
{
    if a.len() > 0 && b.len() > 0 && c.len() > 0 && a[0] == b[0] && b[0] == c[0] {
        lemma_text_le_trans(a.drop_first(), b.drop_first(), c.drop_first());
    }
}

/// Ranking voicings is a total preorder: every voicing ranks over itself,
/// of two voicings one ranks over the other, and ranking is transitive.
pub proof fn lemma_ranking_total_preorder(a: VoicingView, b: VoicingView, c: VoicingView)
    ensures
        ranks_over(a, a),
        ranks_over(a, b) || ranks_over(b, a),
        ranks_over(a, b) && ranks_over(b, c) ==> ranks_over(a, c),
{
    lemma_text_le_refl(a.id);
    lemma_text_le_total(a.id, b.id);
    if ranks_over(a, b) && ranks_over(b, c) && a.priority == b.priority && b.priority == c.priority {
        lemma_text_le_trans(a.id, b.id, c.id);
    }
}

/// Law: the voicing chosen for a symbol is one of the library's voicings
/// filed under that symbol that fit the harmony, and it ranks over every
/// other such voicing (a higher priority, or the same priority and an id
/// that comes no later); nothing is chosen only when no voicing filed under
/// the symbol fits.
pub proof fn lemma_select_best(h: HarmonyView, lib: Seq<VoicingView>, symbol: Seq<char>)
    ensures
        match select_from(h, lib, symbol) {
            None => forall|j: int|
                0 <= j < lib.len() && #[trigger] lib[j].chord == symbol ==> check_voicing(h, lib[j]) is Err,
            Some(best) => {
                &&& exists|j: int| 0 <= j < lib.len() && #[trigger] lib[j] == best.0
                &&& best.0.chord == symbol
                &&& check_voicing(h, best.0) == Ok::<Seq<StringNoteView>, ErrorView>(best.1)
                &&& forall|j: int|
                    0 <= j < lib.len() && #[trigger] lib[j].chord == symbol && check_voicing(h, lib[j]) is Ok
                        ==> ranks_over(best.0, lib[j])
            },
        },
    decreases lib.len(),
{
    if lib.len() > 0 {
        let t = lib.drop_last();
        lemma_select_best(h, t, symbol);
        let v = lib.last();
        assert forall|j: int| 0 <= j < t.len() implies #[trigger] t[j] == lib[j] by {}
        match select_from(h, lib, symbol) {
            None => {
                assert forall|j: int| 0 <= j < lib.len() && #[trigger] lib[j].chord == symbol implies check_voicing(
                    h,
                    lib[j],
                ) is Err by {
                    if j < t.len() {
                        assert(t[j] == lib[j]);
                    }
                }
            },
            Some(best) => {
                match select_from(h, t, symbol) {
                    Some(m) => {
                        let jm = choose|j: int| 0 <= j < t.len() && #[trigger] t[j] == m.0;
                        assert(lib[jm] == t[jm]);
                        if best == m {
                            assert(lib[jm] == best.0);
                        } else {
                            assert(lib[lib.len() - 1] == best.0);
                        }
                        assert forall|j: int|
                            0 <= j < lib.len() && #[trigger] lib[j].chord == symbol && check_voicing(h, lib[j]) is Ok
                            implies ranks_over(best.0, lib[j]) by {
                            lemma_ranking_total_preorder(best.0, lib[j], lib[j]);
                            if j < t.len() {
                                assert(t[j] == lib[j]);
                                assert(ranks_over(m.0, lib[j]));
                                if best != m {
                                    lemma_ranking_total_preorder(best.0, m.0, lib[j]);
                                }
                            } else {
                                assert(lib[j] == v);
                                if best.0 == v {
                                    lemma_ranking_total_preorder(v, v, v);
                                } else {
                                    assert(!ranks_over(v, m.0));
                                    lemma_ranking_total_preorder(m.0, v, v);
                                }
                            }
                        }
                    },
                    None => {
                        assert(lib[lib.len() - 1] == best.0);
                        assert forall|j: int|
                            0 <= j < lib.len() && #[trigger] lib[j].chord == symbol && check_voicing(h, lib[j]) is Ok
                            implies ranks_over(best.0, lib[j]) by {
                            if j < t.len() {
                                assert(t[j] == lib[j]);
                            } else {
                                lemma_ranking_total_preorder(best.0, best.0, best.0);
                            }
                        }
                    },
                }
            },
        }
    }
}

/// Law: a shape read by `Voicing::new` is written back unchanged by
/// `Voicing::shape`.
pub proof fn lemma_shape_round_trip(chord: Seq<char>, id: Seq<char>, shape: Seq<char>, priority: i16)
    requires
        new_voicing(chord, id, shape, priority) is Ok,
    ensures
        shape_text((new_voicing(chord, id, shape, priority)->Ok_0).frets) == shape,
{
    let v = new_voicing(chord, id, shape, priority)->Ok_0;
    lemma_no_bad_fret(shape, 0);
    assert(shape.len() == 6);
    assert forall|k: int| 0 <= k < 6 implies #[trigger] shape_char(v.frets[k]) == shape[k] by {
        let c = shape[k];
        assert(fret_char_ok(c));
        if c != 'x' {
            let u = c as u32;
            assert(48 <= u <= 57);
            assert(v.frets[k] == fret_of(c));
            vstd::utf8::char_u32_cast(c, u);
            assert(((48 + ((u - 48) as u8)) as u8) as int == u as int);
        }
    }
    assert(shape_text(v.frets) =~= shape);
}

} // verus!
