//! The song model that the parser builds and the MIDI writer reads.
use vstd::prelude::*;

verus! {

/// A parsed `.strum` file.
#[derive(Debug, Clone, PartialEq, Eq)]
pub struct Song {
    pub metadata: Metadata,
    pub parts: Vec<Part>,
    pub warnings: Vec<String>,
    pub bars: Vec<Bar>,
}

/// A `part:` marker: the part's name and the bar where it starts.
#[derive(Debug, Clone, PartialEq, Eq)]
pub struct Part {
    pub line: usize,
    pub name: String,
    pub bar_index: usize,
}

/// The metadata lines at the top of a file.
#[derive(Debug, Clone, PartialEq, Eq)]
pub struct Metadata {
    pub tempo: Option<u16>,
    pub time_signature: Option<TimeSignature>,
    pub velocity: Option<u8>,
    pub strum_spread_ms: Option<u16>,
    pub downstroke_velocity: Option<u8>,
    pub upstroke_velocity: Option<u8>,
    pub downstroke_spread_ms: Option<u16>,
    pub upstroke_spread_ms: Option<u16>,
    pub upstroke_max_strings: Option<u8>,
    pub beat: Option<Beat>,
    pub subdivision: Option<u8>,
    pub count: Option<CountStyle>,
    pub instrument: Option<Instrument>,
    pub voicing: Option<String>,
}

#[derive(Debug, Clone, Copy, PartialEq, Eq, Structural)]
pub struct TimeSignature {
    pub numerator: u8,
    pub denominator: u8,
}

/// How a bar is grouped into beat patterns.
#[derive(Debug, Clone, Copy, PartialEq, Eq, Structural)]
pub enum Beat {
    Quarter,
    DottedQuarter,
}

/// The count labels a file uses; they do not change timing.
#[derive(Debug, Clone, Copy, PartialEq, Eq, Structural)]
pub enum CountStyle {
    OneAnd,
    OneAndA,
    OneEAndA,
    OneAAndA,
}

#[derive(Debug, Clone, Copy, PartialEq, Eq, Structural)]
pub enum Instrument {
    AcousticGuitar,
    ElectricGuitarClean,
    NylonGuitar,
}

/// The General MIDI program of each instrument.
pub open spec fn program_of(i: Instrument) -> u8 {
    match i {
        Instrument::AcousticGuitar => 25,
        Instrument::ElectricGuitarClean => 27,
        Instrument::NylonGuitar => 24,
    }
}

impl Instrument {
    pub fn midi_program(self) -> (p: u8)
        ensures
            p == program_of(self),
    {
        match self {
            Self::AcousticGuitar => 25,
            Self::ElectricGuitarClean => 27,
            Self::NylonGuitar => 24,
        }
    }
}

/// One bar: its beat patterns, and the line of the strum pattern it came from.
#[derive(Debug, Clone, PartialEq, Eq)]
pub struct Bar {
    pub line: usize,
    pub beats: Vec<BeatPattern>,
}

/// One beat pattern: the chord that sounds and one symbol per slot.
#[derive(Debug, Clone, PartialEq, Eq)]
pub struct BeatPattern {
    pub chord: String,
    pub chord_line: usize,
    pub slots: Vec<StrumSymbol>,
}

#[derive(Debug, Clone, Copy, PartialEq, Eq, Structural)]
pub enum StrumSymbol {
    Down,
    Up,
    Rest,
    Muted,
}

// ---------------------------------------------------------------------
// Abstract values
// ---------------------------------------------------------------------

pub struct PartView {
    pub line: usize,
    pub name: Seq<char>,
    pub bar_index: usize,
}

pub struct MetadataView {
    pub tempo: Option<u16>,
    pub time_signature: Option<TimeSignature>,
    pub velocity: Option<u8>,
    pub strum_spread_ms: Option<u16>,
    pub downstroke_velocity: Option<u8>,
    pub upstroke_velocity: Option<u8>,
    pub downstroke_spread_ms: Option<u16>,
    pub upstroke_spread_ms: Option<u16>,
    pub upstroke_max_strings: Option<u8>,
    pub beat: Option<Beat>,
    pub subdivision: Option<u8>,
    pub count: Option<CountStyle>,
    pub instrument: Option<Instrument>,
    pub voicing: Option<Seq<char>>,
}

pub struct BeatView {
    pub chord: Seq<char>,
    pub chord_line: usize,
    pub slots: Seq<StrumSymbol>,
}

pub struct BarView {
    pub line: usize,
    pub beats: Seq<BeatView>,
}

pub struct SongView {
    pub metadata: MetadataView,
    pub parts: Seq<PartView>,
    pub warnings: Seq<Seq<char>>,
    pub bars: Seq<BarView>,
}

impl View for Part {
    type V = PartView;

    open spec fn view(&self) -> PartView {
        PartView { line: self.line, name: self.name@, bar_index: self.bar_index }
    }
}

pub open spec fn opt_view(s: Option<String>) -> Option<Seq<char>> {
    match s {
        Some(v) => Some(v@),
        None => None,
    }
}

impl View for Metadata {
    type V = MetadataView;

    open spec fn view(&self) -> MetadataView {
        MetadataView {
            tempo: self.tempo,
            time_signature: self.time_signature,
            velocity: self.velocity,
            strum_spread_ms: self.strum_spread_ms,
            downstroke_velocity: self.downstroke_velocity,
            upstroke_velocity: self.upstroke_velocity,
            downstroke_spread_ms: self.downstroke_spread_ms,
            upstroke_spread_ms: self.upstroke_spread_ms,
            upstroke_max_strings: self.upstroke_max_strings,
            beat: self.beat,
            subdivision: self.subdivision,
            count: self.count,
            instrument: self.instrument,
            voicing: opt_view(self.voicing),
        }
    }
}

impl View for BeatPattern {
    type V = BeatView;

    open spec fn view(&self) -> BeatView {
        BeatView { chord: self.chord@, chord_line: self.chord_line, slots: self.slots@ }
    }
}

pub open spec fn beat_views(s: Seq<BeatPattern>) -> Seq<BeatView> {
    s.map_values(|b: BeatPattern| b@)
}

impl View for Bar {
    type V = BarView;

    open spec fn view(&self) -> BarView {
        BarView { line: self.line, beats: beat_views(self.beats@) }
    }
}

pub open spec fn bar_views(s: Seq<Bar>) -> Seq<BarView> {
    s.map_values(|b: Bar| b@)
}

pub open spec fn part_views(s: Seq<Part>) -> Seq<PartView> {
    s.map_values(|p: Part| p@)
}

pub open spec fn string_views(s: Seq<String>) -> Seq<Seq<char>> {
    s.map_values(|t: String| t@)
}

impl View for Song {
    type V = SongView;

    open spec fn view(&self) -> SongView {
        SongView {
            metadata: self.metadata@,
            parts: part_views(self.parts@),
            warnings: string_views(self.warnings@),
            bars: bar_views(self.bars@),
        }
    }
}

/// Metadata with nothing set.
pub open spec fn empty_metadata() -> MetadataView {
    MetadataView {
        tempo: None,
        time_signature: None,
        velocity: None,
        strum_spread_ms: None,
        downstroke_velocity: None,
        upstroke_velocity: None,
        downstroke_spread_ms: None,
        upstroke_spread_ms: None,
        upstroke_max_strings: None,
        beat: None,
        subdivision: None,
        count: None,
        instrument: None,
        voicing: None,
    }
}

impl Default for Metadata {
    fn default() -> (m: Self)
        ensures
            m@ == empty_metadata(),
    {
        Metadata {
            tempo: None,
            time_signature: None,
            velocity: None,
            strum_spread_ms: None,
            downstroke_velocity: None,
            upstroke_velocity: None,
            downstroke_spread_ms: None,
            upstroke_spread_ms: None,
            upstroke_max_strings: None,
            beat: None,
            subdivision: None,
            count: None,
            instrument: None,
            voicing: None,
        }
    }
}

/// A copy of a beat pattern.
pub fn copy_beat(b: &BeatPattern) -> (r: BeatPattern)
    ensures
        r@ == b@,
{
    BeatPattern { chord: b.chord.clone(), chord_line: b.chord_line, slots: copy_slots(&b.slots) }
}

fn copy_slots(v: &Vec<StrumSymbol>) -> (r: Vec<StrumSymbol>)
    ensures
        r@ == v@,
{
    let mut r: Vec<StrumSymbol> = Vec::new();
    let mut i: usize = 0;
    while i < v.len()
        invariant
            i <= v.len(),
            r@ == v@.subrange(0, i as int),
        decreases v.len() - i,
    {
        r.push(v[i]);
        i = i + 1;
    }
    r
}

/// A copy of a bar.
pub fn copy_bar(b: &Bar) -> (r: Bar)
    ensures
        r@ == b@,
{
    let mut beats: Vec<BeatPattern> = Vec::new();
    let mut i: usize = 0;
    while i < b.beats.len()
        invariant
            i <= b.beats.len(),
            beats.len() == i,
            beat_views(beats@) == beat_views(b.beats@.subrange(0, i as int)),
        decreases b.beats.len() - i,
    {
        let c = copy_beat(&b.beats[i]);
        let ghost prev = beats@;
        beats.push(c);
        assert forall|k: int| 0 <= k < i + 1 implies #[trigger] beat_views(beats@)[k]
            == beat_views(b.beats@.subrange(0, i + 1))[k] by {
            if k < i {
                assert(beats@[k] == prev[k]);
                assert(beat_views(prev)[k] == beat_views(b.beats@.subrange(0, i as int))[k]);
            }
        }
        assert(beat_views(beats@) =~= beat_views(b.beats@.subrange(0, i + 1)));
        i = i + 1;
    }
    assert(b.beats@.subrange(0, i as int) =~= b.beats@);
    Bar { line: b.line, beats }
}

/// Law: each instrument plays its General MIDI program (numbered from 0): the
/// nylon-string acoustic guitar 24, the steel-string acoustic guitar 25, the
/// clean electric guitar 27; no two instruments share a program.
pub proof fn lemma_general_midi_programs(a: Instrument, b: Instrument)
    ensures
        program_of(Instrument::NylonGuitar) == 24,
        program_of(Instrument::AcousticGuitar) == 25,
        program_of(Instrument::ElectricGuitarClean) == 27,
        a != b ==> program_of(a) != program_of(b),
{
}

} // verus!
