//! Standard MIDI File output: one track with the tempo, the time signature,
//! the instrument, a marker for each part, and the note events of every strum.
use vstd::prelude::*;

use crate::chord::chord_notes;
use crate::error::{AppError, ErrorView};
use crate::model::{Bar, BarView, Part, PartView, Song, SongView, StrumSymbol, TimeSignature};
use crate::timing::{
    bar_ticks_spec, beats_per_bar_of, ms_to_ticks_spec, slot_ticks_spec, slots_per_beat_of, song_beat,
    song_subdivision,
};
use crate::validate::{instrument_of, validate_spec};
use crate::validate::str_view;
use crate::voicing::{
    custom_fits, custom_fits_song, custom_view, select_spec, StringNoteView, VoicingLibrary, VoicingView,
};

verus! {

/// Velocity and per-note strum spread for plain (unvoiced) chords.
#[derive(Debug, Clone, Copy)]
pub struct MidiOptions {
    pub velocity: u8,
    pub strum_spread_ms: u16,
}

impl MidiOptions {
    /// The options a song's metadata asks for: its `velocity` (90 by
    /// default) and `strum_spread_ms` (20 by default).
    pub fn from_metadata(metadata: &crate::model::Metadata) -> (o: MidiOptions)
        ensures
            o.velocity == or_u8(metadata.velocity, 90),
            o.strum_spread_ms == or_u16(metadata.strum_spread_ms, 20),
    {
        MidiOptions {
            velocity: match metadata.velocity {
                Some(v) => v,
                None => 90,
            },
            strum_spread_ms: match metadata.strum_spread_ms {
                Some(v) => v,
                None => 20,
            },
        }
    }
}

// ---------------------------------------------------------------------
// Events
// ---------------------------------------------------------------------

/// A timed track event: its tick, its rank among events at the same tick
/// (note-offs and markers before note-ons), and its bytes.
pub struct EventView {
    pub tick: nat,
    pub order: u8,
    pub bytes: Seq<u8>,
}

pub open spec fn note_on(tick: nat, note: u8, velocity: u8) -> EventView {
    EventView { tick, order: 1, bytes: seq![0x90u8, note, velocity] }
}

pub open spec fn note_off(tick: nat, note: u8) -> EventView {
    EventView { tick, order: 0, bytes: seq![0x80u8, note, 0u8] }
}

/// How the notes of a stroke are spread in time: a fixed gap between
/// successive notes, or a total sweep from the first note to the last,
/// spaced evenly.
pub enum Spacing {
    Each(nat),
    Sweep(nat),
}

/// The notes of one stroke in the order they sound, the velocity of the
/// first, how much softer each following note is, and their spacing.
pub struct Stroke {
    pub notes: Seq<u8>,
    pub velocity: u8,
    pub soften: nat,
    pub spacing: Spacing,
}

/// Ticks from the start of a stroke of `n` notes to its note `k`.
pub open spec fn note_offset(sp: Spacing, k: nat, n: nat) -> nat {
    match sp {
        Spacing::Each(d) => k * d,
        Spacing::Sweep(t) => if n <= 1 {
            0
        } else {
            k * t / ((n - 1) as nat)
        },
    }
}

/// The velocity of note `k`: `soften` less for each note before it, but
/// never below 1 (nor above 0 when the stroke's velocity is 0).
pub open spec fn note_velocity(v: u8, soften: nat, k: nat) -> u8 {
    if soften * k < v {
        (v - soften * k) as u8
    } else if v == 0 {
        0
    } else {
        1
    }
}

/// The note-on and note-off events of the first `k` notes of a stroke that
/// starts at `tick`, each note held for `duration` ticks.
pub open spec fn stroke_events(st: Stroke, tick: nat, duration: nat, k: nat) -> Seq<EventView>
    decreases k,
{
    if k == 0 {
        seq![]
    } else {
        let i = (k - 1) as nat;
        let t = tick + note_offset(st.spacing, i, st.notes.len());
        stroke_events(st, tick, duration, i) + seq![
            note_on(t, st.notes[i as int], note_velocity(st.velocity, st.soften, i)),
            note_off(t + duration, st.notes[i as int]),
        ]
    }
}

/// All the events of a stroke.
pub open spec fn strum_events(st: Stroke, tick: nat, duration: nat) -> Seq<EventView> {
    stroke_events(st, tick, duration, st.notes.len())
}

// ---------------------------------------------------------------------
// Clamped tick arithmetic
// ---------------------------------------------------------------------

/// A bound far above any tick a MIDI file can hold; ticks are computed up
/// to it, and anything larger is known to be out of range.
pub const TICK_CAP: u64 = 0x10_0000_0000;

pub open spec fn clamp(t: nat) -> nat {
    if t < TICK_CAP {
        t
    } else {
        TICK_CAP as nat
    }
}

proof fn lemma_clamp_add(a: nat, b: nat)
    ensures
        clamp(clamp(a) + clamp(b)) == clamp(a + b),
{
}

proof fn lemma_clamp_mul(i: nat, b: nat)
    ensures
        clamp(clamp(i) * b) == clamp(i * b),
{
    if i >= TICK_CAP && b >= 1 {
        assert(clamp(i) * b >= TICK_CAP) by (nonlinear_arith)
            requires
                clamp(i) == TICK_CAP,
                b >= 1,
        ;
        assert(i * b >= TICK_CAP) by (nonlinear_arith)
            requires
                i >= TICK_CAP,
                b >= 1,
        ;
    }
    if b == 0 {
        assert(clamp(i) * b == 0 && i * b == 0) by (nonlinear_arith)
            requires
                b == 0,
        ;
    }
}

fn clamp_u64(x: u64) -> (r: u64)
    ensures
        r as nat == clamp(x as nat),
{
    if x < TICK_CAP {
        x
    } else {
        TICK_CAP
    }
}

/// `clamp(a + b)` of two clamped values.
fn tick_add(a: u64, b: u64, Ghost(ta): Ghost<nat>, Ghost(tb): Ghost<nat>) -> (r: u64)
    requires
        a as nat == clamp(ta),
        b as nat == clamp(tb),
    ensures
        r as nat == clamp(ta + tb),
{
    proof {
        lemma_clamp_add(ta, tb);
    }
    clamp_u64(a + b)
}

/// `clamp(i * b)` for an index `i` and a small factor `b`.
fn tick_scale(i: usize, b: u64) -> (r: u64)
    requires
        b <= 0x800_0000,
    ensures
        r as nat == clamp(i as nat * b as nat),
{
    let ci: u64 = if (i as u64) < TICK_CAP {
        i as u64
    } else {
        TICK_CAP
    };
    proof {
        assert(ci as nat == clamp(i as nat));
        lemma_clamp_mul(i as nat, b as nat);
        assert(ci * b <= TICK_CAP * 0x800_0000) by (nonlinear_arith)
            requires
                ci <= TICK_CAP,
                b <= 0x800_0000,
        ;
    }
    clamp_u64(ci * b)
}

// ---------------------------------------------------------------------
// Variable-length quantities
// ---------------------------------------------------------------------

/// The leading bytes of a variable-length quantity: seven bits each, most
/// significant first, each with its top bit set.
pub open spec fn vlq_lead(v: nat) -> Seq<u8>
    decreases v,
{
    if v == 0 {
        seq![]
    } else {
        vlq_lead(v / 128) + seq![((v % 128) + 128) as u8]
    }
}

/// The MIDI variable-length encoding of `v`: the low seven bits come last,
/// with the top bit clear.
pub open spec fn vlq(v: nat) -> Seq<u8> {
    vlq_lead(v / 128) + seq![(v % 128) as u8]
}

fn push_vlq_lead(out: &mut Vec<u8>, v: u64)
    ensures
        final(out)@ == old(out)@ + vlq_lead(v as nat),
    decreases v,
{
    if v > 0 {
        push_vlq_lead(out, v / 128);
        out.push((v % 128 + 128) as u8);
        assert(final(out)@ =~= old(out)@ + vlq_lead(v as nat)) by {
            assert(vlq_lead(v as nat) == vlq_lead((v / 128) as nat) + seq![((v % 128) + 128) as u8]);
        }
    } else {
        assert(old(out)@ + vlq_lead(0) =~= old(out)@);
    }
}

/// Appends `value` as a variable-length quantity.
fn write_delta(out: &mut Vec<u8>, value: u64)
    ensures
        final(out)@ == old(out)@ + vlq(value as nat),
{
    push_vlq_lead(out, value / 128);
    out.push((value % 128) as u8);
    assert(final(out)@ =~= old(out)@ + vlq(value as nat));
}

// ---------------------------------------------------------------------
// Strokes
// ---------------------------------------------------------------------

struct MidiEvent {
    tick: u64,
    order: u8,
    bytes: Vec<u8>,
}

impl View for MidiEvent {
    type V = EventView;

    closed spec fn view(&self) -> EventView {
        EventView { tick: self.tick as nat, order: self.order, bytes: self.bytes@ }
    }
}

spec fn event_views(s: Seq<MidiEvent>) -> Seq<EventView> {
    s.map_values(|e: MidiEvent| e@)
}

/// Events with their ticks clamped.
pub open spec fn clamped(s: Seq<EventView>) -> Seq<EventView> {
    s.map_values(|e: EventView| EventView { tick: clamp(e.tick), order: e.order, bytes: e.bytes })
}

fn push_event(events: &mut Vec<MidiEvent>, e: MidiEvent)
    ensures
        event_views(final(events)@) == event_views(old(events)@).push(e@),
{
    let ghost prev = events@;
    events.push(e);
    assert(event_views(events@) =~= event_views(prev).push(e@));
}

proof fn lemma_sweep_offset(k: nat, t: nat, n: nat)
    requires
        k < n,
        n > 1,
    ensures
        k * t / ((n - 1) as nat) <= t,
{
    let m: nat = (n - 1) as nat;
    assert(k * t / m <= t) by (nonlinear_arith)
        requires
            k <= m,
            m > 0,
    {
        assert(k * t <= m * t);
        assert((m * t) / m == t);
    }
}

/// Appends the events of a stroke whose first note sounds at `tick`
/// (the clamped value of `t`).
fn push_stroke(
    events: &mut Vec<MidiEvent>,
    notes: &Vec<u8>,
    velocity: u8,
    soften: u8,
    sweep: bool,
    gap: u64,
    tick: u64,
    duration: u64,
    Ghost(t): Ghost<nat>,
)
    requires
        tick as nat == clamp(t),
        gap <= 0x800_0000,
        duration <= 0x800_0000,
    ensures
        event_views(final(events)@) == event_views(old(events)@) + clamped(
            strum_events(
                Stroke {
                    notes: notes@,
                    velocity,
                    soften: soften as nat,
                    spacing: if sweep {
                        Spacing::Sweep(gap as nat)
                    } else {
                        Spacing::Each(gap as nat)
                    },
                },
                t,
                duration as nat,
            ),
        ),
{
    let ghost st = Stroke {
        notes: notes@,
        velocity,
        soften: soften as nat,
        spacing: if sweep {
            Spacing::Sweep(gap as nat)
        } else {
            Spacing::Each(gap as nat)
        },
    };
    let ghost start = event_views(events@);
    let n = notes.len();
    let mut k: usize = 0;
    while k < n
        invariant
            k <= n,
            n == notes@.len(),
            st.notes == notes@,
            st.velocity == velocity,
            st.soften == soften as nat,
            st.spacing == (if sweep {
                Spacing::Sweep(gap as nat)
            } else {
                Spacing::Each(gap as nat)
            }),
            tick as nat == clamp(t),
            gap <= 0x800_0000,
            duration <= 0x800_0000,
            event_views(events@) == start + clamped(stroke_events(st, t, duration as nat, k as nat)),
        decreases n - k,
    {
        let ghost off_true = note_offset(st.spacing, k as nat, n as nat);
        let off: u64 = if sweep {
            if n <= 1 {
                0
            } else {
                proof {
                    lemma_sweep_offset(k as nat, gap as nat, n as nat);
                    assert((k as u128) * (gap as u128) <= 0x1_0000_0000_0000_0000u128 * 0x800_0000u128) by (nonlinear_arith)
                        requires
                            k <= 0xffff_ffff_ffff_ffffu64,
                            gap <= 0x800_0000,
                    ;
                }
                (((k as u128) * (gap as u128)) / ((n - 1) as u128)) as u64
            }
        } else {
            tick_scale(k, gap)
        };
        assert(off as nat == clamp(off_true));
        let on_tick = tick_add(tick, off, Ghost(t), Ghost(off_true));
        let off_tick = tick_add(on_tick, duration, Ghost(t + off_true), Ghost(duration as nat));
        assert((soften as u128) * (k as u128) <= 256u128 * 0x1_0000_0000_0000_0000u128) by (nonlinear_arith)
            requires
                soften <= 255,
                k <= 0xffff_ffff_ffff_ffffu64,
        ;
        let vel: u8 = if (soften as u128) * (k as u128) < velocity as u128 {
            (velocity as u128 - (soften as u128) * (k as u128)) as u8
        } else if velocity == 0 {
            0
        } else {
            1
        };
        assert(vel == note_velocity(velocity, soften as nat, k as nat));
        let note = notes[k];
        let ghost prev = event_views(events@);
        push_event(events, MidiEvent { tick: on_tick, order: 1, bytes: vec![0x90, note, vel] });
        push_event(events, MidiEvent { tick: off_tick, order: 0, bytes: vec![0x80, note, 0] });
        proof {
            let added = seq![
                note_on(t + off_true, st.notes[k as int], note_velocity(st.velocity, st.soften, k as nat)),
                note_off(t + off_true + (duration as nat), st.notes[k as int]),
            ];
            assert(stroke_events(st, t, duration as nat, (k + 1) as nat) == stroke_events(st, t, duration as nat, k as nat) + added);
            assert(clamped(stroke_events(st, t, duration as nat, (k + 1) as nat)) =~= clamped(stroke_events(st, t, duration as nat, k as nat)) + clamped(added));
            assert(event_views(events@) =~= start + clamped(stroke_events(st, t, duration as nat, (k + 1) as nat)));
        }
        k = k + 1;
    }
}

proof fn lemma_clamped_add(a: Seq<EventView>, b: Seq<EventView>)
    ensures
        clamped(a + b) == clamped(a) + clamped(b),
{
    assert(clamped(a + b) =~= clamped(a) + clamped(b));
}

// ---------------------------------------------------------------------
// Strums
// ---------------------------------------------------------------------

/// How the strums of a song are rendered. Plain chords play their notes
/// at `velocity`, `spread` ticks apart; voiced chords sweep their sounding
/// strings in `down_sweep` or `up_sweep` ticks, growing softer string by
/// string, and an upstroke strikes at most `up_max` strings.
pub struct RenderParams {
    pub voiced: bool,
    pub velocity: u8,
    pub spread: nat,
    pub down_velocity: u8,
    pub up_velocity: u8,
    pub down_sweep: nat,
    pub up_sweep: nat,
    pub up_max: nat,
    pub duration: nat,
}

/// How many strings an upstroke over `n` sounding notes strikes.
pub open spec fn up_count(p: RenderParams, n: nat) -> nat {
    if p.up_max < n {
        p.up_max
    } else {
        n
    }
}

/// A downstroke plays the notes from low to high.
pub open spec fn down_stroke(p: RenderParams, notes: Seq<u8>) -> Stroke {
    if p.voiced {
        Stroke { notes, velocity: p.down_velocity, soften: 2, spacing: Spacing::Sweep(p.down_sweep) }
    } else {
        Stroke { notes, velocity: p.velocity, soften: 0, spacing: Spacing::Each(p.spread) }
    }
}

/// An upstroke plays the notes from high to low.
pub open spec fn up_stroke(p: RenderParams, notes: Seq<u8>) -> Stroke {
    if p.voiced {
        Stroke {
            notes: notes.reverse().subrange(0, up_count(p, notes.len()) as int),
            velocity: p.up_velocity,
            soften: 4,
            spacing: Spacing::Sweep(p.up_sweep),
        }
    } else {
        Stroke { notes: notes.reverse(), velocity: p.velocity, soften: 0, spacing: Spacing::Each(p.spread) }
    }
}

/// A muted strum: every note at once, soft.
pub open spec fn muted_stroke(notes: Seq<u8>) -> Stroke {
    Stroke { notes, velocity: 25, soften: 0, spacing: Spacing::Each(0) }
}

/// A muted strum is held at most 30 ticks.
pub open spec fn muted_duration(d: nat) -> nat {
    if d < 30 {
        d
    } else {
        30
    }
}

/// The events of one slot of a pattern whose chord sounds `notes`.
pub open spec fn slot_events(p: RenderParams, notes: Seq<u8>, sym: StrumSymbol, tick: nat) -> Seq<EventView> {
    match sym {
        StrumSymbol::Down => strum_events(down_stroke(p, notes), tick, p.duration),
        StrumSymbol::Up => strum_events(up_stroke(p, notes), tick, p.duration),
        StrumSymbol::Muted => strum_events(muted_stroke(notes), tick, muted_duration(p.duration)),
        StrumSymbol::Rest => seq![],
    }
}

/// The events of the first `k` slots of a beat pattern that starts at
/// `start`, one slot every `slot_ticks`.
pub open spec fn pattern_events(
    p: RenderParams,
    notes: Seq<u8>,
    slots: Seq<StrumSymbol>,
    start: nat,
    slot_ticks: nat,
    k: nat,
) -> Seq<EventView>
    decreases k,
{
    if k == 0 {
        seq![]
    } else {
        pattern_events(p, notes, slots, start, slot_ticks, (k - 1) as nat) + slot_events(
            p,
            notes,
            slots[k - 1],
            start + ((k - 1) as nat) * slot_ticks,
        )
    }
}

struct Params {
    voiced: bool,
    velocity: u8,
    spread: u64,
    down_velocity: u8,
    up_velocity: u8,
    down_sweep: u64,
    up_sweep: u64,
    up_max: u8,
    duration: u64,
}

impl View for Params {
    type V = RenderParams;

    closed spec fn view(&self) -> RenderParams {
        RenderParams {
            voiced: self.voiced,
            velocity: self.velocity,
            spread: self.spread as nat,
            down_velocity: self.down_velocity,
            up_velocity: self.up_velocity,
            down_sweep: self.down_sweep as nat,
            up_sweep: self.up_sweep as nat,
            up_max: self.up_max as nat,
            duration: self.duration as nat,
        }
    }
}

impl Params {
    spec fn ok(&self) -> bool {
        &&& self.spread <= 0x800_0000
        &&& self.down_sweep <= 0x800_0000
        &&& self.up_sweep <= 0x800_0000
        &&& self.duration <= 0x800_0000
    }
}

fn reversed(v: &Vec<u8>) -> (r: Vec<u8>)
    ensures
        r@ == v@.reverse(),
{
    let mut r: Vec<u8> = Vec::new();
    let n = v.len();
    let mut i: usize = 0;
    while i < n
        invariant
            i <= n,
            n == v.len(),
            r@.len() == i,
            forall|k: int| 0 <= k < i ==> r@[k] == v@[n - 1 - k],
        decreases n - i,
    {
        r.push(v[n - 1 - i]);
        i = i + 1;
    }
    assert(r@ =~= v@.reverse());
    r
}

fn first_notes(v: &Vec<u8>, k: usize) -> (r: Vec<u8>)
    requires
        k <= v.len(),
    ensures
        r@ == v@.subrange(0, k as int),
{
    let mut r: Vec<u8> = Vec::new();
    let mut i: usize = 0;
    while i < k
        invariant
            i <= k <= v.len(),
            r@ == v@.subrange(0, i as int),
        decreases k - i,
    {
        r.push(v[i]);
        assert(r@ =~= v@.subrange(0, i + 1));
        i = i + 1;
    }
    r
}

fn push_slot(
    events: &mut Vec<MidiEvent>,
    p: &Params,
    notes: &Vec<u8>,
    sym: StrumSymbol,
    tick: u64,
    Ghost(t): Ghost<nat>,
)
    requires
        p.ok(),
        tick as nat == clamp(t),
    ensures
        event_views(final(events)@) == event_views(old(events)@) + clamped(slot_events(p@, notes@, sym, t)),
{
    match sym {
        StrumSymbol::Down => {
            if p.voiced {
                push_stroke(events, notes, p.down_velocity, 2, true, p.down_sweep, tick, p.duration, Ghost(t));
            } else {
                push_stroke(events, notes, p.velocity, 0, false, p.spread, tick, p.duration, Ghost(t));
            }
        },
        StrumSymbol::Up => {
            let rev = reversed(notes);
            if p.voiced {
                let count: usize = if (p.up_max as usize) < rev.len() {
                    p.up_max as usize
                } else {
                    rev.len()
                };
                let struck = first_notes(&rev, count);
                push_stroke(events, &struck, p.up_velocity, 4, true, p.up_sweep, tick, p.duration, Ghost(t));
            } else {
                push_stroke(events, &rev, p.velocity, 0, false, p.spread, tick, p.duration, Ghost(t));
            }
        },
        StrumSymbol::Muted => {
            let d: u64 = if p.duration < 30 {
                p.duration
            } else {
                30
            };
            push_stroke(events, notes, 25, 0, false, 0, tick, d, Ghost(t));
        },
        StrumSymbol::Rest => {
            assert(clamped(seq![]) =~= Seq::<EventView>::empty());
            assert(event_views(events@) =~= event_views(events@) + Seq::<EventView>::empty());
        },
    }
}

fn push_pattern(
    events: &mut Vec<MidiEvent>,
    p: &Params,
    notes: &Vec<u8>,
    slots: &Vec<StrumSymbol>,
    start: u64,
    Ghost(st): Ghost<nat>,
    slot_ticks: u64,
)
    requires
        p.ok(),
        start as nat == clamp(st),
        slot_ticks <= 0x800_0000,
    ensures
        event_views(final(events)@) == event_views(old(events)@) + clamped(
            pattern_events(p@, notes@, slots@, st, slot_ticks as nat, slots@.len()),
        ),
{
    let ghost base = event_views(events@);
    let mut k: usize = 0;
    while k < slots.len()
        invariant
            k <= slots.len(),
            p.ok(),
            start as nat == clamp(st),
            slot_ticks <= 0x800_0000,
            event_views(events@) == base + clamped(
                pattern_events(p@, notes@, slots@, st, slot_ticks as nat, k as nat),
            ),
        decreases slots.len() - k,
    {
        let off = tick_scale(k, slot_ticks);
        let tick = tick_add(start, off, Ghost(st), Ghost(k as nat * slot_ticks as nat));
        let ghost before = event_views(events@);
        push_slot(events, p, notes, slots[k], tick, Ghost(st + k as nat * slot_ticks as nat));
        proof {
            lemma_clamped_add(
                pattern_events(p@, notes@, slots@, st, slot_ticks as nat, k as nat),
                slot_events(p@, notes@, slots@[k as int], st + k as nat * slot_ticks as nat),
            );
            assert(event_views(events@) =~= base + clamped(
                pattern_events(p@, notes@, slots@, st, slot_ticks as nat, (k + 1) as nat),
            ));
        }
        k = k + 1;
    }
}

// ---------------------------------------------------------------------
// Bars and parts
// ---------------------------------------------------------------------

/// The MIDI notes of sounding strings, from the lowest string up.
pub open spec fn midi_notes(ns: Seq<StringNoteView>) -> Seq<u8> {
    ns.map_values(|n: StringNoteView| n.midi_note)
}

/// The notes a chord sounds: its close-position notes when no voicing set
/// applies, else the sounding strings of its voicing chosen from `set`
/// and the `custom` voicings.
pub open spec fn chord_sound(set: Option<Seq<char>>, custom: Option<Seq<VoicingView>>, chord: Seq<char>) -> Seq<u8> {
    match set {
        None => match chord_notes(chord) {
            Some(n) => n,
            None => seq![],
        },
        Some(v) => match select_spec(chord, v, custom) {
            Ok(r) => midi_notes(r.1),
            Err(_) => seq![],
        },
    }
}

/// Ticks per slot, per beat pattern and per bar.
pub struct Grid {
    pub slot_ticks: nat,
    pub beat_ticks: nat,
    pub bar_ticks: nat,
}

/// The events of the first `k` beat patterns of a bar that starts at `start`.
pub open spec fn bar_events(
    set: Option<Seq<char>>,
    custom: Option<Seq<VoicingView>>,
    p: RenderParams,
    g: Grid,
    bar: BarView,
    start: nat,
    k: nat,
) -> Seq<EventView>
    decreases k,
{
    if k == 0 {
        seq![]
    } else {
        let b = bar.beats[k - 1];
        bar_events(set, custom, p, g, bar, start, (k - 1) as nat) + pattern_events(
            p,
            chord_sound(set, custom, b.chord),
            b.slots,
            start + ((k - 1) as nat) * g.beat_ticks,
            g.slot_ticks,
            b.slots.len(),
        )
    }
}

/// The events of the first `k` bars, one bar every `g.bar_ticks`.
pub open spec fn bars_events(
    set: Option<Seq<char>>,
    custom: Option<Seq<VoicingView>>,
    p: RenderParams,
    g: Grid,
    bars: Seq<BarView>,
    k: nat,
) -> Seq<EventView>
    decreases k,
{
    if k == 0 {
        seq![]
    } else {
        bars_events(set, custom, p, g, bars, (k - 1) as nat) + bar_events(
            set,
            custom,
            p,
            g,
            bars[k - 1],
            ((k - 1) as nat) * g.bar_ticks,
            bars[k - 1].beats.len(),
        )
    }
}

/// A marker meta event naming a part, at the start of its first bar.
pub open spec fn marker_event(part: PartView, bar_ticks: nat) -> EventView {
    let text = vstd::utf8::encode_utf8(part.name);
    EventView {
        tick: (part.bar_index as nat) * bar_ticks,
        order: 0,
        bytes: seq![0xFFu8, 0x06u8] + vlq(text.len()) + text,
    }
}

/// The markers of the first `k` parts.
pub open spec fn marker_events(parts: Seq<PartView>, bar_ticks: nat, k: nat) -> Seq<EventView>
    decreases k,
{
    if k == 0 {
        seq![]
    } else {
        marker_events(parts, bar_ticks, (k - 1) as nat).push(marker_event(parts[k - 1], bar_ticks))
    }
}

fn sound_of(set: Option<&str>, custom: Option<&VoicingLibrary>, chord: &str) -> (r: Vec<u8>)
    requires
        custom_fits(custom_view(custom), chord@),
    ensures
        r@ == chord_sound(str_view(set), custom_view(custom), chord@),
{
    match set {
        None => match crate::chord::notes_for_chord(chord) {
            Some(n) => n,
            None => Vec::new(),
        },
        Some(v) => match crate::voicing::select_voicing(chord, v, custom) {
            Ok(rv) => {
                let mut r: Vec<u8> = Vec::new();
                let mut i: usize = 0;
                let ghost ns = rv@.1;
                while i < rv.notes.len()
                    invariant
                        i <= rv.notes.len(),
                        ns == crate::voicing::note_views(rv.notes@),
                        r@ == midi_notes(ns).subrange(0, i as int),
                    decreases rv.notes.len() - i,
                {
                    r.push(rv.notes[i].midi_note);
                    assert(r@ =~= midi_notes(ns).subrange(0, i + 1));
                    i = i + 1;
                }
                assert(midi_notes(ns).subrange(0, i as int) =~= midi_notes(ns));
                r
            },
            Err(_) => Vec::new(),
        },
    }
}

fn push_bar(
    events: &mut Vec<MidiEvent>,
    p: &Params,
    set: Option<&str>,
    custom: Option<&VoicingLibrary>,
    bar: &Bar,
    start: u64,
    Ghost(st): Ghost<nat>,
    slot_ticks: u64,
    beat_ticks: u64,
)
    requires
        p.ok(),
        forall|j: int| 0 <= j < bar@.beats.len() ==> custom_fits(custom_view(custom), #[trigger] bar@.beats[j].chord),
        start as nat == clamp(st),
        slot_ticks <= 0x800_0000,
        beat_ticks <= 0x800_0000,
    ensures
        event_views(final(events)@) == event_views(old(events)@) + clamped(
            bar_events(
                str_view(set),
                custom_view(custom),
                p@,
                Grid { slot_ticks: slot_ticks as nat, beat_ticks: beat_ticks as nat, bar_ticks: 0 },
                bar@,
                st,
                bar@.beats.len(),
            ),
        ),
{
    let ghost g = Grid { slot_ticks: slot_ticks as nat, beat_ticks: beat_ticks as nat, bar_ticks: 0 };
    let ghost base = event_views(events@);
    let mut j: usize = 0;
    while j < bar.beats.len()
        invariant
            j <= bar.beats.len(),
            bar@.beats.len() == bar.beats.len(),
            p.ok(),
            forall|k: int| 0 <= k < bar@.beats.len() ==> custom_fits(custom_view(custom), #[trigger] bar@.beats[k].chord),
            start as nat == clamp(st),
            slot_ticks <= 0x800_0000,
            beat_ticks <= 0x800_0000,
            g == (Grid { slot_ticks: slot_ticks as nat, beat_ticks: beat_ticks as nat, bar_ticks: 0 }),
            event_views(events@) == base + clamped(
                bar_events(str_view(set), custom_view(custom), p@, g, bar@, st, j as nat),
            ),
        decreases bar.beats.len() - j,
    {
        let beat = &bar.beats[j];
        assert(bar@.beats[j as int] == beat@);
        assert(custom_fits(custom_view(custom), bar@.beats[j as int].chord));
        let notes = sound_of(set, custom, beat.chord.as_str());
        let off = tick_scale(j, beat_ticks);
        let bstart = tick_add(start, off, Ghost(st), Ghost(j as nat * beat_ticks as nat));
        push_pattern(events, p, &notes, &beat.slots, bstart, Ghost(st + j as nat * beat_ticks as nat), slot_ticks);
        proof {
            lemma_clamped_add(
                bar_events(str_view(set), custom_view(custom), p@, g, bar@, st, j as nat),
                pattern_events(
                    p@,
                    chord_sound(str_view(set), custom_view(custom), beat@.chord),
                    beat@.slots,
                    st + j as nat * beat_ticks as nat,
                    slot_ticks as nat,
                    beat@.slots.len(),
                ),
            );
            assert(event_views(events@) =~= base + clamped(
                bar_events(str_view(set), custom_view(custom), p@, g, bar@, st, (j + 1) as nat),
            ));
        }
        j = j + 1;
    }
}

proof fn lemma_bar_events_grid(
    set: Option<Seq<char>>,
    custom: Option<Seq<VoicingView>>,
    p: RenderParams,
    g: Grid,
    h: Grid,
    bar: BarView,
    start: nat,
    k: nat,
)
    requires
        g.slot_ticks == h.slot_ticks,
        g.beat_ticks == h.beat_ticks,
    ensures
        bar_events(set, custom, p, g, bar, start, k) == bar_events(set, custom, p, h, bar, start, k),
    decreases k,
{
    if k > 0 {
        lemma_bar_events_grid(set, custom, p, g, h, bar, start, (k - 1) as nat);
    }
}

fn push_bars(
    events: &mut Vec<MidiEvent>,
    p: &Params,
    set: Option<&str>,
    custom: Option<&VoicingLibrary>,
    bars: &Vec<Bar>,
    slot_ticks: u64,
    beat_ticks: u64,
    bar_ticks: u64,
)
    requires
        p.ok(),
        forall|i: int, j: int|
            0 <= i < bars@.len() && 0 <= j < bars@[i]@.beats.len() ==> custom_fits(
                custom_view(custom),
                #[trigger] bars@[i]@.beats[j].chord,
            ),
        slot_ticks <= 0x800_0000,
        beat_ticks <= 0x800_0000,
        bar_ticks <= 0x800_0000,
    ensures
        event_views(final(events)@) == event_views(old(events)@) + clamped(
            bars_events(
                str_view(set),
                custom_view(custom),
                p@,
                Grid { slot_ticks: slot_ticks as nat, beat_ticks: beat_ticks as nat, bar_ticks: bar_ticks as nat },
                crate::model::bar_views(bars@),
                bars@.len(),
            ),
        ),
{
    let ghost g = Grid { slot_ticks: slot_ticks as nat, beat_ticks: beat_ticks as nat, bar_ticks: bar_ticks as nat };
    let ghost bv = crate::model::bar_views(bars@);
    let ghost base = event_views(events@);
    let mut i: usize = 0;
    while i < bars.len()
        invariant
            i <= bars.len(),
            bv == crate::model::bar_views(bars@),
            bv.len() == bars.len(),
            p.ok(),
            forall|k: int, j: int|
                0 <= k < bars@.len() && 0 <= j < bars@[k]@.beats.len() ==> custom_fits(
                    custom_view(custom),
                    #[trigger] bars@[k]@.beats[j].chord,
                ),
            slot_ticks <= 0x800_0000,
            beat_ticks <= 0x800_0000,
            bar_ticks <= 0x800_0000,
            g == (Grid { slot_ticks: slot_ticks as nat, beat_ticks: beat_ticks as nat, bar_ticks: bar_ticks as nat }),
            event_views(events@) == base + clamped(bars_events(str_view(set), custom_view(custom), p@, g, bv, i as nat)),
        decreases bars.len() - i,
    {
        assert(bv[i as int] == bars@[i as int]@);
        assert forall|j: int| 0 <= j < bars@[i as int]@.beats.len() implies custom_fits(
            custom_view(custom),
            #[trigger] bars@[i as int]@.beats[j].chord,
        ) by {}
        let start = tick_scale(i, bar_ticks);
        push_bar(events, p, set, custom, &bars[i], start, Ghost(i as nat * bar_ticks as nat), slot_ticks, beat_ticks);
        proof {
            let h = Grid { slot_ticks: slot_ticks as nat, beat_ticks: beat_ticks as nat, bar_ticks: 0 };
            lemma_bar_events_grid(str_view(set), custom_view(custom), p@, g, h, bv[i as int], i as nat * bar_ticks as nat, bv[i as int].beats.len());
            lemma_clamped_add(
                bars_events(str_view(set), custom_view(custom), p@, g, bv, i as nat),
                bar_events(str_view(set), custom_view(custom), p@, g, bv[i as int], i as nat * bar_ticks as nat, bv[i as int].beats.len()),
            );
            assert(event_views(events@) =~= base + clamped(
                bars_events(str_view(set), custom_view(custom), p@, g, bv, (i + 1) as nat),
            ));
        }
        i = i + 1;
    }
}

fn utf8_bytes(s: &String) -> (r: Vec<u8>)
    ensures
        r@ == vstd::utf8::encode_utf8(s@),
{
    let b = s.as_str().as_bytes();
    let mut r: Vec<u8> = Vec::new();
    let mut i: usize = 0;
    while i < b.len()
        invariant
            i <= b@.len(),
            b@ == vstd::utf8::encode_utf8(s@),
            r@ == b@.subrange(0, i as int),
        decreases b.len() - i,
    {
        r.push(b[i]);
        assert(r@ =~= b@.subrange(0, i + 1));
        i = i + 1;
    }
    assert(b@.subrange(0, i as int) =~= b@);
    r
}

fn push_markers(events: &mut Vec<MidiEvent>, parts: &Vec<Part>, bar_ticks: u64)
    requires
        bar_ticks <= 0x800_0000,
    ensures
        event_views(final(events)@) == event_views(old(events)@) + clamped(
            marker_events(crate::model::part_views(parts@), bar_ticks as nat, parts@.len()),
        ),
{
    let ghost pv = crate::model::part_views(parts@);
    let ghost base = event_views(events@);
    let mut i: usize = 0;
    while i < parts.len()
        invariant
            i <= parts.len(),
            pv == crate::model::part_views(parts@),
            pv.len() == parts.len(),
            bar_ticks <= 0x800_0000,
            event_views(events@) == base + clamped(marker_events(pv, bar_ticks as nat, i as nat)),
        decreases parts.len() - i,
    {
        let part = &parts[i];
        assert(pv[i as int] == part@);
        let text = utf8_bytes(&part.name);
        let mut bytes: Vec<u8> = Vec::new();
        bytes.push(0xFF);
        bytes.push(0x06);
        write_delta(&mut bytes, text.len() as u64);
        let mut k: usize = 0;
        let ghost head = bytes@;
        while k < text.len()
            invariant
                k <= text.len(),
                bytes@ == head + text@.subrange(0, k as int),
            decreases text.len() - k,
        {
            bytes.push(text[k]);
            assert(bytes@ =~= head + text@.subrange(0, k + 1));
            k = k + 1;
        }
        assert(text@.subrange(0, k as int) =~= text@);
        let tick = tick_scale(part.bar_index, bar_ticks);
        let ghost prev = marker_events(pv, bar_ticks as nat, i as nat);
        push_event(events, MidiEvent { tick, order: 0, bytes });
        proof {
            assert(bytes@ =~= seq![0xFFu8, 0x06u8] + vlq(text@.len()) + text@);
            assert(clamped(marker_events(pv, bar_ticks as nat, (i + 1) as nat)) =~= clamped(prev).push(
                EventView { tick: clamp(marker_event(pv[i as int], bar_ticks as nat).tick), order: 0, bytes: bytes@ },
            ));
            assert(event_views(events@) =~= base + clamped(marker_events(pv, bar_ticks as nat, (i + 1) as nat)));
        }
        i = i + 1;
    }
}

// ---------------------------------------------------------------------
// Time order
// ---------------------------------------------------------------------

/// `a` is due no later than `b`: an earlier tick, or the same tick and a
/// rank no higher.
pub open spec fn event_le(a: EventView, b: EventView) -> bool {
    a.tick < b.tick || (a.tick == b.tick && a.order <= b.order)
}

/// `s` is in time order.
pub open spec fn in_time_order(s: Seq<EventView>) -> bool {
    forall|i: int, j: int| 0 <= i < j < s.len() ==> event_le(#[trigger] s[i], #[trigger] s[j])
}

/// `e` inserted into `s` after every event at its end that is due no
/// later than it.
pub open spec fn insert_event(s: Seq<EventView>, e: EventView) -> Seq<EventView>
    decreases s.len(),
{
    if s.len() == 0 {
        seq![e]
    } else if event_le(s.last(), e) {
        s.push(e)
    } else {
        insert_event(s.drop_last(), e).push(s.last())
    }
}

/// The events in time order; events due together keep the order they had.
pub open spec fn sort_events(s: Seq<EventView>) -> Seq<EventView>
    decreases s.len(),
{
    if s.len() == 0 {
        seq![]
    } else {
        insert_event(sort_events(s.drop_last()), s.last())
    }
}

proof fn lemma_insert_at(s: Seq<EventView>, e: EventView, j: int)
    requires
        0 <= j <= s.len(),
        forall|k: int| j <= k < s.len() ==> !event_le(#[trigger] s[k], e),
        j > 0 ==> event_le(s[j - 1], e),
    ensures
        insert_event(s, e) == s.insert(j, e),
    decreases s.len(),
{
    if s.len() == 0 {
        assert(s.insert(j, e) =~= seq![e]);
    } else if j == s.len() {
        assert(s.insert(j, e) =~= s.push(e));
    } else {
        assert(!event_le(s.last(), e));
        let t = s.drop_last();
        assert forall|k: int| j <= k < t.len() implies !event_le(#[trigger] t[k], e) by {
            assert(t[k] == s[k]);
        }
        lemma_insert_at(t, e, j);
        assert(s.insert(j, e) =~= t.insert(j, e).push(s.last()));
    }
}

pub proof fn lemma_insert_event_in_order(s: Seq<EventView>, e: EventView)
    requires
        in_time_order(s),
    ensures
        in_time_order(insert_event(s, e)),
        insert_event(s, e).len() == s.len() + 1,
        insert_event(s, e).to_multiset() == s.to_multiset().insert(e),
    decreases s.len(),
{
    broadcast use vstd::seq_lib::group_to_multiset_ensures;

    if s.len() == 0 {
        assert(seq![e] =~= Seq::<EventView>::empty().push(e));
    } else if event_le(s.last(), e) {
        let r = s.push(e);
        assert forall|i: int, j: int| 0 <= i < j < r.len() implies event_le(#[trigger] r[i], #[trigger] r[j]) by {
            if j == s.len() {
                assert(event_le(s[i], s.last()) || i == s.len() - 1);
            }
        }
    } else {
        let t = s.drop_last();
        assert forall|i: int, j: int| 0 <= i < j < t.len() implies event_le(#[trigger] t[i], #[trigger] t[j]) by {
            assert(t[i] == s[i] && t[j] == s[j]);
        }
        lemma_insert_event_in_order(t, e);
        let u = insert_event(t, e);
        let r = u.push(s.last());
        assert forall|i: int, j: int| 0 <= i < j < r.len() implies event_le(#[trigger] r[i], #[trigger] r[j]) by {
            if j == u.len() {
                let x = u[i];
                assert(u.to_multiset().count(x) > 0);
                assert(t.to_multiset().insert(e).count(x) > 0);
                if x != e {
                    assert(t.to_multiset().count(x) > 0);
                    assert(t.contains(x));
                    let k = choose|k: int| 0 <= k < t.len() && t[k] == x;
                    assert(event_le(s[k], s[s.len() - 1]));
                }
            }
        }
        assert(s =~= t.push(s.last()));
    }
}

/// Sorting puts the events in time order and keeps every event.
pub proof fn lemma_sort_events(s: Seq<EventView>)
    ensures
        in_time_order(sort_events(s)),
        sort_events(s).len() == s.len(),
        sort_events(s).to_multiset() == s.to_multiset(),
    decreases s.len(),
{
    broadcast use vstd::seq_lib::group_to_multiset_ensures;

    if s.len() > 0 {
        lemma_sort_events(s.drop_last());
        lemma_insert_event_in_order(sort_events(s.drop_last()), s.last());
        assert(s =~= s.drop_last().push(s.last()));
    }
}

fn event_le_exec(a: &MidiEvent, b: &MidiEvent) -> (r: bool)
    ensures
        r == event_le(a@, b@),
{
    a.tick < b.tick || (a.tick == b.tick && a.order <= b.order)
}

fn copy_event(e: &MidiEvent) -> (r: MidiEvent)
    ensures
        r@ == e@,
{
    let mut bytes: Vec<u8> = Vec::new();
    let mut i: usize = 0;
    while i < e.bytes.len()
        invariant
            i <= e.bytes.len(),
            bytes@ == e.bytes@.subrange(0, i as int),
        decreases e.bytes.len() - i,
    {
        bytes.push(e.bytes[i]);
        assert(bytes@ =~= e.bytes@.subrange(0, i + 1));
        i = i + 1;
    }
    assert(e.bytes@.subrange(0, i as int) =~= e.bytes@);
    MidiEvent { tick: e.tick, order: e.order, bytes }
}

fn sorted_events(events: &Vec<MidiEvent>) -> (r: Vec<MidiEvent>)
    ensures
        event_views(r@) == sort_events(event_views(events@)),
{
    let ghost ev = event_views(events@);
    let mut out: Vec<MidiEvent> = Vec::new();
    let mut i: usize = 0;
    while i < events.len()
        invariant
            i <= events.len(),
            ev == event_views(events@),
            event_views(out@) == sort_events(ev.subrange(0, i as int)),
        decreases events.len() - i,
    {
        let e = copy_event(&events[i]);
        proof {
            lemma_sort_events(ev.subrange(0, i as int));
        }
        let ghost so = event_views(out@);
        let mut j = out.len();
        while j > 0 && !event_le_exec(&out[j - 1], &e)
            invariant
                j <= out.len(),
                so == event_views(out@),
                forall|k: int| j <= k < so.len() ==> !event_le(#[trigger] so[k], e@),
            decreases j,
        {
            assert(so[j - 1] == out@[j - 1]@);
            j = j - 1;
        }
        proof {
            if j > 0 {
                assert(so[j - 1] == out@[j - 1]@);
            }
            lemma_insert_at(so, e@, j as int);
            assert(ev.subrange(0, i + 1).drop_last() =~= ev.subrange(0, i as int));
            assert(ev.subrange(0, i + 1).last() == e@);
        }
        let ghost before = out@;
        out.insert(j, e);
        assert(event_views(out@) =~= so.insert(j as int, e@));
        i = i + 1;
    }
    assert(ev.subrange(0, i as int) =~= ev);
    out
}

// ---------------------------------------------------------------------
// The track and the file
// ---------------------------------------------------------------------

/// The bytes of the first `k` events, each after the ticks since the one
/// before it (since tick 0 for the first) as a variable-length quantity.
pub open spec fn events_bytes(es: Seq<EventView>, k: nat) -> Seq<u8>
    decreases k,
{
    if k == 0 {
        seq![]
    } else {
        let prev: nat = if k >= 2 {
            es[k - 2].tick
        } else {
            0
        };
        events_bytes(es, (k - 1) as nat) + vlq((es[k - 1].tick - prev) as nat) + es[k - 1].bytes
    }
}

/// The largest `p` with `2^p <= d` (0 for `d` below 2).
pub open spec fn log2(d: nat) -> nat
    decreases d,
{
    if d < 2 {
        0
    } else {
        1 + log2(d / 2)
    }
}

/// The events at the start of the track: tempo in microseconds per quarter
/// note (three bytes), time signature, and the instrument's program change.
pub open spec fn track_head(tempo: u16, ts: TimeSignature, program: u8) -> Seq<u8> {
    let us: nat = 60000000nat / (tempo as nat);
    seq![
        0x00u8, 0xFFu8, 0x51u8, 0x03u8,
        (us / 0x10000 % 256) as u8, (us / 0x100 % 256) as u8, (us % 256) as u8,
        0x00u8, 0xFFu8, 0x58u8, 0x04u8,
        ts.numerator, log2(ts.denominator as nat) as u8, 24u8, 8u8,
        0x00u8, 0xC0u8, program,
    ]
}

/// The end-of-track event.
pub open spec fn track_end() -> Seq<u8> {
    seq![0x00u8, 0xFFu8, 0x2Fu8, 0x00u8]
}

pub open spec fn be32(x: nat) -> Seq<u8> {
    seq![(x / 0x1000000 % 256) as u8, (x / 0x10000 % 256) as u8, (x / 0x100 % 256) as u8, (x % 256) as u8]
}

pub open spec fn be16(x: nat) -> Seq<u8> {
    seq![(x / 0x100 % 256) as u8, (x % 256) as u8]
}

/// A format-1 file with one track and 480 ticks per quarter note; a track
/// longer than `u32::MAX` bytes has its length written as `u32::MAX`.
pub open spec fn file_bytes(track: Seq<u8>) -> Seq<u8> {
    let len: nat = if track.len() <= u32::MAX {
        track.len()
    } else {
        u32::MAX as nat
    };
    seq![0x4Du8, 0x54u8, 0x68u8, 0x64u8] + be32(6) + be16(0) + be16(1) + be16(480) + seq![
        0x4Du8,
        0x54u8,
        0x72u8,
        0x6Bu8,
    ] + be32(len) + track
}

/// The grid of a song.
pub open spec fn song_grid(s: SongView) -> Grid {
    let slot: nat = match slot_ticks_spec(s) {
        Ok(t) => t,
        Err(_) => 0,
    };
    let spb: nat = match slots_per_beat_of(song_beat(s), song_subdivision(s)) {
        Some(n) => n,
        None => 0,
    };
    let bar: nat = match bar_ticks_spec(s) {
        Ok(t) => t,
        Err(_) => 0,
    };
    Grid { slot_ticks: slot, beat_ticks: spb * slot, bar_ticks: bar }
}

pub open spec fn song_tempo(s: SongView) -> u16 {
    match s.metadata.tempo {
        Some(t) => t,
        None => 0,
    }
}

pub open spec fn or_u8(x: Option<u8>, d: u8) -> u8 {
    match x {
        Some(v) => v,
        None => d,
    }
}

pub open spec fn or_u16(x: Option<u16>, d: u16) -> u16 {
    match x {
        Some(v) => v,
        None => d,
    }
}

/// How a song's strums are rendered: voiced when it names a voicing set;
/// downstrokes at `velocity` unless `downstroke_velocity` says otherwise,
/// upstrokes at 72, sweeps of 22 and 14 ms and upstrokes over at most 4
/// strings unless the metadata says otherwise; every note held one tick
/// less than a slot.
pub open spec fn render_params(s: SongView, o: MidiOptions) -> RenderParams {
    let tempo = song_tempo(s);
    let slot = song_grid(s).slot_ticks;
    RenderParams {
        voiced: s.metadata.voicing is Some,
        velocity: o.velocity,
        spread: ms_to_ticks_spec(o.strum_spread_ms, tempo),
        down_velocity: or_u8(s.metadata.downstroke_velocity, o.velocity),
        up_velocity: or_u8(s.metadata.upstroke_velocity, 72),
        down_sweep: ms_to_ticks_spec(or_u16(s.metadata.downstroke_spread_ms, 22), tempo),
        up_sweep: ms_to_ticks_spec(or_u16(s.metadata.upstroke_spread_ms, 14), tempo),
        up_max: or_u8(s.metadata.upstroke_max_strings, 4) as nat,
        duration: if slot >= 2 {
            (slot - 1) as nat
        } else {
            1
        },
    }
}

/// Every event of a song, in the order they are made: the part markers,
/// then bar by bar, beat by beat and slot by slot, each note's note-on
/// followed by its note-off.
pub open spec fn song_events(s: SongView, custom: Option<Seq<VoicingView>>, o: MidiOptions) -> Seq<EventView> {
    let g = song_grid(s);
    marker_events(s.parts, g.bar_ticks, s.parts.len()) + bars_events(
        s.metadata.voicing,
        custom,
        render_params(s, o),
        g,
        s.bars,
        s.bars.len(),
    )
}

/// The track of a song, given its events in time order.
pub open spec fn track_bytes(s: SongView, sorted: Seq<EventView>) -> Seq<u8> {
    track_head(song_tempo(s), s.metadata.time_signature.unwrap(), crate::model::program_of(instrument_of(s)))
        + events_bytes(sorted, sorted.len()) + track_end()
}

pub open spec fn timing_range_error() -> ErrorView {
    ErrorView::Encoding("MIDI timing exceeds supported range"@)
}

/// What rendering needs of a song: a positive tempo, a time signature with
/// a positive denominator, and, for plain chords, notes for every chord.
pub open spec fn renderable(s: SongView) -> bool {
    &&& s.metadata.tempo is Some
    &&& s.metadata.tempo.unwrap() > 0
    &&& s.metadata.time_signature is Some
    &&& s.metadata.time_signature.unwrap().denominator > 0
    &&& s.metadata.voicing is None ==> forall|i: int, j: int|
        0 <= i < s.bars.len() && 0 <= j < s.bars[i].beats.len() ==> chord_notes(
            #[trigger] s.bars[i].beats[j].chord,
        ) is Some
}

/// What `write_midi_with_voicings` gives: the error of a grid the timing
/// does not support (the ticks per bar only matter when there are bars or
/// parts), else the file, or an error when an event falls beyond the ticks
/// a track can count.
pub open spec fn midi_spec(s: SongView, custom: Option<Seq<VoicingView>>, o: MidiOptions) -> Result<Seq<u8>, ErrorView> {
    let events = song_events(s, custom, o);
    if slot_ticks_spec(s) is Err {
        Err(slot_ticks_spec(s)->Err_0)
    } else if (s.bars.len() > 0 || s.parts.len() > 0) && bar_ticks_spec(s) is Err {
        Err(bar_ticks_spec(s)->Err_0)
    } else if exists|i: int| 0 <= i < events.len() && #[trigger] events[i].tick > u32::MAX {
        Err(timing_range_error())
    } else {
        Ok(file_bytes(track_bytes(s, sort_events(events))))
    }
}

/// A supported grid has a few hundred ticks per slot and beat, and at most
/// 255 beats per bar.
proof fn lemma_grid_bounds(s: SongView)
    requires
        slot_ticks_spec(s) is Ok,
    ensures
        slots_per_beat_of(song_beat(s), song_subdivision(s)) is Some,
        song_grid(s).slot_ticks <= 360,
        song_grid(s).beat_ticks <= 720,
        song_grid(s).bar_ticks <= 720 * 255,
{
    if s.metadata.time_signature is Some {
        assert(s.metadata.time_signature.unwrap().numerator <= 255);
    }
    let b = song_beat(s);
    let d = song_subdivision(s);
    assert(slots_per_beat_of(b, d) is Some);
    let g = song_grid(s);
    let n = slots_per_beat_of(b, d).unwrap();
    let bt = crate::timing::beat_ticks_of(b);
    assert(slot_ticks_spec(s) == Ok::<nat, ErrorView>(bt / n));
    assert(g.slot_ticks == bt / n);
    assert(g.beat_ticks == n * (bt / n));
    if bar_ticks_spec(s) is Ok {
        let n_bar = beats_per_bar_of(s.metadata.time_signature.unwrap(), b).unwrap();
        assert(n_bar <= 255);
        assert(g.bar_ticks == bt * n_bar);
        assert(bt * n_bar <= 720 * 255) by (nonlinear_arith)
            requires
                bt <= 720,
                n_bar <= 255,
        ;
    }
    if b == crate::model::Beat::Quarter {
        assert(bt == 480);
        if d == 8 {
            assert(n == 2);
            assert(bt / n == 240 && n * (bt / n) == 480) by (nonlinear_arith)
                requires
                    n == 2,
                    bt == 480,
            ;
        } else {
            assert(n == 4);
            assert(bt / n == 120 && n * (bt / n) == 480) by (nonlinear_arith)
                requires
                    n == 4,
                    bt == 480,
            ;
        }
    } else {
        assert(bt == 720);
        if d == 8 {
            assert(n == 3);
            assert(bt / n == 240 && n * (bt / n) == 720) by (nonlinear_arith)
                requires
                    n == 3,
                    bt == 720,
            ;
        } else {
            assert(n == 6);
            assert(bt / n == 120 && n * (bt / n) == 720) by (nonlinear_arith)
                requires
                    n == 6,
                    bt == 720,
            ;
        }
    }
}

/// A validated song can be rendered, and its grid is supported.
pub proof fn lemma_validated_renderable(s: SongView)
    requires
        validate_spec(s) == Ok::<(), ErrorView>(()),
    ensures
        renderable(s),
        slot_ticks_spec(s) is Ok,
        bar_ticks_spec(s) is Ok,
{
    crate::validate::lemma_valid_song_shape(s);
}

fn log2_exec(d: u8) -> (r: u8)
    ensures
        r as nat == log2(d as nat),
{
    let mut x = d;
    let mut p: u8 = 0;
    while x >= 2
        invariant
            log2(d as nat) == p + log2(x as nat),
            p as nat + x as nat <= 255,
        decreases x,
    {
        x = x / 2;
        p = p + 1;
    }
    p
}

fn push_all(out: &mut Vec<u8>, b: &Vec<u8>)
    ensures
        final(out)@ == old(out)@ + b@,
{
    let mut i: usize = 0;
    while i < b.len()
        invariant
            i <= b.len(),
            out@ == old(out)@ + b@.subrange(0, i as int),
        decreases b.len() - i,
    {
        out.push(b[i]);
        assert(out@ =~= old(out)@ + b@.subrange(0, i + 1));
        i = i + 1;
    }
    assert(b@.subrange(0, i as int) =~= b@);
}

fn push_be32(out: &mut Vec<u8>, x: u32)
    ensures
        final(out)@ == old(out)@ + be32(x as nat),
{
    out.push((x / 0x1000000 % 256) as u8);
    out.push((x / 0x10000 % 256) as u8);
    out.push((x / 0x100 % 256) as u8);
    out.push((x % 256) as u8);
    assert(final(out)@ =~= old(out)@ + be32(x as nat));
}

fn push_be16(out: &mut Vec<u8>, x: u16)
    ensures
        final(out)@ == old(out)@ + be16(x as nat),
{
    out.push((x / 0x100 % 256) as u8);
    out.push((x % 256) as u8);
    assert(final(out)@ =~= old(out)@ + be16(x as nat));
}

fn track_head_bytes(tempo: u16, ts: TimeSignature, program: u8) -> (r: Vec<u8>)
    requires
        tempo > 0,
    ensures
        r@ == track_head(tempo, ts, program),
{
    let us: u32 = 60_000_000u32 / (tempo as u32);
    let r: Vec<u8> = vec![
        0x00, 0xFF, 0x51, 0x03,
        (us / 0x10000 % 256) as u8, (us / 0x100 % 256) as u8, (us % 256) as u8,
        0x00, 0xFF, 0x58, 0x04,
        ts.numerator, log2_exec(ts.denominator), 24, 8,
        0x00, 0xC0, program,
    ];
    assert(r@ =~= track_head(tempo, ts, program));
    r
}

fn timing_range() -> (e: AppError)
    ensures
        e@ == timing_range_error(),
{
    let mut m = String::new();
    crate::text::push_str(&mut m, "MIDI timing exceeds supported range");
    AppError::Encoding(m)
}

fn params_of(song: &Song, options: MidiOptions) -> (p: Params)
    requires
        renderable(song@),
        slot_ticks_spec(song@) is Ok,
    ensures
        p@ == render_params(song@, options),
        p.ok(),
{
    proof {
        lemma_grid_bounds(song@);
    }
    let ghost s = song@;
    let tempo: u16 = match song.metadata.tempo {
        Some(t) => t,
        None => 1,
    };
    let slot: u32 = match crate::timing::slot_ticks(song) {
        Ok(t) => t,
        Err(_) => 1,
    };
    let duration: u64 = if slot >= 2 {
        (slot - 1) as u64
    } else {
        1
    };
    proof {
        crate::timing::lemma_ms_to_ticks_bound(options.strum_spread_ms, tempo);
        crate::timing::lemma_ms_to_ticks_bound(or_u16(s.metadata.downstroke_spread_ms, 22), tempo);
        crate::timing::lemma_ms_to_ticks_bound(or_u16(s.metadata.upstroke_spread_ms, 14), tempo);
    }
    Params {
        voiced: song.metadata.voicing.is_some(),
        velocity: options.velocity,
        spread: crate::timing::ms_to_ticks(options.strum_spread_ms, tempo) as u64,
        down_velocity: match song.metadata.downstroke_velocity {
            Some(v) => v,
            None => options.velocity,
        },
        up_velocity: match song.metadata.upstroke_velocity {
            Some(v) => v,
            None => 72,
        },
        down_sweep: crate::timing::ms_to_ticks(
            match song.metadata.downstroke_spread_ms {
                Some(v) => v,
                None => 22,
            },
            tempo,
        ) as u64,
        up_sweep: crate::timing::ms_to_ticks(
            match song.metadata.upstroke_spread_ms {
                Some(v) => v,
                None => 14,
            },
            tempo,
        ) as u64,
        up_max: match song.metadata.upstroke_max_strings {
            Some(v) => v,
            None => 4,
        },
        duration,
    }
}

/// Whether every event is within the ticks a track can count.
fn ticks_fit(events: &Vec<MidiEvent>, Ghost(all): Ghost<Seq<EventView>>) -> (r: bool)
    requires
        event_views(events@) == clamped(all),
    ensures
        r == !(exists|i: int| 0 <= i < all.len() && #[trigger] all[i].tick > u32::MAX),
{
    let mut i: usize = 0;
    assert(event_views(events@).len() == events@.len());
    while i < events.len()
        invariant
            i <= events.len(),
            event_views(events@) == clamped(all),
            events@.len() == all.len(),
            forall|k: int| 0 <= k < i ==> #[trigger] all[k].tick <= u32::MAX,
        decreases events.len() - i,
    {
        assert(event_views(events@)[i as int] == events@[i as int]@);
        assert(clamped(all)[i as int].tick == clamp(all[i as int].tick));
        if events[i].tick > 0xFFFF_FFFF {
            assert(all[i as int].tick > u32::MAX);
            return false;
        }
        i = i + 1;
    }
    true
}

proof fn lemma_sorted_ticks(all: Seq<EventView>)
    requires
        forall|k: int| 0 <= k < all.len() ==> #[trigger] all[k].tick <= u32::MAX,
    ensures
        forall|k: int| 0 <= k < sort_events(all).len() ==> #[trigger] sort_events(all)[k].tick <= u32::MAX,
{
    broadcast use vstd::seq_lib::group_to_multiset_ensures;

    lemma_sort_events(all);
    let so = sort_events(all);
    assert forall|k: int| 0 <= k < so.len() implies #[trigger] so[k].tick <= u32::MAX by {
        assert(so.contains(so[k]));
        assert(so.to_multiset().count(so[k]) > 0);
        assert(all.to_multiset().count(so[k]) > 0);
        assert(all.contains(so[k]));
    }
}

fn push_events(track: &mut Vec<u8>, sorted: &Vec<MidiEvent>)
    requires
        in_time_order(event_views(sorted@)),
        forall|k: int| 0 <= k < sorted@.len() ==> #[trigger] event_views(sorted@)[k].tick <= u32::MAX,
    ensures
        final(track)@ == old(track)@ + events_bytes(event_views(sorted@), sorted@.len()),
{
    let ghost so = event_views(sorted@);
    let ghost head = track@;
    let mut cur: u64 = 0;
    let mut j: usize = 0;
    while j < sorted.len()
        invariant
            j <= sorted.len(),
            so == event_views(sorted@),
            so.len() == sorted@.len(),
            in_time_order(so),
            cur as nat == (if j == 0 {
                0
            } else {
                so[j - 1].tick
            }),
            track@ == head + events_bytes(so, j as nat),
        decreases sorted.len() - j,
    {
        let e = &sorted[j];
        assert(so[j as int] == e@);
        proof {
            if j > 0 {
                assert(event_le(so[j - 1], so[j as int]));
            }
        }
        write_delta(track, e.tick - cur);
        push_all(track, &e.bytes);
        assert(track@ =~= head + events_bytes(so, (j + 1) as nat));
        cur = e.tick;
        j = j + 1;
    }
}

fn event_list(song: &Song, options: MidiOptions, custom: Option<&VoicingLibrary>) -> (events: Vec<MidiEvent>)
    requires
        renderable(song@),
        slot_ticks_spec(song@) is Ok,
        custom_fits_song(custom_view(custom), song@),
    ensures
        event_views(events@) == clamped(song_events(song@, custom_view(custom), options)),
{
    proof {
        lemma_grid_bounds(song@);
    }
    let ghost s = song@;
    let ghost g = song_grid(s);
    let beat = match song.metadata.beat {
        Some(b) => b,
        None => crate::model::Beat::Quarter,
    };
    let subdivision: u8 = match song.metadata.subdivision {
        Some(d) => d,
        None => 16,
    };
    let slot: u32 = match crate::timing::slot_ticks(song) {
        Ok(t) => t,
        Err(_) => 1,
    };
    let spb: usize = match crate::timing::slots_per_beat(beat, subdivision) {
        Ok(n) => n,
        Err(_) => 1,
    };
    let bar: u32 = match crate::timing::bar_ticks(song) {
        Ok(t) => t,
        Err(_) => 0,
    };
    assert(slot as nat == g.slot_ticks);
    assert(bar as nat == g.bar_ticks);
    assert(spb as nat * slot as nat == g.beat_ticks);
    let beat_ticks: u64 = (spb as u64) * (slot as u64);
    let params = params_of(song, options);
    let set: Option<&str> = match &song.metadata.voicing {
        Some(v) => Some(v.as_str()),
        None => None,
    };
    assert(str_view(set) == s.metadata.voicing);
    let mut events: Vec<MidiEvent> = Vec::new();
    assert(event_views(events@) =~= Seq::<EventView>::empty());
    push_markers(&mut events, &song.parts, bar as u64);
    assert forall|i: int, j: int|
        0 <= i < song.bars@.len() && 0 <= j < song.bars@[i]@.beats.len() implies custom_fits(
            custom_view(custom),
            #[trigger] song.bars@[i]@.beats[j].chord,
        ) by {
        assert(song@.bars[i] == song.bars@[i]@);
        assert(song@.bars[i].beats[j].chord == song.bars@[i]@.beats[j].chord);
    }
    push_bars(&mut events, &params, set, custom, &song.bars, slot as u64, beat_ticks, bar as u64);
    proof {
        lemma_clamped_add(
            marker_events(s.parts, g.bar_ticks, s.parts.len()),
            bars_events(s.metadata.voicing, custom_view(custom), render_params(s, options), g, s.bars, s.bars.len()),
        );
    }
    assert(event_views(events@) =~= clamped(song_events(s, custom_view(custom), options)));
    events
}

fn file_of(track: &Vec<u8>) -> (file: Vec<u8>)
    ensures
        file@ == file_bytes(track@),
{
    let len: u32 = if track.len() <= 0xFFFF_FFFF {
        track.len() as u32
    } else {
        0xFFFF_FFFF
    };
    let mut file: Vec<u8> = vec![0x4D, 0x54, 0x68, 0x64];
    push_be32(&mut file, 6);
    push_be16(&mut file, 0);
    push_be16(&mut file, 1);
    push_be16(&mut file, 480);
    file.push(0x4D);
    file.push(0x54);
    file.push(0x72);
    file.push(0x6B);
    push_be32(&mut file, len);
    push_all(&mut file, track);
    assert(file@ =~= file_bytes(track@));
    file
}

/// Renders a song, with voicings chosen from its voicing set and then from
/// `custom`, as a Standard MIDI File.
pub fn write_midi_with_voicings(song: &Song, options: MidiOptions, custom: Option<&VoicingLibrary>) -> (r: Result<
    Vec<u8>,
    AppError,
>)
    requires
        renderable(song@),
        custom_fits_song(custom_view(custom), song@),
    ensures
        match r {
            Ok(b) => midi_spec(song@, custom_view(custom), options) == Ok::<Seq<u8>, ErrorView>(b@),
            Err(e) => midi_spec(song@, custom_view(custom), options) == Err::<Seq<u8>, ErrorView>(e@),
        },
{
    let ghost s = song@;
    let tempo: u16 = match song.metadata.tempo {
        Some(t) => t,
        None => 1,
    };
    let ts = match song.metadata.time_signature {
        Some(t) => t,
        None => TimeSignature { numerator: 4, denominator: 4 },
    };
    let _ = crate::timing::slot_ticks(song)?;
    if song.bars.len() > 0 || song.parts.len() > 0 {
        let _ = crate::timing::bar_ticks(song)?;
    }
    let events = event_list(song, options, custom);
    let ghost all = song_events(s, custom_view(custom), options);
    if !ticks_fit(&events, Ghost(all)) {
        return Err(timing_range());
    }
    assert(clamped(all) =~= all);
    let sorted = sorted_events(&events);
    let ghost so = sort_events(all);
    proof {
        lemma_sort_events(all);
        lemma_sorted_ticks(all);
    }
    let program = crate::validate::resolved_instrument(song).midi_program();
    let mut track = track_head_bytes(tempo, ts, program);
    push_events(&mut track, &sorted);
    track.push(0x00);
    track.push(0xFF);
    track.push(0x2F);
    track.push(0x00);
    assert(track@ =~= track_bytes(s, so));
    Ok(file_of(&track))
}

/// Renders a song as a Standard MIDI File.
pub fn write_midi(song: &Song, options: MidiOptions) -> (r: Result<Vec<u8>, AppError>)
    requires
        renderable(song@),
    ensures
        match r {
            Ok(b) => midi_spec(song@, None, options) == Ok::<Seq<u8>, ErrorView>(b@),
            Err(e) => midi_spec(song@, None, options) == Err::<Seq<u8>, ErrorView>(e@),
        },
{
    write_midi_with_voicings(song, options, None)
}

// ---------------------------------------------------------------------
// Laws
// ---------------------------------------------------------------------

/// The number a variable-length quantity's bytes stand for: seven bits
/// from each byte, most significant first.
pub open spec fn vlq_value(bytes: Seq<u8>) -> nat
    decreases bytes.len(),
{
    if bytes.len() == 0 {
        0
    } else {
        vlq_value(bytes.drop_last()) * 128 + (bytes.last() % 128) as nat
    }
}

proof fn lemma_vlq_lead(v: nat)
    ensures
        vlq_value(vlq_lead(v)) == v,
        forall|i: int| 0 <= i < vlq_lead(v).len() ==> #[trigger] vlq_lead(v)[i] >= 128,
    decreases v,
{
    if v > 0 {
        lemma_vlq_lead(v / 128);
        let l = vlq_lead(v);
        assert(l.drop_last() == vlq_lead(v / 128));
        assert(l.last() == ((v % 128) + 128) as u8);
        assert(((v % 128) + 128) as u8 % 128 == v % 128);
    }
}

spec fn pow128(k: nat) -> nat
    decreases k,
{
    if k == 0 {
        1
    } else {
        128 * pow128((k - 1) as nat)
    }
}

proof fn lemma_vlq_lead_len(v: nat, k: nat)
    requires
        v < pow128(k),
    ensures
        vlq_lead(v).len() <= k,
    decreases v,
{
    if v > 0 {
        assert(k > 0);
        lemma_vlq_lead_len(v / 128, (k - 1) as nat);
    }
}

/// Law: a delta written by `write_delta` reads back as the same number;
/// every byte but the last has its top bit set, the last does not, and a
/// 32-bit value takes at most five bytes.
pub proof fn lemma_vlq_round_trip(v: nat)
    ensures
        vlq_value(vlq(v)) == v,
        vlq(v).last() < 128,
        forall|i: int| 0 <= i < vlq(v).len() - 1 ==> #[trigger] vlq(v)[i] >= 128,
        v <= u32::MAX ==> vlq(v).len() <= 5,
{
    lemma_vlq_lead(v / 128);
    if v <= u32::MAX {
        assert(pow128(4) == 0x1000_0000) by {
            reveal_with_fuel(pow128, 5);
        }
        lemma_vlq_lead_len(v / 128, 4);
    }
    let b = vlq(v);
    assert(b.drop_last() == vlq_lead(v / 128));
    assert forall|i: int| 0 <= i < b.len() - 1 implies #[trigger] b[i] >= 128 by {
        assert(b[i] == vlq_lead(v / 128)[i]);
    }
}

/// Law: a stroke of `n` notes makes `2n` events; the `k`-th note of the
/// stroke (in the order it sounds) makes the events `2k` and `2k + 1`: a
/// note-on at the stroke's tick plus the note's offset, then the matching
/// note-off `duration` ticks later. So downstrokes sound in the order of
/// their notes, and every note-on has its note-off.
pub proof fn lemma_stroke_events(st: Stroke, tick: nat, duration: nat, n: nat)
    ensures
        stroke_events(st, tick, duration, n).len() == 2 * n,
        forall|k: int|
            #![trigger stroke_events(st, tick, duration, n)[2 * k]]
            0 <= k < n ==> {
                let t = tick + note_offset(st.spacing, k as nat, st.notes.len());
                &&& stroke_events(st, tick, duration, n)[2 * k] == note_on(
                    t,
                    st.notes[k],
                    note_velocity(st.velocity, st.soften, k as nat),
                )
                &&& stroke_events(st, tick, duration, n)[2 * k + 1] == note_off(t + duration, st.notes[k])
            },
    decreases n,
{
    if n > 0 {
        lemma_stroke_events(st, tick, duration, (n - 1) as nat);
        let prev = stroke_events(st, tick, duration, (n - 1) as nat);
        let all = stroke_events(st, tick, duration, n);
        assert forall|k: int| 0 <= k < n implies {
            let t = tick + note_offset(st.spacing, k as nat, st.notes.len());
            &&& #[trigger] all[2 * k] == note_on(t, st.notes[k], note_velocity(st.velocity, st.soften, k as nat))
            &&& all[2 * k + 1] == note_off(t + duration, st.notes[k])
        } by {
            if k < n - 1 {
                assert(all[2 * k] == prev[2 * k]);
                assert(all[2 * k + 1] == prev[2 * k + 1]);
            }
        }
    }
}

/// Law: a plain upstroke plays the downstroke's notes in reverse, at the
/// same velocity and spacing; a voiced upstroke plays the first `up_max`
/// of the reversed notes (or all of them, when there are fewer), and a
/// voiced downstroke plays every sounding note.
pub proof fn lemma_up_reverses_down(p: RenderParams, notes: Seq<u8>)
    ensures
        !p.voiced ==> up_stroke(p, notes).notes == down_stroke(p, notes).notes.reverse(),
        !p.voiced ==> up_stroke(p, notes).velocity == down_stroke(p, notes).velocity,
        p.voiced ==> down_stroke(p, notes).notes == notes,
        p.voiced ==> up_stroke(p, notes).notes.len() <= p.up_max,
        p.voiced ==> up_stroke(p, notes).notes.len() <= notes.len(),
        p.voiced ==> forall|k: int|
            0 <= k < up_stroke(p, notes).notes.len() ==> #[trigger] up_stroke(p, notes).notes[k] == notes[notes.len()
                - 1 - k],
{
}

/// Law: a rest makes no events, and a muted strum sounds every note of the
/// chord at once, at velocity 25, for at most 30 ticks.
pub proof fn lemma_rest_and_muted(p: RenderParams, notes: Seq<u8>, tick: nat)
    ensures
        slot_events(p, notes, StrumSymbol::Rest, tick) == Seq::<EventView>::empty(),
        slot_events(p, notes, StrumSymbol::Muted, tick).len() == 2 * notes.len(),
        forall|k: int|
            #![trigger slot_events(p, notes, StrumSymbol::Muted, tick)[2 * k]]
            0 <= k < notes.len() ==> slot_events(p, notes, StrumSymbol::Muted, tick)[2 * k] == note_on(
                tick,
                notes[k],
                25,
            ) && slot_events(p, notes, StrumSymbol::Muted, tick)[2 * k + 1] == note_off(
                tick + muted_duration(p.duration),
                notes[k],
            ),
        muted_duration(p.duration) <= 30,
{
    lemma_stroke_events(muted_stroke(notes), tick, muted_duration(p.duration), notes.len());
    assert forall|k: int| 0 <= k < notes.len() implies #[trigger] note_offset(Spacing::Each(0), k as nat, notes.len()) == 0
        && note_velocity(25, 0, k as nat) == 25 by {
        assert(k * 0 == 0) by (nonlinear_arith);
    }
}

/// Law: each note of a voiced stroke is softer than the one before, as long
/// as the stroke's velocity leaves room for it.
pub proof fn lemma_softer_each_string(v: u8, soften: nat, k: nat)
    requires
        soften > 0,
        soften * (k + 1) < v,
    ensures
        note_velocity(v, soften, k + 1) < note_velocity(v, soften, k),
{
    assert(soften * (k + 1) == soften * k + soften) by (nonlinear_arith);
}

proof fn lemma_marker_events_len(parts: Seq<PartView>, bar_ticks: nat, k: nat)
    ensures
        marker_events(parts, bar_ticks, k).len() == k,
    decreases k,
{
    if k > 0 {
        lemma_marker_events_len(parts, bar_ticks, (k - 1) as nat);
    }
}

/// Law: parts add their markers and change nothing else: two songs with
/// the same metadata and bars make the same events after their markers.
pub proof fn lemma_parts_keep_notes(
    s1: SongView,
    s2: SongView,
    custom: Option<Seq<VoicingView>>,
    o: MidiOptions,
)
    requires
        s1.metadata == s2.metadata,
        s1.bars == s2.bars,
    ensures
        song_events(s1, custom, o).subrange(s1.parts.len() as int, song_events(s1, custom, o).len() as int)
            == song_events(s2, custom, o).subrange(
            s2.parts.len() as int,
            song_events(s2, custom, o).len() as int,
        ),
{
    let g1 = song_grid(s1);
    let g2 = song_grid(s2);
    lemma_marker_events_len(s1.parts, g1.bar_ticks, s1.parts.len());
    lemma_marker_events_len(s2.parts, g2.bar_ticks, s2.parts.len());
    assert(g1 == g2);
    assert(render_params(s1, o) == render_params(s2, o));
    let b = bars_events(s1.metadata.voicing, custom, render_params(s1, o), g1, s1.bars, s1.bars.len());
    assert(song_events(s1, custom, o).subrange(s1.parts.len() as int, song_events(s1, custom, o).len() as int) =~= b);
    assert(song_events(s2, custom, o).subrange(s2.parts.len() as int, song_events(s2, custom, o).len() as int) =~= b);
}

/// Events that come as note-on and note-off pairs: each even position holds
/// a note-on and the next position the note-off of the same note, no
/// earlier.
pub open spec fn paired(es: Seq<EventView>) -> bool {
    &&& es.len() % 2 == 0
    &&& forall|k: int|
        #![trigger es[2 * k]]
        0 <= k < es.len() / 2 ==> {
            &&& es[2 * k].bytes.len() == 3
            &&& es[2 * k].bytes[0] == 0x90
            &&& es[2 * k + 1].bytes == seq![0x80u8, es[2 * k].bytes[1], 0u8]
            &&& es[2 * k].tick <= es[2 * k + 1].tick
        }
}

proof fn lemma_paired_add(a: Seq<EventView>, b: Seq<EventView>)
    requires
        paired(a),
        paired(b),
    ensures
        paired(a + b),
{
    let c = a + b;
    assert forall|k: int| #![trigger c[2 * k]] 0 <= k < c.len() / 2 implies {
        &&& c[2 * k].bytes.len() == 3
        &&& c[2 * k].bytes[0] == 0x90
        &&& c[2 * k + 1].bytes == seq![0x80u8, c[2 * k].bytes[1], 0u8]
        &&& c[2 * k].tick <= c[2 * k + 1].tick
    } by {
        if 2 * k < a.len() {
            assert(c[2 * k] == a[2 * k] && c[2 * k + 1] == a[2 * k + 1]);
        } else {
            let j = k - a.len() / 2;
            assert(2 * k - a.len() == 2 * j);
            assert(c[2 * k] == b[2 * j] && c[2 * k + 1] == b[2 * j + 1]);
        }
    }
}

proof fn lemma_strum_paired(st: Stroke, tick: nat, duration: nat)
    ensures
        paired(strum_events(st, tick, duration)),
{
    let es = strum_events(st, tick, duration);
    lemma_stroke_events(st, tick, duration, st.notes.len());
    assert forall|k: int| #![trigger es[2 * k]] 0 <= k < es.len() / 2 implies {
        &&& es[2 * k].bytes.len() == 3
        &&& es[2 * k].bytes[0] == 0x90
        &&& es[2 * k + 1].bytes == seq![0x80u8, es[2 * k].bytes[1], 0u8]
        &&& es[2 * k].tick <= es[2 * k + 1].tick
    } by {
        assert(es[2 * k] == note_on(
            tick + note_offset(st.spacing, k as nat, st.notes.len()),
            st.notes[k],
            note_velocity(st.velocity, st.soften, k as nat),
        ));
    }
}

proof fn lemma_pattern_paired(
    p: RenderParams,
    notes: Seq<u8>,
    slots: Seq<StrumSymbol>,
    start: nat,
    slot_ticks: nat,
    k: nat,
)
    ensures
        paired(pattern_events(p, notes, slots, start, slot_ticks, k)),
    decreases k,
{
    if k > 0 {
        lemma_pattern_paired(p, notes, slots, start, slot_ticks, (k - 1) as nat);
        let t = start + ((k - 1) as nat) * slot_ticks;
        match slots[k - 1] {
            StrumSymbol::Down => lemma_strum_paired(down_stroke(p, notes), t, p.duration),
            StrumSymbol::Up => lemma_strum_paired(up_stroke(p, notes), t, p.duration),
            StrumSymbol::Muted => lemma_strum_paired(muted_stroke(notes), t, muted_duration(p.duration)),
            StrumSymbol::Rest => {},
        }
        lemma_paired_add(
            pattern_events(p, notes, slots, start, slot_ticks, (k - 1) as nat),
            slot_events(p, notes, slots[k - 1], t),
        );
    }
}

proof fn lemma_bar_paired(
    set: Option<Seq<char>>,
    custom: Option<Seq<VoicingView>>,
    p: RenderParams,
    g: Grid,
    bar: BarView,
    start: nat,
    k: nat,
)
    ensures
        paired(bar_events(set, custom, p, g, bar, start, k)),
    decreases k,
{
    if k > 0 {
        lemma_bar_paired(set, custom, p, g, bar, start, (k - 1) as nat);
        let b = bar.beats[k - 1];
        lemma_pattern_paired(
            p,
            chord_sound(set, custom, b.chord),
            b.slots,
            start + ((k - 1) as nat) * g.beat_ticks,
            g.slot_ticks,
            b.slots.len(),
        );
        lemma_paired_add(
            bar_events(set, custom, p, g, bar, start, (k - 1) as nat),
            pattern_events(
                p,
                chord_sound(set, custom, b.chord),
                b.slots,
                start + ((k - 1) as nat) * g.beat_ticks,
                g.slot_ticks,
                b.slots.len(),
            ),
        );
    }
}

proof fn lemma_bars_paired(
    set: Option<Seq<char>>,
    custom: Option<Seq<VoicingView>>,
    p: RenderParams,
    g: Grid,
    bars: Seq<BarView>,
    k: nat,
)
    ensures
        paired(bars_events(set, custom, p, g, bars, k)),
    decreases k,
{
    if k > 0 {
        lemma_bars_paired(set, custom, p, g, bars, (k - 1) as nat);
        lemma_bar_paired(set, custom, p, g, bars[k - 1], ((k - 1) as nat) * g.bar_ticks, bars[k - 1].beats.len());
        lemma_paired_add(
            bars_events(set, custom, p, g, bars, (k - 1) as nat),
            bar_events(set, custom, p, g, bars[k - 1], ((k - 1) as nat) * g.bar_ticks, bars[k - 1].beats.len()),
        );
    }
}

/// Law: after a song's part markers, its events are note-on and note-off
/// pairs: every note-on is followed by the note-off of the same note, at
/// the same tick or later.
pub proof fn lemma_every_note_ends(s: SongView, custom: Option<Seq<VoicingView>>, o: MidiOptions)
    ensures
        paired(song_events(s, custom, o).subrange(s.parts.len() as int, song_events(s, custom, o).len() as int)),
{
    let g = song_grid(s);
    lemma_marker_events_len(s.parts, g.bar_ticks, s.parts.len());
    let b = bars_events(s.metadata.voicing, custom, render_params(s, o), g, s.bars, s.bars.len());
    lemma_bars_paired(s.metadata.voicing, custom, render_params(s, o), g, s.bars, s.bars.len());
    assert(song_events(s, custom, o).subrange(s.parts.len() as int, song_events(s, custom, o).len() as int) =~= b);
}

// ---------------------------------------------------------------------
// Reading the events back
// ---------------------------------------------------------------------

/// Reads a variable-length quantity from the front of `b`, after the value
/// `acc` read so far: the value, and the bytes after it.
pub open spec fn vlq_read(b: Seq<u8>, acc: nat) -> (nat, Seq<u8>)
    decreases b.len(),
{
    if b.len() == 0 {
        (acc, b)
    } else if b[0] < 128 {
        (acc * 128 + b[0] as nat, b.drop_first())
    } else {
        vlq_read(b.drop_first(), acc * 128 + (b[0] - 128) as nat)
    }
}

/// The bytes of a meta event: `0xFF`, its kind, its length as a
/// variable-length quantity, and its data.
pub open spec fn meta_bytes(kind: u8, data: Seq<u8>) -> Seq<u8> {
    seq![0xFFu8, kind] + vlq(data.len()) + data
}

/// Event bytes that a reader can delimit: a three-byte note event, a
/// two-byte program change, or a meta event.
pub open spec fn readable_event(b: Seq<u8>) -> bool {
    ||| (b.len() == 3 && 0x80 <= b[0] <= 0x9F)
    ||| (b.len() == 2 && 0xC0 <= b[0] <= 0xDF)
    ||| exists|kind: u8, data: Seq<u8>| b == meta_bytes(kind, data)
}

/// Reads one event from the front of `b`: the ticks since the event
/// before, the event's bytes, and the bytes after it.
pub open spec fn read_event(b: Seq<u8>) -> Option<(nat, Seq<u8>, Seq<u8>)> {
    let (delta, r) = vlq_read(b, 0);
    if r.len() == 0 {
        None
    } else if 0x80 <= r[0] <= 0x9F && r.len() >= 3 {
        Some((delta, r.take(3), r.skip(3)))
    } else if 0xC0 <= r[0] <= 0xDF && r.len() >= 2 {
        Some((delta, r.take(2), r.skip(2)))
    } else if r[0] == 0xFF && r.len() >= 2 {
        let (n, r2) = vlq_read(r.skip(2), 0);
        let head = r.len() - r2.len();
        if r2.len() >= n && 0 <= head {
            Some((delta, r.take(head + n), r.skip(head + n)))
        } else {
            None
        }
    } else {
        None
    }
}

/// The (tick, bytes) of every event read from `b`, counting ticks from
/// `tick`.
pub open spec fn read_events(b: Seq<u8>, tick: nat) -> Seq<(nat, Seq<u8>)>
    decreases b.len(),
{
    match read_event(b) {
        Some((delta, ev, rest)) => if rest.len() < b.len() {
            seq![(tick + delta, ev)] + read_events(rest, tick + delta)
        } else {
            seq![]
        },
        None => seq![],
    }
}

/// The (tick, bytes) of events.
pub open spec fn timed_bytes(es: Seq<EventView>) -> Seq<(nat, Seq<u8>)> {
    es.map_values(|e: EventView| (e.tick, e.bytes))
}

proof fn lemma_vlq_read_lead(v: nat, t: Seq<u8>, acc: nat)
    ensures
        vlq_read(vlq_lead(v) + t, acc) == vlq_read(t, acc * pow128(vlq_lead(v).len()) + v),
    decreases v,
{
    if v == 0 {
        assert(vlq_lead(0) + t =~= t);
        assert(pow128(0) == 1);
        assert(acc * pow128(vlq_lead(v).len()) + v == acc);
    } else {
        let l = vlq_lead(v / 128);
        let d = ((v % 128) + 128) as u8;
        assert(vlq_lead(v) + t =~= l + (seq![d] + t));
        lemma_vlq_read_lead(v / 128, seq![d] + t, acc);
        let p = pow128(l.len());
        let a1 = acc * p + v / 128;
        assert((seq![d] + t)[0] == d);
        assert((seq![d] + t).drop_first() =~= t);
        assert(vlq_read(seq![d] + t, a1) == vlq_read(t, a1 * 128 + (d - 128) as nat));
        assert(vlq_lead(v).len() == l.len() + 1);
        assert(pow128(l.len() + 1) == 128 * p);
        assert(a1 * 128 + (v % 128) == acc * (128 * p) + v) by (nonlinear_arith)
            requires
                a1 == acc * p + v / 128,
        ;
    }
}

proof fn lemma_vlq_read(v: nat, rest: Seq<u8>)
    ensures
        vlq_read(vlq(v) + rest, 0) == (v, rest),
{
    let last = (v % 128) as u8;
    assert(vlq(v) + rest =~= vlq_lead(v / 128) + (seq![last] + rest));
    lemma_vlq_read_lead(v / 128, seq![last] + rest, 0);
    assert((seq![last] + rest).drop_first() =~= rest);
    assert(0 * pow128(vlq_lead(v / 128).len()) == 0);
}

proof fn lemma_read_event(delta: nat, ev: Seq<u8>, rest: Seq<u8>)
    requires
        readable_event(ev),
    ensures
        read_event(vlq(delta) + ev + rest) == Some((delta, ev, rest)),
{
    let b = vlq(delta) + ev + rest;
    assert(b =~= vlq(delta) + (ev + rest));
    lemma_vlq_read(delta, ev + rest);
    let r = ev + rest;
    if ev.len() == 3 && 0x80 <= ev[0] <= 0x9F {
        assert(r.take(3) =~= ev);
        assert(r.skip(3) =~= rest);
    } else if ev.len() == 2 && 0xC0 <= ev[0] <= 0xDF {
        assert(r.take(2) =~= ev);
        assert(r.skip(2) =~= rest);
    } else {
        let (kind, data) = choose|kind: u8, data: Seq<u8>| ev == meta_bytes(kind, data);
        assert(r[0] == 0xFF);
        assert(r.skip(2) =~= vlq(data.len()) + (data + rest));
        lemma_vlq_read(data.len(), data + rest);
        let head = r.len() - (data + rest).len();
        assert(head == 2 + vlq(data.len()).len());
        assert(r.take(head + data.len()) =~= ev);
        assert(r.skip(head + data.len()) =~= rest);
    }
}

proof fn lemma_read_events_prefix(es: Seq<EventView>, k: nat, tail: Seq<u8>)
    requires
        k <= es.len(),
        in_time_order(es),
        forall|i: int| 0 <= i < es.len() ==> readable_event(#[trigger] es[i].bytes),
    ensures
        read_events(events_bytes(es, k) + tail, 0) == timed_bytes(es.take(k as int)) + read_events(
            tail,
            if k == 0 {
                0
            } else {
                es[k - 1].tick
            },
        ),
    decreases k,
{
    if k == 0 {
        assert(events_bytes(es, 0) + tail =~= tail);
        assert(timed_bytes(es.take(0)) =~= Seq::<(nat, Seq<u8>)>::empty());
    } else {
        let prev: nat = if k >= 2 {
            es[k - 2].tick
        } else {
            0
        };
        let e = es[k - 1];
        if k >= 2 {
            assert(event_le(es[k - 2], es[k - 1]));
        }
        let delta = (e.tick - prev) as nat;
        let x = vlq(delta) + e.bytes + tail;
        assert(events_bytes(es, k) + tail =~= events_bytes(es, (k - 1) as nat) + x);
        lemma_read_events_prefix(es, (k - 1) as nat, x);
        lemma_read_event(delta, e.bytes, tail);
        assert(e.bytes.len() > 0);
        assert(tail.len() < x.len());
        assert(prev + delta == e.tick);
        assert(read_events(x, prev) == seq![(e.tick, e.bytes)] + read_events(tail, e.tick));
        assert(timed_bytes(es.take(k as int)) =~= timed_bytes(es.take(k - 1)) + seq![(e.tick, e.bytes)]);
    }
}

/// Law: events in time order, each of a kind a reader can delimit, read
/// back from their bytes as the same ticks and bytes, in the same order.
pub proof fn lemma_events_read_back(es: Seq<EventView>)
    requires
        in_time_order(es),
        forall|i: int| 0 <= i < es.len() ==> readable_event(#[trigger] es[i].bytes),
    ensures
        read_events(events_bytes(es, es.len()), 0) == timed_bytes(es),
{
    lemma_read_events_prefix(es, es.len(), seq![]);
    assert(events_bytes(es, es.len()) + seq![] =~= events_bytes(es, es.len()));
    assert(es.take(es.len() as int) =~= es);
    assert(read_events(Seq::<u8>::empty(), es.last().tick) == Seq::<(nat, Seq<u8>)>::empty()) by {
        assert(vlq_read(Seq::<u8>::empty(), 0).1.len() == 0);
    }
    assert(read_events(Seq::<u8>::empty(), 0) == Seq::<(nat, Seq<u8>)>::empty()) by {
        assert(vlq_read(Seq::<u8>::empty(), 0).1.len() == 0);
    }
    assert(timed_bytes(es) + Seq::<(nat, Seq<u8>)>::empty() =~= timed_bytes(es));
}

proof fn lemma_paired_readable(es: Seq<EventView>)
    requires
        paired(es),
    ensures
        forall|i: int| 0 <= i < es.len() ==> readable_event(#[trigger] es[i].bytes),
{
    assert forall|i: int| 0 <= i < es.len() implies readable_event(#[trigger] es[i].bytes) by {
        let k = i / 2;
        assert(0 <= k < es.len() / 2);
        let on = es[2 * k];
        if i == 2 * k {
            assert(on.bytes.len() == 3 && on.bytes[0] == 0x90);
        } else {
            assert(i == 2 * k + 1);
            assert(es[2 * k + 1].bytes == seq![0x80u8, on.bytes[1], 0u8]);
        }
    }
}

proof fn lemma_markers_readable(parts: Seq<PartView>, bar_ticks: nat, k: nat)
    ensures
        forall|i: int|
            0 <= i < marker_events(parts, bar_ticks, k).len() ==> readable_event(
                #[trigger] marker_events(parts, bar_ticks, k)[i].bytes,
            ),
    decreases k,
{
    if k > 0 {
        lemma_markers_readable(parts, bar_ticks, (k - 1) as nat);
        let m = marker_event(parts[k - 1], bar_ticks);
        let text = vstd::utf8::encode_utf8(parts[k - 1].name);
        assert(m.bytes == meta_bytes(0x06, text));
        assert(readable_event(m.bytes));
        let prev = marker_events(parts, bar_ticks, (k - 1) as nat);
        assert forall|i: int|
            0 <= i < marker_events(parts, bar_ticks, k).len() implies readable_event(
                #[trigger] marker_events(parts, bar_ticks, k)[i].bytes,
            ) by {
            if i < prev.len() {
                assert(marker_events(parts, bar_ticks, k)[i] == prev[i]);
            }
        }
    }
}

/// Law: a song's events, put in time order, are the same events (none
/// lost, none added), and their bytes in the track read back as the same
/// ticks and bytes in that order; the track is the tempo, time signature
/// and program change, then those bytes, then the end of the track.
pub proof fn lemma_song_reads_back(s: SongView, custom: Option<Seq<VoicingView>>, o: MidiOptions)
    ensures
        ({
            let all = song_events(s, custom, o);
            let so = sort_events(all);
            &&& in_time_order(so)
            &&& so.to_multiset() == all.to_multiset()
            &&& read_events(events_bytes(so, so.len()), 0) == timed_bytes(so)
            &&& s.metadata.time_signature is Some ==> track_bytes(s, so) == track_head(
                song_tempo(s),
                s.metadata.time_signature.unwrap(),
                crate::model::program_of(instrument_of(s)),
            ) + events_bytes(so, so.len()) + track_end()
        }),
{
    broadcast use vstd::seq_lib::group_to_multiset_ensures;

    let g = song_grid(s);
    let p = render_params(s, o);
    let m = marker_events(s.parts, g.bar_ticks, s.parts.len());
    let b = bars_events(s.metadata.voicing, custom, p, g, s.bars, s.bars.len());
    let all = song_events(s, custom, o);
    assert(all == m + b);
    lemma_markers_readable(s.parts, g.bar_ticks, s.parts.len());
    lemma_bars_paired(s.metadata.voicing, custom, p, g, s.bars, s.bars.len());
    lemma_paired_readable(b);
    assert forall|i: int| 0 <= i < all.len() implies readable_event(#[trigger] all[i].bytes) by {
        if i < m.len() {
            assert(all[i] == m[i]);
        } else {
            assert(all[i] == b[i - m.len()]);
        }
    }
    lemma_sort_events(all);
    let so = sort_events(all);
    assert forall|i: int| 0 <= i < so.len() implies readable_event(#[trigger] so[i].bytes) by {
        assert(so.contains(so[i]));
        assert(so.to_multiset().count(so[i]) > 0);
        assert(all.to_multiset().count(so[i]) > 0);
        assert(all.contains(so[i]));
        let j = choose|j: int| 0 <= j < all.len() && all[j] == so[i];
        assert(readable_event(all[j].bytes));
    }
    lemma_events_read_back(so);
}

/// Law: a written file is the 14-byte header (format 1, one track, 480
/// ticks per quarter note), `MTrk`, the track's length, and the track; the
/// track opens with the tempo, time signature and program change at tick 0,
/// then holds the song's events in time order (note-offs, whose rank is 0,
/// before note-ons, whose rank is 1, at the same tick), every tick within
/// 32 bits, and ends with the end-of-track event.
pub proof fn lemma_file_layout(s: SongView, custom: Option<Seq<VoicingView>>, o: MidiOptions)
    requires
        midi_spec(s, custom, o) is Ok,
    ensures
        ({
            let f = midi_spec(s, custom, o)->Ok_0;
            let so = sort_events(song_events(s, custom, o));
            let track = track_bytes(s, so);
            &&& f.subrange(0, 14) == seq![0x4Du8, 0x54u8, 0x68u8, 0x64u8, 0u8, 0u8, 0u8, 6u8, 0u8, 0u8, 0u8, 1u8, 0x01u8, 0xE0u8]
            &&& f.subrange(14, 18) == seq![0x4Du8, 0x54u8, 0x72u8, 0x6Bu8]
            &&& track.len() <= u32::MAX ==> f.subrange(18, 22) == be32(track.len())
            &&& f.subrange(22, f.len() as int) == track
            &&& track == track_head(
                song_tempo(s),
                s.metadata.time_signature.unwrap(),
                crate::model::program_of(instrument_of(s)),
            ) + events_bytes(so, so.len()) + track_end()
            &&& in_time_order(so)
            &&& forall|k: int| 0 <= k < so.len() ==> #[trigger] so[k].tick <= u32::MAX
        }),
{
    let all = song_events(s, custom, o);
    let so = sort_events(all);
    let track = track_bytes(s, so);
    let f = midi_spec(s, custom, o)->Ok_0;
    assert(!(exists|i: int| 0 <= i < all.len() && #[trigger] all[i].tick > u32::MAX));
    assert forall|k: int| 0 <= k < all.len() implies #[trigger] all[k].tick <= u32::MAX by {
        if all[k].tick > u32::MAX {
            assert(exists|i: int| 0 <= i < all.len() && #[trigger] all[i].tick > u32::MAX);
        }
    }
    lemma_sort_events(all);
    lemma_sorted_ticks(all);
    assert(f == file_bytes(track));
    assert(f.subrange(0, 14) =~= seq![0x4Du8, 0x54u8, 0x68u8, 0x64u8, 0u8, 0u8, 0u8, 6u8, 0u8, 0u8, 0u8, 1u8, 0x01u8, 0xE0u8]);
    assert(f.subrange(14, 18) =~= seq![0x4Du8, 0x54u8, 0x72u8, 0x6Bu8]);
    assert(track.len() <= u32::MAX ==> f.subrange(18, 22) =~= be32(track.len()));
    assert(f.subrange(22, f.len() as int) =~= track);
}

proof fn lemma_pattern_holds(
    p: RenderParams,
    notes: Seq<u8>,
    slots: Seq<StrumSymbol>,
    start: nat,
    slot_ticks: nat,
    n: nat,
    i: nat,
    e: EventView,
)
    requires
        i < n,
        slot_events(p, notes, slots[i as int], start + i * slot_ticks).contains(e),
    ensures
        pattern_events(p, notes, slots, start, slot_ticks, n).contains(e),
    decreases n,
{
    let prev = pattern_events(p, notes, slots, start, slot_ticks, (n - 1) as nat);
    let last = slot_events(p, notes, slots[n - 1], start + ((n - 1) as nat) * slot_ticks);
    if i == n - 1 {
        let x = choose|x: int| 0 <= x < last.len() && last[x] == e;
        assert((prev + last)[prev.len() + x] == e);
    } else {
        lemma_pattern_holds(p, notes, slots, start, slot_ticks, (n - 1) as nat, i, e);
        let x = choose|x: int| 0 <= x < prev.len() && prev[x] == e;
        assert((prev + last)[x] == e);
    }
}

proof fn lemma_bar_holds(
    set: Option<Seq<char>>,
    custom: Option<Seq<VoicingView>>,
    p: RenderParams,
    g: Grid,
    bar: BarView,
    start: nat,
    n: nat,
    j: nat,
    e: EventView,
)
    requires
        j < n,
        pattern_events(
            p,
            chord_sound(set, custom, bar.beats[j as int].chord),
            bar.beats[j as int].slots,
            start + j * g.beat_ticks,
            g.slot_ticks,
            bar.beats[j as int].slots.len(),
        ).contains(e),
    ensures
        bar_events(set, custom, p, g, bar, start, n).contains(e),
    decreases n,
{
    let prev = bar_events(set, custom, p, g, bar, start, (n - 1) as nat);
    let b = bar.beats[n - 1];
    let last = pattern_events(
        p,
        chord_sound(set, custom, b.chord),
        b.slots,
        start + ((n - 1) as nat) * g.beat_ticks,
        g.slot_ticks,
        b.slots.len(),
    );
    if j == n - 1 {
        let x = choose|x: int| 0 <= x < last.len() && last[x] == e;
        assert((prev + last)[prev.len() + x] == e);
    } else {
        lemma_bar_holds(set, custom, p, g, bar, start, (n - 1) as nat, j, e);
        let x = choose|x: int| 0 <= x < prev.len() && prev[x] == e;
        assert((prev + last)[x] == e);
    }
}

proof fn lemma_bars_hold(
    set: Option<Seq<char>>,
    custom: Option<Seq<VoicingView>>,
    p: RenderParams,
    g: Grid,
    bars: Seq<BarView>,
    n: nat,
    k: nat,
    e: EventView,
)
    requires
        k < n,
        bar_events(set, custom, p, g, bars[k as int], k * g.bar_ticks, bars[k as int].beats.len()).contains(e),
    ensures
        bars_events(set, custom, p, g, bars, n).contains(e),
    decreases n,
{
    let prev = bars_events(set, custom, p, g, bars, (n - 1) as nat);
    let last = bar_events(
        set,
        custom,
        p,
        g,
        bars[n - 1],
        ((n - 1) as nat) * g.bar_ticks,
        bars[n - 1].beats.len(),
    );
    if k == n - 1 {
        let x = choose|x: int| 0 <= x < last.len() && last[x] == e;
        assert((prev + last)[prev.len() + x] == e);
    } else {
        lemma_bars_hold(set, custom, p, g, bars, (n - 1) as nat, k, e);
        let x = choose|x: int| 0 <= x < prev.len() && prev[x] == e;
        assert((prev + last)[x] == e);
    }
}

/// Law: in a song without a voicing set, a downstroke (or upstroke) in
/// slot `i` of beat pattern `j` of bar `k` plays note `m` of its chord's
/// notes (reversed for an upstroke) as a note-on at the velocity of the
/// options, at tick `k * bar + j * beat + i * slot + m * spread`, and the
/// matching note-off `duration` ticks later; the file holds these events
/// (see `lemma_song_reads_back`).
pub proof fn lemma_plain_strum_notes(
    s: SongView,
    custom: Option<Seq<VoicingView>>,
    o: MidiOptions,
    k: int,
    j: int,
    i: int,
    m: int,
)
    requires
        s.metadata.voicing is None,
        0 <= k < s.bars.len(),
        0 <= j < s.bars[k].beats.len(),
        0 <= i < s.bars[k].beats[j].slots.len(),
        s.bars[k].beats[j].slots[i] == StrumSymbol::Down || s.bars[k].beats[j].slots[i] == StrumSymbol::Up,
        chord_notes(s.bars[k].beats[j].chord) is Some,
        0 <= m < chord_notes(s.bars[k].beats[j].chord).unwrap().len(),
    ensures
        ({
            let g = song_grid(s);
            let p = render_params(s, o);
            let notes = chord_notes(s.bars[k].beats[j].chord).unwrap();
            let played = if s.bars[k].beats[j].slots[i] == StrumSymbol::Down {
                notes
            } else {
                notes.reverse()
            };
            let t = k * g.bar_ticks + j * g.beat_ticks + i * g.slot_ticks + m * p.spread;
            &&& p.spread == ms_to_ticks_spec(o.strum_spread_ms, song_tempo(s))
            &&& song_events(s, custom, o).contains(note_on(t as nat, played[m], o.velocity))
            &&& song_events(s, custom, o).contains(note_off((t + p.duration) as nat, played[m]))
        }),
{
    let g = song_grid(s);
    let p = render_params(s, o);
    let bar = s.bars[k];
    let beat = bar.beats[j];
    let sym = beat.slots[i];
    let notes = chord_notes(beat.chord).unwrap();
    assert(chord_sound(None, custom, beat.chord) == notes);
    let bar_start = (k * g.bar_ticks) as nat;
    let beat_start = (bar_start + j * g.beat_ticks) as nat;
    let t0 = (beat_start + i * g.slot_ticks) as nat;
    let st = if sym == StrumSymbol::Down {
        down_stroke(p, notes)
    } else {
        up_stroke(p, notes)
    };
    assert(st.notes.len() == notes.len());
    lemma_stroke_events(st, t0, p.duration, st.notes.len());
    let evs = slot_events(p, notes, sym, t0);
    assert(evs == strum_events(st, t0, p.duration));
    assert(note_offset(st.spacing, m as nat, st.notes.len()) == m * p.spread);
    assert(note_velocity(o.velocity, 0, m as nat) == o.velocity);
    let on = evs[2 * m];
    let off = evs[2 * m + 1];
    assert(evs.contains(on));
    assert(evs.contains(off));
    lemma_pattern_holds(p, notes, beat.slots, beat_start, g.slot_ticks, beat.slots.len(), i as nat, on);
    lemma_pattern_holds(p, notes, beat.slots, beat_start, g.slot_ticks, beat.slots.len(), i as nat, off);
    lemma_bar_holds(None, custom, p, g, bar, bar_start, bar.beats.len(), j as nat, on);
    lemma_bar_holds(None, custom, p, g, bar, bar_start, bar.beats.len(), j as nat, off);
    lemma_bars_hold(None, custom, p, g, s.bars, s.bars.len(), k as nat, on);
    lemma_bars_hold(None, custom, p, g, s.bars, s.bars.len(), k as nat, off);
    let mk = marker_events(s.parts, g.bar_ticks, s.parts.len());
    let b = bars_events(None, custom, p, g, s.bars, s.bars.len());
    let all = song_events(s, custom, o);
    assert(all == mk + b);
    let x = choose|x: int| 0 <= x < b.len() && b[x] == on;
    assert(all[mk.len() + x] == on);
    let y = choose|y: int| 0 <= y < b.len() && b[y] == off;
    assert(all[mk.len() + y] == off);
}

// ---------------------------------------------------------------------
// Validated songs render
// ---------------------------------------------------------------------

/// Every event of `es` is due at or before tick `b`.
pub open spec fn ticks_at_most(es: Seq<EventView>, b: nat) -> bool {
    forall|i: int| 0 <= i < es.len() ==> #[trigger] es[i].tick <= b
}

proof fn lemma_ticks_add(a: Seq<EventView>, b: Seq<EventView>, x: nat, y: nat)
    requires
        ticks_at_most(a, x),
        ticks_at_most(b, x),
        x <= y,
    ensures
        ticks_at_most(a + b, y),
{
    assert forall|i: int| 0 <= i < (a + b).len() implies #[trigger] (a + b)[i].tick <= y by {
        if i < a.len() {
            assert((a + b)[i] == a[i]);
        } else {
            assert((a + b)[i] == b[i - a.len()]);
        }
    }
}

/// The widest spread of a stroke, from its first note to the last one's release
/// less the hold: seven notes at most, each at most this far from the one before.
pub open spec fn spread_cap() -> nat {
    0x800_0000
}

proof fn lemma_offset_bound(sp: Spacing, i: nat, n: nat)
    requires
        i < n <= 7,
        match sp {
            Spacing::Each(d) => d <= spread_cap(),
            Spacing::Sweep(t) => t <= spread_cap(),
        },
    ensures
        note_offset(sp, i, n) <= 7 * spread_cap(),
{
    match sp {
        Spacing::Each(d) => {
            assert(i * d <= 7 * spread_cap()) by (nonlinear_arith)
                requires
                    i < 7,
                    d <= spread_cap(),
            ;
        },
        Spacing::Sweep(t) => {
            if n > 1 {
                let m = (n - 1) as nat;
                assert(i * t / m <= t) by (nonlinear_arith)
                    requires
                        i <= m,
                        m > 0,
            ;
            }
        },
    }
}

proof fn lemma_stroke_ticks(st: Stroke, tick: nat, duration: nat, k: nat)
    requires
        k <= st.notes.len() <= 7,
        match st.spacing {
            Spacing::Each(d) => d <= spread_cap(),
            Spacing::Sweep(t) => t <= spread_cap(),
        },
    ensures
        ticks_at_most(stroke_events(st, tick, duration, k), tick + 7 * spread_cap() + duration),
    decreases k,
{
    if k > 0 {
        let i = (k - 1) as nat;
        lemma_stroke_ticks(st, tick, duration, i);
        lemma_offset_bound(st.spacing, i, st.notes.len());
        let t = tick + note_offset(st.spacing, i, st.notes.len());
        let two = seq![
            note_on(t, st.notes[i as int], note_velocity(st.velocity, st.soften, i)),
            note_off(t + duration, st.notes[i as int]),
        ];
        let b = tick + 7 * spread_cap() + duration;
        assert(ticks_at_most(two, b));
        lemma_ticks_add(stroke_events(st, tick, duration, i), two, b, b);
    }
}

/// Render parameters whose spreads and holds stay within the bounds above.
pub open spec fn params_bounded(p: RenderParams) -> bool {
    &&& p.spread <= spread_cap()
    &&& p.down_sweep <= spread_cap()
    &&& p.up_sweep <= spread_cap()
    &&& p.duration <= 360
}

proof fn lemma_slot_ticks(p: RenderParams, notes: Seq<u8>, sym: StrumSymbol, tick: nat)
    requires
        params_bounded(p),
        notes.len() <= 7,
    ensures
        ticks_at_most(slot_events(p, notes, sym, tick), tick + 7 * spread_cap() + 360),
{
    match sym {
        StrumSymbol::Down => {
            let st = down_stroke(p, notes);
            lemma_stroke_ticks(st, tick, p.duration, st.notes.len());
        },
        StrumSymbol::Up => {
            let st = up_stroke(p, notes);
            lemma_stroke_ticks(st, tick, p.duration, st.notes.len());
        },
        StrumSymbol::Muted => {
            let st = muted_stroke(notes);
            lemma_stroke_ticks(st, tick, muted_duration(p.duration), st.notes.len());
        },
        StrumSymbol::Rest => {},
    }
}

proof fn lemma_pattern_ticks(
    p: RenderParams,
    notes: Seq<u8>,
    slots: Seq<StrumSymbol>,
    start: nat,
    slot_ticks: nat,
    k: nat,
)
    requires
        params_bounded(p),
        notes.len() <= 7,
        k <= slots.len(),
    ensures
        ticks_at_most(
            pattern_events(p, notes, slots, start, slot_ticks, k),
            start + k * slot_ticks + 7 * spread_cap() + 360,
        ),
    decreases k,
{
    if k > 0 {
        let i = (k - 1) as nat;
        lemma_pattern_ticks(p, notes, slots, start, slot_ticks, i);
        lemma_slot_ticks(p, notes, slots[i as int], start + i * slot_ticks);
        assert(i * slot_ticks <= k * slot_ticks) by (nonlinear_arith)
            requires
                i <= k,
        ;
        lemma_ticks_add(
            pattern_events(p, notes, slots, start, slot_ticks, i),
            slot_events(p, notes, slots[i as int], start + i * slot_ticks),
            start + k * slot_ticks + 7 * spread_cap() + 360,
            start + k * slot_ticks + 7 * spread_cap() + 360,
        );
    }
}

proof fn lemma_intervals_len(q: crate::harmony::ChordQuality)
    ensures
        crate::harmony::intervals_of(q).len() <= 7,
{
}

proof fn lemma_sounding_len(frets: Seq<Option<u8>>, i: int)
    requires
        0 <= i <= 6,
    ensures
        crate::voicing::sounding_from(frets, i).len() <= 6 - i,
    decreases 6 - i,
{
    if i < 6 {
        lemma_sounding_len(frets, i + 1);
    }
}

proof fn lemma_select_from_notes(h: crate::harmony::HarmonyView, lib: Seq<VoicingView>, symbol: Seq<char>)
    ensures
        crate::voicing::select_from(h, lib, symbol) matches Some(x) ==> x.1 == crate::voicing::sounding(x.0),
    decreases lib.len(),
{
    if lib.len() > 0 {
        lemma_select_from_notes(h, lib.drop_last(), symbol);
    }
}

/// A chord sounds at most seven notes.
proof fn lemma_chord_sound_len(set: Option<Seq<char>>, custom: Option<Seq<VoicingView>>, chord: Seq<char>)
    ensures
        chord_sound(set, custom, chord).len() <= 7,
{
    match set {
        None => {
            crate::harmony::lemma_resolve_outcome(chord);
            if let Ok(h) = crate::harmony::resolve_spec(chord) {
                lemma_intervals_len(h.quality);
            }
        },
        Some(v) => {
            if let Ok(h) = crate::harmony::resolve_spec(chord) {
                if let Ok(lib) = crate::voicing::built_in_spec(v) {
                    let all = match custom {
                        Some(c) => lib + c,
                        None => lib,
                    };
                    lemma_select_from_notes(h, all, chord);
                    if let Some(x) = crate::voicing::select_from(h, all, chord) {
                        lemma_sounding_len(x.0.frets, 0);
                    }
                }
            }
        },
    }
}

/// The bound on the events of one bar, past the bar's start.
pub open spec fn bar_span() -> nat {
    255 * 720 + 720 + 7 * spread_cap() + 360
}

proof fn lemma_bar_ticks(
    set: Option<Seq<char>>,
    custom: Option<Seq<VoicingView>>,
    p: RenderParams,
    g: Grid,
    bar: BarView,
    start: nat,
    k: nat,
)
    requires
        params_bounded(p),
        k <= bar.beats.len() <= 255,
        g.beat_ticks <= 720,
        forall|j: int| 0 <= j < bar.beats.len() ==> (#[trigger] bar.beats[j]).slots.len() * g.slot_ticks <= 720,
    ensures
        ticks_at_most(bar_events(set, custom, p, g, bar, start, k), start + k * 720 + 720 + 7 * spread_cap() + 360),
    decreases k,
{
    if k > 0 {
        let i = (k - 1) as nat;
        let b = bar.beats[i as int];
        lemma_bar_ticks(set, custom, p, g, bar, start, i);
        lemma_chord_sound_len(set, custom, b.chord);
        let bs = start + i * g.beat_ticks;
        lemma_pattern_ticks(p, chord_sound(set, custom, b.chord), b.slots, bs, g.slot_ticks, b.slots.len());
        assert(i * g.beat_ticks <= i * 720) by (nonlinear_arith)
            requires
                g.beat_ticks <= 720,
        ;
        let bound = start + k * 720 + 720 + 7 * spread_cap() + 360;
        lemma_ticks_add(
            bar_events(set, custom, p, g, bar, start, i),
            pattern_events(p, chord_sound(set, custom, b.chord), b.slots, bs, g.slot_ticks, b.slots.len()),
            bound,
            bound,
        );
    }
}

/// Bars of at most 255 beat patterns, each pattern's slots filling at most 720 ticks.
pub open spec fn bars_fit(bars: Seq<BarView>, g: Grid) -> bool {
    forall|i: int| 0 <= i < bars.len() ==> bar_fits(#[trigger] bars[i], g)
}

pub open spec fn bar_fits(bar: BarView, g: Grid) -> bool {
    &&& bar.beats.len() <= 255
    &&& forall|j: int| 0 <= j < bar.beats.len() ==> (#[trigger] bar.beats[j]).slots.len() * g.slot_ticks <= 720
}

proof fn lemma_bars_ticks(
    set: Option<Seq<char>>,
    custom: Option<Seq<VoicingView>>,
    p: RenderParams,
    g: Grid,
    bars: Seq<BarView>,
    k: nat,
)
    requires
        params_bounded(p),
        k <= bars.len() <= 1000,
        g.beat_ticks <= 720,
        g.bar_ticks <= 720 * 255,
        bars_fit(bars, g),
    ensures
        ticks_at_most(bars_events(set, custom, p, g, bars, k), 999 * 720 * 255 + bar_span()),
    decreases k,
{
    if k > 0 {
        let i = (k - 1) as nat;
        let bar = bars[i as int];
        lemma_bars_ticks(set, custom, p, g, bars, i);
        assert(bar_fits(bar, g));
        let start = i * g.bar_ticks;
        lemma_bar_ticks(set, custom, p, g, bar, start, bar.beats.len());
        assert(start <= 999 * (720 * 255)) by (nonlinear_arith)
            requires
                i <= 999,
                g.bar_ticks <= 720 * 255,
                start == i * g.bar_ticks,
        ;
        assert(bar.beats.len() * 720 <= 255 * 720) by (nonlinear_arith)
            requires
                bar.beats.len() <= 255,
        ;
        let bound: nat = 999 * 720 * 255 + bar_span();
        lemma_ticks_add(
            bars_events(set, custom, p, g, bars, i),
            bar_events(set, custom, p, g, bar, start, bar.beats.len()),
            bound,
            bound,
        );
    }
}

proof fn lemma_marker_ticks(parts: Seq<PartView>, bar_ticks: nat, n: nat, k: nat)
    requires
        k <= parts.len(),
        n <= 1000,
        bar_ticks <= 720 * 255,
        forall|i: int| 0 <= i < parts.len() ==> #[trigger] parts[i].bar_index <= n,
    ensures
        ticks_at_most(marker_events(parts, bar_ticks, k), 1000 * 720 * 255),
        marker_events(parts, bar_ticks, k).len() == k,
    decreases k,
{
    if k > 0 {
        lemma_marker_ticks(parts, bar_ticks, n, (k - 1) as nat);
        let p = parts[k - 1];
        assert((p.bar_index as nat) * bar_ticks <= 1000 * (720 * 255)) by (nonlinear_arith)
            requires
                p.bar_index <= 1000,
                bar_ticks <= 720 * 255,
        ;
        let es = marker_events(parts, bar_ticks, k);
        assert forall|i: int| 0 <= i < es.len() implies #[trigger] es[i].tick <= 1000 * 720 * 255 by {
            if i < k - 1 {
                assert(es[i] == marker_events(parts, bar_ticks, (k - 1) as nat)[i]);
            }
        }
    }
}

/// Law: a song that passes `validate`, with at most 1000 bars and its part
/// markers at or before its last bar, renders: the file is written, with the
/// layout that `lemma_file_layout` states (header, tempo, time signature and
/// program at tick 0, events in time order, end of track).
pub proof fn lemma_validated_song_renders(s: SongView, custom: Option<Seq<VoicingView>>, o: MidiOptions)
    requires
        validate_spec(s) == Ok::<(), ErrorView>(()),
        s.bars.len() <= 1000,
        forall|i: int| 0 <= i < s.parts.len() ==> #[trigger] s.parts[i].bar_index <= s.bars.len(),
    ensures
        midi_spec(s, custom, o) is Ok,
        ({
            let f = midi_spec(s, custom, o)->Ok_0;
            let so = sort_events(song_events(s, custom, o));
            &&& f.subrange(0, 14) == seq![0x4Du8, 0x54u8, 0x68u8, 0x64u8, 0u8, 0u8, 0u8, 6u8, 0u8, 0u8, 0u8, 1u8, 0x01u8, 0xE0u8]
            &&& f.subrange(14, 18) == seq![0x4Du8, 0x54u8, 0x72u8, 0x6Bu8]
            &&& f.subrange(22, f.len() as int) == track_head(
                song_tempo(s),
                s.metadata.time_signature.unwrap(),
                crate::model::program_of(instrument_of(s)),
            ) + events_bytes(so, so.len()) + track_end()
            &&& in_time_order(so)
        }),
{
    lemma_validated_renderable(s);
    crate::validate::lemma_valid_song_shape(s);
    lemma_grid_bounds(s);
    let g = song_grid(s);
    let p = render_params(s, o);
    let tempo = song_tempo(s);
    crate::timing::lemma_ms_to_ticks_bound(o.strum_spread_ms, tempo);
    crate::timing::lemma_ms_to_ticks_bound(or_u16(s.metadata.downstroke_spread_ms, 22), tempo);
    crate::timing::lemma_ms_to_ticks_bound(or_u16(s.metadata.upstroke_spread_ms, 14), tempo);
    assert(params_bounded(p));
    let ts = s.metadata.time_signature.unwrap();
    let beat = song_beat(s);
    let sub = song_subdivision(s);
    let nb = crate::validate::expected_beats(ts, beat).unwrap();
    let spb = slots_per_beat_of(beat, sub).unwrap();
    assert(nb <= 255);
    assert(g.beat_ticks == spb * g.slot_ticks);
    assert forall|i: int| 0 <= i < s.bars.len() implies bar_fits(#[trigger] s.bars[i], g) by {
        let bar = s.bars[i];
        if bar.beats.len() > 0 {
            assert(s.bars[i].beats[0] == bar.beats[0]);
            assert(bar.beats.len() == nb);
        }
        assert forall|j: int| 0 <= j < bar.beats.len() implies (#[trigger] bar.beats[j]).slots.len() * g.slot_ticks
            <= 720 by {
            assert(s.bars[i].beats[j] == bar.beats[j]);
            assert(bar.beats[j].slots.len() == spb);
        }
    }
    lemma_bars_ticks(s.metadata.voicing, custom, p, g, s.bars, s.bars.len());
    lemma_marker_ticks(s.parts, g.bar_ticks, s.bars.len(), s.parts.len());
    let all = song_events(s, custom, o);
    lemma_ticks_add(
        marker_events(s.parts, g.bar_ticks, s.parts.len()),
        bars_events(s.metadata.voicing, custom, p, g, s.bars, s.bars.len()),
        999 * 720 * 255 + bar_span(),
        999 * 720 * 255 + bar_span(),
    );
    assert(ticks_at_most(all, 999 * 720 * 255 + bar_span()));
    assert(!(exists|i: int| 0 <= i < all.len() && #[trigger] all[i].tick > u32::MAX)) by {
        assert forall|i: int| 0 <= i < all.len() implies #[trigger] all[i].tick <= u32::MAX by {
            assert(all[i].tick <= 999 * 720 * 255 + bar_span());
        }
    }
    lemma_file_layout(s, custom, o);
}

// ---------------------------------------------------------------------
// The events of a song without a voicing set, exactly
// ---------------------------------------------------------------------

/// `e` is the note-on or the note-off of note `m` of a stroke.
pub open spec fn stroke_note(st: Stroke, tick: nat, duration: nat, m: int, e: EventView) -> bool {
    let t = tick + note_offset(st.spacing, m as nat, st.notes.len());
    ||| e == note_on(t, st.notes[m], note_velocity(st.velocity, st.soften, m as nat))
    ||| e == note_off(t + duration, st.notes[m])
}

proof fn lemma_stroke_member(st: Stroke, tick: nat, duration: nat, e: EventView)
    requires
        strum_events(st, tick, duration).contains(e),
    ensures
        exists|m: int| 0 <= m < st.notes.len() && #[trigger] stroke_note(st, tick, duration, m, e),
{
    let n = st.notes.len();
    let evs = stroke_events(st, tick, duration, n);
    lemma_stroke_events(st, tick, duration, n);
    let x = choose|x: int| 0 <= x < evs.len() && evs[x] == e;
    let m = x / 2;
    assert(0 <= m < n);
    let t = tick + note_offset(st.spacing, m as nat, st.notes.len());
    assert(evs[2 * m] == note_on(t, st.notes[m], note_velocity(st.velocity, st.soften, m as nat)));
    assert(evs[2 * m + 1] == note_off(t + duration, st.notes[m]));
    assert(x == 2 * m || x == 2 * m + 1);
    assert(stroke_note(st, tick, duration, m, e));
}

proof fn lemma_pattern_member(
    p: RenderParams,
    notes: Seq<u8>,
    slots: Seq<StrumSymbol>,
    start: nat,
    slot_ticks: nat,
    n: nat,
    e: EventView,
)
    requires
        pattern_events(p, notes, slots, start, slot_ticks, n).contains(e),
    ensures
        exists|i: int| 0 <= i < n && #[trigger] slot_events(p, notes, slots[i], start + (i as nat) * slot_ticks).contains(e),
    decreases n,
{
    let prev = pattern_events(p, notes, slots, start, slot_ticks, (n - 1) as nat);
    let i = (n - 1) as nat;
    let last = slot_events(p, notes, slots[i as int], start + i * slot_ticks);
    let x = choose|x: int| 0 <= x < (prev + last).len() && (prev + last)[x] == e;
    if x < prev.len() {
        assert(prev[x] == e);
        lemma_pattern_member(p, notes, slots, start, slot_ticks, (n - 1) as nat, e);
    } else {
        assert(last[x - prev.len()] == e);
        assert(slot_events(p, notes, slots[i as int], start + ((i as int) as nat) * slot_ticks).contains(e));
    }
}

proof fn lemma_bar_member(
    set: Option<Seq<char>>,
    custom: Option<Seq<VoicingView>>,
    p: RenderParams,
    g: Grid,
    bar: BarView,
    start: nat,
    n: nat,
    e: EventView,
)
    requires
        bar_events(set, custom, p, g, bar, start, n).contains(e),
    ensures
        exists|j: int|
            0 <= j < n && #[trigger] pattern_events(
                p,
                chord_sound(set, custom, bar.beats[j].chord),
                bar.beats[j].slots,
                start + (j as nat) * g.beat_ticks,
                g.slot_ticks,
                bar.beats[j].slots.len(),
            ).contains(e),
    decreases n,
{
    let prev = bar_events(set, custom, p, g, bar, start, (n - 1) as nat);
    let j = (n - 1) as int;
    let b = bar.beats[j];
    let last = pattern_events(
        p,
        chord_sound(set, custom, b.chord),
        b.slots,
        start + (j as nat) * g.beat_ticks,
        g.slot_ticks,
        b.slots.len(),
    );
    assert(bar_events(set, custom, p, g, bar, start, n) == prev + last);
    let x = choose|x: int| 0 <= x < (prev + last).len() && (prev + last)[x] == e;
    if x < prev.len() {
        assert(prev[x] == e);
        lemma_bar_member(set, custom, p, g, bar, start, (n - 1) as nat, e);
    } else {
        assert(last[x - prev.len()] == e);
        assert(last.contains(e));
    }
}

proof fn lemma_bars_member(
    set: Option<Seq<char>>,
    custom: Option<Seq<VoicingView>>,
    p: RenderParams,
    g: Grid,
    bars: Seq<BarView>,
    n: nat,
    e: EventView,
)
    requires
        bars_events(set, custom, p, g, bars, n).contains(e),
    ensures
        exists|k: int|
            0 <= k < n && #[trigger] bar_events(set, custom, p, g, bars[k], (k as nat) * g.bar_ticks, bars[k].beats.len()).contains(e),
    decreases n,
{
    let prev = bars_events(set, custom, p, g, bars, (n - 1) as nat);
    let k = (n - 1) as int;
    let last = bar_events(set, custom, p, g, bars[k], (k as nat) * g.bar_ticks, bars[k].beats.len());
    assert(bars_events(set, custom, p, g, bars, n) == prev + last);
    let x = choose|x: int| 0 <= x < (prev + last).len() && (prev + last)[x] == e;
    if x < prev.len() {
        assert(prev[x] == e);
        lemma_bars_member(set, custom, p, g, bars, (n - 1) as nat, e);
    } else {
        assert(last[x - prev.len()] == e);
        assert(last.contains(e));
    }
}

proof fn lemma_markers_index(parts: Seq<PartView>, bar_ticks: nat, n: nat)
    requires
        n <= parts.len(),
    ensures
        marker_events(parts, bar_ticks, n).len() == n,
        forall|q: int| 0 <= q < n ==> #[trigger] marker_events(parts, bar_ticks, n)[q] == marker_event(parts[q], bar_ticks),
    decreases n,
{
    if n > 0 {
        lemma_markers_index(parts, bar_ticks, (n - 1) as nat);
        let prev = marker_events(parts, bar_ticks, (n - 1) as nat);
        assert forall|q: int| 0 <= q < n implies #[trigger] marker_events(parts, bar_ticks, n)[q] == marker_event(
            parts[q],
            bar_ticks,
        ) by {
            if q < n - 1 {
                assert(marker_events(parts, bar_ticks, n)[q] == prev[q]);
            }
        }
    }
}

/// Note `m` of the strum in slot `i` of beat pattern `j` of bar `k` of a song
/// without a voicing set: `e` is its note-on, at the options' velocity and at
/// tick `k * bar + j * beat + i * slot + m * spread`, or its note-off, `duration`
/// ticks later. The slot holds a downstroke or an upstroke; an upstroke plays the
/// chord's notes in reverse.
pub open spec fn plain_note_at(s: SongView, o: MidiOptions, k: int, j: int, i: int, m: int, e: EventView) -> bool {
    let g = song_grid(s);
    let p = render_params(s, o);
    &&& 0 <= k < s.bars.len()
    &&& 0 <= j < s.bars[k].beats.len()
    &&& 0 <= i < s.bars[k].beats[j].slots.len()
    &&& s.bars[k].beats[j].slots[i] == StrumSymbol::Down || s.bars[k].beats[j].slots[i] == StrumSymbol::Up
    &&& chord_notes(s.bars[k].beats[j].chord) is Some
    &&& 0 <= m < chord_notes(s.bars[k].beats[j].chord).unwrap().len()
    &&& ({
        let notes = chord_notes(s.bars[k].beats[j].chord).unwrap();
        let played = if s.bars[k].beats[j].slots[i] == StrumSymbol::Down {
            notes
        } else {
            notes.reverse()
        };
        let t = k * g.bar_ticks + j * g.beat_ticks + i * g.slot_ticks + m * p.spread;
        ||| e == note_on(t as nat, played[m], o.velocity)
        ||| e == note_off((t + p.duration) as nat, played[m])
    })
}

/// Law: the events of a song without a voicing set and without muted strums are
/// exactly its part markers and, for every downstroke and upstroke, the note-on
/// and note-off of each of its chord's notes as `plain_note_at` places them.
pub proof fn lemma_plain_song_events(s: SongView, custom: Option<Seq<VoicingView>>, o: MidiOptions, e: EventView)
    requires
        s.metadata.voicing is None,
        forall|k: int, j: int, i: int|
            #![trigger s.bars[k].beats[j].slots[i]]
            0 <= k < s.bars.len() && 0 <= j < s.bars[k].beats.len() && 0 <= i < s.bars[k].beats[j].slots.len()
                ==> s.bars[k].beats[j].slots[i] != StrumSymbol::Muted,
    ensures
        song_events(s, custom, o).contains(e) <==> (
            (exists|q: int| 0 <= q < s.parts.len() && e == marker_event(#[trigger] s.parts[q], song_grid(s).bar_ticks))
            || exists|k: int, j: int, i: int, m: int| #[trigger] plain_note_at(s, o, k, j, i, m, e)),
{
    let g = song_grid(s);
    let p = render_params(s, o);
    let mk = marker_events(s.parts, g.bar_ticks, s.parts.len());
    let b = bars_events(None, custom, p, g, s.bars, s.bars.len());
    let all = song_events(s, custom, o);
    assert(all == mk + b);
    lemma_markers_index(s.parts, g.bar_ticks, s.parts.len());
    if all.contains(e) {
        let x = choose|x: int| 0 <= x < all.len() && all[x] == e;
        if x < mk.len() {
            assert(mk[x] == e);
            assert(e == marker_event(s.parts[x], g.bar_ticks));
        } else {
            assert(b[x - mk.len()] == e);
            assert(b.contains(e));
            lemma_bars_member(None, custom, p, g, s.bars, s.bars.len(), e);
            let k = choose|k: int|
                0 <= k < s.bars.len() && #[trigger] bar_events(None, custom, p, g, s.bars[k], (k as nat) * g.bar_ticks, s.bars[k].beats.len()).contains(e);
            let bar = s.bars[k];
            let bs = (k as nat) * g.bar_ticks;
            lemma_bar_member(None, custom, p, g, bar, bs, bar.beats.len(), e);
            let j = choose|j: int|
                0 <= j < bar.beats.len() && #[trigger] pattern_events(
                    p,
                    chord_sound(None, custom, bar.beats[j].chord),
                    bar.beats[j].slots,
                    bs + (j as nat) * g.beat_ticks,
                    g.slot_ticks,
                    bar.beats[j].slots.len(),
                ).contains(e);
            let beat = bar.beats[j];
            let notes = chord_sound(None, custom, beat.chord);
            let ts = bs + (j as nat) * g.beat_ticks;
            lemma_pattern_member(p, notes, beat.slots, ts, g.slot_ticks, beat.slots.len(), e);
            let i = choose|i: int|
                0 <= i < beat.slots.len() && #[trigger] slot_events(p, notes, beat.slots[i], ts + (i as nat) * g.slot_ticks).contains(e);
            let sym = beat.slots[i];
            assert(s.bars[k].beats[j].slots[i] == sym);
            assert(sym != StrumSymbol::Muted);
            assert(sym != StrumSymbol::Rest);
            let t0 = ts + (i as nat) * g.slot_ticks;
            let st = if sym == StrumSymbol::Down {
                down_stroke(p, notes)
            } else {
                up_stroke(p, notes)
            };
            assert(slot_events(p, notes, sym, t0) == strum_events(st, t0, p.duration));
            lemma_stroke_member(st, t0, p.duration, e);
            let m = choose|m: int| 0 <= m < st.notes.len() && #[trigger] stroke_note(st, t0, p.duration, m, e);
            assert(st.notes.len() > 0);
            assert(chord_notes(beat.chord) is Some);
            assert(notes == chord_notes(beat.chord).unwrap());
            assert(note_offset(st.spacing, m as nat, st.notes.len()) == m * p.spread);
            assert(note_velocity(st.velocity, st.soften, m as nat) == o.velocity);
            assert(plain_note_at(s, o, k, j, i, m, e));
        }
    }
    if exists|q: int| 0 <= q < s.parts.len() && e == marker_event(#[trigger] s.parts[q], g.bar_ticks) {
        let q = choose|q: int| 0 <= q < s.parts.len() && e == marker_event(#[trigger] s.parts[q], g.bar_ticks);
        assert(mk[q] == e);
        assert(all[q] == e);
    }
    if exists|k: int, j: int, i: int, m: int| #[trigger] plain_note_at(s, o, k, j, i, m, e) {
        let (k, j, i, m) = choose|k: int, j: int, i: int, m: int| #[trigger] plain_note_at(s, o, k, j, i, m, e);
        lemma_plain_strum_notes(s, custom, o, k, j, i, m);
    }
}

} // verus!
