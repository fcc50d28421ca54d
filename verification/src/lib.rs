//! Converts strum charts (chords over strum patterns) to Standard MIDI Files.
use vstd::prelude::*;

pub mod chord;
pub mod cli;
pub mod error;
pub mod harmony;
pub mod midi_writer;
pub mod model;
pub mod parser;
pub mod text;
pub mod timing;
pub mod validate;
pub mod voicing;

pub use error::AppError;
pub use midi_writer::MidiOptions;
pub use model::Song;

use error::ErrorView;
use midi_writer::midi_spec;
use model::SongView;
use validate::validate_with_voicings_spec;
use voicing::{custom_fits_song, custom_view, VoicingLibrary, VoicingView};

verus! {

/// What converting a parsed song gives: the checks of
/// `validate_with_voicings`, then the MIDI file.
pub open spec fn convert_song_spec(s: SongView, custom: Option<Seq<VoicingView>>, o: MidiOptions) -> Result<
    Seq<u8>,
    ErrorView,
> {
    match validate_with_voicings_spec(s, None, custom) {
        Err(e) => Err(e),
        Ok(_) => midi_spec(s, custom, o),
    }
}

/// What converting a chart's text gives.
pub open spec fn convert_spec(input: Seq<char>, o: MidiOptions) -> Result<Seq<u8>, ErrorView> {
    match parser::parse_spec(input) {
        Err(e) => Err(e),
        Ok(s) => convert_song_spec(s, None, o),
    }
}

/// Parses, checks and renders a strum chart.
pub fn convert_strum_to_midi(input: &str, options: MidiOptions) -> (r: Result<Vec<u8>, AppError>)
    ensures
        match r {
            Ok(b) => convert_spec(input@, options) == Ok::<Seq<u8>, ErrorView>(b@),
            Err(e) => convert_spec(input@, options) == Err::<Seq<u8>, ErrorView>(e@),
        },
{
    let song = parser::parse(input)?;
    convert_song_to_midi(&song, options)
}

/// Checks and renders a parsed song.
pub fn convert_song_to_midi(song: &Song, options: MidiOptions) -> (r: Result<Vec<u8>, AppError>)
    ensures
        match r {
            Ok(b) => convert_song_spec(song@, None, options) == Ok::<Seq<u8>, ErrorView>(b@),
            Err(e) => convert_song_spec(song@, None, options) == Err::<Seq<u8>, ErrorView>(e@),
        },
{
    convert_song_with_voicings(song, options, None)
}

/// Checks and renders a parsed song, with `custom` voicings after the
/// built-in ones of its voicing set.
pub fn convert_song_with_voicings(song: &Song, options: MidiOptions, custom: Option<&VoicingLibrary>) -> (r: Result<
    Vec<u8>,
    AppError,
>)
    requires
        custom_fits_song(custom_view(custom), song@),
    ensures
        match r {
            Ok(b) => convert_song_spec(song@, custom_view(custom), options) == Ok::<Seq<u8>, ErrorView>(b@),
            Err(e) => convert_song_spec(song@, custom_view(custom), options) == Err::<Seq<u8>, ErrorView>(e@),
        },
{
    validate::validate_with_voicings(song, None, custom)?;
    proof {
        midi_writer::lemma_validated_renderable(song@);
    }
    midi_writer::write_midi_with_voicings(song, options, custom)
}

/// Converting a song gives the error of `validate` when it fails; for a song
/// that names no voicing set, it otherwise gives what rendering gives. A song
/// that names a set is also checked for a voicing of every chord (an unknown set
/// or a missing voicing is the error) before it is rendered.
pub proof fn lemma_conversion(s: SongView, custom: Option<Seq<VoicingView>>, o: MidiOptions)
    ensures
        validate::validate_spec(s) is Err ==> convert_song_spec(s, custom, o) == Err::<Seq<u8>, ErrorView>(
            validate::validate_spec(s)->Err_0,
        ),
        validate::validate_spec(s) is Ok && s.metadata.voicing is None ==> convert_song_spec(s, custom, o)
            == midi_spec(s, custom, o),
        validate::validate_spec(s) is Ok && s.metadata.voicing is Some ==> convert_song_spec(s, custom, o)
            == match voicing::built_in_spec(s.metadata.voicing.unwrap()) {
            Err(e) => Err(e),
            Ok(_) => match validate::bars_voicing_error(s.bars, s.bars.len(), s.metadata.voicing.unwrap(), custom) {
                Some(e) => Err(e),
                None => midi_spec(s, custom, o),
            },
        },
{
}

/// Law: a count style, as written (`1&`, `1&a`, `1e&a`, `1a&a`, one character per
/// counted slot), fits a beat and subdivision exactly when the grid has that many
/// slots in each beat.
pub proof fn lemma_count_labels(text: Seq<char>, beat: model::Beat, sub: u8)
    requires
        parser::count_value(text) is Some,
    ensures
        validate::count_fits(parser::count_value(text)->Some_0, beat, sub) <==> timing::slots_per_beat_of(beat, sub)
            == Some(text.len()),
{
}

/// Law: a written file changes to the song's instrument's General MIDI program at
/// the start of its track (after the tempo and time signature events): bytes 38
/// and 39 are the program change `0xC0` and the program, 24 for the nylon-string
/// guitar, 25 for the steel-string acoustic guitar (also when no instrument is
/// named), 27 for the clean electric guitar.
pub proof fn lemma_program_change(s: SongView, custom: Option<Seq<VoicingView>>, o: MidiOptions)
    requires
        midi_spec(s, custom, o) is Ok,
    ensures
        ({
            let f = midi_spec(s, custom, o)->Ok_0;
            &&& f[38] == 0xC0u8
            &&& f[39] == model::program_of(validate::instrument_of(s))
            &&& s.metadata.instrument == Some(model::Instrument::NylonGuitar) ==> f[39] == 24
            &&& s.metadata.instrument == Some(model::Instrument::ElectricGuitarClean) ==> f[39] == 27
            &&& (s.metadata.instrument is None || s.metadata.instrument == Some(model::Instrument::AcousticGuitar))
                ==> f[39] == 25
        }),
{
    let f = midi_spec(s, custom, o)->Ok_0;
    midi_writer::lemma_file_layout(s, custom, o);
    model::lemma_general_midi_programs(model::Instrument::NylonGuitar, model::Instrument::NylonGuitar);
    let so = midi_writer::sort_events(midi_writer::song_events(s, custom, o));
    let head = midi_writer::track_head(
        midi_writer::song_tempo(s),
        s.metadata.time_signature.unwrap(),
        model::program_of(validate::instrument_of(s)),
    );
    let tail = f.subrange(22, f.len() as int);
    assert(tail == head + midi_writer::events_bytes(so, so.len()) + midi_writer::track_end());
    assert(tail[16] == head[16]);
    assert(tail[17] == head[17]);
    assert(f[38] == tail[16]);
    assert(f[39] == tail[17]);
}

} // verus!
