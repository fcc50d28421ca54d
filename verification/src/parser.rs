//! The `.strum` text format: metadata lines, part markers, chart line pairs
//! of chords and strum patterns, optional lyric lines and a trailing notes section.
use vstd::prelude::*;

use crate::error::{line_message, line_msg, line_prefix, AppError, ErrorView};
use crate::model::{
    bar_views, beat_views, copy_bar, empty_metadata, part_views, string_views, Bar, BarView,
    Beat, BeatPattern, BeatView, CountStyle, Instrument, Metadata, MetadataView, Part, PartView,
    Song, SongView, StrumSymbol, TimeSignature,
};
use crate::text::{
    chars_of, copy_range, find_char, find_from, first_word, first_word_of, has_char,
    is_word, is_ws, is_ws_char, lemma_find_from, lemma_word_end, lines, parse_uint,
    parse_unsigned, push_chars, push_decimal, push_str, split_lines, starts_with,
    starts_with_chars, string_of, trim, trim_end, trim_end_vec, trim_vec, views, word,
    word_end, word_end_at, words, words_from, all_ws, lemma_lines_append, lemma_trim_empty,
    next_newline, lines_from, trim_start,
};

verus! {

// ---------------------------------------------------------------------
// Recognising lines
// ---------------------------------------------------------------------

/// The keys that metadata lines may set.
pub open spec fn is_meta_key(k: Seq<char>) -> bool {
    word(k, seq!['t', 'e', 'm', 'p', 'o'])
    || word(k, seq!['t', 'i', 'm', 'e'])
    || word(k, seq!['v', 'e', 'l', 'o', 'c', 'i', 't', 'y'])
    || word(k, seq!['s', 't', 'r', 'u', 'm', '_', 's', 'p', 'r', 'e', 'a', 'd', '_', 'm', 's'])
    || word(k, seq!['d', 'o', 'w', 'n', 's', 't', 'r', 'o', 'k', 'e', '_', 'v', 'e', 'l', 'o', 'c', 'i', 't', 'y'])
    || word(k, seq!['u', 'p', 's', 't', 'r', 'o', 'k', 'e', '_', 'v', 'e', 'l', 'o', 'c', 'i', 't', 'y'])
    || word(k, seq!['d', 'o', 'w', 'n', 's', 't', 'r', 'o', 'k', 'e', '_', 's', 'p', 'r', 'e', 'a', 'd', '_', 'm', 's'])
    || word(k, seq!['u', 'p', 's', 't', 'r', 'o', 'k', 'e', '_', 's', 'p', 'r', 'e', 'a', 'd', '_', 'm', 's'])
    || word(k, seq!['u', 'p', 's', 't', 'r', 'o', 'k', 'e', '_', 'm', 'a', 'x', '_', 's', 't', 'r', 'i', 'n', 'g', 's'])
    || word(k, seq!['b', 'e', 'a', 't'])
    || word(k, seq!['s', 'u', 'b', 'd', 'i', 'v', 'i', 's', 'i', 'o', 'n'])
    || word(k, seq!['c', 'o', 'u', 'n', 't'])
    || word(k, seq!['i', 'n', 's', 't', 'r', 'u', 'm', 'e', 'n', 't'])
    || word(k, seq!['v', 'o', 'i', 'c', 'i', 'n', 'g'])
}

fn is_meta_key_exec(k: &[char]) -> (r: bool)
    ensures
        r == is_meta_key(k@),
{
    let w0: &[char] = &['t', 'e', 'm', 'p', 'o'];
    let w1: &[char] = &['t', 'i', 'm', 'e'];
    let w2: &[char] = &['v', 'e', 'l', 'o', 'c', 'i', 't', 'y'];
    let w3: &[char] = &['s', 't', 'r', 'u', 'm', '_', 's', 'p', 'r', 'e', 'a', 'd', '_', 'm', 's'];
    let w4: &[char] = &['d', 'o', 'w', 'n', 's', 't', 'r', 'o', 'k', 'e', '_', 'v', 'e', 'l', 'o', 'c', 'i', 't', 'y'];
    let w5: &[char] = &['u', 'p', 's', 't', 'r', 'o', 'k', 'e', '_', 'v', 'e', 'l', 'o', 'c', 'i', 't', 'y'];
    let w6: &[char] = &['d', 'o', 'w', 'n', 's', 't', 'r', 'o', 'k', 'e', '_', 's', 'p', 'r', 'e', 'a', 'd', '_', 'm', 's'];
    let w7: &[char] = &['u', 'p', 's', 't', 'r', 'o', 'k', 'e', '_', 's', 'p', 'r', 'e', 'a', 'd', '_', 'm', 's'];
    let w8: &[char] = &['u', 'p', 's', 't', 'r', 'o', 'k', 'e', '_', 'm', 'a', 'x', '_', 's', 't', 'r', 'i', 'n', 'g', 's'];
    let w9: &[char] = &['b', 'e', 'a', 't'];
    let w10: &[char] = &['s', 'u', 'b', 'd', 'i', 'v', 'i', 's', 'i', 'o', 'n'];
    let w11: &[char] = &['c', 'o', 'u', 'n', 't'];
    let w12: &[char] = &['i', 'n', 's', 't', 'r', 'u', 'm', 'e', 'n', 't'];
    let w13: &[char] = &['v', 'o', 'i', 'c', 'i', 'n', 'g'];
    is_word(k, w0)
        || is_word(k, w1)
        || is_word(k, w2)
        || is_word(k, w3)
        || is_word(k, w4)
        || is_word(k, w5)
        || is_word(k, w6)
        || is_word(k, w7)
        || is_word(k, w8)
        || is_word(k, w9)
        || is_word(k, w10)
        || is_word(k, w11)
        || is_word(k, w12)
        || is_word(k, w13)
}

/// The text before the first `:` (all of it when there is none), trimmed.
pub open spec fn key_part(t: Seq<char>) -> Seq<char> {
    trim(t.subrange(0, find_from(t, ':', 0)))
}

/// A line that starts like a metadata line: its key is a metadata key.
pub open spec fn looks_like_metadata(t: Seq<char>) -> bool {
    is_meta_key(key_part(t))
}

/// A line whose first word is a metadata key but which has no `:`.
pub open spec fn looks_like_malformed_metadata(t: Seq<char>) -> bool {
    is_meta_key(first_word(t)) && !has_char(t, ':')
}

/// A `part:` line.
pub open spec fn is_part_line(t: Seq<char>) -> bool {
    has_char(t, ':') && word(key_part(t), seq!['p', 'a', 'r', 't'])
}

/// A line whose first word is `part` but which has no `:`.
pub open spec fn looks_like_malformed_part(t: Seq<char>) -> bool {
    word(first_word(t), seq!['p', 'a', 'r', 't']) && !has_char(t, ':')
}

fn key_part_of(t: &[char]) -> (r: Vec<char>)
    ensures
        r@ == key_part(t@),
{
    let k = find_char(t, ':', 0);
    let before = copy_range(t, 0, k);
    trim_vec(&before)
}

fn looks_like_metadata_exec(t: &[char]) -> (r: bool)
    ensures
        r == looks_like_metadata(t@),
{
    let k = key_part_of(t);
    is_meta_key_exec(&k)
}

fn looks_like_malformed_metadata_exec(t: &[char]) -> (r: bool)
    ensures
        r == looks_like_malformed_metadata(t@),
{
    let w = first_word_of(t);
    is_meta_key_exec(&w) && find_char(t, ':', 0) == t.len()
}

fn is_part_line_exec(t: &[char]) -> (r: bool)
    ensures
        r == is_part_line(t@),
{
    let part: &[char] = &['p', 'a', 'r', 't'];
    let k = key_part_of(t);
    find_char(t, ':', 0) < t.len() && is_word(&k, part)
}

fn looks_like_malformed_part_exec(t: &[char]) -> (r: bool)
    ensures
        r == looks_like_malformed_part(t@),
{
    let part: &[char] = &['p', 'a', 'r', 't'];
    let w = first_word_of(t);
    is_word(&w, part) && find_char(t, ':', 0) == t.len()
}

// ---------------------------------------------------------------------
// Metadata lines
// ---------------------------------------------------------------------

pub open spec fn malformed_error(n: nat) -> ErrorView {
    ErrorView::Parse(line_msg(n, "malformed metadata line"@))
}

fn malformed(n: usize) -> (e: AppError)
    ensures
        e@ == malformed_error(n as nat),
{
    AppError::Parse(line_message(n, "malformed metadata line"))
}

/// The trimmed key and value of a `key: value` line, split at the first `:`.
pub open spec fn key_value(t: Seq<char>) -> Option<(Seq<char>, Seq<char>)> {
    let k = find_from(t, ':', 0);
    if k < t.len() {
        Some((trim(t.subrange(0, k)), trim(t.subrange(k + 1, t.len() as int))))
    } else {
        None
    }
}

pub open spec fn parsed_u16(v: Seq<char>) -> Option<u16> {
    match parse_unsigned(v, 65535) {
        Some(x) => Some(x as u16),
        None => None,
    }
}

pub open spec fn parsed_u8(v: Seq<char>) -> Option<u8> {
    match parse_unsigned(v, 255) {
        Some(x) => Some(x as u8),
        None => None,
    }
}

fn parse_u16(v: &[char]) -> (r: Option<u16>)
    ensures
        r == parsed_u16(v@),
{
    match parse_uint(v, 65535) {
        Some(x) => Some(x as u16),
        None => None,
    }
}

fn parse_u8(v: &[char]) -> (r: Option<u8>)
    ensures
        r == parsed_u8(v@),
{
    match parse_uint(v, 255) {
        Some(x) => Some(x as u8),
        None => None,
    }
}

/// A `numerator/denominator` value.
pub open spec fn time_value(v: Seq<char>) -> Option<TimeSignature> {
    let k = find_from(v, '/', 0);
    if k < v.len() {
        match (parsed_u8(trim(v.subrange(0, k))), parsed_u8(trim(v.subrange(k + 1, v.len() as int)))) {
            (Some(a), Some(b)) => Some(TimeSignature { numerator: a, denominator: b }),
            _ => None,
        }
    } else {
        None
    }
}

pub open spec fn beat_value(v: Seq<char>) -> Option<Beat> {
    if word(v, seq!['q', 'u', 'a', 'r', 't', 'e', 'r']) {
        Some(Beat::Quarter)
    } else if word(v, seq!['d', 'o', 't', 't', 'e', 'd', '-', 'q', 'u', 'a', 'r', 't', 'e', 'r']) {
        Some(Beat::DottedQuarter)
    } else {
        None
    }
}

pub open spec fn count_value(v: Seq<char>) -> Option<CountStyle> {
    if word(v, seq!['1', '&']) {
        Some(CountStyle::OneAnd)
    } else if word(v, seq!['1', '&', 'a']) {
        Some(CountStyle::OneAndA)
    } else if word(v, seq!['1', 'e', '&', 'a']) {
        Some(CountStyle::OneEAndA)
    } else if word(v, seq!['1', 'a', '&', 'a']) {
        Some(CountStyle::OneAAndA)
    } else {
        None
    }
}

pub open spec fn instrument_value(v: Seq<char>) -> Option<Instrument> {
    if word(v, seq!['a', 'c', 'o', 'u', 's', 't', 'i', 'c', '_', 'g', 'u', 'i', 't', 'a', 'r']) {
        Some(Instrument::AcousticGuitar)
    } else if word(v, seq!['e', 'l', 'e', 'c', 't', 'r', 'i', 'c', '_', 'g', 'u', 'i', 't', 'a', 'r', '_', 'c', 'l', 'e', 'a', 'n']) {
        Some(Instrument::ElectricGuitarClean)
    } else if word(v, seq!['n', 'y', 'l', 'o', 'n', '_', 'g', 'u', 'i', 't', 'a', 'r']) {
        Some(Instrument::NylonGuitar)
    } else {
        None
    }
}

fn time_value_exec(v: &[char]) -> (r: Option<TimeSignature>)
    ensures
        r == time_value(v@),
{
    let k = find_char(v, '/', 0);
    if k == v.len() {
        return None;
    }
    let a = trim_vec(&copy_range(v, 0, k));
    let b = trim_vec(&copy_range(v, k + 1, v.len()));
    match (parse_u8(&a), parse_u8(&b)) {
        (Some(x), Some(y)) => Some(TimeSignature { numerator: x, denominator: y }),
        _ => None,
    }
}

fn beat_value_exec(v: &[char]) -> (r: Option<Beat>)
    ensures
        r == beat_value(v@),
{
    let w0: &[char] = &['q', 'u', 'a', 'r', 't', 'e', 'r'];
    let w1: &[char] = &['d', 'o', 't', 't', 'e', 'd', '-', 'q', 'u', 'a', 'r', 't', 'e', 'r'];
    if is_word(v, w0) {
        Some(Beat::Quarter)
    } else if is_word(v, w1) {
        Some(Beat::DottedQuarter)
    } else {
        None
    }
}

fn count_value_exec(v: &[char]) -> (r: Option<CountStyle>)
    ensures
        r == count_value(v@),
{
    let w0: &[char] = &['1', '&'];
    let w1: &[char] = &['1', '&', 'a'];
    let w2: &[char] = &['1', 'e', '&', 'a'];
    let w3: &[char] = &['1', 'a', '&', 'a'];
    if is_word(v, w0) {
        Some(CountStyle::OneAnd)
    } else if is_word(v, w1) {
        Some(CountStyle::OneAndA)
    } else if is_word(v, w2) {
        Some(CountStyle::OneEAndA)
    } else if is_word(v, w3) {
        Some(CountStyle::OneAAndA)
    } else {
        None
    }
}

fn instrument_value_exec(v: &[char]) -> (r: Option<Instrument>)
    ensures
        r == instrument_value(v@),
{
    let w0: &[char] = &['a', 'c', 'o', 'u', 's', 't', 'i', 'c', '_', 'g', 'u', 'i', 't', 'a', 'r'];
    let w1: &[char] = &['e', 'l', 'e', 'c', 't', 'r', 'i', 'c', '_', 'g', 'u', 'i', 't', 'a', 'r', '_', 'c', 'l', 'e', 'a', 'n'];
    let w2: &[char] = &['n', 'y', 'l', 'o', 'n', '_', 'g', 'u', 'i', 't', 'a', 'r'];
    if is_word(v, w0) {
        Some(Instrument::AcousticGuitar)
    } else if is_word(v, w1) {
        Some(Instrument::ElectricGuitarClean)
    } else if is_word(v, w2) {
        Some(Instrument::NylonGuitar)
    } else {
        None
    }
}

/// `"Line {n}: unsupported {what} '{value}'"` as a validation error.
pub open spec fn unsupported_value_error(n: nat, what: Seq<char>, value: Seq<char>) -> ErrorView {
    ErrorView::Validation(line_msg(n, "unsupported "@ + what + " '"@ + value + "'"@))
}

fn unsupported_value(n: usize, what: &str, value: &[char]) -> (e: AppError)
    ensures
        e@ == unsupported_value_error(n as nat, what@, value@),
{
    let mut m = line_prefix(n);
    push_str(&mut m, "unsupported ");
    push_str(&mut m, what);
    push_str(&mut m, " '");
    push_chars(&mut m, value);
    push_str(&mut m, "'");
    assert(m@ =~= line_msg(n as nat, "unsupported "@ + what@ + " '"@ + value@ + "'"@));
    AppError::Validation(m)
}

/// The metadata after reading the metadata line `t` (line `n`).
pub open spec fn metadata_step(md: MetadataView, t: Seq<char>, n: nat) -> Result<MetadataView, ErrorView> {
    match key_value(t) {
        None => Err(malformed_error(n)),
        Some((key, value)) => if value.len() == 0 {
            Err(malformed_error(n))
        } else if word(key, seq!['t', 'e', 'm', 'p', 'o']) {
            match parsed_u16(value) {
                Some(x) => Ok(MetadataView { tempo: Some(x), ..md }),
                None => Err(malformed_error(n)),
            }
        } else if word(key, seq!['v', 'e', 'l', 'o', 'c', 'i', 't', 'y']) {
            match parsed_u8(value) {
                Some(x) => Ok(MetadataView { velocity: Some(x), ..md }),
                None => Err(malformed_error(n)),
            }
        } else if word(key, seq!['s', 't', 'r', 'u', 'm', '_', 's', 'p', 'r', 'e', 'a', 'd', '_', 'm', 's']) {
            match parsed_u16(value) {
                Some(x) => Ok(MetadataView { strum_spread_ms: Some(x), ..md }),
                None => Err(malformed_error(n)),
            }
        } else if word(key, seq!['d', 'o', 'w', 'n', 's', 't', 'r', 'o', 'k', 'e', '_', 'v', 'e', 'l', 'o', 'c', 'i', 't', 'y']) {
            match parsed_u8(value) {
                Some(x) => Ok(MetadataView { downstroke_velocity: Some(x), ..md }),
                None => Err(malformed_error(n)),
            }
        } else if word(key, seq!['u', 'p', 's', 't', 'r', 'o', 'k', 'e', '_', 'v', 'e', 'l', 'o', 'c', 'i', 't', 'y']) {
            match parsed_u8(value) {
                Some(x) => Ok(MetadataView { upstroke_velocity: Some(x), ..md }),
                None => Err(malformed_error(n)),
            }
        } else if word(key, seq!['d', 'o', 'w', 'n', 's', 't', 'r', 'o', 'k', 'e', '_', 's', 'p', 'r', 'e', 'a', 'd', '_', 'm', 's']) {
            match parsed_u16(value) {
                Some(x) => Ok(MetadataView { downstroke_spread_ms: Some(x), ..md }),
                None => Err(malformed_error(n)),
            }
        } else if word(key, seq!['u', 'p', 's', 't', 'r', 'o', 'k', 'e', '_', 's', 'p', 'r', 'e', 'a', 'd', '_', 'm', 's']) {
            match parsed_u16(value) {
                Some(x) => Ok(MetadataView { upstroke_spread_ms: Some(x), ..md }),
                None => Err(malformed_error(n)),
            }
        } else if word(key, seq!['u', 'p', 's', 't', 'r', 'o', 'k', 'e', '_', 'm', 'a', 'x', '_', 's', 't', 'r', 'i', 'n', 'g', 's']) {
            match parsed_u8(value) {
                Some(x) => Ok(MetadataView { upstroke_max_strings: Some(x), ..md }),
                None => Err(malformed_error(n)),
            }
        } else if word(key, seq!['s', 'u', 'b', 'd', 'i', 'v', 'i', 's', 'i', 'o', 'n']) {
            match parsed_u8(value) {
                Some(x) => Ok(MetadataView { subdivision: Some(x), ..md }),
                None => Err(malformed_error(n)),
            }
        } else if word(key, seq!['t', 'i', 'm', 'e']) {
            match time_value(value) {
                Some(ts) => Ok(MetadataView { time_signature: Some(ts), ..md }),
                None => Err(malformed_error(n)),
            }
        } else if word(key, seq!['b', 'e', 'a', 't']) {
            match beat_value(value) {
                Some(b) => Ok(MetadataView { beat: Some(b), ..md }),
                None => Err(unsupported_value_error(n, "beat"@, value)),
            }
        } else if word(key, seq!['c', 'o', 'u', 'n', 't']) {
            match count_value(value) {
                Some(c) => Ok(MetadataView { count: Some(c), ..md }),
                None => Err(unsupported_value_error(n, "count"@, value)),
            }
        } else if word(key, seq!['i', 'n', 's', 't', 'r', 'u', 'm', 'e', 'n', 't']) {
            match instrument_value(value) {
                Some(i) => Ok(MetadataView { instrument: Some(i), ..md }),
                None => Err(unsupported_value_error(n, "instrument"@, value)),
            }
        } else if word(key, seq!['v', 'o', 'i', 'c', 'i', 'n', 'g']) {
            Ok(MetadataView { voicing: Some(value), ..md })
        } else {
            Err(malformed_error(n))
        },
    }
}

/// `md2` is `md` with the field that key `k` names set to the value read from
/// `v`, and every other field as it was.
pub open spec fn sets_only(md: MetadataView, md2: MetadataView, k: Seq<char>, v: Seq<char>) -> bool {
    &&& if word(k, seq!['t', 'e', 'm', 'p', 'o']) { md2.tempo == parsed_u16(v) && md2.tempo is Some } else { md2.tempo == md.tempo }
    &&& if word(k, seq!['t', 'i', 'm', 'e']) { md2.time_signature == time_value(v) && md2.time_signature is Some } else { md2.time_signature == md.time_signature }
    &&& if word(k, seq!['v', 'e', 'l', 'o', 'c', 'i', 't', 'y']) { md2.velocity == parsed_u8(v) && md2.velocity is Some } else { md2.velocity == md.velocity }
    &&& if word(k, seq!['s', 't', 'r', 'u', 'm', '_', 's', 'p', 'r', 'e', 'a', 'd', '_', 'm', 's']) { md2.strum_spread_ms == parsed_u16(v) && md2.strum_spread_ms is Some } else { md2.strum_spread_ms == md.strum_spread_ms }
    &&& if word(k, seq!['d', 'o', 'w', 'n', 's', 't', 'r', 'o', 'k', 'e', '_', 'v', 'e', 'l', 'o', 'c', 'i', 't', 'y']) { md2.downstroke_velocity == parsed_u8(v) && md2.downstroke_velocity is Some } else { md2.downstroke_velocity == md.downstroke_velocity }
    &&& if word(k, seq!['u', 'p', 's', 't', 'r', 'o', 'k', 'e', '_', 'v', 'e', 'l', 'o', 'c', 'i', 't', 'y']) { md2.upstroke_velocity == parsed_u8(v) && md2.upstroke_velocity is Some } else { md2.upstroke_velocity == md.upstroke_velocity }
    &&& if word(k, seq!['d', 'o', 'w', 'n', 's', 't', 'r', 'o', 'k', 'e', '_', 's', 'p', 'r', 'e', 'a', 'd', '_', 'm', 's']) { md2.downstroke_spread_ms == parsed_u16(v) && md2.downstroke_spread_ms is Some } else { md2.downstroke_spread_ms == md.downstroke_spread_ms }
    &&& if word(k, seq!['u', 'p', 's', 't', 'r', 'o', 'k', 'e', '_', 's', 'p', 'r', 'e', 'a', 'd', '_', 'm', 's']) { md2.upstroke_spread_ms == parsed_u16(v) && md2.upstroke_spread_ms is Some } else { md2.upstroke_spread_ms == md.upstroke_spread_ms }
    &&& if word(k, seq!['u', 'p', 's', 't', 'r', 'o', 'k', 'e', '_', 'm', 'a', 'x', '_', 's', 't', 'r', 'i', 'n', 'g', 's']) { md2.upstroke_max_strings == parsed_u8(v) && md2.upstroke_max_strings is Some } else { md2.upstroke_max_strings == md.upstroke_max_strings }
    &&& if word(k, seq!['b', 'e', 'a', 't']) { md2.beat == beat_value(v) && md2.beat is Some } else { md2.beat == md.beat }
    &&& if word(k, seq!['s', 'u', 'b', 'd', 'i', 'v', 'i', 's', 'i', 'o', 'n']) { md2.subdivision == parsed_u8(v) && md2.subdivision is Some } else { md2.subdivision == md.subdivision }
    &&& if word(k, seq!['c', 'o', 'u', 'n', 't']) { md2.count == count_value(v) && md2.count is Some } else { md2.count == md.count }
    &&& if word(k, seq!['i', 'n', 's', 't', 'r', 'u', 'm', 'e', 'n', 't']) { md2.instrument == instrument_value(v) && md2.instrument is Some } else { md2.instrument == md.instrument }
    &&& if word(k, seq!['v', 'o', 'i', 'c', 'i', 'n', 'g']) { md2.voicing == Some(v) && md2.voicing is Some } else { md2.voicing == md.voicing }
}

/// A metadata line that is read sets one of the fourteen keys, the one before
/// its first `:`, to the value read from the non-empty text after it, and leaves
/// every other field as it was. (A line that fails leaves the metadata as it
/// was: `parse_metadata_line` says so.)
#[verifier::spinoff_prover]
#[verifier::rlimit(60)]
pub proof fn lemma_metadata_line(md: MetadataView, t: Seq<char>, n: nat)
    ensures
        metadata_step(md, t, n) is Ok ==> (key_value(t) matches Some((k, v)) && is_meta_key(k) && v.len() > 0
            && sets_only(md, metadata_step(md, t, n)->Ok_0, k, v)),
{
}

/// Reads one metadata line into `metadata`.
fn parse_metadata_line(line: &[char], line_number: usize, metadata: &mut Metadata) -> (r: Result<(), AppError>)
    ensures
        match r {
            Ok(_) => metadata_step(old(metadata)@, line@, line_number as nat) == Ok::<MetadataView, ErrorView>(final(metadata)@),
            Err(e) => metadata_step(old(metadata)@, line@, line_number as nat) == Err::<MetadataView, ErrorView>(e@)
                && *final(metadata) == *old(metadata),
        },
{
    let k = find_char(line, ':', 0);
    if k == line.len() {
        return Err(malformed(line_number));
    }
    let key = trim_vec(&copy_range(line, 0, k));
    let value = trim_vec(&copy_range(line, k + 1, line.len()));
    if value.len() == 0 {
        return Err(malformed(line_number));
    }
    let k0: &[char] = &['t', 'e', 'm', 'p', 'o'];
    let k1: &[char] = &['v', 'e', 'l', 'o', 'c', 'i', 't', 'y'];
    let k2: &[char] = &['s', 't', 'r', 'u', 'm', '_', 's', 'p', 'r', 'e', 'a', 'd', '_', 'm', 's'];
    let k3: &[char] = &['d', 'o', 'w', 'n', 's', 't', 'r', 'o', 'k', 'e', '_', 'v', 'e', 'l', 'o', 'c', 'i', 't', 'y'];
    let k4: &[char] = &['u', 'p', 's', 't', 'r', 'o', 'k', 'e', '_', 'v', 'e', 'l', 'o', 'c', 'i', 't', 'y'];
    let k5: &[char] = &['d', 'o', 'w', 'n', 's', 't', 'r', 'o', 'k', 'e', '_', 's', 'p', 'r', 'e', 'a', 'd', '_', 'm', 's'];
    let k6: &[char] = &['u', 'p', 's', 't', 'r', 'o', 'k', 'e', '_', 's', 'p', 'r', 'e', 'a', 'd', '_', 'm', 's'];
    let k7: &[char] = &['u', 'p', 's', 't', 'r', 'o', 'k', 'e', '_', 'm', 'a', 'x', '_', 's', 't', 'r', 'i', 'n', 'g', 's'];
    let k8: &[char] = &['s', 'u', 'b', 'd', 'i', 'v', 'i', 's', 'i', 'o', 'n'];
    let k9: &[char] = &['t', 'i', 'm', 'e'];
    let k10: &[char] = &['b', 'e', 'a', 't'];
    let k11: &[char] = &['c', 'o', 'u', 'n', 't'];
    let k12: &[char] = &['i', 'n', 's', 't', 'r', 'u', 'm', 'e', 'n', 't'];
    let k13: &[char] = &['v', 'o', 'i', 'c', 'i', 'n', 'g'];
    if is_word(&key, k0) {
        match parse_u16(&value) {
            Some(x) => {
                metadata.tempo = Some(x);
            },
            None => {
                return Err(malformed(line_number));
            },
        }
    } else if is_word(&key, k1) {
        match parse_u8(&value) {
            Some(x) => {
                metadata.velocity = Some(x);
            },
            None => {
                return Err(malformed(line_number));
            },
        }
    } else if is_word(&key, k2) {
        match parse_u16(&value) {
            Some(x) => {
                metadata.strum_spread_ms = Some(x);
            },
            None => {
                return Err(malformed(line_number));
            },
        }
    } else if is_word(&key, k3) {
        match parse_u8(&value) {
            Some(x) => {
                metadata.downstroke_velocity = Some(x);
            },
            None => {
                return Err(malformed(line_number));
            },
        }
    } else if is_word(&key, k4) {
        match parse_u8(&value) {
            Some(x) => {
                metadata.upstroke_velocity = Some(x);
            },
            None => {
                return Err(malformed(line_number));
            },
        }
    } else if is_word(&key, k5) {
        match parse_u16(&value) {
            Some(x) => {
                metadata.downstroke_spread_ms = Some(x);
            },
            None => {
                return Err(malformed(line_number));
            },
        }
    } else if is_word(&key, k6) {
        match parse_u16(&value) {
            Some(x) => {
                metadata.upstroke_spread_ms = Some(x);
            },
            None => {
                return Err(malformed(line_number));
            },
        }
    } else if is_word(&key, k7) {
        match parse_u8(&value) {
            Some(x) => {
                metadata.upstroke_max_strings = Some(x);
            },
            None => {
                return Err(malformed(line_number));
            },
        }
    } else if is_word(&key, k8) {
        match parse_u8(&value) {
            Some(x) => {
                metadata.subdivision = Some(x);
            },
            None => {
                return Err(malformed(line_number));
            },
        }
    } else if is_word(&key, k9) {
        match time_value_exec(&value) {
            Some(ts) => {
                metadata.time_signature = Some(ts);
            },
            None => {
                return Err(malformed(line_number));
            },
        }
    } else if is_word(&key, k10) {
        match beat_value_exec(&value) {
            Some(x) => {
                metadata.beat = Some(x);
            },
            None => {
                return Err(unsupported_value(line_number, "beat", &value));
            },
        }
    } else if is_word(&key, k11) {
        match count_value_exec(&value) {
            Some(x) => {
                metadata.count = Some(x);
            },
            None => {
                return Err(unsupported_value(line_number, "count", &value));
            },
        }
    } else if is_word(&key, k12) {
        match instrument_value_exec(&value) {
            Some(x) => {
                metadata.instrument = Some(x);
            },
            None => {
                return Err(unsupported_value(line_number, "instrument", &value));
            },
        }
    } else if is_word(&key, k13) {
        metadata.voicing = Some(string_of(&value));
    } else {
        return Err(malformed(line_number));
    }
    Ok(())
}

// ---------------------------------------------------------------------
// Strum patterns
// ---------------------------------------------------------------------

pub open spec fn symbol_of(c: char) -> Option<StrumSymbol> {
    if c == 'D' {
        Some(StrumSymbol::Down)
    } else if c == 'U' {
        Some(StrumSymbol::Up)
    } else if c == '-' {
        Some(StrumSymbol::Rest)
    } else if c == 'X' {
        Some(StrumSymbol::Muted)
    } else {
        None
    }
}

pub open spec fn invalid_symbol_error(n: nat, c: char) -> ErrorView {
    ErrorView::Validation(line_msg(n, "invalid strum symbol '"@ + seq![c] + "'"@))
}

/// The slots of a beat pattern; the first character that is not a strum
/// symbol is an error.
pub open spec fn pattern_slots(p: Seq<char>, n: nat) -> Result<Seq<StrumSymbol>, ErrorView>
    decreases p.len(),
{
    if p.len() == 0 {
        Ok(seq![])
    } else {
        match symbol_of(p[0]) {
            None => Err(invalid_symbol_error(n, p[0])),
            Some(s) => match pattern_slots(p.drop_first(), n) {
                Ok(rest) => Ok(seq![s] + rest),
                Err(e) => Err(e),
            },
        }
    }
}

fn parse_pattern(pattern: &[char], line_number: usize) -> (r: Result<Vec<StrumSymbol>, AppError>)
    ensures
        match r {
            Ok(v) => pattern_slots(pattern@, line_number as nat) == Ok::<Seq<StrumSymbol>, ErrorView>(v@),
            Err(e) => pattern_slots(pattern@, line_number as nat) == Err::<Seq<StrumSymbol>, ErrorView>(e@),
        },
{
    let mut slots: Vec<StrumSymbol> = Vec::new();
    let mut i: usize = 0;
    assert(pattern@.subrange(0, pattern@.len() as int) =~= pattern@);
    while i < pattern.len()
        invariant
            i <= pattern.len(),
            pattern_slots(pattern@, line_number as nat) == match pattern_slots(
                pattern@.subrange(i as int, pattern@.len() as int),
                line_number as nat,
            ) {
                Ok(rest) => Ok(slots@ + rest),
                Err(e) => Err(e),
            },
        decreases pattern.len() - i,
    {
        let ghost rest = pattern@.subrange(i as int, pattern@.len() as int);
        assert(rest.drop_first() =~= pattern@.subrange(i + 1, pattern@.len() as int));
        let c = pattern[i];
        let s = match c {
            'D' => StrumSymbol::Down,
            'U' => StrumSymbol::Up,
            '-' => StrumSymbol::Rest,
            'X' => StrumSymbol::Muted,
            _ => {
                let mut m = line_prefix(line_number);
                push_str(&mut m, "invalid strum symbol '");
                crate::text::push_chars(&mut m, &[c]);
                push_str(&mut m, "'");
                assert(m@ =~= line_msg(line_number as nat, "invalid strum symbol '"@ + seq![c] + "'"@));
                return Err(AppError::Validation(m));
            },
        };
        let ghost prev = slots@;
        slots.push(s);
        proof {
            match pattern_slots(rest.drop_first(), line_number as nat) {
                Ok(r) => {
                    assert(slots@ + r =~= prev + (seq![s] + r));
                },
                Err(_) => {},
            }
        }
        i = i + 1;
    }
    assert(pattern@.subrange(i as int, pattern@.len() as int) =~= seq![]);
    assert(slots@ + seq![] =~= slots@);
    Ok(slots)
}

/// A token of a strum pattern line: a beat pattern, or `None` for a bar separator.
pub struct PatternTokenView {
    pub col: int,
    pub pat: Option<Seq<char>>,
}

/// The end of the beat pattern that starts at `i`: the next `|`, whitespace, or the end.
pub open spec fn pattern_end(s: Seq<char>, i: int) -> int
    decreases s.len() - i,
{
    if i >= s.len() || s[i] == '|' || is_ws(s[i]) {
        i
    } else {
        pattern_end(s, i + 1)
    }
}

proof fn lemma_pattern_end(s: Seq<char>, i: int)
    requires
        0 <= i <= s.len(),
    ensures
        i <= pattern_end(s, i) <= s.len(),
    decreases s.len() - i,
{
    if !(i >= s.len() || s[i] == '|' || is_ws(s[i])) {
        lemma_pattern_end(s, i + 1);
    }
}

/// The tokens of a strum pattern line from index `i` on: each `|` is a bar
/// separator, and each run of other non-whitespace characters is a beat pattern.
pub open spec fn pattern_tokens_from(s: Seq<char>, i: int) -> Seq<PatternTokenView>
    decreases s.len() - i, 1int,
{
    if i < 0 || i >= s.len() {
        seq![]
    } else if s[i] == '|' {
        seq![PatternTokenView { col: i, pat: None }] + pattern_tokens_from(s, i + 1)
    } else if is_ws(s[i]) {
        pattern_tokens_from(s, i + 1)
    } else {
        let j = pattern_end(s, i);
        if i < j <= s.len() {
            seq![PatternTokenView { col: i, pat: Some(s.subrange(i, j)) }] + pattern_tokens_from(s, j)
        } else {
            seq![]
        }
    }
}

pub open spec fn pattern_tokens(s: Seq<char>) -> Seq<PatternTokenView> {
    pattern_tokens_from(s, 0)
}

/// The bytes that `c` takes in UTF-8.
pub open spec fn utf8_width(c: char) -> nat {
    let u = c as u32;
    if u < 0x80 {
        1
    } else if u < 0x800 {
        2
    } else if u < 0x10000 {
        3
    } else {
        4
    }
}

/// The byte offset in UTF-8 of character `i` of `s`: chord and pattern columns
/// are counted in bytes.
pub open spec fn byte_col(s: Seq<char>, i: int) -> nat
    decreases i,
{
    if i <= 0 {
        0
    } else {
        byte_col(s, i - 1) + utf8_width(s[i - 1])
    }
}

/// The chord markers of a chord line, each at the byte offset of its first character.
pub open spec fn byte_words(s: Seq<char>) -> Seq<(int, Seq<char>)> {
    words(s).map_values(|w: (int, Seq<char>)| (byte_col(s, w.0) as int, w.1))
}

/// The tokens of a strum pattern line, each at the byte offset of its first character.
pub open spec fn byte_tokens(s: Seq<char>) -> Seq<PatternTokenView> {
    pattern_tokens(s).map_values(|t: PatternTokenView| PatternTokenView { col: byte_col(s, t.col) as int, pat: t.pat })
}

fn utf8_width_exec(c: char) -> (w: u128)
    ensures
        w == utf8_width(c),
{
    let u = c as u32;
    if u < 0x80 {
        1
    } else if u < 0x800 {
        2
    } else if u < 0x10000 {
        3
    } else {
        4
    }
}

/// The byte offset of every character of `v`, and of its end.
fn byte_columns(v: &[char]) -> (r: Vec<u128>)
    ensures
        r@.len() == v@.len() + 1,
        forall|i: int| 0 <= i <= v@.len() ==> r@[i] == byte_col(v@, i),
{
    let mut r: Vec<u128> = Vec::new();
    r.push(0);
    let mut i: usize = 0;
    while i < v.len()
        invariant
            i <= v.len(),
            r@.len() == i + 1,
            forall|j: int| 0 <= j <= i ==> r@[j] == byte_col(v@, j),
            r@[i as int] <= 4 * i,
        decreases v.len() - i,
    {
        let w = utf8_width_exec(v[i]);
        let next = r[i] + w;
        r.push(next);
        assert(byte_col(v@, i + 1) == byte_col(v@, i as int) + utf8_width(v@[i as int]));
        i = i + 1;
    }
    r
}

proof fn lemma_words_from_bounds(s: Seq<char>, i: int)
    requires
        0 <= i,
    ensures
        forall|w: int| 0 <= w < words_from(s, i).len() ==> i <= #[trigger] words_from(s, i)[w].0 < s.len(),
    decreases s.len() - i, 1int,
{
    if i < s.len() {
        if is_ws(s[i]) {
            lemma_words_from_bounds(s, i + 1);
            assert(words_from(s, i) == words_from(s, i + 1));
        } else {
            lemma_word_end(s, i);
            let j = word_end(s, i);
            if i < j <= s.len() {
                lemma_words_from_bounds(s, j);
                let ws = words_from(s, i);
                assert forall|w: int| 0 <= w < ws.len() implies i <= #[trigger] ws[w].0 < s.len() by {
                    if w > 0 {
                        assert(ws[w] == words_from(s, j)[w - 1]);
                    }
                }
            }
        }
    }
}

proof fn lemma_tokens_from_bounds(s: Seq<char>, i: int)
    requires
        0 <= i,
    ensures
        forall|t: int| 0 <= t < pattern_tokens_from(s, i).len() ==> i <= #[trigger] pattern_tokens_from(s, i)[t].col < s.len(),
    decreases s.len() - i, 1int,
{
    if i < s.len() {
        if s[i] == '|' {
            lemma_tokens_from_bounds(s, i + 1);
            let ts = pattern_tokens_from(s, i);
            assert forall|t: int| 0 <= t < ts.len() implies i <= #[trigger] ts[t].col < s.len() by {
                if t > 0 {
                    assert(ts[t] == pattern_tokens_from(s, i + 1)[t - 1]);
                }
            }
        } else if is_ws(s[i]) {
            lemma_tokens_from_bounds(s, i + 1);
        } else {
            let j = pattern_end(s, i);
            if i < j <= s.len() {
                lemma_tokens_from_bounds(s, j);
                let ts = pattern_tokens_from(s, i);
                assert forall|t: int| 0 <= t < ts.len() implies i <= #[trigger] ts[t].col < s.len() by {
                    if t > 0 {
                        assert(ts[t] == pattern_tokens_from(s, j)[t - 1]);
                    }
                }
            }
        }
    }
}

struct PatternToken {
    column: usize,
    pattern: Option<Vec<char>>,
}

spec fn token_views(s: Seq<PatternToken>) -> Seq<PatternTokenView> {
    s.map_values(
        |t: PatternToken|
            PatternTokenView {
                col: t.column as int,
                pat: match t.pattern {
                    Some(p) => Some(p@),
                    None => None,
                },
            },
    )
}

fn parse_pattern_tokens(v: &[char]) -> (r: Vec<PatternToken>)
    ensures
        token_views(r@) == pattern_tokens(v@),
{
    let mut r: Vec<PatternToken> = Vec::new();
    let mut i: usize = 0;
    while i < v.len()
        invariant
            i <= v.len(),
            token_views(r@) + pattern_tokens_from(v@, i as int) == pattern_tokens(v@),
        decreases v.len() - i,
    {
        let ghost prev = r@;
        if v[i] == '|' {
            r.push(PatternToken { column: i, pattern: None });
            assert(token_views(r@) =~= token_views(prev).push(PatternTokenView { col: i as int, pat: None }));
            assert(token_views(r@) + pattern_tokens_from(v@, i + 1) =~= token_views(prev)
                + pattern_tokens_from(v@, i as int));
            i = i + 1;
        } else if is_ws_char(v[i]) {
            i = i + 1;
        } else {
            let mut j = i;
            while j < v.len() && v[j] != '|' && !is_ws_char(v[j])
                invariant
                    i <= j <= v.len(),
                    pattern_end(v@, i as int) == pattern_end(v@, j as int),
                decreases v.len() - j,
            {
                j = j + 1;
            }
            proof {
                lemma_pattern_end(v@, i as int);
            }
            let p = copy_range(v, i, j);
            r.push(PatternToken { column: i, pattern: Some(p) });
            assert(token_views(r@) =~= token_views(prev).push(
                PatternTokenView { col: i as int, pat: Some(v@.subrange(i as int, j as int)) },
            ));
            assert(token_views(r@) + pattern_tokens_from(v@, j as int) =~= token_views(prev)
                + pattern_tokens_from(v@, i as int));
            i = j;
        }
    }
    assert(pattern_tokens_from(v@, i as int) =~= seq![]);
    assert(token_views(r@) =~= token_views(r@) + pattern_tokens_from(v@, i as int));
    r
}

// ---------------------------------------------------------------------
// Chart line pairs
// ---------------------------------------------------------------------

/// The state while the tokens of a strum pattern line are read.
pub struct PairState {
    pub bars: Seq<BarView>,
    pub current: Option<(Seq<char>, usize)>,
    pub marker: int,
    pub beats: Seq<BeatView>,
}

/// The chord in force after every chord marker at or left of column `col`.
pub open spec fn advance(
    markers: Seq<(int, Seq<char>)>,
    mi: int,
    col: int,
    current: Option<(Seq<char>, usize)>,
    chord_line: usize,
) -> (Option<(Seq<char>, usize)>, int)
    decreases markers.len() - mi,
{
    if 0 <= mi < markers.len() && markers[mi].0 <= col {
        advance(markers, mi + 1, col, Some((markers[mi].1, chord_line)), chord_line)
    } else {
        (current, mi)
    }
}

/// The bars with the beats collected so far closed as one more bar.
pub open spec fn close_bar(bars: Seq<BarView>, beats: Seq<BeatView>, line: usize) -> Seq<BarView> {
    if beats.len() > 0 {
        bars.push(BarView { line, beats })
    } else {
        bars
    }
}

/// A repeat of bar `b` on line `line`, with its beats moved to `chord` when there is one.
pub open spec fn repeated_bar(b: BarView, line: usize, chord: Option<(Seq<char>, usize)>) -> BarView {
    BarView {
        line,
        beats: match chord {
            Some((c, cl)) => b.beats.map_values(
                |x: BeatView| BeatView { chord: c, chord_line: cl, slots: x.slots },
            ),
            None => b.beats,
        },
    }
}

pub open spec fn parse_error(n: nat, text: Seq<char>) -> ErrorView {
    ErrorView::Parse(line_msg(n, text))
}

/// One token of a strum pattern line.
pub open spec fn pair_token(
    st: PairState,
    tok: PatternTokenView,
    markers: Seq<(int, Seq<char>)>,
    chord_line: usize,
    pattern_line: usize,
) -> Result<PairState, ErrorView> {
    let (current, marker) = advance(markers, st.marker, tok.col, st.current, chord_line);
    match tok.pat {
        None => Ok(
            PairState {
                bars: close_bar(st.bars, st.beats, pattern_line),
                current,
                marker,
                beats: seq![],
            },
        ),
        Some(p) => if word(p, seq!['.', '.', '.']) {
            if st.beats.len() > 0 {
                Err(
                    parse_error(
                        pattern_line as nat,
                        "repeat marker must replace the whole bar pattern"@,
                    ),
                )
            } else if st.bars.len() == 0 {
                Err(parse_error(pattern_line as nat, "repeat marker requires a previous bar"@))
            } else {
                Ok(
                    PairState {
                        bars: st.bars.push(repeated_bar(st.bars.last(), pattern_line, current)),
                        current,
                        marker,
                        beats: st.beats,
                    },
                )
            }
        } else {
            match current {
                None => Err(
                    parse_error(pattern_line as nat, "missing chord marker for strum pattern"@),
                ),
                Some((c, cl)) => match pattern_slots(p, pattern_line as nat) {
                    Err(e) => Err(e),
                    Ok(slots) => Ok(
                        PairState {
                            bars: st.bars,
                            current,
                            marker,
                            beats: st.beats.push(BeatView { chord: c, chord_line: cl, slots }),
                        },
                    ),
                },
            }
        },
    }
}

/// The state after the first `k` tokens.
pub open spec fn pair_tokens(
    init: PairState,
    toks: Seq<PatternTokenView>,
    k: nat,
    markers: Seq<(int, Seq<char>)>,
    chord_line: usize,
    pattern_line: usize,
) -> Result<PairState, ErrorView>
    decreases k,
{
    if k == 0 {
        Ok(init)
    } else {
        match pair_tokens(init, toks, (k - 1) as nat, markers, chord_line, pattern_line) {
            Ok(st) => pair_token(st, toks[k - 1], markers, chord_line, pattern_line),
            Err(e) => Err(e),
        }
    }
}

/// The state after the first `k` tokens, or, where one of them fails,
/// the state just before the first that fails.
pub open spec fn pair_reached(
    init: PairState,
    toks: Seq<PatternTokenView>,
    k: nat,
    markers: Seq<(int, Seq<char>)>,
    chord_line: usize,
    pattern_line: usize,
) -> PairState
    decreases k,
{
    if k == 0 {
        init
    } else {
        match pair_tokens(init, toks, (k - 1) as nat, markers, chord_line, pattern_line) {
            Ok(st) => match pair_token(st, toks[k - 1], markers, chord_line, pattern_line) {
                Ok(next) => next,
                Err(_) => st,
            },
            Err(_) => pair_reached(init, toks, (k - 1) as nat, markers, chord_line, pattern_line),
        }
    }
}

/// The chord of the last beat of the last bar, if any.
pub open spec fn last_chord(bars: Seq<BarView>) -> Option<(Seq<char>, usize)> {
    if bars.len() > 0 && bars.last().beats.len() > 0 {
        Some((bars.last().beats.last().chord, bars.last().beats.last().chord_line))
    } else {
        None
    }
}

/// The bars after a chord line and its strum pattern line. A chord takes
/// effect at the first token at or right of its first character, and stays
/// until the next chord. Columns are byte offsets in UTF-8, so a character
/// such as a non-breaking space counts for the bytes it takes.
pub open spec fn chart_pair(
    bars: Seq<BarView>,
    chord_line: usize,
    chords: Seq<char>,
    pattern_line: usize,
    pattern: Seq<char>,
) -> Result<Seq<BarView>, ErrorView> {
    let markers = byte_words(chords);
    let toks = byte_tokens(pattern);
    if markers.len() == 0 {
        Err(parse_error(chord_line as nat, "expected chord markers"@))
    } else if toks.len() == 0 {
        Err(parse_error(pattern_line as nat, "expected strum pattern"@))
    } else {
        let init = PairState { bars, current: last_chord(bars), marker: 0, beats: seq![] };
        match pair_tokens(init, toks, toks.len(), markers, chord_line, pattern_line) {
            Ok(st) => Ok(close_bar(st.bars, st.beats, pattern_line)),
            Err(e) => Err(e),
        }
    }
}

/// The bars a chord line and pattern line leave when they fail: the bars
/// before them, with those completed before the failing token.
pub open spec fn chart_pair_reached(
    bars: Seq<BarView>,
    chord_line: usize,
    chords: Seq<char>,
    pattern_line: usize,
    pattern: Seq<char>,
) -> Seq<BarView> {
    let markers = byte_words(chords);
    let toks = byte_tokens(pattern);
    if markers.len() == 0 || toks.len() == 0 {
        bars
    } else {
        let init = PairState { bars, current: last_chord(bars), marker: 0, beats: seq![] };
        pair_reached(init, toks, toks.len(), markers, chord_line, pattern_line).bars
    }
}

proof fn lemma_pair_reached_stays(
    init: PairState,
    toks: Seq<PatternTokenView>,
    k: nat,
    n: nat,
    markers: Seq<(int, Seq<char>)>,
    chord_line: usize,
    pattern_line: usize,
)
    requires
        k <= n,
        pair_tokens(init, toks, k, markers, chord_line, pattern_line) is Err,
    ensures
        pair_reached(init, toks, n, markers, chord_line, pattern_line) == pair_reached(
            init,
            toks,
            k,
            markers,
            chord_line,
            pattern_line,
        ),
        pair_tokens(init, toks, n, markers, chord_line, pattern_line) is Err,
    decreases n - k,
{
    if k < n {
        lemma_pair_reached_stays(init, toks, k, (n - 1) as nat, markers, chord_line, pattern_line);
    }
}

proof fn lemma_pair_error_stays(
    init: PairState,
    toks: Seq<PatternTokenView>,
    k: nat,
    n: nat,
    markers: Seq<(int, Seq<char>)>,
    chord_line: usize,
    pattern_line: usize,
    e: ErrorView,
)
    requires
        k <= n,
        pair_tokens(init, toks, k, markers, chord_line, pattern_line) == Err::<PairState, ErrorView>(e),
    ensures
        pair_tokens(init, toks, n, markers, chord_line, pattern_line) == Err::<PairState, ErrorView>(e),
    decreases n - k,
{
    if k < n {
        lemma_pair_error_stays(init, toks, k, (n - 1) as nat, markers, chord_line, pattern_line, e);
    }
}

spec fn chord_view(c: Option<(String, usize)>) -> Option<(Seq<char>, usize)> {
    match c {
        Some((s, l)) => Some((s@, l)),
        None => None,
    }
}

fn finish_bar(beats: &mut Vec<BeatPattern>, line_number: usize, bars: &mut Vec<Bar>)
    ensures
        bar_views(final(bars)@) == close_bar(bar_views(old(bars)@), beat_views(old(beats)@), line_number),
        final(beats)@.len() == 0,
{
    if beats.len() > 0 {
        let mut taken: Vec<BeatPattern> = Vec::new();
        std::mem::swap(&mut taken, beats);
        let ghost prev = bars@;
        bars.push(Bar { line: line_number, beats: taken });
        assert(bar_views(bars@) =~= bar_views(prev).push(BarView { line: line_number, beats: beat_views(old(beats)@) }));
    }
}

fn set_chords(b: &mut Bar, chord: &String, chord_line: usize)
    ensures
        final(b)@.line == old(b)@.line,
        final(b)@.beats == old(b)@.beats.map_values(
            |x: BeatView| BeatView { chord: chord@, chord_line, slots: x.slots },
        ),
{
    let mut i: usize = 0;
    while i < b.beats.len()
        invariant
            i <= b.beats.len(),
            b.line == old(b).line,
            b.beats.len() == old(b).beats.len(),
            forall|k: int| 0 <= k < i ==> #[trigger] b.beats@[k]@ == (BeatView { chord: chord@, chord_line, slots: old(b).beats@[k].slots@ }),
            forall|k: int| i <= k < b.beats.len() ==> #[trigger] b.beats@[k] == old(b).beats@[k],
        decreases b.beats.len() - i,
    {
        let mut beat = copy_beat_with(&b.beats[i], chord, chord_line);
        b.beats.set(i, beat);
        i = i + 1;
    }
    assert(beat_views(b.beats@) =~= beat_views(old(b).beats@).map_values(
        |x: BeatView| BeatView { chord: chord@, chord_line, slots: x.slots },
    ));
}

fn copy_beat_with(beat: &BeatPattern, chord: &String, chord_line: usize) -> (r: BeatPattern)
    ensures
        r@ == (BeatView { chord: chord@, chord_line, slots: beat.slots@ }),
{
    let c = crate::model::copy_beat(beat);
    BeatPattern { chord: chord.clone(), chord_line, slots: c.slots }
}

fn parse_chart_pair(
    chord_line_number: usize,
    chord_line: &[char],
    pattern_line_number: usize,
    pattern_line: &[char],
    bars: &mut Vec<Bar>,
) -> (r: Result<(), AppError>)
    ensures
        match r {
            Ok(_) => chart_pair(bar_views(old(bars)@), chord_line_number, chord_line@, pattern_line_number, pattern_line@)
                == Ok::<Seq<BarView>, ErrorView>(bar_views(final(bars)@)),
            Err(e) => chart_pair(bar_views(old(bars)@), chord_line_number, chord_line@, pattern_line_number, pattern_line@)
                == Err::<Seq<BarView>, ErrorView>(e@) && bar_views(final(bars)@) == chart_pair_reached(
                bar_views(old(bars)@),
                chord_line_number,
                chord_line@,
                pattern_line_number,
                pattern_line@,
            ),
        },
{
    let ghost chords_v = chord_line@;
    let ghost pattern_v = pattern_line@;
    let ghost old_bars = bar_views(bars@);
    let markers = crate::text::words_of(chord_line);
    let ghost wv = crate::text::word_views(markers@);
    let ghost mv = byte_words(chords_v);
    if markers.len() == 0 {
        return Err(AppError::Parse(line_message(chord_line_number, "expected chord markers")));
    }
    let tokens = parse_pattern_tokens(pattern_line);
    let ghost tv0 = token_views(tokens@);
    let ghost toks = byte_tokens(pattern_v);
    let mcols = byte_columns(chord_line);
    let pcols = byte_columns(pattern_line);
    proof {
        lemma_words_from_bounds(chords_v, 0);
        lemma_tokens_from_bounds(pattern_v, 0);
    }
    if tokens.len() == 0 {
        return Err(AppError::Parse(line_message(pattern_line_number, "expected strum pattern")));
    }
    let mut current: Option<(String, usize)> = if bars.len() > 0 && bars[bars.len() - 1].beats.len() > 0 {
        let last = &bars[bars.len() - 1];
        let beat = &last.beats[last.beats.len() - 1];
        Some((beat.chord.clone(), beat.chord_line))
    } else {
        None
    };
    let ghost init = PairState {
        bars: bar_views(old(bars)@),
        current: last_chord(bar_views(old(bars)@)),
        marker: 0,
        beats: seq![],
    };
    proof {
        if bars@.len() > 0 {
            assert(bar_views(old(bars)@).last() == bars@.last()@);
            if bars@.last().beats@.len() > 0 {
                assert(bar_views(old(bars)@).last().beats.last() == bars@.last().beats@.last()@);
            }
        }
        assert(init.current == chord_view(current));
    }
    let mut marker_index: usize = 0;
    let mut current_beats: Vec<BeatPattern> = Vec::new();
    let mut k: usize = 0;
    assert(beat_views(current_beats@) =~= seq![]);
    assert(mv.len() == markers.len());
    assert(toks.len() == tokens.len());
    while k < tokens.len()
        invariant
            k <= tokens.len(),
            wv == crate::text::word_views(markers@),
            tv0 == token_views(tokens@),
            wv == words(chords_v),
            tv0 == pattern_tokens(pattern_v),
            mv == byte_words(chords_v),
            toks == byte_tokens(pattern_v),
            mcols@.len() == chord_line@.len() + 1,
            pcols@.len() == pattern_line@.len() + 1,
            forall|i: int| 0 <= i <= chord_line@.len() ==> mcols@[i] == byte_col(chord_line@, i),
            forall|i: int| 0 <= i <= pattern_line@.len() ==> pcols@[i] == byte_col(pattern_line@, i),
            forall|w: int| 0 <= w < wv.len() ==> 0 <= #[trigger] wv[w].0 < chords_v.len(),
            forall|t: int| 0 <= t < tv0.len() ==> 0 <= #[trigger] tv0[t].col < pattern_v.len(),
            chords_v == chord_line@,
            pattern_v == pattern_line@,
            old_bars == bar_views(old(bars)@),
            mv.len() > 0,
            toks.len() > 0,
            init == (PairState { bars: old_bars, current: last_chord(old_bars), marker: 0, beats: seq![] }),
            marker_index <= markers.len(),
            pair_tokens(init, toks, k as nat, mv, chord_line_number, pattern_line_number) == Ok::<PairState, ErrorView>(
                PairState {
                    bars: bar_views(bars@),
                    current: chord_view(current),
                    marker: marker_index as int,
                    beats: beat_views(current_beats@),
                },
            ),
        decreases tokens.len() - k,
    {
        let token = &tokens[k];
        let ghost st = PairState {
            bars: bar_views(bars@),
            current: chord_view(current),
            marker: marker_index as int,
            beats: beat_views(current_beats@),
        };
        let ghost tv = toks[k as int];
        assert(tv0[k as int].col == token.column as int);
        assert(0 <= token.column < pattern_line@.len());
        let token_col = pcols[token.column];
        assert(tv.col == token_col as int);
        while marker_index < markers.len() && mcols[markers[marker_index].0] <= token_col
            invariant
                marker_index <= markers.len(),
                wv == crate::text::word_views(markers@),
                mv == byte_words(chords_v),
                wv == words(chords_v),
                chords_v == chord_line@,
                mcols@.len() == chord_line@.len() + 1,
                forall|i: int| 0 <= i <= chord_line@.len() ==> mcols@[i] == byte_col(chord_line@, i),
                forall|w: int| 0 <= w < wv.len() ==> 0 <= #[trigger] wv[w].0 < chords_v.len(),
                advance(mv, st.marker, tv.col, st.current, chord_line_number) == advance(mv, marker_index as int, tv.col, chord_view(current), chord_line_number),
                tv.col == token_col,
            decreases markers.len() - marker_index,
        {
            assert(wv[marker_index as int] == (markers@[marker_index as int].0 as int, markers@[marker_index as int].1@));
            assert(mv[marker_index as int] == (mcols@[markers@[marker_index as int].0 as int] as int, markers@[marker_index as int].1@));
            current = Some((string_of(&markers[marker_index].1), chord_line_number));
            marker_index = marker_index + 1;
        }
        proof {
            if marker_index < markers.len() {
                assert(wv[marker_index as int] == (markers@[marker_index as int].0 as int, markers@[marker_index as int].1@));
                assert(mv[marker_index as int].0 == mcols@[markers@[marker_index as int].0 as int] as int);
            }
        }
        assert(advance(mv, st.marker, tv.col, st.current, chord_line_number) == (chord_view(current), marker_index as int));
        assert(tv.pat == match token.pattern {
            Some(p) => Some(p@),
            None => None::<Seq<char>>,
        });
        match &token.pattern {
            None => {
                finish_bar(&mut current_beats, pattern_line_number, bars);
                assert(beat_views(current_beats@) =~= seq![]);
            },
            Some(pattern) => {
                let dots: &[char] = &['.', '.', '.'];
                if is_word(pattern, dots) {
                    if current_beats.len() > 0 {
                            let e = AppError::Parse(line_message(pattern_line_number, "repeat marker must replace the whole bar pattern"));
                            proof {
                                assert(pair_tokens(init, toks, (k + 1) as nat, mv, chord_line_number, pattern_line_number) == Err::<PairState, ErrorView>(e@));
                                lemma_pair_error_stays(init, toks, (k + 1) as nat, toks.len(), mv, chord_line_number, pattern_line_number, e@);
                                lemma_pair_reached_stays(init, toks, (k + 1) as nat, toks.len(), mv, chord_line_number, pattern_line_number);
                                assert(pair_reached(init, toks, (k + 1) as nat, mv, chord_line_number, pattern_line_number) == st);
                            }
                            return Err(e);
                        }
                    if bars.len() == 0 {
                            let e = AppError::Parse(line_message(pattern_line_number, "repeat marker requires a previous bar"));
                            proof {
                                assert(pair_tokens(init, toks, (k + 1) as nat, mv, chord_line_number, pattern_line_number) == Err::<PairState, ErrorView>(e@));
                                lemma_pair_error_stays(init, toks, (k + 1) as nat, toks.len(), mv, chord_line_number, pattern_line_number, e@);
                                lemma_pair_reached_stays(init, toks, (k + 1) as nat, toks.len(), mv, chord_line_number, pattern_line_number);
                                assert(pair_reached(init, toks, (k + 1) as nat, mv, chord_line_number, pattern_line_number) == st);
                            }
                            return Err(e);
                        }
                    let mut repeated = copy_bar(&bars[bars.len() - 1]);
                    repeated.line = pattern_line_number;
                    match &current {
                        Some((chord, chord_line)) => {
                            set_chords(&mut repeated, chord, *chord_line);
                        },
                        None => {},
                    }
                    let ghost prev = bars@;
                    bars.push(repeated);
                    assert(bar_views(bars@) =~= bar_views(prev).push(repeated_bar(bar_views(prev).last(), pattern_line_number, chord_view(current))));
                } else {
                    let (chord, chord_line) = match &current {
                        Some((c, l)) => (c.clone(), *l),
                        None => {
                            let e = AppError::Parse(line_message(pattern_line_number, "missing chord marker for strum pattern"));
                            proof {
                                assert(pair_tokens(init, toks, (k + 1) as nat, mv, chord_line_number, pattern_line_number) == Err::<PairState, ErrorView>(e@));
                                lemma_pair_error_stays(init, toks, (k + 1) as nat, toks.len(), mv, chord_line_number, pattern_line_number, e@);
                                lemma_pair_reached_stays(init, toks, (k + 1) as nat, toks.len(), mv, chord_line_number, pattern_line_number);
                                assert(pair_reached(init, toks, (k + 1) as nat, mv, chord_line_number, pattern_line_number) == st);
                            }
                            return Err(e);
                        },
                    };
                    let slots = match parse_pattern(pattern, pattern_line_number) {
                        Ok(v) => v,
                        Err(e) => {
                            proof {
                                assert(pair_tokens(init, toks, (k + 1) as nat, mv, chord_line_number, pattern_line_number) == Err::<PairState, ErrorView>(e@));
                                lemma_pair_error_stays(init, toks, (k + 1) as nat, toks.len(), mv, chord_line_number, pattern_line_number, e@);
                                lemma_pair_reached_stays(init, toks, (k + 1) as nat, toks.len(), mv, chord_line_number, pattern_line_number);
                                assert(pair_reached(init, toks, (k + 1) as nat, mv, chord_line_number, pattern_line_number) == st);
                            }
                            return Err(e);
                        },
                    };
                    let ghost prev = current_beats@;
                    current_beats.push(BeatPattern { chord, chord_line, slots });
                    assert(beat_views(current_beats@) =~= beat_views(prev).push(BeatView { chord: chord@, chord_line, slots: slots@ }));
                }
            },
        }
        k = k + 1;
    }
    finish_bar(&mut current_beats, pattern_line_number, bars);
    Ok(())
}

// ---------------------------------------------------------------------
// Parts
// ---------------------------------------------------------------------

/// A part that has been played: its name and the bars `start..end` it spans.
pub struct PartDef {
    pub name: Seq<char>,
    pub start: usize,
    pub end: usize,
}

/// The state between two lines of the file.
pub struct ParseState {
    pub metadata: MetadataView,
    pub parts: Seq<PartView>,
    pub warnings: Seq<Seq<char>>,
    pub bars: Seq<BarView>,
    /// A chord line that waits for its strum pattern line.
    pub chord_line: Option<(usize, Seq<char>)>,
    pub defs: Seq<PartDef>,
    /// The part being played and its first bar.
    pub current: Option<(Seq<char>, usize)>,
    /// A part marker that takes effect at the next chart line, or is a repeat.
    pub pending: Option<PartView>,
    /// Whether the next line may be a lyric line.
    pub lyric: bool,
    /// Whether the notes section has begun.
    pub done: bool,
}

/// The span of the first definition of part `name`.
pub open spec fn find_def(defs: Seq<PartDef>, name: Seq<char>) -> Option<(usize, usize)>
    decreases defs.len(),
{
    if defs.len() == 0 {
        None
    } else {
        match find_def(defs.drop_last(), name) {
            Some(r) => Some(r),
            None => if defs.last().name == name {
                Some((defs.last().start, defs.last().end))
            } else {
                None
            },
        }
    }
}

/// Closes the part being played at bar `end`; a part that spans bars and
/// has no definition yet becomes defined.
pub open spec fn close_current(st: ParseState, end: usize) -> ParseState {
    match st.current {
        None => st,
        Some((name, start)) => if start < end && find_def(st.defs, name).is_none() {
            ParseState {
                current: None,
                defs: st.defs.push(PartDef { name, start, end }),
                ..st
            }
        } else {
            ParseState { current: None, ..st }
        },
    }
}

pub open spec fn undefined_part_warning(p: PartView) -> Seq<char> {
    "Warning: "@ + line_msg(
        p.line as nat,
        "repeated part '"@ + p.name + "' is not defined; ignoring repeat"@,
    )
}

pub open spec fn duplicate_part_warning(p: PartView) -> Seq<char> {
    "Warning: "@ + line_msg(p.line as nat, "duplicate part marker '"@ + p.name + "'"@)
}

/// A pending part marker that no chart line followed was a repeat of an
/// undefined part: it is dropped with a warning.
pub open spec fn warn_pending(st: ParseState) -> ParseState {
    match st.pending {
        None => st,
        Some(p) => ParseState {
            pending: None,
            warnings: st.warnings.push(undefined_part_warning(p)),
            ..st
        },
    }
}

/// A pending part marker starts the part at the first chart line after it.
pub open spec fn start_pending(st: ParseState) -> ParseState {
    match st.pending {
        None => st,
        Some(p) => {
            let dup = st.parts.len() > 0 && st.parts.last().bar_index == p.bar_index
                && st.parts.last().name == p.name;
            ParseState {
                pending: None,
                warnings: if dup {
                    st.warnings.push(duplicate_part_warning(p))
                } else {
                    st.warnings
                },
                parts: st.parts.push(p),
                current: Some((p.name, p.bar_index)),
                ..st
            }
        },
    }
}

/// Bars `start..end` again, each now on line `line`.
pub open spec fn repeat_bars(bars: Seq<BarView>, start: usize, end: usize, line: usize) -> Seq<BarView> {
    if start <= end <= bars.len() {
        bars + bars.subrange(start as int, end as int).map_values(
            |b: BarView| BarView { line, beats: b.beats },
        )
    } else {
        bars
    }
}

/// The text after the first `:` of a line, trimmed.
pub open spec fn value_part(t: Seq<char>) -> Seq<char> {
    let k = find_from(t, ':', 0);
    trim(t.subrange(if k < t.len() { k + 1 } else { t.len() as int }, t.len() as int))
}

/// A `part:` line: a defined part is played again at once; any other name
/// waits for the next chart line.
pub open spec fn part_line(st: ParseState, t: Seq<char>, n: nat) -> Result<ParseState, ErrorView> {
    let name = value_part(t);
    if name.len() == 0 {
        Err(malformed_error(n))
    } else {
        let p = PartView { line: n as usize, name, bar_index: st.bars.len() as usize };
        match find_def(st.defs, name) {
            Some((start, end)) => Ok(
                ParseState {
                    parts: st.parts.push(p),
                    bars: repeat_bars(st.bars, start, end, n as usize),
                    ..st
                },
            ),
            None => Ok(ParseState { pending: Some(p), ..st }),
        }
    }
}

/// A chord line waiting for its pattern line is an error where it must end.
pub open spec fn flush(st: ParseState) -> Result<ParseState, ErrorView> {
    match st.chord_line {
        Some((n, _)) => Err(parse_error(n as nat, "expected strum pattern line after chord line"@)),
        None => Ok(st),
    }
}

pub open spec fn prefix_error(n: nat) -> ErrorView {
    parse_error(n, "chord and strum lines must start with '| '"@)
}

/// Line `n` of the file, given the state after the lines before it.
pub open spec fn parse_step(st: ParseState, n: nat, raw: Seq<char>) -> Result<ParseState, ErrorView> {
    let line = trim_end(raw);
    let t = trim(line);
    let no_chart = st.bars.len() == 0 && st.chord_line.is_none();
    if st.done {
        Ok(st)
    } else if word(t, seq!['#', '#', ' ', 'N', 'o', 't', 'e', 's']) {
        Ok(ParseState { done: true, ..st })
    } else if t.len() == 0 {
        Ok(st)
    } else if is_part_line(t) {
        match flush(st) {
            Err(e) => Err(e),
            Ok(s1) => part_line(
                warn_pending(close_current(ParseState { lyric: false, ..s1 }, s1.bars.len() as usize)),
                t,
                n,
            ),
        }
    } else if no_chart && looks_like_metadata(t) {
        match metadata_step(st.metadata, t, n) {
            Ok(md) => Ok(ParseState { metadata: md, ..st }),
            Err(e) => Err(e),
        }
    } else if (no_chart && looks_like_malformed_metadata(t)) || looks_like_malformed_part(t) {
        Err(malformed_error(n))
    } else if starts_with(line, seq!['|', ' ']) {
        let rest = line.subrange(2, line.len() as int);
        let s2 = start_pending(ParseState { lyric: false, ..st });
        match s2.chord_line {
            None => Ok(ParseState { chord_line: Some((n as usize, rest)), ..s2 }),
            Some((cn, chords)) => match chart_pair(s2.bars, cn, chords, n as usize, rest) {
                Ok(bars) => Ok(ParseState { bars, chord_line: None, lyric: true, ..s2 }),
                Err(e) => Err(e),
            },
        }
    } else if line.len() > 0 && line[0] == '|' {
        Err(prefix_error(n))
    } else if st.lyric {
        Ok(ParseState { lyric: false, ..st })
    } else {
        Err(prefix_error(n))
    }
}

pub open spec fn initial_state() -> ParseState {
    ParseState {
        metadata: empty_metadata(),
        parts: seq![],
        warnings: seq![],
        bars: seq![],
        chord_line: None,
        defs: seq![],
        current: None,
        pending: None,
        lyric: false,
        done: false,
    }
}

/// The state after the first `k` lines.
pub open spec fn parse_lines(ls: Seq<Seq<char>>, k: nat) -> Result<ParseState, ErrorView>
    decreases k,
{
    if k == 0 {
        Ok(initial_state())
    } else {
        match parse_lines(ls, (k - 1) as nat) {
            Ok(st) => parse_step(st, k, ls[k - 1]),
            Err(e) => Err(e),
        }
    }
}

/// The song once every line has been read.
pub open spec fn finish(st: ParseState) -> Result<SongView, ErrorView> {
    match flush(st) {
        Err(e) => Err(e),
        Ok(s1) => {
            let s2 = warn_pending(close_current(s1, s1.bars.len() as usize));
            Ok(SongView { metadata: s2.metadata, parts: s2.parts, warnings: s2.warnings, bars: s2.bars })
        },
    }
}

/// What `parse` gives for a file's text.
pub open spec fn parse_spec(input: Seq<char>) -> Result<SongView, ErrorView> {
    if trim(input).len() == 0 {
        Err(ErrorView::Validation("empty input file"@))
    } else {
        let ls = lines(input);
        match parse_lines(ls, ls.len()) {
            Ok(st) => finish(st),
            Err(e) => Err(e),
        }
    }
}

// ---------------------------------------------------------------------
// The parser
// ---------------------------------------------------------------------

struct PartDefinition {
    name: String,
    start: usize,
    end: usize,
}

struct Parser {
    metadata: Metadata,
    parts: Vec<Part>,
    warnings: Vec<String>,
    bars: Vec<Bar>,
    chord_line: Option<(usize, Vec<char>)>,
    defs: Vec<PartDefinition>,
    current: Option<(String, usize)>,
    pending: Option<Part>,
    lyric: bool,
    done: bool,
}

spec fn def_views(s: Seq<PartDefinition>) -> Seq<PartDef> {
    s.map_values(|d: PartDefinition| PartDef { name: d.name@, start: d.start, end: d.end })
}

impl View for Parser {
    type V = ParseState;

    closed spec fn view(&self) -> ParseState {
        ParseState {
            metadata: self.metadata@,
            parts: part_views(self.parts@),
            warnings: string_views(self.warnings@),
            bars: bar_views(self.bars@),
            chord_line: match self.chord_line {
                Some((n, c)) => Some((n, c@)),
                None => None,
            },
            defs: def_views(self.defs@),
            current: chord_view(self.current),
            pending: match self.pending {
                Some(p) => Some(p@),
                None => None,
            },
            lyric: self.lyric,
            done: self.done,
        }
    }
}

proof fn lemma_find_def_prefix(defs: Seq<PartDef>, j: int, name: Seq<char>)
    requires
        0 <= j <= defs.len(),
        find_def(defs.subrange(0, j), name).is_some(),
    ensures
        find_def(defs, name) == find_def(defs.subrange(0, j), name),
    decreases defs.len() - j,
{
    if j < defs.len() {
        assert(defs.subrange(0, j + 1).drop_last() =~= defs.subrange(0, j));
        lemma_find_def_prefix(defs, j + 1, name);
    } else {
        assert(defs.subrange(0, j) =~= defs);
    }
}

fn push_part_view(parts: &mut Vec<Part>, p: Part)
    ensures
        part_views(final(parts)@) == part_views(old(parts)@).push(p@),
{
    let ghost prev = parts@;
    parts.push(p);
    assert(part_views(parts@) =~= part_views(prev).push(p@));
}

fn push_string_view(v: &mut Vec<String>, s: String)
    ensures
        string_views(final(v)@) == string_views(old(v)@).push(s@),
{
    let ghost prev = v@;
    v.push(s);
    assert(string_views(v@) =~= string_views(prev).push(s@));
}

fn part_warning(start: &str, p: &Part, end: &str) -> (s: String)
    ensures
        s@ == "Warning: "@ + line_msg(p.line as nat, start@ + p.name@ + end@),
{
    let mut s = String::new();
    push_str(&mut s, "Warning: ");
    push_str(&mut s, "Line ");
    push_decimal(&mut s, p.line as u64);
    push_str(&mut s, ": ");
    push_str(&mut s, start);
    s.append(p.name.as_str());
    push_str(&mut s, end);
    assert(s@ =~= "Warning: "@ + line_msg(p.line as nat, start@ + p.name@ + end@));
    s
}

impl Parser {
    fn new() -> (p: Parser)
        ensures
            p@ == initial_state(),
    {
        let p = Parser {
            metadata: Metadata::default(),
            parts: Vec::new(),
            warnings: Vec::new(),
            bars: Vec::new(),
            chord_line: None,
            defs: Vec::new(),
            current: None,
            pending: None,
            lyric: false,
            done: false,
        };
        assert(part_views(p.parts@) =~= seq![]);
        assert(string_views(p.warnings@) =~= seq![]);
        assert(bar_views(p.bars@) =~= seq![]);
        assert(def_views(p.defs@) =~= seq![]);
        p
    }

    fn find_definition(&self, name: &String) -> (r: Option<(usize, usize)>)
        ensures
            r == find_def(self@.defs, name@),
    {
        let ghost d = def_views(self.defs@);
        let mut i: usize = 0;
        while i < self.defs.len()
            invariant
                i <= self.defs.len(),
                d == def_views(self.defs@),
                d.len() == self.defs.len(),
                find_def(d.subrange(0, i as int), name@).is_none(),
            decreases self.defs.len() - i,
        {
            assert(d.subrange(0, i + 1).drop_last() =~= d.subrange(0, i as int));
            if self.defs[i].name == *name {
                proof {
                    lemma_find_def_prefix(d, i + 1, name@);
                }
                return Some((self.defs[i].start, self.defs[i].end));
            }
            i = i + 1;
        }
        assert(d.subrange(0, i as int) =~= d);
        None
    }

    fn close_current(&mut self, end: usize)
        ensures
            final(self)@ == close_current(old(self)@, end),
    {
        let mut taken: Option<(String, usize)> = None;
        std::mem::swap(&mut taken, &mut self.current);
        if let Some((name, start)) = taken {
            if start < end && self.find_definition(&name).is_none() {
                let ghost prev = self.defs@;
                self.defs.push(PartDefinition { name, start, end });
                assert(def_views(self.defs@) =~= def_views(prev).push(PartDef { name: name@, start, end }));
            }
        }
    }

    fn warn_pending(&mut self)
        ensures
            final(self)@ == warn_pending(old(self)@),
    {
        let mut taken: Option<Part> = None;
        std::mem::swap(&mut taken, &mut self.pending);
        if let Some(part) = taken {
            let w = part_warning("repeated part '", &part, "' is not defined; ignoring repeat");
            push_string_view(&mut self.warnings, w);
        }
    }

    fn start_pending(&mut self)
        ensures
            final(self)@ == start_pending(old(self)@),
    {
        let mut taken: Option<Part> = None;
        std::mem::swap(&mut taken, &mut self.pending);
        if let Some(part) = taken {
            let n = self.parts.len();
            if n > 0 && self.parts[n - 1].bar_index == part.bar_index && self.parts[n - 1].name
                == part.name {
                let w = part_warning("duplicate part marker '", &part, "'");
                push_string_view(&mut self.warnings, w);
            }
            self.current = Some((part.name.clone(), part.bar_index));
            push_part_view(&mut self.parts, part);
        }
    }

    fn handle_part_line(&mut self, t: &[char], line_number: usize) -> (r: Result<(), AppError>)
        ensures
            match r {
                Ok(_) => part_line(old(self)@, t@, line_number as nat) == Ok::<ParseState, ErrorView>(final(self)@),
                Err(e) => part_line(old(self)@, t@, line_number as nat) == Err::<ParseState, ErrorView>(e@),
            },
    {
        let k = find_char(t, ':', 0);
        let from = if k < t.len() {
            k + 1
        } else {
            k
        };
        let value = trim_vec(&copy_range(t, from, t.len()));
        if value.len() == 0 {
            return Err(malformed(line_number));
        }
        let name = string_of(&value);
        let bar_index = self.bars.len();
        match self.find_definition(&name) {
            Some((start, end)) => {
                push_part_view(&mut self.parts, Part { line: line_number, name, bar_index });
                repeat_part(&mut self.bars, start, end, line_number);
            },
            None => {
                self.pending = Some(Part { line: line_number, name, bar_index });
            },
        }
        Ok(())
    }

    fn flush(&self) -> (r: Result<(), AppError>)
        ensures
            match r {
                Ok(_) => flush(self@) == Ok::<ParseState, ErrorView>(self@),
                Err(e) => flush(self@) == Err::<ParseState, ErrorView>(e@),
            },
    {
        match &self.chord_line {
            Some((n, _)) => Err(AppError::Parse(line_message(*n, "expected strum pattern line after chord line"))),
            None => Ok(()),
        }
    }

    fn step(&mut self, line_number: usize, raw: &[char]) -> (r: Result<(), AppError>)
        ensures
            match r {
                Ok(_) => parse_step(old(self)@, line_number as nat, raw@) == Ok::<ParseState, ErrorView>(final(self)@),
                Err(e) => parse_step(old(self)@, line_number as nat, raw@) == Err::<ParseState, ErrorView>(e@),
            },
    {
        if self.done {
            return Ok(());
        }
        let line = trim_end_vec(raw);
        let t = trim_vec(&line);
        let notes: &[char] = &['#', '#', ' ', 'N', 'o', 't', 'e', 's'];
        let no_chart = self.bars.len() == 0 && self.chord_line.is_none();
        if is_word(&t, notes) {
            self.done = true;
            return Ok(());
        }
        if t.len() == 0 {
            return Ok(());
        }
        if is_part_line_exec(&t) {
            self.flush()?;
            self.lyric = false;
            let end = self.bars.len();
            self.close_current(end);
            self.warn_pending();
            return self.handle_part_line(&t, line_number);
        }
        if no_chart && looks_like_metadata_exec(&t) {
            return parse_metadata_line(&t, line_number, &mut self.metadata);
        }
        if (no_chart && looks_like_malformed_metadata_exec(&t)) || looks_like_malformed_part_exec(&t) {
            return Err(malformed(line_number));
        }
        let prefix: &[char] = &['|', ' '];
        if starts_with_chars(&line, prefix) {
            let rest = copy_range(&line, 2, line.len());
            self.lyric = false;
            self.start_pending();
            let mut taken: Option<(usize, Vec<char>)> = None;
            std::mem::swap(&mut taken, &mut self.chord_line);
            match taken {
                None => {
                    self.chord_line = Some((line_number, rest));
                },
                Some((cn, chords)) => {
                    parse_chart_pair(cn, &chords, line_number, &rest, &mut self.bars)?;
                    self.lyric = true;
                },
            }
            return Ok(());
        }
        if line.len() > 0 && line[0] == '|' {
            return Err(AppError::Parse(line_message(line_number, "chord and strum lines must start with '| '")));
        }
        if self.lyric {
            self.lyric = false;
            return Ok(());
        }
        Err(AppError::Parse(line_message(line_number, "chord and strum lines must start with '| '")))
    }

    fn finish(self) -> (r: Result<Song, AppError>)
        ensures
            match r {
                Ok(s) => finish(self@) == Ok::<SongView, ErrorView>(s@),
                Err(e) => finish(self@) == Err::<SongView, ErrorView>(e@),
            },
    {
        let mut p = self;
        p.flush()?;
        let end = p.bars.len();
        p.close_current(end);
        p.warn_pending();
        Ok(Song { metadata: p.metadata, parts: p.parts, warnings: p.warnings, bars: p.bars })
    }
}

fn repeat_part(bars: &mut Vec<Bar>, start: usize, end: usize, line_number: usize)
    ensures
        bar_views(final(bars)@) == repeat_bars(bar_views(old(bars)@), start, end, line_number),
{
    if start <= end && end <= bars.len() {
        let ghost b0 = bar_views(bars@);
        let ghost added = b0.subrange(start as int, end as int).map_values(
            |b: BarView| BarView { line: line_number, beats: b.beats },
        );
        let n0 = bars.len();
        let mut i = start;
        assert(bars@.subrange(0, n0 as int) =~= bars@);
        assert(added.subrange(0, 0) =~= seq![]);
        assert(b0 + added.subrange(0, 0) =~= b0);
        while i < end
            invariant
                start <= i <= end <= n0,
                b0 == bar_views(bars@.subrange(0, n0 as int)),
                bars.len() == n0 + (i - start),
                bar_views(bars@) == b0 + added.subrange(0, i - start),
                added == b0.subrange(start as int, end as int).map_values(
                    |b: BarView| BarView { line: line_number, beats: b.beats },
                ),
                b0.len() == n0,
            decreases end - i,
        {
            let mut bar = copy_bar(&bars[i]);
            assert(bars@.subrange(0, n0 as int)[i as int] == bars@[i as int]);
            assert(bars@[i as int]@ == b0[i as int]);
            bar.line = line_number;
            let ghost prev = bars@;
            bars.push(bar);
            assert(bar_views(bars@) =~= bar_views(prev).push(bar@));
            assert(added.subrange(0, i + 1 - start) =~= added.subrange(0, i - start).push(added[i - start]));
            assert(bars@.subrange(0, n0 as int) =~= prev.subrange(0, n0 as int));
            i = i + 1;
        }
        assert(added.subrange(0, end - start) =~= added);
    }
}

proof fn lemma_parse_error_stays(ls: Seq<Seq<char>>, k: nat, n: nat, e: ErrorView)
    requires
        k <= n,
        parse_lines(ls, k) == Err::<ParseState, ErrorView>(e),
    ensures
        parse_lines(ls, n) == Err::<ParseState, ErrorView>(e),
    decreases n - k,
{
    if k < n {
        lemma_parse_error_stays(ls, k, (n - 1) as nat, e);
    }
}

proof fn lemma_parse_done_stays(ls: Seq<Seq<char>>, k: nat, n: nat, st: ParseState)
    requires
        k <= n,
        st.done,
        parse_lines(ls, k) == Ok::<ParseState, ErrorView>(st),
    ensures
        parse_lines(ls, n) == Ok::<ParseState, ErrorView>(st),
    decreases n - k,
{
    if k < n {
        lemma_parse_done_stays(ls, k, (n - 1) as nat, st);
    }
}

proof fn lemma_parse_lines_prefix(l1: Seq<Seq<char>>, l2: Seq<Seq<char>>, k: nat)
    requires
        k <= l1.len(),
        k <= l2.len(),
        forall|i: int| 0 <= i < k ==> l1[i] == l2[i],
    ensures
        parse_lines(l1, k) == parse_lines(l2, k),
    decreases k,
{
    if k > 0 {
        lemma_parse_lines_prefix(l1, l2, (k - 1) as nat);
        assert(l1[k - 1] == l2[k - 1]);
    }
}

/// The heading line that opens the notes section.
pub open spec fn notes_heading() -> Seq<char> {
    seq!['#', '#', ' ', 'N', 'o', 't', 'e', 's']
}

/// Everything from a `## Notes` line on is left out: a file that is some text ending
/// with a line feed, then that heading, then anything at all, reads as the text alone.
pub proof fn lemma_notes_ignored(a: Seq<char>, b: Seq<char>)
    requires
        trim(a).len() > 0,
        a.last() == '\n',
    ensures
        parse_spec(a + notes_heading().push('\n') + b) == parse_spec(a),
{
    let h = notes_heading();
    let notes = h.push('\n');
    let s = a + notes + b;
    lemma_trim_empty(a);
    lemma_trim_empty(s);
    assert(a.len() > 0);
    if all_ws(s) {
        assert forall|i: int| 0 <= i < a.len() implies is_ws(#[trigger] a[i]) by {
            assert(s[i] == a[i]);
        }
    }
    assert(trim(s).len() > 0);
    assert(a + (notes + b) =~= s);
    lemma_lines_append(a, notes + b);
    lemma_lines_append(notes, b);
    assert(lines(notes) =~= seq![h]) by {
        reveal_with_fuel(next_newline, 10);
        assert(next_newline(notes, 0) == 8);
        assert(notes.subrange(0, 8) =~= h);
        assert(lines_from(notes, 9) =~= seq![]);
    }
    let la = lines(a);
    let ls = lines(s);
    let n = la.len();
    assert(ls =~= la + (seq![h] + lines(b)));
    assert(ls[n as int] == h);
    lemma_parse_lines_prefix(ls, la, n);
    assert(trim_end(h) == h);
    assert(trim_start(h) == h);
    assert(trim(h) == h);
    match parse_lines(la, n) {
        Err(e) => {
            lemma_parse_error_stays(ls, n, ls.len(), e);
        },
        Ok(st) => {
            let st2 = ParseState { done: true, ..st };
            assert(parse_lines(ls, n + 1) == Ok::<ParseState, ErrorView>(st2));
            lemma_parse_done_stays(ls, n + 1, ls.len(), st2);
            assert(finish(st2) == finish(st));
        },
    }
}

// ---------------------------------------------------------------------
// The shape of a parsed song
// ---------------------------------------------------------------------

/// A chord name as a chart line gives it: some characters, none of them whitespace.
pub open spec fn is_chord_text(c: Seq<char>) -> bool {
    &&& c.len() > 0
    &&& forall|i: int| 0 <= i < c.len() ==> !is_ws(#[trigger] c[i])
}

/// A beat with at least one slot, a chord name, and a chord line among lines `1..=last`.
pub open spec fn beat_ok(b: BeatView, last: nat) -> bool {
    &&& b.slots.len() > 0
    &&& is_chord_text(b.chord)
    &&& 1 <= b.chord_line <= last
}

/// A bar with at least one beat, each of them as `beat_ok` says, on a line among `1..=last`.
pub open spec fn bar_ok(b: BarView, last: nat) -> bool {
    &&& 1 <= b.line <= last
    &&& b.beats.len() > 0
    &&& forall|i: int| 0 <= i < b.beats.len() ==> beat_ok(#[trigger] b.beats[i], last)
}

pub open spec fn bars_ok(bars: Seq<BarView>, last: nat) -> bool {
    forall|i: int| 0 <= i < bars.len() ==> bar_ok(#[trigger] bars[i], last)
}

/// Part markers in the order of their bars, none past the end of the bars.
pub open spec fn parts_ordered(parts: Seq<PartView>, bar_count: nat) -> bool {
    &&& forall|i: int, j: int|
        0 <= i <= j < parts.len() ==> #[trigger] parts[i].bar_index <= #[trigger] parts[j].bar_index
    &&& forall|i: int| 0 <= i < parts.len() ==> #[trigger] parts[i].bar_index <= bar_count
}

proof fn lemma_bars_ok_more(bars: Seq<BarView>, k: nat, m: nat)
    requires
        bars_ok(bars, k),
        k <= m,
    ensures
        bars_ok(bars, m),
{
    assert forall|i: int| 0 <= i < bars.len() implies bar_ok(#[trigger] bars[i], m) by {
        let b = bars[i];
        assert(bar_ok(b, k));
        assert forall|j: int| 0 <= j < b.beats.len() implies beat_ok(#[trigger] b.beats[j], m) by {
            assert(beat_ok(b.beats[j], k));
        }
    }
}

proof fn lemma_words_from_ok(s: Seq<char>, i: int)
    ensures
        forall|w: int| 0 <= w < words_from(s, i).len() ==> is_chord_text(#[trigger] words_from(s, i)[w].1),
    decreases s.len() - i, 1int,
{
    if i < 0 || i >= s.len() {
    } else if is_ws(s[i]) {
        lemma_words_from_ok(s, i + 1);
        assert(words_from(s, i) == words_from(s, i + 1));
    } else {
        lemma_word_end(s, i);
        let j = word_end(s, i);
        if i < j <= s.len() {
            lemma_words_from_ok(s, j);
            let first = s.subrange(i, j);
            assert forall|k: int| 0 <= k < first.len() implies !is_ws(#[trigger] first[k]) by {
                assert(first[k] == s[i + k]);
            }
            assert(is_chord_text(first));
            let ws = words_from(s, i);
            assert(ws == seq![(i, first)] + words_from(s, j));
            assert forall|w: int| 0 <= w < ws.len() implies is_chord_text(#[trigger] ws[w].1) by {
                if w > 0 {
                    assert(ws[w] == words_from(s, j)[w - 1]);
                } else {
                    assert(ws[w].1 == first);
                }
            }
        }
    }
}

spec fn token_ok(t: PatternTokenView) -> bool {
    t.pat matches Some(p) ==> p.len() > 0
}

proof fn lemma_tokens_from_ok(s: Seq<char>, i: int)
    ensures
        forall|t: int|
            0 <= t < pattern_tokens_from(s, i).len() ==> token_ok(#[trigger] pattern_tokens_from(s, i)[t]),
    decreases s.len() - i, 1int,
{
    if i < 0 || i >= s.len() {
    } else if s[i] == '|' {
        lemma_tokens_from_ok(s, i + 1);
        let ts = pattern_tokens_from(s, i);
        assert forall|t: int| 0 <= t < ts.len() implies token_ok(#[trigger] ts[t]) by {
            if t > 0 {
                assert(ts[t] == pattern_tokens_from(s, i + 1)[t - 1]);
            }
        }
    } else if is_ws(s[i]) {
        lemma_tokens_from_ok(s, i + 1);
    } else {
        let j = pattern_end(s, i);
        if i < j <= s.len() {
            lemma_tokens_from_ok(s, j);
            let ts = pattern_tokens_from(s, i);
            assert forall|t: int| 0 <= t < ts.len() implies token_ok(#[trigger] ts[t]) by {
                if t > 0 {
                    assert(ts[t] == pattern_tokens_from(s, j)[t - 1]);
                }
            }
        }
    }
}

proof fn lemma_pattern_slots_len(p: Seq<char>, n: nat)
    ensures
        pattern_slots(p, n) matches Ok(slots) ==> slots.len() == p.len(),
    decreases p.len(),
{
    if p.len() > 0 {
        lemma_pattern_slots_len(p.drop_first(), n);
    }
}

/// What holds of the state while a strum pattern line is read.
pub open spec fn pair_ok(ps: PairState, last: nat, bar_count: nat) -> bool {
    &&& bars_ok(ps.bars, last)
    &&& ps.bars.len() >= bar_count
    &&& forall|i: int| 0 <= i < ps.beats.len() ==> beat_ok(#[trigger] ps.beats[i], last)
    &&& ps.current matches Some((c, cl)) ==> is_chord_text(c) && 1 <= cl <= last
}

proof fn lemma_advance_ok(
    markers: Seq<(int, Seq<char>)>,
    mi: int,
    col: int,
    current: Option<(Seq<char>, usize)>,
    chord_line: usize,
    last: nat,
)
    requires
        forall|w: int| 0 <= w < markers.len() ==> is_chord_text(#[trigger] markers[w].1),
        current matches Some((c, cl)) ==> is_chord_text(c) && 1 <= cl <= last,
        1 <= chord_line <= last,
    ensures
        advance(markers, mi, col, current, chord_line).0 matches Some((c, cl)) ==> is_chord_text(c)
            && 1 <= cl <= last,
    decreases markers.len() - mi,
{
    if 0 <= mi < markers.len() && markers[mi].0 <= col {
        lemma_advance_ok(markers, mi + 1, col, Some((markers[mi].1, chord_line)), chord_line, last);
    }
}

proof fn lemma_pair_tokens_ok(
    init: PairState,
    toks: Seq<PatternTokenView>,
    k: nat,
    markers: Seq<(int, Seq<char>)>,
    chord_line: usize,
    pattern_line: usize,
    last: nat,
    bar_count: nat,
)
    requires
        pair_ok(init, last, bar_count),
        k <= toks.len(),
        forall|t: int| 0 <= t < toks.len() ==> token_ok(#[trigger] toks[t]),
        forall|w: int| 0 <= w < markers.len() ==> is_chord_text(#[trigger] markers[w].1),
        1 <= chord_line <= last,
        1 <= pattern_line <= last,
    ensures
        pair_tokens(init, toks, k, markers, chord_line, pattern_line) matches Ok(st) ==> pair_ok(st, last, bar_count),
    decreases k,
{
    if k > 0 {
        lemma_pair_tokens_ok(init, toks, (k - 1) as nat, markers, chord_line, pattern_line, last, bar_count);
        if let Ok(st) = pair_tokens(init, toks, (k - 1) as nat, markers, chord_line, pattern_line) {
            let tok = toks[k - 1];
            lemma_advance_ok(markers, st.marker, tok.col, st.current, chord_line, last);
            let (current, marker) = advance(markers, st.marker, tok.col, st.current, chord_line);
            match tok.pat {
                None => {
                    let nb = close_bar(st.bars, st.beats, pattern_line);
                    if st.beats.len() > 0 {
                        let b = BarView { line: pattern_line, beats: st.beats };
                        assert(bar_ok(b, last));
                        assert forall|i: int| 0 <= i < nb.len() implies bar_ok(#[trigger] nb[i], last) by {
                            if i < st.bars.len() {
                                assert(nb[i] == st.bars[i]);
                            }
                        }
                    }
                },
                Some(p) => {
                    if word(p, seq!['.', '.', '.']) {
                        if st.beats.len() == 0 && st.bars.len() > 0 {
                            let prev = st.bars.last();
                            assert(bar_ok(prev, last));
                            let rb = repeated_bar(prev, pattern_line, current);
                            assert forall|j: int| 0 <= j < rb.beats.len() implies beat_ok(#[trigger] rb.beats[j], last) by {
                                assert(beat_ok(prev.beats[j], last));
                            }
                            assert(bar_ok(rb, last));
                            let nb = st.bars.push(rb);
                            assert forall|i: int| 0 <= i < nb.len() implies bar_ok(#[trigger] nb[i], last) by {
                                if i < st.bars.len() {
                                    assert(nb[i] == st.bars[i]);
                                }
                            }
                        }
                    } else {
                        lemma_pattern_slots_len(p, pattern_line as nat);
                        assert(p.len() > 0);
                        if let Some((c, cl)) = current {
                            if let Ok(slots) = pattern_slots(p, pattern_line as nat) {
                                let nbeats = st.beats.push(BeatView { chord: c, chord_line: cl, slots });
                                assert forall|i: int| 0 <= i < nbeats.len() implies beat_ok(#[trigger] nbeats[i], last) by {
                                    if i < st.beats.len() {
                                        assert(nbeats[i] == st.beats[i]);
                                    }
                                }
                            }
                        }
                    }
                },
            }
        }
    }
}

proof fn lemma_chart_pair_ok(
    bars: Seq<BarView>,
    chord_line: usize,
    chords: Seq<char>,
    pattern_line: usize,
    pattern: Seq<char>,
    last: nat,
)
    requires
        bars_ok(bars, last),
        1 <= chord_line <= last,
        1 <= pattern_line <= last,
    ensures
        chart_pair(bars, chord_line, chords, pattern_line, pattern) matches Ok(nb) ==> bars_ok(nb, last)
            && nb.len() >= bars.len(),
{
    let markers = byte_words(chords);
    let toks = byte_tokens(pattern);
    if markers.len() > 0 && toks.len() > 0 {
        lemma_words_from_ok(chords, 0);
        lemma_tokens_from_ok(pattern, 0);
        assert forall|w: int| 0 <= w < markers.len() implies is_chord_text(#[trigger] markers[w].1) by {
            assert(markers[w].1 == words(chords)[w].1);
        }
        assert forall|t: int| 0 <= t < toks.len() implies token_ok(#[trigger] toks[t]) by {
            assert(toks[t].pat == pattern_tokens(pattern)[t].pat);
            assert(token_ok(pattern_tokens(pattern)[t]));
        }
        let init = PairState { bars, current: last_chord(bars), marker: 0, beats: seq![] };
        if bars.len() > 0 && bars.last().beats.len() > 0 {
            assert(bar_ok(bars.last(), last));
            assert(beat_ok(bars.last().beats.last(), last));
        }
        assert(pair_ok(init, last, bars.len()));
        lemma_pair_tokens_ok(init, toks, toks.len(), markers, chord_line, pattern_line, last, bars.len());
        if let Ok(st) = pair_tokens(init, toks, toks.len(), markers, chord_line, pattern_line) {
            let nb = close_bar(st.bars, st.beats, pattern_line);
            if st.beats.len() > 0 {
                let b = BarView { line: pattern_line, beats: st.beats };
                assert(bar_ok(b, last));
                assert forall|i: int| 0 <= i < nb.len() implies bar_ok(#[trigger] nb[i], last) by {
                    if i < st.bars.len() {
                        assert(nb[i] == st.bars[i]);
                    }
                }
            }
        }
    }
}

proof fn lemma_pair_tokens_grow(
    init: PairState,
    toks: Seq<PatternTokenView>,
    k: nat,
    markers: Seq<(int, Seq<char>)>,
    chord_line: usize,
    pattern_line: usize,
)
    requires
        k <= toks.len(),
    ensures
        pair_tokens(init, toks, k, markers, chord_line, pattern_line) matches Ok(st) ==> st.bars.len() >= init.bars.len(),
    decreases k,
{
    if k > 0 {
        lemma_pair_tokens_grow(init, toks, (k - 1) as nat, markers, chord_line, pattern_line);
    }
}

proof fn lemma_parse_step_grows(st: ParseState, n: nat, raw: Seq<char>)
    ensures
        parse_step(st, n, raw) matches Ok(st2) ==> st2.bars.len() >= st.bars.len(),
{
    let line = trim_end(raw);
    let t = trim(line);
    let no_chart = st.bars.len() == 0 && st.chord_line.is_none();
    if !st.done && !word(t, seq!['#', '#', ' ', 'N', 'o', 't', 'e', 's']) && t.len() != 0
        && !is_part_line(t) && !(no_chart && looks_like_metadata(t)) && starts_with(line, seq!['|', ' ']) {
        let rest = line.subrange(2, line.len() as int);
        let s2 = start_pending(ParseState { lyric: false, ..st });
        if let Some((cn, chords)) = s2.chord_line {
            let markers = byte_words(chords);
            let toks = byte_tokens(rest);
            let init = PairState { bars: s2.bars, current: last_chord(s2.bars), marker: 0, beats: seq![] };
            lemma_pair_tokens_grow(init, toks, toks.len(), markers, cn, n as usize);
        }
    }
}

/// What holds of the parser's state after each line.
pub open spec fn state_ok(st: ParseState, last: nat) -> bool {
    &&& bars_ok(st.bars, last)
    &&& parts_ordered(st.parts, st.bars.len())
    &&& st.pending matches Some(p) ==> p.bar_index <= st.bars.len() && forall|i: int|
        0 <= i < st.parts.len() ==> #[trigger] st.parts[i].bar_index <= p.bar_index
    &&& st.chord_line matches Some((cn, _)) ==> 1 <= cn <= last
}

proof fn lemma_parts_more(parts: Seq<PartView>, a: nat, b: nat)
    requires
        parts_ordered(parts, a),
        a <= b,
    ensures
        parts_ordered(parts, b),
{
}

proof fn lemma_part_line_ok(st: ParseState, t: Seq<char>, n: nat)
    requires
        bars_ok(st.bars, n),
        parts_ordered(st.parts, st.bars.len()),
        st.pending is None,
        st.chord_line is None,
        st.bars.len() <= usize::MAX,
        1 <= n <= usize::MAX,
    ensures
        part_line(st, t, n) matches Ok(s2) ==> state_ok(s2, n),
{
    let name = value_part(t);
    if name.len() > 0 {
        let p = PartView { line: n as usize, name, bar_index: st.bars.len() as usize };
        match find_def(st.defs, name) {
            Some((start, end)) => {
                let parts = st.parts.push(p);
                let nb = repeat_bars(st.bars, start, end, n as usize);
                assert forall|i: int, j: int| 0 <= i <= j < parts.len() implies #[trigger] parts[i].bar_index
                    <= #[trigger] parts[j].bar_index by {
                    if j < st.parts.len() {
                        assert(parts[i] == st.parts[i] && parts[j] == st.parts[j]);
                    } else if i < st.parts.len() {
                        assert(parts[i] == st.parts[i]);
                        assert(st.parts[i].bar_index <= st.bars.len());
                    }
                }
                if start <= end <= st.bars.len() {
                    let added = st.bars.subrange(start as int, end as int).map_values(
                        |b: BarView| BarView { line: n as usize, beats: b.beats },
                    );
                    assert forall|i: int| 0 <= i < nb.len() implies bar_ok(#[trigger] nb[i], n) by {
                        if i < st.bars.len() {
                            assert(nb[i] == st.bars[i]);
                        } else {
                            let src = st.bars[start + (i - st.bars.len())];
                            assert(bar_ok(src, n));
                            assert(nb[i] == added[i - st.bars.len()]);
                            assert(nb[i].beats == src.beats);
                        }
                    }
                }
                assert forall|i: int| 0 <= i < parts.len() implies #[trigger] parts[i].bar_index <= nb.len() by {
                    if i < st.parts.len() {
                        assert(parts[i] == st.parts[i]);
                    }
                }
            },
            None => {},
        }
    }
}

proof fn lemma_parse_step_ok(st: ParseState, k: nat, raw: Seq<char>)
    requires
        state_ok(st, k),
        st.bars.len() <= usize::MAX,
        k + 1 <= usize::MAX,
    ensures
        parse_step(st, k + 1, raw) matches Ok(st2) ==> state_ok(st2, k + 1),
{
    let n = k + 1;
    lemma_bars_ok_more(st.bars, k, n);
    let line = trim_end(raw);
    let t = trim(line);
    let no_chart = st.bars.len() == 0 && st.chord_line.is_none();
    if st.done || word(t, seq!['#', '#', ' ', 'N', 'o', 't', 'e', 's']) || t.len() == 0 {
    } else if is_part_line(t) {
        if let Ok(s1) = flush(st) {
            let s3 = warn_pending(close_current(ParseState { lyric: false, ..s1 }, s1.bars.len() as usize));
            assert(s3.bars == st.bars && s3.parts == st.parts && s3.pending is None && s3.chord_line is None);
            lemma_part_line_ok(s3, t, n);
        }
    } else if no_chart && looks_like_metadata(t) {
    } else if (no_chart && looks_like_malformed_metadata(t)) || looks_like_malformed_part(t) {
    } else if starts_with(line, seq!['|', ' ']) {
        let rest = line.subrange(2, line.len() as int);
        let s2 = start_pending(ParseState { lyric: false, ..st });
        assert(s2.bars == st.bars && s2.pending is None && s2.chord_line == st.chord_line);
        if let Some(p) = st.pending {
            let parts = st.parts.push(p);
            assert(s2.parts == parts);
            assert forall|i: int, j: int| 0 <= i <= j < parts.len() implies #[trigger] parts[i].bar_index
                <= #[trigger] parts[j].bar_index by {
                if j < st.parts.len() {
                    assert(parts[i] == st.parts[i] && parts[j] == st.parts[j]);
                } else if i < st.parts.len() {
                    assert(parts[i] == st.parts[i]);
                }
            }
            assert forall|i: int| 0 <= i < parts.len() implies #[trigger] parts[i].bar_index <= st.bars.len() by {
                if i < st.parts.len() {
                    assert(parts[i] == st.parts[i]);
                }
            }
        }
        assert(parts_ordered(s2.parts, s2.bars.len()));
        if let Some((cn, chords)) = s2.chord_line {
            lemma_chart_pair_ok(s2.bars, cn, chords, n as usize, rest, n);
            if let Ok(nb) = chart_pair(s2.bars, cn, chords, n as usize, rest) {
                lemma_parts_more(s2.parts, s2.bars.len(), nb.len());
            }
        }
    }
}

proof fn lemma_parse_lines_ok(ls: Seq<Seq<char>>, k: nat)
    requires
        k <= ls.len(),
        ls.len() < usize::MAX,
    ensures
        parse_lines(ls, k) matches Ok(st) ==> (st.bars.len() <= usize::MAX ==> state_ok(st, k)),
    decreases k,
{
    if k > 0 {
        lemma_parse_lines_ok(ls, (k - 1) as nat);
        if let Ok(st) = parse_lines(ls, (k - 1) as nat) {
            lemma_parse_step_grows(st, k, ls[k - 1]);
            if let Ok(st2) = parse_step(st, k, ls[k - 1]) {
                if st2.bars.len() <= usize::MAX {
                    lemma_parse_step_ok(st, (k - 1) as nat, ls[k - 1]);
                }
            }
        }
    }
}

/// Every song that a file parses to has bars of at least one beat, beats of at
/// least one slot and a chord name without whitespace, line numbers among the
/// file's lines, and part markers in the order of their bars, none past the last
/// bar (while the number of bars fits in a `usize`).
pub proof fn lemma_parsed_song_shape(input: Seq<char>, s: SongView)
    requires
        parse_spec(input) == Ok::<SongView, ErrorView>(s),
        s.bars.len() <= usize::MAX,
        lines(input).len() < usize::MAX,
    ensures
        bars_ok(s.bars, lines(input).len()),
        parts_ordered(s.parts, s.bars.len()),
{
    let ls = lines(input);
    lemma_parse_lines_ok(ls, ls.len());
}

/// Parses the text of a `.strum` file into a song.
pub fn parse(input: &str) -> (r: Result<Song, AppError>)
    ensures
        match r {
            Ok(s) => parse_spec(input@) == Ok::<SongView, ErrorView>(s@),
            Err(e) => parse_spec(input@) == Err::<SongView, ErrorView>(e@),
        },
{
    let chars = chars_of(input);
    let trimmed = trim_vec(&chars);
    if trimmed.len() == 0 {
        let mut m = String::new();
        push_str(&mut m, "empty input file");
        return Err(AppError::Validation(m));
    }
    let all_lines = split_lines(&chars);
    let ghost ls = lines(input@);
    let mut parser = Parser::new();
    let mut index: usize = 0;
    while index < all_lines.len()
        invariant
            index <= all_lines.len(),
            ls == views(all_lines@),
            ls.len() == all_lines.len(),
            ls == lines(input@),
            trim(input@).len() != 0,
            parse_lines(ls, index as nat) == Ok::<ParseState, ErrorView>(parser@),
        ensures
            parse_lines(ls, ls.len()) == Ok::<ParseState, ErrorView>(parser@),
        decreases all_lines.len() - index,
    {
        if parser.done {
            proof {
                lemma_parse_done_stays(ls, index as nat, ls.len(), parser@);
            }
            break;
        }
        assert(all_lines@[index as int]@ == ls[index as int]);
        match parser.step(index + 1, &all_lines[index]) {
            Ok(_) => {},
            Err(e) => {
                proof {
                    lemma_parse_error_stays(ls, (index + 1) as nat, ls.len(), e@);
                }
                return Err(e);
            },
        }
        index = index + 1;
    }
    parser.finish()
}
} // verus!
