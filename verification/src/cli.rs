//! Command-line arguments: `input output [options]` to convert a file, or
//! `chords CHORD [options]` to show a chord's voicing.
use vstd::prelude::*;

use crate::error::{AppError, ErrorView};
use crate::text::{chars_of, is_word, parse_uint, push_str, string_of, word};

verus! {

/// Arguments of the convert command.
#[derive(Debug, PartialEq, Eq)]
pub struct ConvertCli {
    pub input: String,
    pub output: String,
    pub tempo: Option<u16>,
    pub velocity: Option<u8>,
    pub strum_spread_ms: Option<u16>,
    pub downstroke_spread_ms: Option<u16>,
    pub upstroke_spread_ms: Option<u16>,
    pub voicing: Option<String>,
    pub voicing_file: Option<String>,
}

/// Arguments of the chords command.
#[derive(Debug, PartialEq, Eq)]
pub struct ChordsCli {
    pub chord: String,
    pub voicing: Option<String>,
    pub voicing_file: Option<String>,
    pub diagram: bool,
}

/// A parsed command line.
#[derive(Debug, PartialEq, Eq)]
pub enum Cli {
    Convert(ConvertCli),
    Chords(ChordsCli),
}

pub struct ConvertView {
    pub input: Seq<char>,
    pub output: Seq<char>,
    pub tempo: Option<u16>,
    pub velocity: Option<u8>,
    pub strum_spread_ms: Option<u16>,
    pub downstroke_spread_ms: Option<u16>,
    pub upstroke_spread_ms: Option<u16>,
    pub voicing: Option<Seq<char>>,
    pub voicing_file: Option<Seq<char>>,
}

pub struct ChordsView {
    pub chord: Seq<char>,
    pub voicing: Option<Seq<char>>,
    pub voicing_file: Option<Seq<char>>,
    pub diagram: bool,
}

pub enum CliView {
    Convert(ConvertView),
    Chords(ChordsView),
}

impl View for Cli {
    type V = CliView;

    open spec fn view(&self) -> CliView {
        match self {
            Cli::Convert(c) => CliView::Convert(
                ConvertView {
                    input: c.input@,
                    output: c.output@,
                    tempo: c.tempo,
                    velocity: c.velocity,
                    strum_spread_ms: c.strum_spread_ms,
                    downstroke_spread_ms: c.downstroke_spread_ms,
                    upstroke_spread_ms: c.upstroke_spread_ms,
                    voicing: crate::model::opt_view(c.voicing),
                    voicing_file: crate::model::opt_view(c.voicing_file),
                },
            ),
            Cli::Chords(c) => CliView::Chords(
                ChordsView {
                    chord: c.chord@,
                    voicing: crate::model::opt_view(c.voicing),
                    voicing_file: crate::model::opt_view(c.voicing_file),
                    diagram: c.diagram,
                },
            ),
        }
    }
}

/// The usage text.
pub open spec fn usage_text() -> Seq<char> {
    "usage: strum2midi input.strum output.mid [--tempo BPM] [--velocity VALUE] [--strum-spread-ms MS] [--downstroke-spread-ms MS] [--upstroke-spread-ms MS] [--voicing SET] [--voicing-file PATH]\n       strum2midi chords CHORD [--voicing SET] [--voicing-file PATH] [--diagram]"@
}

/// The usage text.
pub fn usage() -> (s: String)
    ensures
        s@ == usage_text(),
{
    let mut s = String::new();
    push_str(&mut s, "usage: strum2midi input.strum output.mid [--tempo BPM] [--velocity VALUE] [--strum-spread-ms MS] [--downstroke-spread-ms MS] [--upstroke-spread-ms MS] [--voicing SET] [--voicing-file PATH]\n       strum2midi chords CHORD [--voicing SET] [--voicing-file PATH] [--diagram]");
    s
}

pub open spec fn missing_value(flag: Seq<char>) -> ErrorView {
    ErrorView::Usage("missing value for "@ + flag + "\n"@ + usage_text())
}

pub open spec fn invalid_value(flag: Seq<char>, value: Seq<char>) -> ErrorView {
    ErrorView::Usage("invalid value for "@ + flag + ": '"@ + value + "'"@)
}

pub open spec fn unknown_option(flag: Seq<char>) -> ErrorView {
    ErrorView::Usage("unknown option '"@ + flag + "'\n"@ + usage_text())
}

/// What has been read of a chords command line.
pub struct ChordsAcc {
    pub positionals: Seq<Seq<char>>,
    pub voicing: Option<Seq<char>>,
    pub voicing_file: Option<Seq<char>>,
    pub diagram: bool,
}

/// What has been read of a convert command line.
pub struct ConvertAcc {
    pub positionals: Seq<Seq<char>>,
    pub tempo: Option<u16>,
    pub velocity: Option<u8>,
    pub strum_spread_ms: Option<u16>,
    pub downstroke_spread_ms: Option<u16>,
    pub upstroke_spread_ms: Option<u16>,
    pub voicing: Option<Seq<char>>,
    pub voicing_file: Option<Seq<char>>,
}

pub open spec fn is_help(a: Seq<char>) -> bool {
    word(a, seq!['-', 'h']) || word(a, seq!['-', '-', 'h', 'e', 'l', 'p'])
}

pub open spec fn is_flag(a: Seq<char>) -> bool {
    a.len() > 0 && a[0] == '-'
}

/// The chords command from argument `i` on.
pub open spec fn chords_from(args: Seq<Seq<char>>, i: nat, acc: ChordsAcc) -> Result<CliView, ErrorView>
    decreases args.len() - i,
{
    if i >= args.len() {
        if acc.positionals.len() != 1 {
            Err(ErrorView::Usage(usage_text()))
        } else {
            Ok(
                CliView::Chords(
                    ChordsView {
                        chord: acc.positionals[0],
                        voicing: acc.voicing,
                        voicing_file: acc.voicing_file,
                        diagram: acc.diagram,
                    },
                ),
            )
        }
    } else {
        let a = args[i as int];
        if word(a, seq!['-', '-', 'v', 'o', 'i', 'c', 'i', 'n', 'g']) {
            if i + 1 < args.len() {
                chords_from(args, i + 2, ChordsAcc { voicing: Some(args[(i + 1) as int]), ..acc })
            } else {
                Err(missing_value(a))
            }
        } else if word(a, seq!['-', '-', 'v', 'o', 'i', 'c', 'i', 'n', 'g', '-', 'f', 'i', 'l', 'e']) {
            if i + 1 < args.len() {
                chords_from(args, i + 2, ChordsAcc { voicing_file: Some(args[(i + 1) as int]), ..acc })
            } else {
                Err(missing_value(a))
            }
        } else if word(a, seq!['-', '-', 'd', 'i', 'a', 'g', 'r', 'a', 'm']) {
            chords_from(args, i + 1, ChordsAcc { diagram: true, ..acc })
        } else if is_help(a) {
            Err(ErrorView::Usage(usage_text()))
        } else if is_flag(a) {
            Err(unknown_option(a))
        } else {
            chords_from(args, i + 1, ChordsAcc { positionals: acc.positionals.push(a), ..acc })
        }
    }
}

/// The value after a numeric flag, or the error for it.
pub open spec fn number_after(args: Seq<Seq<char>>, i: nat, max: nat) -> Result<nat, ErrorView> {
    if i + 1 < args.len() {
        match crate::text::parse_unsigned(args[(i + 1) as int], max) {
            Some(v) => Ok(v),
            None => Err(invalid_value(args[i as int], args[(i + 1) as int])),
        }
    } else {
        Err(missing_value(args[i as int]))
    }
}

/// The convert command from argument `i` on.
pub open spec fn convert_from(args: Seq<Seq<char>>, i: nat, acc: ConvertAcc) -> Result<CliView, ErrorView>
    decreases args.len() - i,
{
    if i >= args.len() {
        if acc.positionals.len() != 2 {
            Err(ErrorView::Usage(usage_text()))
        } else {
            Ok(
                CliView::Convert(
                    ConvertView {
                        input: acc.positionals[0],
                        output: acc.positionals[1],
                        tempo: acc.tempo,
                        velocity: acc.velocity,
                        strum_spread_ms: acc.strum_spread_ms,
                        downstroke_spread_ms: acc.downstroke_spread_ms,
                        upstroke_spread_ms: acc.upstroke_spread_ms,
                        voicing: acc.voicing,
                        voicing_file: acc.voicing_file,
                    },
                ),
            )
        }
    } else {
        let a = args[i as int];
        if word(a, seq!['-', '-', 't', 'e', 'm', 'p', 'o']) {
            match number_after(args, i, 65535) {
                Ok(v) => convert_from(args, i + 2, ConvertAcc { tempo: Some(v as u16), ..acc }),
                Err(e) => Err(e),
            }
        } else if word(a, seq!['-', '-', 'v', 'e', 'l', 'o', 'c', 'i', 't', 'y']) {
            match number_after(args, i, 255) {
                Ok(v) => convert_from(args, i + 2, ConvertAcc { velocity: Some(v as u8), ..acc }),
                Err(e) => Err(e),
            }
        } else if word(a, seq!['-', '-', 's', 't', 'r', 'u', 'm', '-', 's', 'p', 'r', 'e', 'a', 'd', '-', 'm', 's']) {
            match number_after(args, i, 65535) {
                Ok(v) => convert_from(args, i + 2, ConvertAcc { strum_spread_ms: Some(v as u16), ..acc }),
                Err(e) => Err(e),
            }
        } else if word(a, seq!['-', '-', 'd', 'o', 'w', 'n', 's', 't', 'r', 'o', 'k', 'e', '-', 's', 'p', 'r', 'e', 'a', 'd', '-', 'm', 's']) {
            match number_after(args, i, 65535) {
                Ok(v) => convert_from(args, i + 2, ConvertAcc { downstroke_spread_ms: Some(v as u16), ..acc }),
                Err(e) => Err(e),
            }
        } else if word(a, seq!['-', '-', 'u', 'p', 's', 't', 'r', 'o', 'k', 'e', '-', 's', 'p', 'r', 'e', 'a', 'd', '-', 'm', 's']) {
            match number_after(args, i, 65535) {
                Ok(v) => convert_from(args, i + 2, ConvertAcc { upstroke_spread_ms: Some(v as u16), ..acc }),
                Err(e) => Err(e),
            }
        } else if word(a, seq!['-', '-', 'v', 'o', 'i', 'c', 'i', 'n', 'g']) {
            if i + 1 < args.len() {
                convert_from(args, i + 2, ConvertAcc { voicing: Some(args[(i + 1) as int]), ..acc })
            } else {
                Err(missing_value(a))
            }
        } else if word(a, seq!['-', '-', 'v', 'o', 'i', 'c', 'i', 'n', 'g', '-', 'f', 'i', 'l', 'e']) {
            if i + 1 < args.len() {
                convert_from(args, i + 2, ConvertAcc { voicing_file: Some(args[(i + 1) as int]), ..acc })
            } else {
                Err(missing_value(a))
            }
        } else if is_help(a) {
            Err(ErrorView::Usage(usage_text()))
        } else if is_flag(a) {
            Err(unknown_option(a))
        } else {
            convert_from(args, i + 1, ConvertAcc { positionals: acc.positionals.push(a), ..acc })
        }
    }
}

/// What `Cli::parse` gives for the arguments after the program name.
pub open spec fn cli_spec(args: Seq<Seq<char>>) -> Result<CliView, ErrorView> {
    if args.len() > 0 && word(args[0], seq!['c', 'h', 'o', 'r', 'd', 's']) {
        chords_from(
            args,
            1,
            ChordsAcc { positionals: seq![], voicing: None, voicing_file: None, diagram: false },
        )
    } else {
        convert_from(
            args,
            0,
            ConvertAcc {
                positionals: seq![],
                tempo: None,
                velocity: None,
                strum_spread_ms: None,
                downstroke_spread_ms: None,
                upstroke_spread_ms: None,
                voicing: None,
                voicing_file: None,
            },
        )
    }
}

fn missing_value_error(flag: &[char]) -> (e: AppError)
    ensures
        e@ == missing_value(flag@),
{
    let mut m = String::new();
    push_str(&mut m, "missing value for ");
    crate::text::push_chars(&mut m, flag);
    push_str(&mut m, "\n");
    m.append(usage().as_str());
    AppError::Usage(m)
}

fn invalid_value_error(flag: &[char], value: &[char]) -> (e: AppError)
    ensures
        e@ == invalid_value(flag@, value@),
{
    let mut m = String::new();
    push_str(&mut m, "invalid value for ");
    crate::text::push_chars(&mut m, flag);
    push_str(&mut m, ": '");
    crate::text::push_chars(&mut m, value);
    push_str(&mut m, "'");
    AppError::Usage(m)
}

fn unknown_option_error(flag: &[char]) -> (e: AppError)
    ensures
        e@ == unknown_option(flag@),
{
    let mut m = String::new();
    push_str(&mut m, "unknown option '");
    crate::text::push_chars(&mut m, flag);
    push_str(&mut m, "'\n");
    m.append(usage().as_str());
    AppError::Usage(m)
}

fn usage_error() -> (e: AppError)
    ensures
        e@ == ErrorView::Usage(usage_text()),
{
    AppError::Usage(usage())
}

fn string_views_of(args: &Vec<String>) -> (r: Vec<Vec<char>>)
    ensures
        crate::text::views(r@) == crate::model::string_views(args@),
{
    let mut r: Vec<Vec<char>> = Vec::new();
    let mut i: usize = 0;
    while i < args.len()
        invariant
            i <= args.len(),
            crate::text::views(r@) == crate::model::string_views(args@).subrange(0, i as int),
        decreases args.len() - i,
    {
        let c = chars_of(args[i].as_str());
        let ghost prev = r@;
        r.push(c);
        assert(crate::text::views(r@) =~= crate::text::views(prev).push(c@));
        assert(crate::model::string_views(args@)[i as int] == args@[i as int]@);
        assert(crate::text::views(r@) =~= crate::model::string_views(args@).subrange(0, i + 1));
        i = i + 1;
    }
    assert(crate::model::string_views(args@).subrange(0, i as int) =~= crate::model::string_views(args@));
    r
}

fn number_arg(args: &Vec<Vec<char>>, i: usize, max: u64) -> (r: Result<u64, AppError>)
    requires
        i < args.len(),
        max <= u32::MAX,
    ensures
        match r {
            Ok(v) => number_after(crate::text::views(args@), i as nat, max as nat) == Ok::<nat, ErrorView>(v as nat)
                && v <= max,
            Err(e) => number_after(crate::text::views(args@), i as nat, max as nat) == Err::<nat, ErrorView>(e@),
        },
{
    let ghost av = crate::text::views(args@);
    assert(av[i as int] == args@[i as int]@);
    if i + 1 < args.len() {
        assert(av[i + 1] == args@[i + 1]@);
        match parse_uint(&args[i + 1], max) {
            Some(v) => Ok(v),
            None => Err(invalid_value_error(&args[i], &args[i + 1])),
        }
    } else {
        Err(missing_value_error(&args[i]))
    }
}

impl Cli {
    /// Parses the arguments that follow the program name.
    pub fn parse(args: Vec<String>) -> (r: Result<Self, AppError>)
        ensures
            match r {
                Ok(c) => cli_spec(crate::model::string_views(args@)) == Ok::<CliView, ErrorView>(c@),
                Err(e) => cli_spec(crate::model::string_views(args@)) == Err::<CliView, ErrorView>(e@),
            },
    {
        let av = string_views_of(&args);
        let kw: &[char] = &['c', 'h', 'o', 'r', 'd', 's'];
        assert(kw@ == seq!['c', 'h', 'o', 'r', 'd', 's']);
        if av.len() > 0 && is_word(&av[0], kw) {
            assert(crate::text::views(av@)[0] == av@[0]@);
            parse_chords(&args, &av)
        } else {
            proof {
                if av.len() > 0 {
                    assert(crate::text::views(av@)[0] == av@[0]@);
                }
            }
            parse_convert(&args, &av)
        }
    }
}

spec fn chords_acc(
    positionals: Seq<String>,
    voicing: Option<String>,
    voicing_file: Option<String>,
    diagram: bool,
) -> ChordsAcc {
    ChordsAcc {
        positionals: crate::model::string_views(positionals),
        voicing: crate::model::opt_view(voicing),
        voicing_file: crate::model::opt_view(voicing_file),
        diagram,
    }
}

fn parse_chords(args: &Vec<String>, av: &Vec<Vec<char>>) -> (r: Result<Cli, AppError>)
    requires
        crate::text::views(av@) == crate::model::string_views(args@),
        av.len() > 0,
        word(av@[0]@, seq!['c', 'h', 'o', 'r', 'd', 's']),
    ensures
        match r {
            Ok(c) => cli_spec(crate::model::string_views(args@)) == Ok::<CliView, ErrorView>(c@),
            Err(e) => cli_spec(crate::model::string_views(args@)) == Err::<CliView, ErrorView>(e@),
        },
{
    let ghost sv = crate::text::views(av@);
    assert(sv[0] == av@[0]@);
    let mut positionals: Vec<String> = Vec::new();
    let mut voicing: Option<String> = None;
    let mut voicing_file: Option<String> = None;
    let mut diagram = false;
    let k_voicing: &[char] = &['-', '-', 'v', 'o', 'i', 'c', 'i', 'n', 'g'];
    let k_vfile: &[char] = &['-', '-', 'v', 'o', 'i', 'c', 'i', 'n', 'g', '-', 'f', 'i', 'l', 'e'];
    let k_diagram: &[char] = &['-', '-', 'd', 'i', 'a', 'g', 'r', 'a', 'm'];
    let k_h: &[char] = &['-', 'h'];
    let k_help: &[char] = &['-', '-', 'h', 'e', 'l', 'p'];
    assert(k_voicing@ == seq!['-', '-', 'v', 'o', 'i', 'c', 'i', 'n', 'g']);
    assert(k_vfile@ == seq!['-', '-', 'v', 'o', 'i', 'c', 'i', 'n', 'g', '-', 'f', 'i', 'l', 'e']);
    assert(k_diagram@ == seq!['-', '-', 'd', 'i', 'a', 'g', 'r', 'a', 'm']);
    assert(k_h@ == seq!['-', 'h']);
    assert(k_help@ == seq!['-', '-', 'h', 'e', 'l', 'p']);
    assert(crate::model::string_views(positionals@) =~= Seq::<Seq<char>>::empty());
    assert(cli_spec(sv) == chords_from(sv, 1, chords_acc(positionals@, voicing, voicing_file, diagram)));
    let mut i: usize = 1;
    while i < av.len()
        invariant
            1 <= i <= av.len(),
            sv == crate::text::views(av@),
            sv == crate::model::string_views(args@),
            av@.len() == args@.len(),
            k_voicing@ == seq!['-', '-', 'v', 'o', 'i', 'c', 'i', 'n', 'g'],
            k_vfile@ == seq!['-', '-', 'v', 'o', 'i', 'c', 'i', 'n', 'g', '-', 'f', 'i', 'l', 'e'],
            k_diagram@ == seq!['-', '-', 'd', 'i', 'a', 'g', 'r', 'a', 'm'],
            k_h@ == seq!['-', 'h'],
            k_help@ == seq!['-', '-', 'h', 'e', 'l', 'p'],
            cli_spec(sv) == chords_from(sv, i as nat, chords_acc(positionals@, voicing, voicing_file, diagram)),
        decreases av.len() - i,
    {
        let a = &av[i];
        assert(sv[i as int] == a@);
        if is_word(a, k_voicing) {
            if i + 1 < av.len() {
                assert(sv[i + 1] == args@[i + 1]@);
                voicing = Some(args[i + 1].clone());
                i = i + 2;
            } else {
                return Err(missing_value_error(a));
            }
        } else if is_word(a, k_vfile) {
            if i + 1 < av.len() {
                assert(sv[i + 1] == args@[i + 1]@);
                voicing_file = Some(args[i + 1].clone());
                i = i + 2;
            } else {
                return Err(missing_value_error(a));
            }
        } else if is_word(a, k_diagram) {
            diagram = true;
            i = i + 1;
        } else if is_word(a, k_h) || is_word(a, k_help) {
            return Err(usage_error());
        } else if a.len() > 0 && a[0] == '-' {
            return Err(unknown_option_error(a));
        } else {
            assert(sv[i as int] == args@[i as int]@);
            let ghost prev = positionals@;
            positionals.push(args[i].clone());
            assert(crate::model::string_views(positionals@) =~= crate::model::string_views(prev).push(sv[i as int]));
            i = i + 1;
        }
    }
    if positionals.len() != 1 {
        return Err(usage_error());
    }
    let chord = positionals[0].clone();
    assert(crate::model::string_views(positionals@)[0] == positionals@[0]@);
    Ok(Cli::Chords(ChordsCli { chord, voicing, voicing_file, diagram }))
}

spec fn convert_acc(
    positionals: Seq<String>,
    tempo: Option<u16>,
    velocity: Option<u8>,
    strum_spread_ms: Option<u16>,
    downstroke_spread_ms: Option<u16>,
    upstroke_spread_ms: Option<u16>,
    voicing: Option<String>,
    voicing_file: Option<String>,
) -> ConvertAcc {
    ConvertAcc {
        positionals: crate::model::string_views(positionals),
        tempo,
        velocity,
        strum_spread_ms,
        downstroke_spread_ms,
        upstroke_spread_ms,
        voicing: crate::model::opt_view(voicing),
        voicing_file: crate::model::opt_view(voicing_file),
    }
}

fn parse_convert(args: &Vec<String>, av: &Vec<Vec<char>>) -> (r: Result<Cli, AppError>)
    requires
        crate::text::views(av@) == crate::model::string_views(args@),
        !(av.len() > 0 && word(av@[0]@, seq!['c', 'h', 'o', 'r', 'd', 's'])),
    ensures
        match r {
            Ok(c) => cli_spec(crate::model::string_views(args@)) == Ok::<CliView, ErrorView>(c@),
            Err(e) => cli_spec(crate::model::string_views(args@)) == Err::<CliView, ErrorView>(e@),
        },
{
    let ghost sv = crate::text::views(av@);
    proof {
        if av.len() > 0 {
            assert(sv[0] == av@[0]@);
        }
    }
    let mut positionals: Vec<String> = Vec::new();
    let mut tempo: Option<u16> = None;
    let mut velocity: Option<u8> = None;
    let mut strum_spread_ms: Option<u16> = None;
    let mut downstroke_spread_ms: Option<u16> = None;
    let mut upstroke_spread_ms: Option<u16> = None;
    let mut voicing: Option<String> = None;
    let mut voicing_file: Option<String> = None;
    let k_tempo: &[char] = &['-', '-', 't', 'e', 'm', 'p', 'o'];
    let k_velocity: &[char] = &['-', '-', 'v', 'e', 'l', 'o', 'c', 'i', 't', 'y'];
    let k_spread: &[char] = &['-', '-', 's', 't', 'r', 'u', 'm', '-', 's', 'p', 'r', 'e', 'a', 'd', '-', 'm', 's'];
    let k_down: &[char] = &['-', '-', 'd', 'o', 'w', 'n', 's', 't', 'r', 'o', 'k', 'e', '-', 's', 'p', 'r', 'e', 'a', 'd', '-', 'm', 's'];
    let k_up: &[char] = &['-', '-', 'u', 'p', 's', 't', 'r', 'o', 'k', 'e', '-', 's', 'p', 'r', 'e', 'a', 'd', '-', 'm', 's'];
    let k_voicing: &[char] = &['-', '-', 'v', 'o', 'i', 'c', 'i', 'n', 'g'];
    let k_vfile: &[char] = &['-', '-', 'v', 'o', 'i', 'c', 'i', 'n', 'g', '-', 'f', 'i', 'l', 'e'];
    let k_h: &[char] = &['-', 'h'];
    let k_help: &[char] = &['-', '-', 'h', 'e', 'l', 'p'];
    assert(k_tempo@ == seq!['-', '-', 't', 'e', 'm', 'p', 'o']);
    assert(k_velocity@ == seq!['-', '-', 'v', 'e', 'l', 'o', 'c', 'i', 't', 'y']);
    assert(k_spread@ == seq!['-', '-', 's', 't', 'r', 'u', 'm', '-', 's', 'p', 'r', 'e', 'a', 'd', '-', 'm', 's']);
    assert(k_down@ == seq!['-', '-', 'd', 'o', 'w', 'n', 's', 't', 'r', 'o', 'k', 'e', '-', 's', 'p', 'r', 'e', 'a', 'd', '-', 'm', 's']);
    assert(k_up@ == seq!['-', '-', 'u', 'p', 's', 't', 'r', 'o', 'k', 'e', '-', 's', 'p', 'r', 'e', 'a', 'd', '-', 'm', 's']);
    assert(k_voicing@ == seq!['-', '-', 'v', 'o', 'i', 'c', 'i', 'n', 'g']);
    assert(k_vfile@ == seq!['-', '-', 'v', 'o', 'i', 'c', 'i', 'n', 'g', '-', 'f', 'i', 'l', 'e']);
    assert(k_h@ == seq!['-', 'h']);
    assert(k_help@ == seq!['-', '-', 'h', 'e', 'l', 'p']);
    assert(crate::model::string_views(positionals@) =~= Seq::<Seq<char>>::empty());
    let mut i: usize = 0;
    while i < av.len()
        invariant
            i <= av.len(),
            sv == crate::text::views(av@),
            sv == crate::model::string_views(args@),
            av@.len() == args@.len(),
            k_tempo@ == seq!['-', '-', 't', 'e', 'm', 'p', 'o'],
            k_velocity@ == seq!['-', '-', 'v', 'e', 'l', 'o', 'c', 'i', 't', 'y'],
            k_spread@ == seq!['-', '-', 's', 't', 'r', 'u', 'm', '-', 's', 'p', 'r', 'e', 'a', 'd', '-', 'm', 's'],
            k_down@ == seq!['-', '-', 'd', 'o', 'w', 'n', 's', 't', 'r', 'o', 'k', 'e', '-', 's', 'p', 'r', 'e', 'a', 'd', '-', 'm', 's'],
            k_up@ == seq!['-', '-', 'u', 'p', 's', 't', 'r', 'o', 'k', 'e', '-', 's', 'p', 'r', 'e', 'a', 'd', '-', 'm', 's'],
            k_voicing@ == seq!['-', '-', 'v', 'o', 'i', 'c', 'i', 'n', 'g'],
            k_vfile@ == seq!['-', '-', 'v', 'o', 'i', 'c', 'i', 'n', 'g', '-', 'f', 'i', 'l', 'e'],
            k_h@ == seq!['-', 'h'],
            k_help@ == seq!['-', '-', 'h', 'e', 'l', 'p'],
            cli_spec(sv) == convert_from(
                sv,
                i as nat,
                convert_acc(
                    positionals@,
                    tempo,
                    velocity,
                    strum_spread_ms,
                    downstroke_spread_ms,
                    upstroke_spread_ms,
                    voicing,
                    voicing_file,
                ),
            ),
        decreases av.len() - i,
    {
        let a = &av[i];
        assert(sv[i as int] == a@);
        if is_word(a, k_tempo) {
            let v = number_arg(av, i, 65535)?;
            tempo = Some(v as u16);
            i = i + 2;
        } else if is_word(a, k_velocity) {
            let v = number_arg(av, i, 255)?;
            velocity = Some(v as u8);
            i = i + 2;
        } else if is_word(a, k_spread) {
            let v = number_arg(av, i, 65535)?;
            strum_spread_ms = Some(v as u16);
            i = i + 2;
        } else if is_word(a, k_down) {
            let v = number_arg(av, i, 65535)?;
            downstroke_spread_ms = Some(v as u16);
            i = i + 2;
        } else if is_word(a, k_up) {
            let v = number_arg(av, i, 65535)?;
            upstroke_spread_ms = Some(v as u16);
            i = i + 2;
        } else if is_word(a, k_voicing) {
            if i + 1 < av.len() {
                assert(sv[i + 1] == args@[i + 1]@);
                voicing = Some(args[i + 1].clone());
                i = i + 2;
            } else {
                return Err(missing_value_error(a));
            }
        } else if is_word(a, k_vfile) {
            if i + 1 < av.len() {
                assert(sv[i + 1] == args@[i + 1]@);
                voicing_file = Some(args[i + 1].clone());
                i = i + 2;
            } else {
                return Err(missing_value_error(a));
            }
        } else if is_word(a, k_h) || is_word(a, k_help) {
            return Err(usage_error());
        } else if a.len() > 0 && a[0] == '-' {
            return Err(unknown_option_error(a));
        } else {
            assert(sv[i as int] == args@[i as int]@);
            let ghost prev = positionals@;
            positionals.push(args[i].clone());
            assert(crate::model::string_views(positionals@) =~= crate::model::string_views(prev).push(sv[i as int]));
            i = i + 1;
        }
    }
    if positionals.len() != 2 {
        return Err(usage_error());
    }
    let input = positionals[0].clone();
    let output = positionals[1].clone();
    assert(crate::model::string_views(positionals@)[0] == positionals@[0]@);
    assert(crate::model::string_views(positionals@)[1] == positionals@[1]@);
    Ok(
        Cli::Convert(
            ConvertCli {
                input,
                output,
                tempo,
                velocity,
                strum_spread_ms,
                downstroke_spread_ms,
                upstroke_spread_ms,
                voicing,
                voicing_file,
            },
        ),
    )
}

impl ConvertCli {
    /// Writes the options given on the command line over the song's
    /// metadata: command-line flags win over the file.
    pub fn apply_to(&self, metadata: &mut crate::model::Metadata)
        ensures
            final(metadata)@ == (crate::model::MetadataView {
                tempo: if self.tempo is Some { self.tempo } else { old(metadata)@.tempo },
                velocity: if self.velocity is Some { self.velocity } else { old(metadata)@.velocity },
                strum_spread_ms: if self.strum_spread_ms is Some {
                    self.strum_spread_ms
                } else {
                    old(metadata)@.strum_spread_ms
                },
                downstroke_spread_ms: if self.downstroke_spread_ms is Some {
                    self.downstroke_spread_ms
                } else {
                    old(metadata)@.downstroke_spread_ms
                },
                upstroke_spread_ms: if self.upstroke_spread_ms is Some {
                    self.upstroke_spread_ms
                } else {
                    old(metadata)@.upstroke_spread_ms
                },
                voicing: if self.voicing is Some {
                    crate::model::opt_view(self.voicing)
                } else {
                    old(metadata)@.voicing
                },
                ..old(metadata)@
            }),
    {
        if self.tempo.is_some() {
            metadata.tempo = self.tempo;
        }
        if self.velocity.is_some() {
            metadata.velocity = self.velocity;
        }
        if self.strum_spread_ms.is_some() {
            metadata.strum_spread_ms = self.strum_spread_ms;
        }
        if self.downstroke_spread_ms.is_some() {
            metadata.downstroke_spread_ms = self.downstroke_spread_ms;
        }
        if self.upstroke_spread_ms.is_some() {
            metadata.upstroke_spread_ms = self.upstroke_spread_ms;
        }
        match &self.voicing {
            Some(v) => {
                metadata.voicing = Some(v.clone());
            },
            None => {},
        }
    }
}

proof fn lemma_plain_run(args: Seq<Seq<char>>, i: nat, j: nat, acc: ConvertAcc)
    requires
        i <= j <= args.len(),
        forall|k: int| i <= k < j ==> !is_flag(#[trigger] args[k]),
    ensures
        convert_from(args, i, acc) == convert_from(
            args,
            j,
            ConvertAcc { positionals: acc.positionals + args.subrange(i as int, j as int), ..acc },
        ),
    decreases j - i,
{
    if i < j {
        let a = args[i as int];
        assert(!is_flag(a));
        let next = ConvertAcc { positionals: acc.positionals.push(a), ..acc };
        lemma_plain_run(args, i + 1, j, next);
        assert(next.positionals + args.subrange((i + 1) as int, j as int) =~= acc.positionals
            + args.subrange(i as int, j as int));
    } else {
        assert(acc.positionals + args.subrange(i as int, j as int) =~= acc.positionals);
    }
}

/// Arguments none of which is an option (none starts with `-`), the first of them
/// not `chords`, make a convert command exactly when there are two of them: the
/// input file, then the output file, with every option left unset. Any other
/// number of them is a usage error.
pub proof fn lemma_plain_arguments(args: Seq<Seq<char>>)
    requires
        forall|j: int| 0 <= j < args.len() ==> !is_flag(#[trigger] args[j]),
        !(args.len() > 0 && word(args[0], seq!['c', 'h', 'o', 'r', 'd', 's'])),
    ensures
        cli_spec(args) == if args.len() == 2 {
            Ok::<CliView, ErrorView>(
                CliView::Convert(
                    ConvertView {
                        input: args[0],
                        output: args[1],
                        tempo: None,
                        velocity: None,
                        strum_spread_ms: None,
                        downstroke_spread_ms: None,
                        upstroke_spread_ms: None,
                        voicing: None,
                        voicing_file: None,
                    },
                ),
            )
        } else {
            Err::<CliView, ErrorView>(ErrorView::Usage(usage_text()))
        },
{
    let acc = ConvertAcc {
        positionals: seq![],
        tempo: None,
        velocity: None,
        strum_spread_ms: None,
        downstroke_spread_ms: None,
        upstroke_spread_ms: None,
        voicing: None,
        voicing_file: None,
    };
    lemma_plain_run(args, 0, args.len(), acc);
    assert(acc.positionals + args.subrange(0, args.len() as int) =~= args);
}

/// A command-line option that takes a value, with a value that it accepts.
pub open spec fn option_value_ok(flag: Seq<char>, v: Seq<char>) -> bool {
    ||| word(flag, seq!['-', '-', 't', 'e', 'm', 'p', 'o']) && crate::text::parse_unsigned(v, 65535) is Some
    ||| word(flag, seq!['-', '-', 'v', 'e', 'l', 'o', 'c', 'i', 't', 'y']) && crate::text::parse_unsigned(v, 255) is Some
    ||| word(flag, seq!['-', '-', 's', 't', 'r', 'u', 'm', '-', 's', 'p', 'r', 'e', 'a', 'd', '-', 'm', 's'])
        && crate::text::parse_unsigned(v, 65535) is Some
    ||| word(flag, seq!['-', '-', 'd', 'o', 'w', 'n', 's', 't', 'r', 'o', 'k', 'e', '-', 's', 'p', 'r', 'e', 'a', 'd', '-', 'm', 's'])
        && crate::text::parse_unsigned(v, 65535) is Some
    ||| word(flag, seq!['-', '-', 'u', 'p', 's', 't', 'r', 'o', 'k', 'e', '-', 's', 'p', 'r', 'e', 'a', 'd', '-', 'm', 's'])
        && crate::text::parse_unsigned(v, 65535) is Some
    ||| word(flag, seq!['-', '-', 'v', 'o', 'i', 'c', 'i', 'n', 'g'])
    ||| word(flag, seq!['-', '-', 'v', 'o', 'i', 'c', 'i', 'n', 'g', '-', 'f', 'i', 'l', 'e'])
}

/// The convert command `c` with the field that `flag` names set from `v`.
pub open spec fn with_option(c: ConvertView, flag: Seq<char>, v: Seq<char>) -> ConvertView {
    let n = crate::text::parse_unsigned(v, 65535)->Some_0;
    if word(flag, seq!['-', '-', 't', 'e', 'm', 'p', 'o']) {
        ConvertView { tempo: Some(n as u16), ..c }
    } else if word(flag, seq!['-', '-', 'v', 'e', 'l', 'o', 'c', 'i', 't', 'y']) {
        ConvertView { velocity: Some(crate::text::parse_unsigned(v, 255)->Some_0 as u8), ..c }
    } else if word(flag, seq!['-', '-', 's', 't', 'r', 'u', 'm', '-', 's', 'p', 'r', 'e', 'a', 'd', '-', 'm', 's']) {
        ConvertView { strum_spread_ms: Some(n as u16), ..c }
    } else if word(flag, seq!['-', '-', 'd', 'o', 'w', 'n', 's', 't', 'r', 'o', 'k', 'e', '-', 's', 'p', 'r', 'e', 'a', 'd', '-', 'm', 's']) {
        ConvertView { downstroke_spread_ms: Some(n as u16), ..c }
    } else if word(flag, seq!['-', '-', 'u', 'p', 's', 't', 'r', 'o', 'k', 'e', '-', 's', 'p', 'r', 'e', 'a', 'd', '-', 'm', 's']) {
        ConvertView { upstroke_spread_ms: Some(n as u16), ..c }
    } else if word(flag, seq!['-', '-', 'v', 'o', 'i', 'c', 'i', 'n', 'g']) {
        ConvertView { voicing: Some(v), ..c }
    } else {
        ConvertView { voicing_file: Some(v), ..c }
    }
}

/// An option with a value it accepts may stand anywhere among plain arguments
/// (none of them starting with `-`, the first of them not `chords`): the command is what
/// the plain arguments alone give, with that option's field set from the value.
pub proof fn lemma_option_anywhere(p: Seq<Seq<char>>, flag: Seq<char>, v: Seq<char>, q: Seq<Seq<char>>)
    requires
        forall|k: int| 0 <= k < p.len() ==> !is_flag(#[trigger] p[k]),
        forall|k: int| 0 <= k < q.len() ==> !is_flag(#[trigger] q[k]),
        !((p + q).len() > 0 && word((p + q)[0], seq!['c', 'h', 'o', 'r', 'd', 's'])),
        option_value_ok(flag, v),
    ensures
        cli_spec(p + seq![flag, v] + q) == match cli_spec(p + q) {
            Ok(CliView::Convert(c)) => Ok::<CliView, ErrorView>(CliView::Convert(with_option(c, flag, v))),
            r => r,
        },
{
    let args = p + seq![flag, v] + q;
    let plain = p + q;
    let acc = ConvertAcc {
        positionals: seq![],
        tempo: None,
        velocity: None,
        strum_spread_ms: None,
        downstroke_spread_ms: None,
        upstroke_spread_ms: None,
        voicing: None,
        voicing_file: None,
    };
    let m = p.len();
    assert(args[m as int] == flag);
    assert(args[(m + 1) as int] == v);
    assert(flag.len() > 0 && flag[0] == '-');
    if p.len() == 0 {
        assert(args[0] == flag);
    } else {
        assert(args[0] == p[0]);
    }
    assert forall|k: int| 0 <= k < m implies !is_flag(#[trigger] args[k]) by {
        assert(args[k] == p[k]);
    }
    assert forall|k: int| m + 2 <= k < args.len() implies !is_flag(#[trigger] args[k]) by {
        assert(args[k] == q[k - m - 2]);
    }
    assert forall|k: int| 0 <= k < plain.len() implies !is_flag(#[trigger] plain[k]) by {
        if k < m {
            assert(plain[k] == p[k]);
        } else {
            assert(plain[k] == q[k - m]);
        }
    }
    if plain.len() > 0 {
        if m > 0 {
            assert(plain[0] == p[0]);
        } else {
            assert(plain[0] == q[0]);
        }
    }
    lemma_plain_arguments(plain);
    lemma_plain_run(args, 0, m, acc);
    let acc1 = ConvertAcc { positionals: acc.positionals + args.subrange(0, m as int), ..acc };
    assert(args.subrange(0, m as int) =~= p);
    let c0 = with_option(
        ConvertView {
            input: seq![],
            output: seq![],
            tempo: acc1.tempo,
            velocity: acc1.velocity,
            strum_spread_ms: acc1.strum_spread_ms,
            downstroke_spread_ms: acc1.downstroke_spread_ms,
            upstroke_spread_ms: acc1.upstroke_spread_ms,
            voicing: acc1.voicing,
            voicing_file: acc1.voicing_file,
        },
        flag,
        v,
    );
    let acc2 = ConvertAcc {
        positionals: acc1.positionals,
        tempo: c0.tempo,
        velocity: c0.velocity,
        strum_spread_ms: c0.strum_spread_ms,
        downstroke_spread_ms: c0.downstroke_spread_ms,
        upstroke_spread_ms: c0.upstroke_spread_ms,
        voicing: c0.voicing,
        voicing_file: c0.voicing_file,
    };
    assert(convert_from(args, m, acc1) == convert_from(args, m + 2, acc2));
    lemma_plain_run(args, m + 2, args.len(), acc2);
    assert(args.subrange((m + 2) as int, args.len() as int) =~= q);
    assert(p + q =~= plain);
}

/// One of the seven options of the convert command, each of which takes a value.
pub open spec fn is_value_option(a: Seq<char>) -> bool {
    word(a, seq!['-', '-', 't', 'e', 'm', 'p', 'o']) || word(a, seq!['-', '-', 'v', 'e', 'l', 'o', 'c', 'i', 't', 'y']) || word(a, seq!['-', '-', 's', 't', 'r', 'u', 'm', '-', 's', 'p', 'r', 'e', 'a', 'd', '-', 'm', 's']) || word(a, seq!['-', '-', 'd', 'o', 'w', 'n', 's', 't', 'r', 'o', 'k', 'e', '-', 's', 'p', 'r', 'e', 'a', 'd', '-', 'm', 's'])
        || word(a, seq!['-', '-', 'u', 'p', 's', 't', 'r', 'o', 'k', 'e', '-', 's', 'p', 'r', 'e', 'a', 'd', '-', 'm', 's']) || word(a, seq!['-', '-', 'v', 'o', 'i', 'c', 'i', 'n', 'g']) || word(a, seq!['-', '-', 'v', 'o', 'i', 'c', 'i', 'n', 'g', '-', 'f', 'i', 'l', 'e'])
}

/// The convert arguments from `i` on read as positionals and option-value pairs:
/// an option takes the argument after it as its value, whatever that is; there is
/// no reading when an option has no value or another `-` argument stands where an
/// option or a positional would.
pub open spec fn reading(args: Seq<Seq<char>>, i: nat) -> Option<(Seq<Seq<char>>, Seq<(Seq<char>, Seq<char>)>)>
    decreases args.len() - i,
{
    if i >= args.len() {
        Some((seq![], seq![]))
    } else {
        let a = args[i as int];
        if is_value_option(a) {
            if i + 1 < args.len() {
                match reading(args, i + 2) {
                    Some((p, o)) => Some((p, seq![(a, args[(i + 1) as int])] + o)),
                    None => None,
                }
            } else {
                None
            }
        } else if is_flag(a) {
            None
        } else {
            match reading(args, i + 1) {
                Some((p, o)) => Some((seq![a] + p, o)),
                None => None,
            }
        }
    }
}

/// The value of the last pair for option `key`, if any.
pub open spec fn last_value(o: Seq<(Seq<char>, Seq<char>)>, key: Seq<char>) -> Option<Seq<char>>
    decreases o.len(),
{
    if o.len() == 0 {
        None
    } else {
        match last_value(o.drop_first(), key) {
            Some(v) => Some(v),
            None => if word(o[0].0, key) {
                Some(o[0].1)
            } else {
                None
            },
        }
    }
}

/// Every pair holds a value that its option accepts.
pub open spec fn values_ok(o: Seq<(Seq<char>, Seq<char>)>) -> bool {
    forall|k: int| 0 <= k < o.len() ==> option_value_ok(#[trigger] o[k].0, o[k].1)
}

pub open spec fn last_u16(cur: Option<u16>, o: Seq<(Seq<char>, Seq<char>)>, key: Seq<char>) -> Option<u16> {
    match last_value(o, key) {
        Some(v) => Some(crate::text::parse_unsigned(v, 65535)->Some_0 as u16),
        None => cur,
    }
}

pub open spec fn last_text(cur: Option<Seq<char>>, o: Seq<(Seq<char>, Seq<char>)>, key: Seq<char>) -> Option<Seq<char>> {
    match last_value(o, key) {
        Some(v) => Some(v),
        None => cur,
    }
}

/// The command that a reading gives, after what `acc` already holds: the two
/// positionals as input and output, and each option at its last value.
pub open spec fn command_of(acc: ConvertAcc, p: Seq<Seq<char>>, o: Seq<(Seq<char>, Seq<char>)>) -> ConvertView {
    let ps = acc.positionals + p;
    ConvertView {
        input: ps[0],
        output: ps[1],
        tempo: last_u16(acc.tempo, o, seq!['-', '-', 't', 'e', 'm', 'p', 'o']),
        velocity: match last_value(o, seq!['-', '-', 'v', 'e', 'l', 'o', 'c', 'i', 't', 'y']) {
            Some(v) => Some(crate::text::parse_unsigned(v, 255)->Some_0 as u8),
            None => acc.velocity,
        },
        strum_spread_ms: last_u16(acc.strum_spread_ms, o, seq!['-', '-', 's', 't', 'r', 'u', 'm', '-', 's', 'p', 'r', 'e', 'a', 'd', '-', 'm', 's']),
        downstroke_spread_ms: last_u16(acc.downstroke_spread_ms, o, seq!['-', '-', 'd', 'o', 'w', 'n', 's', 't', 'r', 'o', 'k', 'e', '-', 's', 'p', 'r', 'e', 'a', 'd', '-', 'm', 's']),
        upstroke_spread_ms: last_u16(acc.upstroke_spread_ms, o, seq!['-', '-', 'u', 'p', 's', 't', 'r', 'o', 'k', 'e', '-', 's', 'p', 'r', 'e', 'a', 'd', '-', 'm', 's']),
        voicing: last_text(acc.voicing, o, seq!['-', '-', 'v', 'o', 'i', 'c', 'i', 'n', 'g']),
        voicing_file: last_text(acc.voicing_file, o, seq!['-', '-', 'v', 'o', 'i', 'c', 'i', 'n', 'g', '-', 'f', 'i', 'l', 'e']),
    }
}

proof fn lemma_convert_reading_from(args: Seq<Seq<char>>, i: nat, acc: ConvertAcc)
    requires
        i <= args.len(),
    ensures
        convert_from(args, i, acc) is Ok <==> (reading(args, i) matches Some((p, o)) && acc.positionals.len()
            + p.len() == 2 && values_ok(o)),
        convert_from(args, i, acc) is Ok ==> convert_from(args, i, acc) == Ok::<CliView, ErrorView>(
            CliView::Convert(command_of(acc, reading(args, i)->Some_0.0, reading(args, i)->Some_0.1)),
        ),
        convert_from(args, i, acc) is Err ==> convert_from(args, i, acc)->Err_0 is Usage,
    decreases args.len() - i,
{
    if i < args.len() {
        let a = args[i as int];
        if is_value_option(a) {
            if i + 1 < args.len() {
                let v = args[(i + 1) as int];
                let acc2 = if word(a, seq!['-', '-', 't', 'e', 'm', 'p', 'o']) {
                    ConvertAcc { tempo: Some(crate::text::parse_unsigned(v, 65535)->Some_0 as u16), ..acc }
                } else if word(a, seq!['-', '-', 'v', 'e', 'l', 'o', 'c', 'i', 't', 'y']) {
                    ConvertAcc { velocity: Some(crate::text::parse_unsigned(v, 255)->Some_0 as u8), ..acc }
                } else if word(a, seq!['-', '-', 's', 't', 'r', 'u', 'm', '-', 's', 'p', 'r', 'e', 'a', 'd', '-', 'm', 's']) {
                    ConvertAcc { strum_spread_ms: Some(crate::text::parse_unsigned(v, 65535)->Some_0 as u16), ..acc }
                } else if word(a, seq!['-', '-', 'd', 'o', 'w', 'n', 's', 't', 'r', 'o', 'k', 'e', '-', 's', 'p', 'r', 'e', 'a', 'd', '-', 'm', 's']) {
                    ConvertAcc { downstroke_spread_ms: Some(crate::text::parse_unsigned(v, 65535)->Some_0 as u16), ..acc }
                } else if word(a, seq!['-', '-', 'u', 'p', 's', 't', 'r', 'o', 'k', 'e', '-', 's', 'p', 'r', 'e', 'a', 'd', '-', 'm', 's']) {
                    ConvertAcc { upstroke_spread_ms: Some(crate::text::parse_unsigned(v, 65535)->Some_0 as u16), ..acc }
                } else if word(a, seq!['-', '-', 'v', 'o', 'i', 'c', 'i', 'n', 'g']) {
                    ConvertAcc { voicing: Some(v), ..acc }
                } else {
                    ConvertAcc { voicing_file: Some(v), ..acc }
                };
                lemma_convert_reading_from(args, i + 2, acc2);
                if let Some((p, o)) = reading(args, i + 2) {
                    let o2 = seq![(a, v)] + o;
                    assert(o2.drop_first() =~= o);
                    assert(o2[0] == (a, v));
                    if values_ok(o2) {
                        assert(option_value_ok(o2[0].0, o2[0].1));
                        assert forall|k: int| 0 <= k < o.len() implies option_value_ok(#[trigger] o[k].0, o[k].1) by {
                            assert(o2[k + 1] == o[k]);
                        }
                    }
                    if option_value_ok(a, v) && values_ok(o) {
                        assert forall|k: int| 0 <= k < o2.len() implies option_value_ok(#[trigger] o2[k].0, o2[k].1) by {
                            if k > 0 {
                                assert(o2[k] == o[k - 1]);
                            }
                        }
                    }
                }
            }
        } else if !is_flag(a) {
            let acc2 = ConvertAcc { positionals: acc.positionals.push(a), ..acc };
            lemma_convert_reading_from(args, i + 1, acc2);
            if let Some((p, o)) = reading(args, i + 1) {
                assert(acc2.positionals + p =~= acc.positionals + (seq![a] + p));
            }
        }
    } else {
        assert(acc.positionals + seq![] =~= acc.positionals);
    }
}

/// Law: arguments that do not start with `chords` make a convert command exactly
/// when they read as positionals and option-value pairs (every `-` argument that
/// is not an option's value is one of the seven options, and each option has a
/// value after it), every value is one its option accepts, and exactly two
/// positionals remain; the command then has the first positional as input, the
/// second as output, and each option at the last value given for it, or unset.
/// Anything else, `-h` and `--help` among it, is a usage error.
pub proof fn lemma_convert_arguments(args: Seq<Seq<char>>)
    requires
        !(args.len() > 0 && word(args[0], seq!['c', 'h', 'o', 'r', 'd', 's'])),
    ensures
        cli_spec(args) is Ok <==> (reading(args, 0) matches Some((p, o)) && p.len() == 2 && values_ok(o)),
        cli_spec(args) is Ok ==> cli_spec(args) == Ok::<CliView, ErrorView>(
            CliView::Convert(command_of(
                ConvertAcc {
                    positionals: seq![],
                    tempo: None,
                    velocity: None,
                    strum_spread_ms: None,
                    downstroke_spread_ms: None,
                    upstroke_spread_ms: None,
                    voicing: None,
                    voicing_file: None,
                },
                reading(args, 0)->Some_0.0,
                reading(args, 0)->Some_0.1,
            )),
        ),
        cli_spec(args) is Err ==> cli_spec(args)->Err_0 is Usage,
{
    let acc = ConvertAcc {
        positionals: seq![],
        tempo: None,
        velocity: None,
        strum_spread_ms: None,
        downstroke_spread_ms: None,
        upstroke_spread_ms: None,
        voicing: None,
        voicing_file: None,
    };
    lemma_convert_reading_from(args, 0, acc);
}

} // verus!
