use strum2midi::cli::{usage, Cli};
use strum2midi::model::Metadata;

fn args(list: &[&str]) -> Vec<String> {
    list.iter().map(|a| a.to_string()).collect()
}

#[test]
fn parses_positionals_and_flags() {
    let cli = Cli::parse(vec![
        "in.strum".to_string(),
        "out.mid".to_string(),
        "--tempo".to_string(),
        "100".to_string(),
        "--velocity".to_string(),
        "85".to_string(),
        "--downstroke-spread-ms".to_string(),
        "120".to_string(),
        "--upstroke-spread-ms".to_string(),
        "90".to_string(),
    ])
    .unwrap();

    let Cli::Convert(cli) = cli else {
        panic!("expected convert command");
    };
    assert_eq!(cli.input, "in.strum");
    assert_eq!(cli.output, "out.mid");
    assert_eq!(cli.tempo, Some(100));
    assert_eq!(cli.velocity, Some(85));
    assert_eq!(cli.downstroke_spread_ms, Some(120));
    assert_eq!(cli.upstroke_spread_ms, Some(90));
}

#[test]
fn parses_chords_command() {
    let cli = Cli::parse(vec![
        "chords".to_string(),
        "C".to_string(),
        "--voicing".to_string(),
        "folk".to_string(),
        "--diagram".to_string(),
    ])
    .unwrap();

    let Cli::Chords(cli) = cli else {
        panic!("expected chords command");
    };
    assert_eq!(cli.chord, "C");
    assert_eq!(cli.voicing.as_deref(), Some("folk"));
    assert!(cli.diagram);
}

#[test]
fn reports_missing_and_invalid_flag_values() {
    let err = Cli::parse(args(&["in.strum", "out.mid", "--tempo"])).unwrap_err();
    assert_eq!(err.to_string(), format!("missing value for --tempo\n{}", usage()));
    let err = Cli::parse(args(&["in.strum", "out.mid", "--velocity", "300"])).unwrap_err();
    assert_eq!(err.to_string(), "invalid value for --velocity: '300'");
    let err = Cli::parse(args(&["in.strum", "out.mid", "--strum-spread-ms", "-5"])).unwrap_err();
    assert_eq!(err.to_string(), "invalid value for --strum-spread-ms: '-5'");
}

#[test]
fn reports_unknown_options_and_wrong_positional_counts() {
    let err = Cli::parse(args(&["in.strum", "out.mid", "--loud"])).unwrap_err();
    assert_eq!(err.to_string(), format!("unknown option '--loud'\n{}", usage()));
    assert_eq!(Cli::parse(args(&["in.strum"])).unwrap_err().to_string(), usage());
    assert_eq!(Cli::parse(args(&["a", "b", "c"])).unwrap_err().to_string(), usage());
    assert_eq!(Cli::parse(args(&["--help"])).unwrap_err().to_string(), usage());
    assert_eq!(Cli::parse(args(&["chords"])).unwrap_err().to_string(), usage());
    assert_eq!(Cli::parse(args(&["chords", "C", "-h"])).unwrap_err().to_string(), usage());
}

#[test]
fn parses_all_convert_flags_and_a_plus_sign() {
    let cli = Cli::parse(args(&[
        "--voicing", "rock", "song.strum", "--voicing-file", "my.yaml", "song.mid", "--strum-spread-ms", "+15",
    ]))
    .unwrap();
    let Cli::Convert(cli) = cli else {
        panic!("expected convert command");
    };
    assert_eq!(cli.input, "song.strum");
    assert_eq!(cli.output, "song.mid");
    assert_eq!(cli.voicing.as_deref(), Some("rock"));
    assert_eq!(cli.voicing_file.as_deref(), Some("my.yaml"));
    assert_eq!(cli.strum_spread_ms, Some(15));
    assert_eq!(cli.tempo, None);
}

#[test]
fn command_line_values_override_metadata() {
    let cli = Cli::parse(args(&["a", "b", "--tempo", "100", "--voicing", "rock"])).unwrap();
    let Cli::Convert(cli) = cli else {
        panic!("expected convert command");
    };
    let mut metadata = Metadata::default();
    metadata.tempo = Some(92);
    metadata.velocity = Some(64);
    metadata.voicing = Some("folk".to_string());
    cli.apply_to(&mut metadata);
    assert_eq!(metadata.tempo, Some(100));
    assert_eq!(metadata.velocity, Some(64));
    assert_eq!(metadata.voicing.as_deref(), Some("rock"));
}

#[test]
fn plain_arguments_are_input_then_output() {
    let Cli::Convert(cli) = Cli::parse(args(&["song.strum", "song.mid"])).unwrap() else {
        panic!("expected convert command");
    };
    assert_eq!(cli.input, "song.strum");
    assert_eq!(cli.output, "song.mid");
    assert_eq!(cli.tempo, None);
    assert_eq!(cli.velocity, None);
    assert_eq!(cli.strum_spread_ms, None);
    assert_eq!(cli.downstroke_spread_ms, None);
    assert_eq!(cli.upstroke_spread_ms, None);
    assert_eq!(cli.voicing, None);
    assert_eq!(cli.voicing_file, None);
    for list in [&["only.strum"][..], &["a.strum", "b.mid", "c.mid"][..], &[][..]] {
        let err = Cli::parse(args(list)).unwrap_err();
        assert_eq!(err.to_string(), usage());
    }
}

#[test]
fn an_option_may_stand_anywhere_among_plain_arguments() {
    let placements = [
        args(&["--velocity", "90", "in.strum", "out.mid"]),
        args(&["in.strum", "--velocity", "90", "out.mid"]),
        args(&["in.strum", "out.mid", "--velocity", "90"]),
    ];
    for list in placements {
        let Cli::Convert(cli) = Cli::parse(list).unwrap() else {
            panic!("expected convert command");
        };
        assert_eq!(cli.input, "in.strum");
        assert_eq!(cli.output, "out.mid");
        assert_eq!(cli.velocity, Some(90));
        assert_eq!(cli.tempo, None);
        assert_eq!(cli.voicing, None);
    }
    let Cli::Convert(cli) = Cli::parse(args(&["in.strum", "--voicing", "rock", "out.mid"])).unwrap() else {
        panic!("expected convert command");
    };
    assert_eq!(cli.voicing.as_deref(), Some("rock"));
    assert_eq!(cli.output, "out.mid");
    let err = Cli::parse(args(&["in.strum", "--tempo", "120"])).unwrap_err();
    assert_eq!(err.to_string(), usage());
}

#[test]
fn every_option_keeps_its_last_value_and_two_positionals_remain() {
    let Cli::Convert(cli) = Cli::parse(args(&[
        "--tempo", "90", "a.strum", "--voicing", "folk", "--tempo", "120", "b.mid", "--voicing-file", "x.txt",
        "--voicing", "rock",
    ]))
    .unwrap() else {
        panic!("expected convert command");
    };
    assert_eq!(cli.input, "a.strum");
    assert_eq!(cli.output, "b.mid");
    assert_eq!(cli.tempo, Some(120));
    assert_eq!(cli.voicing.as_deref(), Some("rock"));
    assert_eq!(cli.voicing_file.as_deref(), Some("x.txt"));
    assert_eq!(cli.velocity, None);
    for bad in [
        &["a.strum", "b.mid", "--tempo"][..],
        &["a.strum", "b.mid", "-h"][..],
        &["a.strum", "b.mid", "--tempo", "70000"][..],
        &["a.strum", "b.mid", "--velocity", "256"][..],
        &["a.strum", "b.mid", "c.mid"][..],
    ] {
        let err = Cli::parse(args(bad)).unwrap_err();
        assert!(matches!(err, strum2midi::AppError::Usage(_)), "{bad:?}");
    }
}
