use boncarobot::arena::{filter_commands, Game, Pid};
use boncarobot::optparse::{parse, Opt, OptDef, ParseErrorKind, ParsedOpts};
use boncarobot::webutil::{fetch_string_on_success, wikiencode, FetchError};

#[test]
fn test_parse() {
    let opt_defs = [
        OptDef {
            short: 'f',
            long: "flag".to_string(),
            help: "A simple flag".to_string(),
            takes_args: false,
        },
        OptDef {
            short: 'o',
            long: "opt".to_string(),
            help: "Takes one arg".to_string(),
            takes_args: true,
        },
        OptDef {
            short: 'm',
            long: "multi".to_string(),
            help: "Takes multiple args".to_string(),
            takes_args: true,
        },
    ];
    let args = parse(
        "-f --flag free1 -o arg -m [multi, args] --opt arg free2 --multi [multi, args] free3",
        &opt_defs,
    );
    let expected = ParsedOpts {
        opts: vec![
            Opt {
                name: "flag".to_string(),
                args: vec![],
            },
            Opt {
                name: "flag".to_string(),
                args: vec![],
            },
            Opt {
                name: "opt".to_string(),
                args: vec!["arg".to_owned()],
            },
            Opt {
                name: "multi".to_string(),
                args: vec!["multi".to_owned(), "args".to_owned()],
            },
            Opt {
                name: "opt".to_string(),
                args: vec!["arg".to_owned()],
            },
            Opt {
                name: "multi".to_string(),
                args: vec!["multi".to_owned(), "args".to_owned()],
            },
        ],
        free: vec!["free1".to_owned(), "free2".to_owned(), "free3".to_owned()],
    };
    assert_eq!(args.unwrap(), expected);
}

fn defs() -> Vec<OptDef> {
    vec![
        OptDef {
            short: 'f',
            long: "flag".to_string(),
            help: "A simple flag".to_string(),
            takes_args: false,
        },
        OptDef {
            short: 'o',
            long: "opt".to_string(),
            help: "Takes one arg".to_string(),
            takes_args: true,
        },
    ]
}

#[test]
fn parse_unrecognized_short() {
    let e = parse("-z", &defs()).unwrap_err();
    assert!(matches!(e.kind, ParseErrorKind::UnrecognizedShort('z')));
}

#[test]
fn parse_unrecognized_long() {
    let e = parse("--bogus", &defs()).unwrap_err();
    match e.kind {
        ParseErrorKind::UnrecognizedLong(name) => assert_eq!(name, "bogus"),
        other => panic!("wrong error: {:?}", other),
    }
}

#[test]
fn parse_missing_argument() {
    let e = parse("-o", &defs()).unwrap_err();
    assert!(matches!(e.kind, ParseErrorKind::UnexpectedEnd));
}

#[test]
fn parse_unterminated_bracket() {
    let e = parse("-o [a, b", &defs()).unwrap_err();
    assert!(matches!(e.kind, ParseErrorKind::UnexpectedEnd));
}

#[test]
fn parse_empty_input_is_rejected() {
    assert!(parse("", &defs()).is_err());
    assert!(parse("   ", &defs()).is_err());
}

#[test]
fn parse_double_dash_run_is_rejected() {
    let e = parse("---flag", &defs()).unwrap_err();
    assert!(matches!(e.kind, ParseErrorKind::UnrecognizedLong(_)));
}

#[test]
fn parsed_opts_lookup() {
    let po = parse("-o arg free", &defs()).unwrap();
    assert!(po.given("opt"));
    assert!(!po.given("flag"));
    assert_eq!(po.get_or_empty("opt"), vec!["arg".to_string()]);
    assert!(po.get_or_empty("flag").is_empty());
    assert_eq!(po.free, vec!["free".to_string()]);
}

#[test]
fn filter_commands_extracts_brackets() {
    let cmds = filter_commands("please [summon] the [end] now").unwrap();
    assert_eq!(cmds, vec!["summon".to_string(), "end".to_string()]);
    assert_eq!(filter_commands("no brackets here").unwrap(), Vec::<String>::new());
}

#[test]
fn filter_commands_rejects_unclosed_bracket() {
    assert!(filter_commands("mind your [ brackets").is_err());
}

#[test]
fn fresh_game_state() {
    let game = Game::new("alice".to_string(), "bob".to_string());
    assert_eq!(game.p1().name(), "alice");
    assert_eq!(game.p2().name(), "bob");
    assert!(matches!(game.current_player_pid(), Pid::P1));
    assert_eq!(game.current_player().name(), "alice");
    assert_eq!(game.player_by_pid(Pid::P2).name(), "bob");
}

#[test]
fn wikiencode_percent_encodes_spaces_and_ampersands() {
    assert_eq!(wikiencode("rock & roll"), "rock%20%26%20roll");
    assert_eq!(wikiencode("plain"), "plain");
    assert_eq!(wikiencode(""), "");
}

#[test]
fn fetch_gating_by_status() {
    assert_eq!(
        fetch_string_on_success(Ok(("page".to_string(), 200))),
        Ok("page".to_string())
    );
    assert_eq!(
        fetch_string_on_success(Ok(("ignored".to_string(), 404))),
        Err(FetchError::Status(404))
    );
    assert_eq!(
        fetch_string_on_success(Err("connection refused".to_string())),
        Err(FetchError::Transport("connection refused".to_string()))
    );
}
