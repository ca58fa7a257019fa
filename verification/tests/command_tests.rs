use vibe_coder::command::{Command, ParseError};

#[test]
fn test_parse_search() {
    match Command::parse("search hello world").unwrap() {
        Command::Search { query } => assert_eq!(query, "hello world"),
        other => panic!("unexpected variant: {:?}", other),
    }
}

#[test]
fn test_parse_search_missing_query() {
    let e = Command::parse("search").unwrap_err();
    assert_eq!(e.message(), "Missing search query");
}

#[test]
fn test_parse_add_into() {
    match Command::parse("add into src/x.rs\nfn a() {}").unwrap() {
        Command::AddInto { file, code } => {
            assert_eq!(file, "src/x.rs");
            assert_eq!(code, "fn a() {}");
        },
        other => panic!("unexpected variant: {:?}", other),
    }
}

#[test]
fn test_parse_add_into_no_code() {
    match Command::parse("add into src/x.rs").unwrap() {
        Command::AddInto { file, code } => {
            assert_eq!(file, "src/x.rs");
            assert_eq!(code, "");
        },
        other => panic!("unexpected variant: {:?}", other),
    }
}

#[test]
fn test_parse_add_errors() {
    assert_eq!(Command::parse("add").unwrap_err().message(), "Usage: add into <file>\n<code>");
    assert_eq!(Command::parse("add nope").unwrap_err().message(), "Expected 'add into <file>'");
}

#[test]
fn test_parse_build_run_profile() {
    assert!(matches!(Command::parse("build").unwrap(), Command::Build));
    assert!(matches!(Command::parse("profile").unwrap(), Command::Profile));
    match Command::parse("run --verbose --flag").unwrap() {
        Command::Run { args } => assert_eq!(args, vec!["--verbose".to_string(), "--flag".to_string()]),
        other => panic!("unexpected variant: {:?}", other),
    }
    match Command::parse("run").unwrap() {
        Command::Run { args } => assert!(args.is_empty()),
        other => panic!("unexpected variant: {:?}", other),
    }
}

#[test]
fn test_parse_test_command() {
    match Command::parse("test name with spaces").unwrap() {
        Command::Test { test_name } => assert_eq!(test_name.as_deref(), Some("name with spaces")),
        other => panic!("unexpected variant: {:?}", other),
    }
    match Command::parse("test").unwrap() {
        Command::Test { test_name } => assert!(test_name.is_none()),
        other => panic!("unexpected variant: {:?}", other),
    }
}

#[test]
fn test_parse_list_commands() {
    assert!(matches!(Command::parse("list").unwrap(), Command::ListFiles));
    assert!(matches!(Command::parse("list files please").unwrap(), Command::ListFiles));
    match Command::parse("list functions src/a.rs").unwrap() {
        Command::ListFunctions { file } => assert_eq!(file, "src/a.rs"),
        other => panic!("unexpected variant: {:?}", other),
    }
    assert_eq!(Command::parse("list functions").unwrap_err().message(), "Missing file name");
    assert_eq!(Command::parse("list functionsx y").unwrap_err().message(), "Missing file name");
    assert_eq!(Command::parse("list flurb").unwrap_err().message(), "Unknown list command");
}

#[test]
fn test_parse_show_commands() {
    match Command::parse("show src/a.rs::foo").unwrap() {
        Command::ShowFunction { file, function } => {
            assert_eq!(file, "src/a.rs");
            assert_eq!(function, "foo");
        },
        other => panic!("unexpected variant: {:?}", other),
    }
    match Command::parse("show src/a.rs").unwrap() {
        Command::ShowFile { file } => assert_eq!(file, "src/a.rs"),
        other => panic!("unexpected variant: {:?}", other),
    }
    assert_eq!(Command::parse("show").unwrap_err().message(), "Missing file name");
}

#[test]
fn test_parse_help_and_trimming() {
    assert!(matches!(Command::parse("help").unwrap(), Command::Help));
    assert!(matches!(Command::parse("   build   ").unwrap(), Command::Build));
}

#[test]
fn test_parse_verb_case_insensitive() {
    assert!(matches!(Command::parse("BUILD").unwrap(), Command::Build));
    match Command::parse("SeArCh q").unwrap() {
        Command::Search { query } => assert_eq!(query, "q"),
        other => panic!("unexpected variant: {:?}", other),
    }
}

#[test]
fn test_parse_verb_unicode_stays_unknown() {
    // U+212A KELVIN SIGN lower-cases to `k`, which lands in no keyword
    let e = Command::parse("BUIL\u{212a}").unwrap_err();
    assert!(matches!(&e, ParseError::UnknownCommand { verb } if verb == "BUIL\u{212a}"));
}

#[test]
fn test_parse_trims_unicode_whitespace() {
    assert!(matches!(Command::parse("\u{a0}build\u{2003}").unwrap(), Command::Build));
    match Command::parse("add into \u{a0}src/x.rs\u{a0}\ncode").unwrap() {
        Command::AddInto { file, code } => {
            assert_eq!(file, "src/x.rs");
            assert_eq!(code, "code");
        },
        other => panic!("unexpected variant: {:?}", other),
    }
    match Command::parse("run a\u{a0}b").unwrap() {
        Command::Run { args } => assert_eq!(args, vec!["a".to_string(), "b".to_string()]),
        other => panic!("unexpected variant: {:?}", other),
    }
}

#[test]
fn test_parse_run_collapses_whitespace() {
    match Command::parse("run   a  b").unwrap() {
        Command::Run { args } => assert_eq!(args, vec!["a".to_string(), "b".to_string()]),
        other => panic!("unexpected variant: {:?}", other),
    }
}

#[test]
fn test_parse_show_separator_edges() {
    match Command::parse("show ::f").unwrap() {
        Command::ShowFunction { file, function } => {
            assert_eq!(file, "");
            assert_eq!(function, "f");
        },
        other => panic!("unexpected variant: {:?}", other),
    }
    match Command::parse("show a.rs::").unwrap() {
        Command::ShowFunction { file, function } => {
            assert_eq!(file, "a.rs");
            assert_eq!(function, "");
        },
        other => panic!("unexpected variant: {:?}", other),
    }
}

#[test]
fn test_parse_unknown_verb_fails() {
    let e = Command::parse("frobnicate x y").unwrap_err();
    assert!(matches!(&e, ParseError::UnknownCommand { verb } if verb == "frobnicate"));
    assert_eq!(e.message(), "Unknown command: frobnicate");
    assert!(Command::parse("").is_err());
    assert!(Command::parse("searching hard").is_err());
}
