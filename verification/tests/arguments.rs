use subquote::io::{
    parse_args, ArgProvided, ParseOutcome, PathFacts, RawOptions, SafeArguments, Unit,
    UnsafeArguments,
};

fn options(free: &[&str]) -> RawOptions {
    RawOptions {
        help: false,
        verbose: false,
        unit: None,
        length: None,
        cache: None,
        free: free.iter().map(|s| s.to_string()).collect(),
    }
}

fn all_there() -> PathFacts {
    PathFacts { cache_directory_found: true, cache_directory_created: false, subtitle_found: true }
}

fn given(length: i32, cache: ArgProvided<String>) -> UnsafeArguments {
    UnsafeArguments::new(
        "movie.srt".to_string(),
        ArgProvided::Yes(length),
        ArgProvided::No(false),
        cache,
        ArgProvided::No(Unit::Word),
    )
}

#[test]
fn defaults() {
    assert_eq!(UnsafeArguments::get_default_quote_length(None), 5);
    assert_eq!(UnsafeArguments::get_default_quote_length(Some(Unit::Word)), 5);
    assert_eq!(UnsafeArguments::get_default_quote_length(Some(Unit::Grapheme)), 25);
    assert_eq!(UnsafeArguments::get_default_verbosity(), false);
    assert_eq!(UnsafeArguments::get_default_unit(), Unit::Word);
    assert_eq!(
        UnsafeArguments::get_default_cache_directory(Some("/home/me/.cache".to_string())),
        Some("/home/me/.cache/subquote".to_string())
    );
    assert_eq!(UnsafeArguments::get_default_cache_directory(None), None);
}

#[test]
fn provided_and_default_values_read_alike() {
    assert_eq!(*ArgProvided::Yes(3).get_value(), 3);
    assert_eq!(*ArgProvided::No(4).get_value(), 4);
    assert_eq!(ArgProvided::Yes("x".to_string()).get_value(), "x");
}

#[test]
fn units_have_names_and_extensions() {
    assert_eq!(Unit::Word.name(), "word");
    assert_eq!(Unit::Grapheme.name(), "grapheme");
    assert_eq!(Unit::Word.extension(), "word");
    assert_eq!(Unit::Grapheme.extension(), "char");
}

#[test]
fn safe_arguments_keep_what_they_are_given() {
    let safe = SafeArguments::new("s".to_string(), 7, true, "c".to_string(), Unit::Grapheme);
    assert_eq!(safe.subtitle, "s");
    assert_eq!(safe.quote_length, 7);
    assert!(safe.verbosity);
    assert_eq!(safe.cache_directory, "c");
    assert_eq!(safe.unit, Unit::Grapheme);
}

#[test]
fn rejected_command_line() {
    assert_eq!(
        parse_args(None, Some("/c".to_string())),
        Err(ParseOutcome::Error("found incomplete or unsupported arguments".to_string()))
    );
}

#[test]
fn help_comes_first() {
    let mut raw = options(&[]);
    raw.help = true;
    raw.unit = Some("nonsense".to_string());
    assert_eq!(parse_args(Some(raw), None), Err(ParseOutcome::Help));
}

#[test]
fn bare_subtitle_takes_the_defaults() {
    let parsed = parse_args(Some(options(&["movie.srt", "extra"])), Some("/c/subquote".to_string()));
    assert_eq!(
        parsed,
        Ok(UnsafeArguments::new(
            "movie.srt".to_string(),
            ArgProvided::No(5),
            ArgProvided::No(false),
            ArgProvided::No("/c/subquote".to_string()),
            ArgProvided::No(Unit::Word),
        ))
    );
}

#[test]
fn options_override_the_defaults() {
    let mut raw = options(&["movie.srt"]);
    raw.verbose = true;
    raw.unit = Some("char".to_string());
    raw.length = Some("12".to_string());
    raw.cache = Some("/tmp/q".to_string());
    assert_eq!(
        parse_args(Some(raw), Some("/c/subquote".to_string())),
        Ok(UnsafeArguments::new(
            "movie.srt".to_string(),
            ArgProvided::Yes(12),
            ArgProvided::Yes(true),
            ArgProvided::Yes("/tmp/q".to_string()),
            ArgProvided::Yes(Unit::Grapheme),
        ))
    );
}

#[test]
fn default_length_follows_the_unit() {
    let mut raw = options(&["movie.srt"]);
    raw.unit = Some("char".to_string());
    let parsed = parse_args(Some(raw), Some("/c".to_string())).expect("the options are fine");
    assert_eq!(parsed.quote_length, ArgProvided::No(25));
    let mut raw = options(&["movie.srt"]);
    raw.unit = Some("word".to_string());
    let parsed = parse_args(Some(raw), Some("/c".to_string())).expect("the options are fine");
    assert_eq!(parsed.quote_length, ArgProvided::No(5));
    assert_eq!(parsed.unit, ArgProvided::Yes(Unit::Word));
}

#[test]
fn unknown_unit_is_an_error() {
    let mut raw = options(&["movie.srt"]);
    raw.unit = Some("grapheme".to_string());
    assert_eq!(
        parse_args(Some(raw), Some("/c".to_string())),
        Err(ParseOutcome::Error("couldn't parse specified unit".to_string()))
    );
}

#[test]
fn unreadable_length_is_an_error() {
    for text in ["five", "", "1.5", " 3", "99999999999"] {
        let mut raw = options(&["movie.srt"]);
        raw.length = Some(text.to_string());
        assert_eq!(
            parse_args(Some(raw), Some("/c".to_string())),
            Err(ParseOutcome::Error("couldn't parse specified length".to_string()))
        );
    }
}

#[test]
fn signed_length_is_read() {
    let mut raw = options(&["movie.srt"]);
    raw.length = Some("-4".to_string());
    let parsed = parse_args(Some(raw), Some("/c".to_string())).expect("the options are fine");
    assert_eq!(parsed.quote_length, ArgProvided::Yes(-4));
    let mut raw = options(&["movie.srt"]);
    raw.length = Some("+40".to_string());
    let parsed = parse_args(Some(raw), Some("/c".to_string())).expect("the options are fine");
    assert_eq!(parsed.quote_length, ArgProvided::Yes(40));
}

#[test]
fn missing_cache_directory_is_an_error() {
    assert_eq!(
        parse_args(Some(options(&["movie.srt"])), None),
        Err(ParseOutcome::Error(
            "couldn't determine user's default cache directory (provide it with --cache /path/to/cache)"
                .to_string()
        ))
    );
}

#[test]
fn missing_subtitle_is_an_error() {
    assert_eq!(
        parse_args(Some(options(&[])), Some("/c".to_string())),
        Err(ParseOutcome::Error("subtitle file is requiered".to_string()))
    );
}

#[test]
fn sound_arguments_are_validated() {
    let validated = given(3, ArgProvided::Yes("/c".to_string())).validate(all_there());
    assert_eq!(
        validated,
        Ok(SafeArguments::new("movie.srt".to_string(), 3, false, "/c".to_string(), Unit::Word))
    );
}

#[test]
fn short_quote_length_is_a_fault() {
    assert_eq!(
        given(0, ArgProvided::Yes("/c".to_string())).validate(all_there()),
        Err("quote length must be greater or equal to 1 (got \"0\")".to_string())
    );
    assert_eq!(
        given(-12, ArgProvided::Yes("/c".to_string())).validate(all_there()),
        Err("quote length must be greater or equal to 1 (got \"-12\")".to_string())
    );
}

#[test]
fn missing_given_cache_directory_is_a_fault() {
    let facts =
        PathFacts { cache_directory_found: false, cache_directory_created: true, subtitle_found: true };
    let arguments = given(3, ArgProvided::Yes("/c".to_string()));
    assert!(!arguments.wants_cache_directory(false));
    assert_eq!(
        arguments.validate(facts),
        Err("couldn't read specified cache directory (got \"/c\")".to_string())
    );
}

#[test]
fn missing_default_cache_directory_is_created() {
    let arguments = given(3, ArgProvided::No("/c".to_string()));
    assert!(arguments.wants_cache_directory(false));
    assert!(!arguments.wants_cache_directory(true));
    let created =
        PathFacts { cache_directory_found: false, cache_directory_created: true, subtitle_found: true };
    assert!(arguments.validate(created).is_ok());
    let failed =
        PathFacts { cache_directory_found: false, cache_directory_created: false, subtitle_found: true };
    assert_eq!(
        arguments.validate(failed),
        Err("couldn't create cache directory (got \"/c\")".to_string())
    );
}

#[test]
fn missing_subtitle_file_is_a_fault() {
    let facts =
        PathFacts { cache_directory_found: true, cache_directory_created: false, subtitle_found: false };
    assert_eq!(
        given(3, ArgProvided::Yes("/c".to_string())).validate(facts),
        Err("specified subtitle is not a file (got \"movie.srt\")".to_string())
    );
}

#[test]
fn all_faults_are_reported_together() {
    let facts =
        PathFacts { cache_directory_found: false, cache_directory_created: false, subtitle_found: false };
    assert_eq!(
        given(0, ArgProvided::No("/c".to_string())).validate(facts),
        Err("quote length must be greater or equal to 1 (got \"0\"); couldn't create cache directory (got \"/c\"); specified subtitle is not a file (got \"movie.srt\")".to_string())
    );
}
