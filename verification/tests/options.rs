use nimiq_vanity::args::{ArgumentError, Options};
use nimiq_vanity::DEFAULT_PATH;

#[test]
fn parse_option_accepts_missing_values() {
    assert_eq!(
        Options::parse_option(None, ArgumentError::InvalidRounds),
        Ok(None)
    );
}

#[test]
fn parse_option_parses_trimmed_decimals() {
    assert_eq!(
        Options::parse_option(Some(" 42 "), ArgumentError::InvalidRounds),
        Ok(Some(42))
    );
    assert_eq!(
        Options::parse_option(Some("+7"), ArgumentError::InvalidRounds),
        Ok(Some(7))
    );
    assert_eq!(
        Options::parse_option(Some("0"), ArgumentError::InvalidRounds),
        Ok(Some(0))
    );
}

#[test]
fn parse_option_rejects_garbage() {
    assert_eq!(
        Options::parse_option(Some("abc"), ArgumentError::InvalidRounds),
        Err(ArgumentError::InvalidRounds)
    );
    assert_eq!(
        Options::parse_option(Some(""), ArgumentError::InvalidThreads),
        Err(ArgumentError::InvalidThreads)
    );
    assert_eq!(
        Options::parse_option(Some("-3"), ArgumentError::InvalidRounds),
        Err(ArgumentError::InvalidRounds)
    );
    assert_eq!(
        Options::parse_option(Some("12x"), ArgumentError::InvalidRounds),
        Err(ArgumentError::InvalidRounds)
    );
}

#[test]
fn parse_option_rejects_overflow() {
    assert_eq!(
        Options::parse_option(
            Some("99999999999999999999999999999999"),
            ArgumentError::InvalidRounds
        ),
        Err(ArgumentError::InvalidRounds)
    );
}

#[test]
fn parse_option_string_passes_values_through() {
    assert_eq!(Options::parse_option_string(None), None);
    assert_eq!(
        Options::parse_option_string(Some("m/0'")),
        Some(String::from("m/0'"))
    );
}

#[test]
fn parse_requires_a_prefix() {
    let r = Options::parse(None, None, None, None, false, false, false);
    assert!(matches!(r, Err(ArgumentError::PrefixMissing)));
    let r = Options::parse(Some(""), None, None, None, false, false, false);
    assert!(matches!(r, Err(ArgumentError::PrefixMissing)));
}

#[test]
fn parse_uppercases_the_prefix_and_defaults_the_path() {
    let o = Options::parse(Some("nq07"), None, None, None, false, false, false).unwrap();
    assert_eq!(o.prefix, String::from("NQ07"));
    assert_eq!(o.derivation_path, String::from(DEFAULT_PATH));
    assert_eq!(o.max_rounds, None);
    assert_eq!(o.num_threads, None);
    assert!(!o.strict && !o.contains && !o.verbose);
}

#[test]
fn parse_keeps_explicit_values() {
    let o = Options::parse(
        Some("NQ"),
        Some("m/44'/0'"),
        Some("100"),
        Some("4"),
        true,
        true,
        true,
    )
    .unwrap();
    assert_eq!(o.derivation_path, String::from("m/44'/0'"));
    assert_eq!(o.max_rounds, Some(100));
    assert_eq!(o.num_threads, Some(4));
    assert!(o.strict && o.contains && o.verbose);
}

#[test]
fn parse_uppercases_beyond_ascii() {
    // Unicode uppercasing, as the long-s shows; the result then passes
    // the alphabet check.
    let o = Options::parse(Some("\u{17F}"), None, None, None, true, false, false).unwrap();
    assert_eq!(o.prefix, String::from("S"));
    assert!(o.prepare().is_some());
}

#[test]
fn parse_rejects_a_zero_worker_count() {
    let r = Options::parse(Some("NQ"), None, None, Some("0"), false, false, false);
    assert!(matches!(r, Err(ArgumentError::InvalidThreads)));
}

#[test]
fn parse_reports_bad_numbers_in_order() {
    let r = Options::parse(Some("NQ"), None, Some("ten"), Some("4"), false, false, false);
    assert!(matches!(r, Err(ArgumentError::InvalidRounds)));
    let r = Options::parse(Some("NQ"), None, Some("10"), Some("many"), false, false, false);
    assert!(matches!(r, Err(ArgumentError::InvalidThreads)));
    let r = Options::parse(Some("NQ"), None, Some("ten"), Some("many"), false, false, false);
    assert!(matches!(r, Err(ArgumentError::InvalidRounds)));
}

fn options_with_prefix(prefix: &str, strict: bool) -> Options {
    Options {
        strict,
        contains: false,
        verbose: false,
        prefix: String::from(prefix),
        derivation_path: String::from(DEFAULT_PATH),
        max_rounds: None,
        num_threads: None,
    }
}

#[test]
fn prepare_relaxes_the_prefix_when_not_strict() {
    let o = options_with_prefix("OIZ", false).prepare().unwrap();
    assert_eq!(o.prefix, String::from("012"));
}

#[test]
fn prepare_rejects_an_unreachable_strict_prefix() {
    assert!(options_with_prefix("OIZ", true).prepare().is_none());
}

#[test]
fn prepare_keeps_a_strict_alphabet_prefix() {
    let o = options_with_prefix("NQ07", true).prepare().unwrap();
    assert_eq!(o.prefix, String::from("NQ07"));
}

#[test]
fn prepare_rejects_symbols_in_any_mode() {
    assert!(options_with_prefix("NQ!", false).prepare().is_none());
}
