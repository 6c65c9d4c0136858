use flutter_wipe::config::Config;
use flutter_wipe::config::first_existing;
use flutter_wipe::config::parse_config;

#[test]
fn default_config_keeps_default_excludes_on() {
    let c = Config::default();
    assert!(c.exclude_patterns.is_none());
    assert_eq!(c.default_excludes, Some(true));
    assert!(c.use_defaults(false));
    assert!(!c.use_defaults(true));
}

#[test]
fn parse_full_config() {
    let text = "exclude_patterns = [\"vendor\", \"target\"]\ndefault_excludes = false\n";
    let c = parse_config(text).expect("well-formed config");
    assert_eq!(c.exclude_patterns, Some(vec!["vendor".to_string(), "target".to_string()]));
    assert_eq!(c.default_excludes, Some(false));
    assert!(!c.use_defaults(false));
}

#[test]
fn parse_partial_config() {
    let c = parse_config("exclude_patterns = [\"x\"]\n").expect("well-formed config");
    assert_eq!(c.exclude_patterns, Some(vec!["x".to_string()]));
    assert_eq!(c.default_excludes, None);
    // an absent toggle leaves the defaults on
    assert!(c.use_defaults(false));
}

#[test]
fn parse_empty_config() {
    let c = parse_config("").expect("empty document is a valid config");
    assert!(c.exclude_patterns.is_none());
    assert!(c.default_excludes.is_none());
}

#[test]
fn malformed_config_is_rejected() {
    assert!(parse_config("exclude_patterns = [unterminated").is_none());
    assert!(parse_config("= nonsense =").is_none());
}

#[test]
fn wrongly_typed_config_is_rejected() {
    assert!(parse_config("exclude_patterns = \"not-an-array\"\n").is_none());
    assert!(parse_config("exclude_patterns = [1, 2]\n").is_none());
    assert!(parse_config("default_excludes = \"yes\"\n").is_none());
}

#[test]
fn first_existing_picks_first_match() {
    assert_eq!(first_existing(&vec![false, true, true, false]), Some(1));
    assert_eq!(first_existing(&vec![true, false]), Some(0));
    assert_eq!(first_existing(&vec![false, false]), None);
    assert_eq!(first_existing(&Vec::new()), None);
}
