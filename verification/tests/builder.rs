use flutter_wipe::config::Config;
use flutter_wipe::exclude::EnvProbe;
use flutter_wipe::exclude::build_pattern_set;
use flutter_wipe::exclude::should_exclude;

fn empty_env() -> EnvProbe {
    EnvProbe {
        pub_cache: None,
        mason_cache: None,
        flutter_root: None,
        home_flutter_dirs: Vec::new(),
    }
}

#[test]
fn defaults_are_present_by_default() {
    let ps = build_pattern_set(&Vec::new(), &Config::default(), false, &empty_env());
    for tok in [
        ".git",
        "build",
        "node_modules",
        ".dart_tool",
        ".pub-cache",
        "pub-cache",
        "flutter",
        "flutter-sdk",
        ".flutter",
        ".mason_cache",
        ".mason-cache",
        "mason-cache",
    ] {
        assert!(ps.contains_pattern(tok), "missing default token {tok}");
    }
    assert_eq!(ps.len(), 12);
}

#[test]
fn cli_switch_disables_defaults() {
    let ps = build_pattern_set(&Vec::new(), &Config::default(), true, &empty_env());
    assert_eq!(ps.len(), 0);
    assert!(!should_exclude(".git", &ps));
    assert!(!should_exclude("build", &ps));
}

#[test]
fn config_toggle_disables_defaults() {
    // scenario: the config file turns default excludes off and supplies no
    // patterns, and the command line supplies none either — nothing is
    // excluded, .git and build are descended into
    let cfg = Config { exclude_patterns: None, default_excludes: Some(false) };
    let ps = build_pattern_set(&Vec::new(), &cfg, false, &empty_env());
    assert_eq!(ps.len(), 0);
    assert!(!should_exclude(".git", &ps));
    assert!(!should_exclude("build", &ps));
    assert!(!should_exclude("/repo/.git", &ps));
}

#[test]
fn cli_and_config_patterns_are_merged() {
    let cli = vec!["vendor".to_string()];
    let cfg = Config {
        exclude_patterns: Some(vec!["target".to_string(), "vendor".to_string()]),
        default_excludes: Some(false),
    };
    let ps = build_pattern_set(&cli, &cfg, false, &empty_env());
    assert_eq!(ps.len(), 2);
    assert!(ps.contains_pattern("vendor"));
    assert!(ps.contains_pattern("target"));
}

#[test]
fn env_values_contribute_their_basenames() {
    let env = EnvProbe {
        pub_cache: Some("/custom/pubcache-dir".to_string()),
        mason_cache: Some("/var/masonry".to_string()),
        flutter_root: Some("/opt/sdks/my-flutter".to_string()),
        home_flutter_dirs: vec!["/home/u/development/flutter".to_string()],
    };
    let ps = build_pattern_set(&Vec::new(), &Config::default(), false, &env);
    assert!(ps.contains_pattern("pubcache-dir"));
    assert!(ps.contains_pattern("masonry"));
    assert!(ps.contains_pattern("my-flutter"));
    // the home probe hit's basename is "flutter", already a default token
    assert!(ps.contains_pattern("flutter"));
    assert_eq!(ps.len(), 15);
}

#[test]
fn env_is_ignored_without_defaults() {
    let env = EnvProbe {
        pub_cache: Some("/custom/pubcache-dir".to_string()),
        mason_cache: None,
        flutter_root: None,
        home_flutter_dirs: Vec::new(),
    };
    let ps = build_pattern_set(&Vec::new(), &Config::default(), true, &env);
    assert_eq!(ps.len(), 0);
}
