use flutter_wipe::exclude::PatternSet;
use flutter_wipe::exclude::should_exclude;

fn set_of(tokens: &[&str]) -> PatternSet {
    let mut ps = PatternSet::new();
    for t in tokens {
        ps.insert((*t).to_string());
    }
    ps
}

#[test]
fn exact_name_match_excludes() {
    let ps = set_of(&["build", ".git"]);
    assert!(should_exclude("build", &ps));
    assert!(should_exclude("/home/user/project/build", &ps));
    assert!(should_exclude(".git", &ps));
}

#[test]
fn unrelated_name_not_excluded() {
    let ps = set_of(&["build", ".git", "node_modules"]);
    assert!(!should_exclude("src", &ps));
    assert!(!should_exclude("app", &ps));
    assert!(!should_exclude("my-project", &ps));
}

#[test]
fn name_containing_pattern_excludes() {
    let ps = set_of(&["cache"]);
    // the directory name holds the pattern as a substring
    assert!(should_exclude("my-cache-dir", &ps));
}

#[test]
fn pattern_containing_name_excludes() {
    // the pattern holds the directory name as a substring: the
    // deliberately permissive bidirectional rule
    let ps = set_of(&[".pub-cache"]);
    assert!(should_exclude("cache", &ps));
    assert!(should_exclude("/root/cache", &ps));
}

#[test]
fn full_path_substring_excludes() {
    let ps = set_of(&["flutter-sdk"]);
    assert!(should_exclude("/opt/flutter-sdk/bin", &ps));
}

#[test]
fn mason_cache_literals_always_exclude() {
    let empty = PatternSet::new();
    assert!(should_exclude("/home/u/.mason-cache", &empty));
    assert!(should_exclude("/home/u/.mason_cache/bricks", &empty));
    assert!(!should_exclude("/home/u/mason", &empty));
}

#[test]
fn empty_pattern_set_excludes_nothing_else() {
    let empty = PatternSet::new();
    assert!(!should_exclude(".git", &empty));
    assert!(!should_exclude("build", &empty));
    assert!(!should_exclude("/a/b/c", &empty));
}

#[test]
fn pattern_set_deduplicates() {
    let mut ps = PatternSet::new();
    ps.insert("build".to_string());
    ps.insert("build".to_string());
    ps.insert(".git".to_string());
    assert_eq!(ps.len(), 2);
    assert!(ps.contains_pattern("build"));
    assert!(ps.contains_pattern(".git"));
    assert!(!ps.contains_pattern("node_modules"));
}
