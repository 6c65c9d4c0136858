use flutter_wipe::config::Config;
use flutter_wipe::exclude::EnvProbe;
use flutter_wipe::exclude::PatternSet;
use flutter_wipe::exclude::build_pattern_set;
use flutter_wipe::walker::DirTree;
use flutter_wipe::walker::discover;
use flutter_wipe::walker::is_project_root;

fn dir(name: &str, manifest: Option<&str>, children: Vec<DirTree>) -> DirTree {
    DirTree { name: name.to_string(), manifest: manifest.map(|s| s.to_string()), children }
}

const FLUTTER_MANIFEST: &str = "dependencies:\n  flutter: any\n";

fn default_patterns() -> PatternSet {
    let env = EnvProbe {
        pub_cache: None,
        mason_cache: None,
        flutter_root: None,
        home_flutter_dirs: Vec::new(),
    };
    build_pattern_set(&Vec::new(), &Config::default(), false, &env)
}

#[test]
fn scenario_default_excludes_prune_flutter_cache() {
    // /root/appA/pubspec.yaml with flutter, /root/appA/build/,
    // /root/cache/flutter/ — only /root/appA is discovered; the directory
    // literally named flutter is pruned without ever being classified
    let tree = dir(
        "root",
        None,
        vec![
            dir("appA", Some(FLUTTER_MANIFEST), vec![dir("build", None, vec![])]),
            dir("cache", None, vec![dir("flutter", Some(FLUTTER_MANIFEST), vec![])]),
        ],
    );
    let ps = default_patterns();
    let found = discover(&tree, "/root", &ps);
    assert_eq!(found, vec!["/root/appA".to_string()]);
}

#[test]
fn nested_projects_are_discovered_independently() {
    let tree = dir(
        "work",
        Some(FLUTTER_MANIFEST),
        vec![dir("packages", None, vec![dir("inner", Some(FLUTTER_MANIFEST), vec![])])],
    );
    let found = discover(&tree, "/work", &PatternSet::new());
    assert_eq!(
        found,
        vec!["/work".to_string(), "/work/packages/inner".to_string()]
    );
}

#[test]
fn excluded_subtree_hides_projects_below_it() {
    let tree = dir(
        "top",
        None,
        vec![dir("vendor", None, vec![dir("app", Some(FLUTTER_MANIFEST), vec![])])],
    );
    let mut ps = PatternSet::new();
    ps.insert("vendor".to_string());
    let found = discover(&tree, "/top", &ps);
    assert!(found.is_empty());
}

#[test]
fn discovery_is_repeatable() {
    let tree = dir(
        "root",
        None,
        vec![
            dir("a", Some(FLUTTER_MANIFEST), vec![]),
            dir("b", None, vec![dir("c", Some(FLUTTER_MANIFEST), vec![])]),
        ],
    );
    let ps = default_patterns();
    let first = discover(&tree, "/root", &ps);
    let second = discover(&tree, "/root", &ps);
    assert_eq!(first, second);
}

#[test]
fn qualifying_node_needs_manifest_with_flutter() {
    assert!(is_project_root(&dir("a", Some(FLUTTER_MANIFEST), vec![])));
    assert!(!is_project_root(&dir("a", None, vec![])));
    assert!(!is_project_root(&dir("a", Some("dependencies:\n  http: any\n"), vec![])));
    assert!(!is_project_root(&dir("a", Some("dependencies: [broken"), vec![])));
}

#[test]
fn project_in_plain_subdirectory_is_found() {
    let tree = dir(
        "root",
        None,
        vec![dir("src", None, vec![]), dir("apps", None, vec![dir("one", Some(FLUTTER_MANIFEST), vec![])])],
    );
    let found = discover(&tree, "/root", &default_patterns());
    assert_eq!(found, vec!["/root/apps/one".to_string()]);
}
