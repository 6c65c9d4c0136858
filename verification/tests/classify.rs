use flutter_wipe::classify::manifest_qualifies;
use flutter_wipe::classify::names_contain;

#[test]
fn manifest_with_flutter_qualifies() {
    let text = "name: demo\ndependencies:\n  flutter:\n    sdk: flutter\n  http: ^1.0.0\n";
    assert!(manifest_qualifies(text));
}

#[test]
fn flutter_value_is_irrelevant() {
    assert!(manifest_qualifies("dependencies:\n  flutter: any\n"));
    assert!(manifest_qualifies("dependencies:\n  flutter:\n"));
    assert!(manifest_qualifies("dependencies: {flutter: 1.2.3}\n"));
}

#[test]
fn manifest_without_flutter_does_not_qualify() {
    let text = "name: demo\ndependencies:\n  http: ^1.0.0\n  path: any\n";
    assert!(!manifest_qualifies(text));
}

#[test]
fn manifest_without_dependencies_does_not_qualify() {
    assert!(!manifest_qualifies("name: demo\nversion: 1.0.0\n"));
}

#[test]
fn malformed_manifest_does_not_qualify() {
    // scenario: the file exists but is not parsable as structured data
    assert!(!manifest_qualifies("dependencies: [unclosed\n  ::: {{{"));
    assert!(!manifest_qualifies(": : :"));
}

#[test]
fn dependencies_not_a_mapping_does_not_qualify() {
    assert!(!manifest_qualifies("dependencies: just-a-string\n"));
    assert!(!manifest_qualifies("dependencies:\n  - flutter\n"));
}

#[test]
fn names_contain_finds_key() {
    let names = vec!["http".to_string(), "flutter".to_string()];
    assert!(names_contain(&names, "flutter"));
    let names2 = vec!["http".to_string(), "flutter_svg".to_string()];
    assert!(!names_contain(&names2, "flutter"));
    let empty: Vec<String> = Vec::new();
    assert!(!names_contain(&empty, "flutter"));
}
