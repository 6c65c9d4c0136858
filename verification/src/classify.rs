//! Project classification: a directory qualifies as a project root when
//! its manifest text parses with a top-level `dependencies` mapping that
//! holds the key `flutter`.

use vstd::prelude::*;

verus! {

use crate::strutil::str_eq;

/// What the YAML parser yields on a manifest text: the set of names of
/// the entries under the top-level `dependencies` mapping, or `None` when
/// the text does not parse as a mapping whose `dependencies` key holds a
/// mapping with string keys. The bound values are never inspected.
pub uninterp spec fn yaml_dep_names(s: Seq<char>) -> Option<Set<Seq<char>>>;

/// Relies on `serde_yaml`: `from_str::<Value>` and the accessors
/// `Value::get`, `Value::as_mapping`, `Mapping::keys` and `Value::as_str`.
/// The outcome depends on the text alone; the order of the returned names
/// is left unstated, only which names come back.
#[verifier::external_body]
fn parse_dependency_names(content: &str) -> (r: Option<Vec<String>>)
    ensures
        r is Some <==> yaml_dep_names(content@) is Some,
        r is Some ==> r->Some_0.deep_view().to_set() == yaml_dep_names(content@)->Some_0,
{
    let doc: serde_yaml::Value = serde_yaml::from_str(content).ok()?;
    let deps = doc.get("dependencies")?.as_mapping()?;
    deps.keys().map(|k| k.as_str().map(|s| s.to_string())).collect()
}

/// Whether a dependency-name list holds the given key.
pub fn names_contain(names: &Vec<String>, key: &str) -> (r: bool)
    ensures
        r == names.deep_view().to_set().contains(key@),
{
    let mut i: usize = 0;
    while i < names.len()
        invariant
            i <= names@.len(),
            forall|j: int| 0 <= j < i ==> names.deep_view()[j] != key@,
        decreases names@.len() - i,
    {
        if str_eq(names[i].as_str(), key) {
            assert(names.deep_view()[i as int] == key@);
            return true;
        }
        i += 1;
    }
    assert(!names.deep_view().to_set().contains(key@)) by {
        if names.deep_view().contains(key@) {
            let j = choose|j: int|
                0 <= j < names.deep_view().len() && names.deep_view()[j] == key@;
            assert(names.deep_view()[j] != key@);
        }
    }
    false
}

/// The manifest predicate: the text parses with a `dependencies` mapping,
/// and that mapping holds the key `flutter` — the value bound to it does
/// not matter.
pub open spec fn spec_manifest_qualifies(s: Seq<char>) -> bool {
    match yaml_dep_names(s) {
        Some(names) => names.contains("flutter"@),
        None => false,
    }
}

/// Classify a manifest text. A text that does not parse, lacks the
/// `dependencies` mapping, or lacks the `flutter` key never qualifies.
pub fn manifest_qualifies(content: &str) -> (r: bool)
    ensures
        r == spec_manifest_qualifies(content@),
{
    match parse_dependency_names(content) {
        Some(names) => names_contain(&names, "flutter"),
        None => false,
    }
}

} // verus!
