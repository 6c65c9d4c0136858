//! Configuration overrides: the optional pattern list and the default-
//! exclusions toggle, their file-text parser, and the selection of the
//! first existing candidate config file.

use vstd::prelude::*;

verus! {

/// Optional overrides loaded from a configuration file.
pub struct Config {
    pub exclude_patterns: Option<Vec<String>>,
    pub default_excludes: Option<bool>,
}

impl Default for Config {
    /// The configuration used when no file exists or the file is rejected:
    /// no extra patterns, default exclusions left on.
    fn default() -> (r: Config)
        ensures
            r.exclude_patterns is None,
            r.default_excludes == Some(true),
    {
        Config { exclude_patterns: None, default_excludes: Some(true) }
    }
}

/// Whether the default exclusions apply: the command-line switch wins,
/// then the config file's toggle, and with neither they are on.
pub open spec fn spec_use_defaults(default_excludes: Option<bool>, no_default_excludes: bool) -> bool {
    if no_default_excludes {
        false
    } else {
        match default_excludes {
            Some(b) => b,
            None => true,
        }
    }
}

impl Config {
    pub fn use_defaults(&self, no_default_excludes: bool) -> (r: bool)
        ensures
            r == spec_use_defaults(self.default_excludes, no_default_excludes),
    {
        if no_default_excludes {
            false
        } else {
            match self.default_excludes {
                Some(b) => b,
                None => true,
            }
        }
    }
}

/// What the TOML parser yields on a config text: `None` when the text is
/// rejected (it does not parse, `exclude_patterns` is not an array of
/// strings, or `default_excludes` is not a boolean); otherwise the
/// optional pattern list and the optional toggle, each `None` when its
/// key is absent.
pub uninterp spec fn toml_config_of(s: Seq<char>) -> Option<(Option<Seq<Seq<char>>>, Option<bool>)>;

/// Relies on `toml`: `str::parse::<toml::Table>` and the accessors
/// `Table::get`, `Value::as_array`, `as_str` and `as_bool`. The outcome
/// depends on the text alone.
#[verifier::external_body]
fn parse_config_raw(content: &str) -> (r: Option<(Option<Vec<String>>, Option<bool>)>)
    ensures
        r is Some <==> toml_config_of(content@) is Some,
        r is Some ==> ((r->Some_0).0 is Some <==> (toml_config_of(content@)->Some_0).0 is Some),
        r is Some && (r->Some_0).0 is Some ==> (r->Some_0).0->Some_0.deep_view() == (
        toml_config_of(content@)->Some_0).0->Some_0,
        r is Some ==> (r->Some_0).1 == (toml_config_of(content@)->Some_0).1,
{
    let doc: toml::Table = content.parse().ok()?;
    let pats = match doc.get("exclude_patterns") {
        None => None,
        Some(v) => Some(
            v.as_array()?.iter().map(|x| x.as_str().map(|s| s.to_string())).collect::<Option<
                Vec<String>,
            >>()?,
        ),
    };
    let dflt = match doc.get("default_excludes") {
        None => None,
        Some(v) => Some(v.as_bool()?),
    };
    Some((pats, dflt))
}

/// Parse a config text; `None` when the text is rejected, in which case
/// the caller falls back to `Config::default()`.
pub fn parse_config(content: &str) -> (r: Option<Config>)
    ensures
        r is Some <==> toml_config_of(content@) is Some,
        r is Some ==> (r->Some_0.exclude_patterns is Some <==> (toml_config_of(
            content@,
        )->Some_0).0 is Some),
        r is Some && r->Some_0.exclude_patterns is Some ==> r->Some_0.exclude_patterns->Some_0.deep_view()
            == (toml_config_of(content@)->Some_0).0->Some_0,
        r is Some ==> r->Some_0.default_excludes == (toml_config_of(content@)->Some_0).1,
{
    match parse_config_raw(content) {
        Some(parts) => Some(Config { exclude_patterns: parts.0, default_excludes: parts.1 }),
        None => None,
    }
}

/// The index of the first existing candidate config file, if any exists:
/// the loading order is "first match wins".
pub fn first_existing(candidates_exist: &Vec<bool>) -> (r: Option<usize>)
    ensures
        match r {
            Some(i) => i < candidates_exist@.len() && candidates_exist@[i as int] && (forall|j: int|
                0 <= j < i ==> !candidates_exist@[j]),
            None => forall|j: int| 0 <= j < candidates_exist@.len() ==> !candidates_exist@[j],
        },
{
    let mut i: usize = 0;
    while i < candidates_exist.len()
        invariant
            i <= candidates_exist@.len(),
            forall|j: int| 0 <= j < i ==> !candidates_exist@[j],
        decreases candidates_exist@.len() - i,
    {
        if candidates_exist[i] {
            return Some(i);
        }
        i += 1;
    }
    None
}

} // verus!
