//! The exclusion engine: the deduplicated pattern set, its builder (CLI
//! patterns, config patterns, and environment-derived defaults), and the
//! matcher that decides whether a directory path is pruned.

use vstd::prelude::*;

verus! {

use crate::strutil::{
    is_substring, contains_sub, str_eq, spec_final_component, final_component,
    lemma_substring_refl, lemma_suffix_of_slashless, strip_trailing_slashes,
};
use crate::config::{Config, spec_use_defaults};

/// A deduplicated set of exclusion-pattern tokens, semantically a set of
/// strings: order never matters to the matcher.
pub struct PatternSet {
    items: Vec<String>,
}

impl View for PatternSet {
    type V = Set<Seq<char>>;

    closed spec fn view(&self) -> Set<Seq<char>> {
        self.items.deep_view().to_set()
    }
}

proof fn lemma_push_to_set<A>(s: Seq<A>, a: A)
    ensures
        s.push(a).to_set() == s.to_set().insert(a),
{
    assert forall|x: A| s.push(a).to_set().contains(x) <==> s.to_set().insert(a).contains(
        x,
    ) by {
        if s.push(a).contains(x) {
            let j = choose|j: int| 0 <= j < s.push(a).len() && s.push(a)[j] == x;
            if j < s.len() {
                assert(s[j] == x);
            }
        }
        if s.contains(x) {
            let j = choose|j: int| 0 <= j < s.len() && s[j] == x;
            assert(s.push(a)[j] == x);
        }
        if x == a {
            assert(s.push(a)[s.len() as int] == x);
        }
    }
    assert(s.push(a).to_set() =~= s.to_set().insert(a));
}

proof fn lemma_take_to_set_step<A>(s: Seq<A>, i: int)
    requires
        0 <= i < s.len(),
    ensures
        s.take(i + 1).to_set() == s.take(i).to_set().insert(s[i]),
{
    assert(s.take(i + 1) =~= s.take(i).push(s[i]));
    lemma_push_to_set(s.take(i), s[i]);
}

impl PatternSet {
    /// No token occurs twice.
    pub closed spec fn wf(&self) -> bool {
        forall|i: int, j: int|
            0 <= i < j < self.items.deep_view().len() ==> self.items.deep_view()[i]
                != self.items.deep_view()[j]
    }

    /// The empty pattern set.
    pub fn new() -> (r: PatternSet)
        ensures
            r@ == Set::<Seq<char>>::empty(),
            r.wf(),
    {
        let r = PatternSet { items: Vec::new() };
        proof {
            assert(r.items.deep_view().to_set() =~= Set::<Seq<char>>::empty());
        }
        r
    }

    /// Whether the set holds this token.
    pub fn contains_pattern(&self, tok: &str) -> (r: bool)
        ensures
            r == self@.contains(tok@),
    {
        let mut i: usize = 0;
        while i < self.items.len()
            invariant
                i <= self.items@.len(),
                forall|j: int| 0 <= j < i ==> self.items.deep_view()[j] != tok@,
            decreases self.items@.len() - i,
        {
            if str_eq(self.items[i].as_str(), tok) {
                assert(self.items.deep_view()[i as int] == tok@);
                return true;
            }
            i += 1;
        }
        assert(!self.items.deep_view().contains(tok@)) by {
            if self.items.deep_view().contains(tok@) {
                let j = choose|j: int|
                    0 <= j < self.items.deep_view().len() && self.items.deep_view()[j] == tok@;
            }
        }
        false
    }

    /// The number of distinct tokens held.
    pub fn len(&self) -> (r: usize)
        requires
            self.wf(),
        ensures
            r == self@.len(),
    {
        proof {
            assert(self.items.deep_view().no_duplicates());
            self.items.deep_view().unique_seq_to_set();
        }
        self.items.len()
    }

    /// Insert one token; a token already held changes nothing.
    pub fn insert(&mut self, tok: String)
        requires
            old(self).wf(),
        ensures
            final(self).wf(),
            final(self)@ == old(self)@.insert(tok@),
    {
        if !self.contains_pattern(tok.as_str()) {
            let ghost pre = self.items.deep_view();
            self.items.push(tok);
            proof {
                assert(self.items.deep_view() =~= pre.push(tok@));
                lemma_push_to_set(pre, tok@);
                assert(!pre.contains(tok@)) by {
                    if pre.contains(tok@) {
                        let j = choose|j: int| 0 <= j < pre.len() && pre[j] == tok@;
                    }
                }
            }
        } else {
            proof {
                assert(old(self)@.insert(tok@) =~= old(self)@);
            }
        }
    }
}

/// The matcher's per-name rule: an exact match, or either of the token
/// and the name containing the other as a substring.
pub open spec fn name_rule(name: Seq<char>, p: Seq<char>) -> bool {
    p == name || is_substring(p, name) || is_substring(name, p)
}

/// The exclusion decision on a path: the fixed mason-cache literals
/// anywhere in the path; an exact or bidirectional-substring match of any
/// pattern against the final component; or any pattern occurring as a
/// substring of the whole path.
pub open spec fn spec_should_exclude(path: Seq<char>, pats: Set<Seq<char>>) -> bool {
    ||| is_substring(".mason-cache"@, path)
    ||| is_substring(".mason_cache"@, path)
    ||| (match spec_final_component(path) {
        Some(name) => exists|p: Seq<char>| #[trigger] pats.contains(p) && name_rule(name, p),
        None => false,
    })
    ||| exists|p: Seq<char>| #[trigger] pats.contains(p) && is_substring(p, path)
}

/// Decide whether a directory path is pruned, per `spec_should_exclude`.
pub fn should_exclude(path: &str, patterns: &PatternSet) -> (r: bool)
    ensures
        r == spec_should_exclude(path@, patterns@),
{
    if contains_sub(path, ".mason-cache") || contains_sub(path, ".mason_cache") {
        return true;
    }
    let name_opt = final_component(path);
    if let Some(name) = &name_opt {
        let mut i: usize = 0;
        while i < patterns.items.len()
            invariant
                spec_final_component(path@) == Some(name@),
                i <= patterns.items@.len(),
                forall|j: int| 0 <= j < i ==> !name_rule(name@, #[trigger] patterns.items.deep_view()[j]),
            decreases patterns.items@.len() - i,
        {
            let pat = &patterns.items[i];
            if str_eq(pat.as_str(), name.as_str()) || contains_sub(name.as_str(), pat.as_str())
                || contains_sub(pat.as_str(), name.as_str()) {
                proof {
                    assert(patterns.items.deep_view()[i as int] == pat@);
                    assert(patterns@.contains(pat@));
                }
                return true;
            }
            i += 1;
        }
        proof {
            assert forall|p: Seq<char>| patterns@.contains(p) implies !name_rule(name@, p) by {
                let j = choose|j: int|
                    0 <= j < patterns.items.deep_view().len() && patterns.items.deep_view()[j]
                        == p;
            }
        }
    }
    let mut i: usize = 0;
    while i < patterns.items.len()
        invariant
            spec_final_component(path@) matches Some(name) ==> !(exists|p: Seq<char>|
                #[trigger] patterns@.contains(p) && name_rule(name, p)),
            i <= patterns.items@.len(),
            forall|j: int|
                0 <= j < i ==> !is_substring(#[trigger] patterns.items.deep_view()[j], path@),
        decreases patterns.items@.len() - i,
    {
        let pat = &patterns.items[i];
        if contains_sub(path, pat.as_str()) {
            proof {
                assert(patterns.items.deep_view()[i as int] == pat@);
                assert(patterns@.contains(pat@));
            }
            return true;
        }
        i += 1;
    }
    proof {
        assert forall|p: Seq<char>| patterns@.contains(p) implies !is_substring(p, path@) by {
            let j = choose|j: int|
                0 <= j < patterns.items.deep_view().len() && patterns.items.deep_view()[j] == p;
        }
    }
    false
}

/// The environment-derived inputs to the builder, read by the caller and
/// handed in as plain values: the three cache/SDK root variables, and the
/// home-directory probe paths that exist on disk.
pub struct EnvProbe {
    pub pub_cache: Option<String>,
    pub mason_cache: Option<String>,
    pub flutter_root: Option<String>,
    pub home_flutter_dirs: Vec<String>,
}

/// The fixed baseline of well-known tooling-cache directory names.
pub open spec fn spec_default_tokens() -> Set<Seq<char>> {
    set![
        ".git"@,
        "build"@,
        "node_modules"@,
        ".dart_tool"@,
        ".pub-cache"@,
        "pub-cache"@,
        "flutter"@,
        "flutter-sdk"@,
        ".flutter"@,
        ".mason_cache"@,
        ".mason-cache"@,
        "mason-cache"@,
    ]
}

/// The pattern derived from one optional environment value: the final
/// path component of the value, when it has one.
pub open spec fn opt_basename(v: Option<String>) -> Set<Seq<char>> {
    match v {
        Some(s) => match spec_final_component(s@) {
            Some(n) => set![n],
            None => Set::<Seq<char>>::empty(),
        },
        None => Set::<Seq<char>>::empty(),
    }
}

/// The patterns derived from the home-directory probe: the final
/// component of every probe path that exists.
pub open spec fn home_hit_tokens(dirs: Seq<Seq<char>>) -> Set<Seq<char>> {
    Set::new(
        |n: Seq<char>|
            exists|i: int| 0 <= i < dirs.len() && spec_final_component(#[trigger] dirs[i])
                == Some(n),
    )
}

/// The merged pattern set: CLI patterns, config patterns, and — when
/// default exclusions apply — the baseline tokens plus the
/// environment-derived basenames.
pub open spec fn spec_pattern_set(
    cli: Seq<Seq<char>>,
    cfg: Option<Seq<Seq<char>>>,
    use_defaults: bool,
    env: EnvProbe,
) -> Set<Seq<char>> {
    cli.to_set() + (match cfg {
        Some(ps) => ps.to_set(),
        None => Set::<Seq<char>>::empty(),
    }) + (if use_defaults {
        spec_default_tokens() + opt_basename(env.pub_cache) + opt_basename(env.mason_cache)
            + opt_basename(env.flutter_root) + home_hit_tokens(env.home_flutter_dirs.deep_view())
    } else {
        Set::<Seq<char>>::empty()
    })
}

fn insert_all(ps: &mut PatternSet, items: &Vec<String>)
    requires
        old(ps).wf(),
    ensures
        final(ps).wf(),
        final(ps)@ == old(ps)@ + items.deep_view().to_set(),
{
    let mut i: usize = 0;
    while i < items.len()
        invariant
            ps.wf(),
            i <= items@.len(),
            ps@ == old(ps)@ + items.deep_view().take(i as int).to_set(),
        decreases items@.len() - i,
    {
        ps.insert(items[i].clone());
        proof {
            lemma_take_to_set_step(items.deep_view(), i as int);
            assert(items.deep_view()[i as int] == items@[i as int]@);
            assert((old(ps)@ + items.deep_view().take(i as int).to_set()).insert(
                items@[i as int]@,
            ) =~= old(ps)@ + items.deep_view().take(i + 1).to_set());
        }
        i += 1;
    }
    proof {
        assert(items.deep_view().take(items@.len() as int) =~= items.deep_view());
    }
}

fn insert_opt_basename(ps: &mut PatternSet, v: &Option<String>)
    requires
        old(ps).wf(),
    ensures
        final(ps).wf(),
        final(ps)@ == old(ps)@ + opt_basename(*v),
{
    match v {
        Some(s) => {
            match final_component(s.as_str()) {
                Some(n) => {
                    ps.insert(n);
                    proof {
                        assert(ps@ =~= old(ps)@ + opt_basename(*v));
                    }
                },
                None => {
                    proof {
                        assert(ps@ =~= old(ps)@ + opt_basename(*v));
                    }
                },
            }
        },
        None => {
            proof {
                assert(ps@ =~= old(ps)@ + opt_basename(*v));
            }
        },
    }
}

fn insert_home_hits(ps: &mut PatternSet, dirs: &Vec<String>)
    requires
        old(ps).wf(),
    ensures
        final(ps).wf(),
        final(ps)@ == old(ps)@ + home_hit_tokens(dirs.deep_view()),
{
    let mut i: usize = 0;
    while i < dirs.len()
        invariant
            ps.wf(),
            i <= dirs@.len(),
            ps@ == old(ps)@ + home_hit_tokens(dirs.deep_view().take(i as int)),
        decreases dirs@.len() - i,
    {
        let ghost pre = ps@;
        match final_component(dirs[i].as_str()) {
            Some(n) => {
                ps.insert(n);
            },
            None => {},
        }
        proof {
            let dv = dirs.deep_view();
            assert forall|x: Seq<char>| home_hit_tokens(dv.take(i + 1)).contains(x) implies ps@
                .contains(x) by {
                let k = choose|k: int|
                    0 <= k < dv.take(i + 1).len() && spec_final_component(
                        #[trigger] dv.take(i + 1)[k],
                    ) == Some(x);
                if k < i {
                    assert(spec_final_component(dv.take(i as int)[k]) == Some(x));
                    assert(home_hit_tokens(dv.take(i as int)).contains(x));
                } else {
                    assert(dv.take(i + 1)[k] == dirs@[i as int]@);
                }
            }
            assert forall|x: Seq<char>| ps@.contains(x) implies (pre + home_hit_tokens(
                dv.take(i + 1),
            )).contains(x) by {
                if pre.contains(x) {
                } else {
                    assert(spec_final_component(dv.take(i + 1)[i as int]) == Some(x));
                }
            }
            assert forall|x: Seq<char>|
                home_hit_tokens(dv.take(i as int)).contains(x) implies home_hit_tokens(
                dv.take(i + 1),
            ).contains(x) by {
                let k = choose|k: int|
                    0 <= k < dv.take(i as int).len() && spec_final_component(
                        #[trigger] dv.take(i as int)[k],
                    ) == Some(x);
                assert(spec_final_component(dv.take(i + 1)[k]) == Some(x));
            }
            assert(ps@ =~= old(ps)@ + home_hit_tokens(dv.take(i + 1)));
        }
        i += 1;
    }
    proof {
        assert(dirs.deep_view().take(dirs@.len() as int) =~= dirs.deep_view());
    }
}

fn insert_defaults(ps: &mut PatternSet)
    requires
        old(ps).wf(),
    ensures
        final(ps).wf(),
        final(ps)@ == old(ps)@ + spec_default_tokens(),
{
    ps.insert(".git".to_owned());
    ps.insert("build".to_owned());
    ps.insert("node_modules".to_owned());
    ps.insert(".dart_tool".to_owned());
    ps.insert(".pub-cache".to_owned());
    ps.insert("pub-cache".to_owned());
    ps.insert("flutter".to_owned());
    ps.insert("flutter-sdk".to_owned());
    ps.insert(".flutter".to_owned());
    ps.insert(".mason_cache".to_owned());
    ps.insert(".mason-cache".to_owned());
    ps.insert("mason-cache".to_owned());
    proof {
        assert(ps@ =~= old(ps)@ + spec_default_tokens());
    }
}

/// Build the merged pattern set from the CLI patterns, the loaded
/// configuration, the default-exclusions switch, and the
/// environment-derived values, per `spec_pattern_set`.
pub fn build_pattern_set(
    cli_patterns: &Vec<String>,
    config: &Config,
    no_default_excludes: bool,
    env: &EnvProbe,
) -> (r: PatternSet)
    ensures
        r.wf(),
        r@ == spec_pattern_set(
            cli_patterns.deep_view(),
            config.exclude_patterns.deep_view(),
            spec_use_defaults(config.default_excludes, no_default_excludes),
            *env,
        ),
{
    let mut r = PatternSet::new();
    insert_all(&mut r, cli_patterns);
    match &config.exclude_patterns {
        Some(cfg_pats) => {
            insert_all(&mut r, cfg_pats);
        },
        None => {},
    }
    if config.use_defaults(no_default_excludes) {
        insert_defaults(&mut r);
        insert_opt_basename(&mut r, &env.pub_cache);
        insert_opt_basename(&mut r, &env.mason_cache);
        insert_opt_basename(&mut r, &env.flutter_root);
        insert_home_hits(&mut r, &env.home_flutter_dirs);
    }
    proof {
        assert(r@ =~= spec_pattern_set(
            cli_patterns.deep_view(),
            config.exclude_patterns.deep_view(),
            spec_use_defaults(config.default_excludes, no_default_excludes),
            *env,
        ));
    }
    r
}

/// Exact-match law: a path whose final component equals one of the
/// patterns is always excluded.
pub proof fn lemma_exact_match_excludes(path: Seq<char>, pats: Set<Seq<char>>, p: Seq<char>)
    requires
        pats.contains(p),
        spec_final_component(path) == Some(p),
    ensures
        spec_should_exclude(path, pats),
{
    assert(pats.contains(p) && name_rule(p, p));
}

/// Negative-match law: a bare directory name (one with no separator) that
/// shares no substring relation with any pattern, in either direction,
/// and holds no mason-cache literal, is never excluded.
pub proof fn lemma_unrelated_name_not_excluded(name: Seq<char>, pats: Set<Seq<char>>)
    requires
        forall|i: int| 0 <= i < name.len() ==> name[i] != '/',
        !is_substring(".mason-cache"@, name),
        !is_substring(".mason_cache"@, name),
        forall|p: Seq<char>|
            pats.contains(p) ==> !is_substring(p, name) && !is_substring(name, p),
    ensures
        !spec_should_exclude(name, pats),
{
    assert(strip_trailing_slashes(name) == name);
    lemma_suffix_of_slashless(name);
    match spec_final_component(name) {
        Some(nm) => {
            assert(nm == name);
            assert forall|p: Seq<char>| pats.contains(p) implies !name_rule(name, p) by {
                if p == name {
                    lemma_substring_refl(name);
                }
            }
        },
        None => {},
    }
}

/// With an empty pattern set, only the fixed mason-cache literals ever
/// exclude a path.
pub proof fn lemma_empty_patterns(path: Seq<char>)
    ensures
        spec_should_exclude(path, Set::<Seq<char>>::empty()) == (is_substring(
            ".mason-cache"@,
            path,
        ) || is_substring(".mason_cache"@, path)),
{
}

/// With the defaults switched off and no patterns supplied on the command
/// line or in the config file, the built pattern set is empty, and the
/// matcher excludes nothing beyond the fixed mason-cache literals: every
/// plain directory name, `.git` and `build` among them, is descended into.
pub proof fn lemma_defaults_off_no_patterns(path: Seq<char>, cli: Seq<Seq<char>>, env: EnvProbe)
    requires
        cli.len() == 0,
    ensures
        spec_pattern_set(cli, Option::<Seq<Seq<char>>>::None, false, env) == Set::<
            Seq<char>,
        >::empty(),
        spec_should_exclude(path, spec_pattern_set(cli, Option::<Seq<Seq<char>>>::None, false, env))
            == (is_substring(".mason-cache"@, path) || is_substring(".mason_cache"@, path)),
{
    assert(spec_pattern_set(cli, Option::<Seq<Seq<char>>>::None, false, env) =~= Set::<
        Seq<char>,
    >::empty());
    lemma_empty_patterns(path);
}

} // verus!
