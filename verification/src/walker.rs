//! The tree walker: depth-first pre-order discovery of qualifying project
//! roots over an in-memory directory tree, pruning excluded subtrees, with
//! the pruning-correctness and repeatability laws.

use vstd::prelude::*;

verus! {

use crate::exclude::{PatternSet, should_exclude, spec_should_exclude};
use crate::classify::{manifest_qualifies, spec_manifest_qualifies, yaml_dep_names};
use crate::strutil::join_path;

broadcast use vstd::std_specs::vec::axiom_vec_index_decreases;

/// An in-memory directory tree: a node's name, the text of its manifest
/// file when one is present and readable, and its subdirectories.
pub struct DirTree {
    pub name: String,
    pub manifest: Option<String>,
    pub children: Vec<DirTree>,
}

/// Whether a node is a qualifying project root: its manifest is present
/// and qualifies.
pub open spec fn spec_node_qualifies(n: DirTree) -> bool {
    match n.manifest {
        Some(m) => spec_manifest_qualifies(m@),
        None => false,
    }
}

/// Classify one directory node.
pub fn is_project_root(n: &DirTree) -> (r: bool)
    ensures
        r == spec_node_qualifies(*n),
{
    match &n.manifest {
        Some(m) => manifest_qualifies(m.as_str()),
        None => false,
    }
}

/// The classifier's conditions, written out: a node qualifies iff its
/// manifest text is present, that text yields a dependency mapping, and
/// the mapping holds the key `flutter`; an absent or rejected manifest,
/// or one without that key, never qualifies.
pub proof fn lemma_classifier_conditions(n: DirTree)
    ensures
        spec_node_qualifies(n) <==> (n.manifest is Some && yaml_dep_names(n.manifest->0@) is Some
            && yaml_dep_names(n.manifest->0@)->0.contains("flutter"@)),
{
}

/// Names of directories never hold the separator and are never empty.
pub open spec fn spec_wf_name(s: Seq<char>) -> bool {
    s.len() > 0 && forall|i: int| 0 <= i < s.len() ==> s[i] != '/'
}

/// Every directory name below the node is well formed.
pub open spec fn spec_wf_tree(n: DirTree) -> bool
    decreases n, 0int,
{
    spec_wf_children(n.children, 0)
}

/// Every directory name below any of the children from `i` on is well
/// formed.
pub open spec fn spec_wf_children(children: Vec<DirTree>, i: int) -> bool
    decreases children, children.len() - i,
{
    if 0 <= i < children.len() {
        spec_wf_name(children[i].name@) && spec_wf_tree(children[i]) && spec_wf_children(
            children,
            i + 1,
        )
    } else {
        true
    }
}

/// The paths discovered below a node standing at `path`: nothing when the
/// node is excluded; otherwise the node itself when it qualifies, followed
/// by the discoveries of its children in order.
pub open spec fn spec_discover(n: DirTree, path: Seq<char>, pats: Set<Seq<char>>) -> Seq<
    Seq<char>,
>
    decreases n, 0int,
{
    if spec_should_exclude(path, pats) {
        Seq::<Seq<char>>::empty()
    } else {
        (if spec_node_qualifies(n) {
            seq![path]
        } else {
            Seq::<Seq<char>>::empty()
        }) + spec_discover_from(n.children, 0, path, pats)
    }
}

/// The discoveries of the children of a node at `path`, from child `i` on.
pub open spec fn spec_discover_from(
    children: Vec<DirTree>,
    i: int,
    path: Seq<char>,
    pats: Set<Seq<char>>,
) -> Seq<Seq<char>>
    decreases children, children.len() - i,
{
    if 0 <= i < children.len() {
        spec_discover(children[i], path + "/"@ + children[i].name@, pats) + spec_discover_from(
            children,
            i + 1,
            path,
            pats,
        )
    } else {
        Seq::<Seq<char>>::empty()
    }
}

fn discover_into(n: &DirTree, path: &String, patterns: &PatternSet, out: &mut Vec<String>)
    ensures
        final(out).deep_view() == old(out).deep_view() + spec_discover(*n, path@, patterns@),
    decreases *n,
{
    if should_exclude(path.as_str(), patterns) {
        proof {
            assert(out.deep_view() =~= old(out).deep_view() + spec_discover(
                *n,
                path@,
                patterns@,
            ));
        }
        return ;
    }
    let ghost entry = out.deep_view();
    if is_project_root(n) {
        out.push(path.clone());
        proof {
            assert(out.deep_view() =~= entry + seq![path@]);
        }
    }
    let ghost head = out.deep_view();
    let mut i: usize = 0;
    while i < n.children.len()
        invariant
            i <= n.children@.len(),
            !spec_should_exclude(path@, patterns@),
            out.deep_view() == head + spec_discover_upto(n.children, i as int, path@, patterns@),
        decreases n.children@.len() - i,
    {
        let child = &n.children[i];
        let child_path = join_path(path.as_str(), child.name.as_str());
        discover_into(child, &child_path, patterns, out);
        proof {
            lemma_discover_split(n.children, i as int, path@, patterns@);
            assert(out.deep_view() =~= head + spec_discover_upto(
                n.children,
                i + 1,
                path@,
                patterns@,
            ));
        }
        i += 1;
    }
    proof {
        lemma_discover_upto_full(n.children, path@, patterns@);
        assert(out.deep_view() =~= old(out).deep_view() + spec_discover(*n, path@, patterns@));
    }
}

/// The discoveries of the children before child `i`.
spec fn spec_discover_upto(
    children: Vec<DirTree>,
    i: int,
    path: Seq<char>,
    pats: Set<Seq<char>>,
) -> Seq<Seq<char>>
    decreases children, i,
{
    if 0 < i <= children.len() {
        spec_discover_upto(children, i - 1, path, pats) + spec_discover(
            children[i - 1],
            path + "/"@ + children[i - 1].name@,
            pats,
        )
    } else {
        Seq::<Seq<char>>::empty()
    }
}

proof fn lemma_discover_split(children: Vec<DirTree>, i: int, path: Seq<char>, pats: Set<Seq<char>>)
    requires
        0 <= i < children.len(),
    ensures
        spec_discover_upto(children, i + 1, path, pats) == spec_discover_upto(
            children,
            i,
            path,
            pats,
        ) + spec_discover(children[i], path + "/"@ + children[i].name@, pats),
{
}

proof fn lemma_discover_upto_from(
    children: Vec<DirTree>,
    i: int,
    path: Seq<char>,
    pats: Set<Seq<char>>,
)
    requires
        0 <= i <= children.len(),
    ensures
        spec_discover_upto(children, i, path, pats) + spec_discover_from(children, i, path, pats)
            == spec_discover_from(children, 0, path, pats),
    decreases i,
{
    if i == 0 {
        assert(spec_discover_upto(children, 0, path, pats) + spec_discover_from(
            children,
            0,
            path,
            pats,
        ) =~= spec_discover_from(children, 0, path, pats));
    } else {
        lemma_discover_upto_from(children, i - 1, path, pats);
        assert(spec_discover_upto(children, i - 1, path, pats) + (spec_discover(
            children[i - 1],
            path + "/"@ + children[i - 1].name@,
            pats,
        ) + spec_discover_from(children, i, path, pats)) =~= (spec_discover_upto(
            children,
            i - 1,
            path,
            pats,
        ) + spec_discover(children[i - 1], path + "/"@ + children[i - 1].name@, pats))
            + spec_discover_from(children, i, path, pats));
    }
}

proof fn lemma_discover_upto_full(children: Vec<DirTree>, path: Seq<char>, pats: Set<Seq<char>>)
    ensures
        spec_discover_upto(children, children.len() as int, path, pats) == spec_discover_from(
            children,
            0,
            path,
            pats,
        ),
{
    lemma_discover_upto_from(children, children.len() as int, path, pats);
    assert(spec_discover_upto(children, children.len() as int, path, pats) + Seq::<
        Seq<char>,
    >::empty() =~= spec_discover_upto(children, children.len() as int, path, pats));
}

/// Walk the tree rooted at `root`, standing at `root_path`: prune every
/// excluded directory without entering it, record every qualifying,
/// non-excluded directory, and descend into qualifying directories too
/// (nested projects are found independently). Depth-first pre-order.
pub fn discover(root: &DirTree, root_path: &str, patterns: &PatternSet) -> (r: Vec<String>)
    ensures
        r.deep_view() == spec_discover(*root, root_path@, patterns@),
{
    let mut out: Vec<String> = Vec::new();
    let path = root_path.to_owned();
    discover_into(root, &path, patterns, &mut out);
    proof {
        assert(out.deep_view() =~= spec_discover(*root, root_path@, patterns@));
    }
    out
}

/// `e` lies strictly below `d`: `d` is a proper prefix of `e` ending at a
/// component boundary.
pub open spec fn is_strict_descendant(e: Seq<char>, d: Seq<char>) -> bool {
    e.len() > d.len() && e.subrange(0, d.len() as int) == d && e[d.len() as int] == '/'
}

proof fn lemma_add_contains<A>(a: Seq<A>, b: Seq<A>, x: A)
    ensures
        (a + b).contains(x) <==> a.contains(x) || b.contains(x),
{
    if (a + b).contains(x) {
        let j = choose|j: int| 0 <= j < (a + b).len() && (a + b)[j] == x;
        if j < a.len() {
            assert(a[j] == x);
        } else {
            assert(b[j - a.len()] == x);
        }
    }
    if a.contains(x) {
        let j = choose|j: int| 0 <= j < a.len() && a[j] == x;
        assert((a + b)[j] == x);
    }
    if b.contains(x) {
        let j = choose|j: int| 0 <= j < b.len() && b[j] == x;
        assert((a + b)[j + a.len()] == x);
    }
}

proof fn lemma_child_path_descends(path: Seq<char>, name: Seq<char>)
    ensures
        is_strict_descendant(path + "/"@ + name, path),
{
    reveal_strlit("/");
    let pc = path + "/"@ + name;
    assert(pc.subrange(0, path.len() as int) =~= path);
    assert(pc[path.len() as int] == '/');
}

proof fn lemma_descendant_trans(e: Seq<char>, m: Seq<char>, p: Seq<char>)
    requires
        e == m || is_strict_descendant(e, m),
        is_strict_descendant(m, p),
    ensures
        is_strict_descendant(e, p),
{
    if e == m {
    } else {
        assert forall|k: int| 0 <= k < p.len() implies e.subrange(0, p.len() as int)[k] == p[k] by {
            assert(e.subrange(0, m.len() as int)[k] == e[k]);
            assert(m.subrange(0, p.len() as int)[k] == m[k]);
        }
        assert(e.subrange(0, p.len() as int) =~= p);
        assert(e.subrange(0, m.len() as int)[p.len() as int] == e[p.len() as int]);
    }
}

proof fn lemma_discover_extends(n: DirTree, path: Seq<char>, pats: Set<Seq<char>>, e: Seq<char>)
    requires
        spec_discover(n, path, pats).contains(e),
    ensures
        e == path || is_strict_descendant(e, path),
    decreases n, 0int,
{
    if spec_should_exclude(path, pats) {
        assert(spec_discover(n, path, pats).len() == 0);
    } else {
        let head: Seq<Seq<char>> = if spec_node_qualifies(n) {
            seq![path]
        } else {
            Seq::<Seq<char>>::empty()
        };
        lemma_add_contains(head, spec_discover_from(n.children, 0, path, pats), e);
        if head.contains(e) {
            let j = choose|j: int| 0 <= j < head.len() && head[j] == e;
            assert(e == path);
        } else {
            lemma_discover_from_extends(n.children, 0, path, pats, e);
        }
    }
}

proof fn lemma_discover_from_extends(
    children: Vec<DirTree>,
    i: int,
    path: Seq<char>,
    pats: Set<Seq<char>>,
    e: Seq<char>,
)
    requires
        spec_discover_from(children, i, path, pats).contains(e),
    ensures
        is_strict_descendant(e, path),
    decreases children, children.len() - i,
{
    if 0 <= i < children.len() {
        let pc = path + "/"@ + children[i].name@;
        lemma_add_contains(
            spec_discover(children[i], pc, pats),
            spec_discover_from(children, i + 1, path, pats),
            e,
        );
        if spec_discover(children[i], pc, pats).contains(e) {
            lemma_discover_extends(children[i], pc, pats, e);
            lemma_child_path_descends(path, children[i].name@);
            lemma_descendant_trans(e, pc, path);
        } else {
            lemma_discover_from_extends(children, i + 1, path, pats, e);
        }
    } else {
        assert(spec_discover_from(children, i, path, pats).len() == 0);
    }
}

proof fn lemma_ancestor_not_excluded(
    n: DirTree,
    path: Seq<char>,
    pats: Set<Seq<char>>,
    e: Seq<char>,
    d: Seq<char>,
)
    requires
        spec_wf_tree(n),
        spec_discover(n, path, pats).contains(e),
        d == path || is_strict_descendant(d, path),
        e == d || is_strict_descendant(e, d),
    ensures
        !spec_should_exclude(d, pats),
    decreases n, 0int,
{
    if spec_should_exclude(path, pats) {
        assert(spec_discover(n, path, pats).len() == 0);
        assert(false);
    } else {
        if d == path {
        } else {
            let head: Seq<Seq<char>> = if spec_node_qualifies(n) {
                seq![path]
            } else {
                Seq::<Seq<char>>::empty()
            };
            lemma_add_contains(head, spec_discover_from(n.children, 0, path, pats), e);
            if head.contains(e) {
                let j = choose|j: int| 0 <= j < head.len() && head[j] == e;
                assert(e == path);
                assert(false);
            } else {
                lemma_from_ancestor_not_excluded(n.children, 0, path, pats, e, d);
            }
        }
    }
}

proof fn lemma_from_ancestor_not_excluded(
    children: Vec<DirTree>,
    i: int,
    path: Seq<char>,
    pats: Set<Seq<char>>,
    e: Seq<char>,
    d: Seq<char>,
)
    requires
        spec_wf_children(children, i),
        spec_discover_from(children, i, path, pats).contains(e),
        is_strict_descendant(d, path),
        e == d || is_strict_descendant(e, d),
    ensures
        !spec_should_exclude(d, pats),
    decreases children, children.len() - i,
{
    if 0 <= i < children.len() {
        let name = children[i].name@;
        let pc = path + "/"@ + name;
        lemma_add_contains(
            spec_discover(children[i], pc, pats),
            spec_discover_from(children, i + 1, path, pats),
            e,
        );
        if spec_discover(children[i], pc, pats).contains(e) {
            lemma_discover_extends(children[i], pc, pats, e);
            reveal_strlit("/");
            // e carries both pc and d as prefixes
            assert(e.subrange(0, pc.len() as int) == pc) by {
                if e == pc {
                    assert(e.subrange(0, pc.len() as int) =~= pc);
                }
            }
            assert(e.subrange(0, d.len() as int) == d) by {
                if e == d {
                    assert(e.subrange(0, d.len() as int) =~= d);
                }
            }
            assert(e.len() >= pc.len() && e.len() >= d.len());
            if d.len() >= pc.len() {
                if d.len() == pc.len() {
                    assert forall|k: int| 0 <= k < d.len() implies d[k] == pc[k] by {
                        assert(e.subrange(0, d.len() as int)[k] == e[k]);
                        assert(e.subrange(0, pc.len() as int)[k] == e[k]);
                    }
                    assert(d =~= pc);
                    lemma_ancestor_not_excluded(children[i], pc, pats, e, d);
                } else {
                    // pc is a proper prefix of d at a component boundary
                    assert(e.len() > pc.len());
                    assert(e != pc);
                    assert(e[pc.len() as int] == '/');
                    assert forall|k: int| 0 <= k < pc.len() implies d.subrange(
                        0,
                        pc.len() as int,
                    )[k] == pc[k] by {
                        assert(e.subrange(0, d.len() as int)[k] == e[k]);
                        assert(e.subrange(0, pc.len() as int)[k] == e[k]);
                    }
                    assert(d.subrange(0, pc.len() as int) =~= pc);
                    assert(d[pc.len() as int] == e.subrange(0, d.len() as int)[pc.len() as int]);
                    assert(is_strict_descendant(d, pc));
                    lemma_ancestor_not_excluded(children[i], pc, pats, e, d);
                }
            } else {
                // impossible: d would end inside the child's name
                assert(path.len() < d.len() < pc.len());
                assert(e != d);
                assert(e[d.len() as int] == '/');
                assert(e[d.len() as int] == e.subrange(0, pc.len() as int)[d.len() as int]);
                assert(pc[d.len() as int] == name[d.len() - path.len() - 1]) by {
                    assert((path + "/"@).len() == path.len() + 1);
                }
                assert(spec_wf_name(name));
                assert(false);
            }
        } else {
            lemma_from_ancestor_not_excluded(children, i + 1, path, pats, e, d);
        }
    } else {
        assert(spec_discover_from(children, i, path, pats).len() == 0);
        assert(false);
    }
}

/// Pruning correctness: over a well-formed tree, a discovered path is
/// never an excluded directory, nor a strict descendant of one — an
/// excluded directory at or below the walk root is pruned whole, its
/// subtree never entered.
pub proof fn lemma_pruning_correct(
    n: DirTree,
    path: Seq<char>,
    pats: Set<Seq<char>>,
    e: Seq<char>,
    d: Seq<char>,
)
    requires
        spec_wf_tree(n),
        spec_discover(n, path, pats).contains(e),
        spec_should_exclude(d, pats),
        d == path || is_strict_descendant(d, path),
    ensures
        e != d,
        !is_strict_descendant(e, d),
{
    if e == d || is_strict_descendant(e, d) {
        lemma_ancestor_not_excluded(n, path, pats, e, d);
    }
}

/// Every discovered path lies at or below the walk root, and is itself
/// never excluded.
pub proof fn lemma_discovered_within_root(
    n: DirTree,
    path: Seq<char>,
    pats: Set<Seq<char>>,
    e: Seq<char>,
)
    requires
        spec_wf_tree(n),
        spec_discover(n, path, pats).contains(e),
    ensures
        e == path || is_strict_descendant(e, path),
        !spec_should_exclude(e, pats),
{
    lemma_discover_extends(n, path, pats, e);
    lemma_ancestor_not_excluded(n, path, pats, e, e);
}

/// Discovery is repeatable: any two walks of the same unchanged tree with
/// the same pattern set yield the same paths, in the same order.
pub proof fn lemma_discover_repeatable(
    n: DirTree,
    path: Seq<char>,
    pats: Set<Seq<char>>,
    r1: Seq<Seq<char>>,
    r2: Seq<Seq<char>>,
)
    requires
        r1 == spec_discover(n, path, pats),
        r2 == spec_discover(n, path, pats),
    ensures
        r1 == r2,
        r1.to_set() == r2.to_set(),
{
}

} // verus!

