//! Tracing `use` items: each name a `use` brings into scope becomes a leaf
//! under the `use` node that records what it refers to, and each glob becomes
//! a leaf that records the scope it imports from.

use vstd::prelude::*;
use vstd::set_lib::{lemma_int_range, lemma_len_subset, set_int_range};

use crate::ast::{Ident, SimplePath, UseTree};
use crate::error::{
    disambiguation_needed, disambiguation_needed_view, glob_at_entry, glob_at_entry_view,
    global_path_in_prefixed_use_group, global_path_in_prefixed_use_group_view, opt_ident_text,
    self_usage, self_usage_view, unresolved_item, AmbiguitySource, Diagnostic, DiagnosticView, ItemHint,
    SelfUsageErrorCause,
};
use super::graph::{
    is_valid_pub_path_segment_kind, is_valid_use_path_segment_kind, Branch, Leaf, NodeKind, ResolutionGraph, ResolutionIndex,
    ResolutionNode,
};
use super::path::{
    find_children_from_globs, find_children_from_local_and_global, globs_result, handle_special_ident,
    local_and_global_result, root_of, special_ident_result, use_scope, use_scope_of, visible_from, TracingContext,
};
use super::type_path::{
    glob_leaves, glob_scope, glob_src, glob_use, lookup_view, named_imports, opt_diagnostic_view, place_of, scope_globs,
    LookupPlace,
};
use super::visibility::VisibilitySolver;

verus! {

/// The kinds of leaf that tracing a `use` adds.
pub open spec fn is_use_leaf_kind(k: NodeKind) -> bool {
    k == NodeKind::UseName || k == NodeKind::UseRename || k == NodeKind::UseGlob
}

/// How a node may change while uses are traced: a `use` item may gain
/// children at the end of its list; any other node stays as it is.
pub open spec fn node_grows(a: ResolutionNode, b: ResolutionNode) -> bool {
    ||| a == b
    ||| (a matches ResolutionNode::Branch { parent: pa, branch: Branch::Use(ua), children: ca }
        && b matches ResolutionNode::Branch { parent: pb, branch: Branch::Use(ub), children: cb }
        && pa == pb && ua == ub && ca@.is_prefix_of(cb@))
}

/// `b` is `a` after tracing: the nodes of `a` kept (uses may have gained
/// children), and only `use` leaves appended.
pub open spec fn graph_grows(a: ResolutionGraph, b: ResolutionGraph) -> bool {
    &&& a.len() <= b.len()
    &&& forall|i: int| 0 <= i < a.len() ==> #[trigger] node_grows(a.inner@[i], b.inner@[i])
    &&& forall|i: int| a.len() <= i < b.len() ==> is_use_leaf_kind(#[trigger] b.kind_of(i))
    &&& b.roots@ == a.roots@
    &&& a.content_files@.is_prefix_of(b.content_files@)
}

pub proof fn lemma_node_grows(a: ResolutionNode, b: ResolutionNode)
    requires
        node_grows(a, b),
    ensures
        b.spec_kind() == a.spec_kind(),
        b.spec_parent() == a.spec_parent(),
        b.spec_name() == a.spec_name(),
        a.spec_children() matches Some(ca) ==> b.spec_children() matches Some(cb) && ca.is_prefix_of(cb),
        a.spec_kind() != NodeKind::Use ==> a == b,
{
}

pub proof fn lemma_graph_grows_refl(a: ResolutionGraph)
    ensures
        graph_grows(a, a),
{
    assert forall|i: int| 0 <= i < a.len() implies #[trigger] node_grows(a.inner@[i], a.inner@[i]) by {}
    assert(a.content_files@.is_prefix_of(a.content_files@)) by {
        assert(a.content_files@.subrange(0, a.content_files@.len() as int) =~= a.content_files@);
    }
}

pub proof fn lemma_graph_grows_trans(a: ResolutionGraph, b: ResolutionGraph, c: ResolutionGraph)
    requires
        graph_grows(a, b),
        graph_grows(b, c),
    ensures
        graph_grows(a, c),
{
    assert forall|i: int| 0 <= i < a.len() implies #[trigger] node_grows(a.inner@[i], c.inner@[i]) by {
        assert(node_grows(a.inner@[i], b.inner@[i]));
        assert(node_grows(b.inner@[i], c.inner@[i]));
        if a.inner@[i] != b.inner@[i] && b.inner@[i] != c.inner@[i] {
            let ca = a.inner@[i].spec_children().unwrap();
            let cb = b.inner@[i].spec_children().unwrap();
            let cc = c.inner@[i].spec_children().unwrap();
            assert(ca.is_prefix_of(cc)) by {
                assert forall|k: int| 0 <= k < ca.len() implies ca[k] == cc[k] by {
                    assert(ca[k] == cb[k]);
                    assert(cb[k] == cc[k]);
                }
            }
        }
    }
    assert forall|i: int| a.len() <= i < c.len() implies is_use_leaf_kind(#[trigger] c.kind_of(i)) by {
        if i < b.len() {
            assert(is_use_leaf_kind(b.kind_of(i)));
            assert(node_grows(b.inner@[i], c.inner@[i]));
        }
    }
    assert(a.content_files@.is_prefix_of(c.content_files@)) by {
        assert forall|k: int| 0 <= k < a.content_files@.len() implies a.content_files@[k] == c.content_files@[k] by {
            assert(a.content_files@[k] == b.content_files@[k]);
        }
    }
}

/// The number of `use` items among the first `n` nodes not traced yet.
pub open spec fn pending_count(g: ResolutionGraph, resolved: Seq<bool>, n: int) -> nat
    decreases n,
{
    if n <= 0 {
        0
    } else {
        pending_count(g, resolved, n - 1) + if g.kind_of(n - 1) == NodeKind::Use && !resolved[n - 1] {
            1nat
        } else {
            0nat
        }
    }
}

pub proof fn lemma_pending_congruent(g1: ResolutionGraph, r1: Seq<bool>, g2: ResolutionGraph, r2: Seq<bool>, n: int)
    requires
        forall|i: int| 0 <= i < n ==> #[trigger] g1.kind_of(i) == g2.kind_of(i) && r1[i] == r2[i],
    ensures
        pending_count(g1, r1, n) == pending_count(g2, r2, n),
    decreases n,
{
    if n > 0 {
        assert(g1.kind_of(n - 1) == g2.kind_of(n - 1) && r1[n - 1] == r2[n - 1]);
        lemma_pending_congruent(g1, r1, g2, r2, n - 1);
    }
}

pub proof fn lemma_pending_mark(g: ResolutionGraph, r: Seq<bool>, d: int, n: int)
    requires
        0 <= d < n,
        n <= r.len(),
        g.kind_of(d) == NodeKind::Use,
        !r[d],
    ensures
        pending_count(g, r.update(d, true), n) + 1 == pending_count(g, r, n),
    decreases n,
{
    if n - 1 == d {
        lemma_pending_congruent(g, r.update(d, true), g, r, n - 1);
    } else {
        lemma_pending_mark(g, r, d, n - 1);
    }
}

pub proof fn lemma_pending_positive(g: ResolutionGraph, r: Seq<bool>, d: int, n: int)
    requires
        0 <= d < n,
        g.kind_of(d) == NodeKind::Use,
        !r[d],
    ensures
        pending_count(g, r, n) >= 1,
    decreases n,
{
    if n - 1 != d {
        lemma_pending_positive(g, r, d, n - 1);
    }
}

/// Indices that occur at most once and lie below `n` number at most `n`.
pub proof fn lemma_distinct_indices_bounded(s: Seq<ResolutionIndex>, n: nat)
    requires
        s.no_duplicates(),
        forall|i: int| 0 <= i < s.len() ==> (#[trigger] s[i]).0 < n,
    ensures
        s.len() <= n,
{
    let ints = s.map_values(|r: ResolutionIndex| r.0 as int);
    assert(ints.no_duplicates()) by {
        assert forall|i: int, j: int| 0 <= i < ints.len() && 0 <= j < ints.len() && i != j
            implies ints[i] != ints[j] by {
            assert(s[i] != s[j]);
        }
    }
    ints.unique_seq_to_set();
    lemma_int_range(0, n as int);
    assert(ints.to_set().subset_of(set_int_range(0, n as int))) by {
        assert forall|x: int| ints.to_set().contains(x) implies set_int_range(0, n as int).contains(x) by {
            let k = choose|k: int| 0 <= k < ints.len() && ints[k] == x;
            assert(s[k].0 < n);
        }
    }
    lemma_len_subset(ints.to_set(), set_int_range(0, n as int));
}

/// Whether a `use` tree may bring `ident` into scope: it names or renames to
/// it, imports a glob, or ends a path in `ident` followed by `self`.
pub open spec fn use_might_match(tree: UseTree, ident: Seq<char>) -> bool
    decreases tree, 0int,
{
    match tree {
        UseTree::Path(path, sub) => use_might_match(*sub, ident) || (path.segments@.len() > 0
            && path.segments@.last().inner@ == ident && imports_self(*sub)),
        UseTree::Name(name) => name.inner@ == ident,
        UseTree::Rename(_, rename) => rename.inner@ == ident,
        UseTree::Glob(_) => true,
        UseTree::Group(trees) => group_might_match(trees@, ident, trees@.len() as int),
    }
}

/// Whether tracing the tree must add a leaf or record an error: any name,
/// rename or glob in it does.
pub open spec fn yields(tree: UseTree) -> bool
    decreases tree, 0int,
{
    match tree {
        UseTree::Path(_, sub) => yields(*sub),
        UseTree::Group(trees) => group_yields(trees@, trees@.len() as int),
        _ => true,
    }
}

/// Whether tracing one of the first `n` trees must add a leaf or an error.
pub open spec fn group_yields(trees: Seq<UseTree>, n: int) -> bool
    decreases trees, n,
{
    if n <= 0 || n > trees.len() {
        false
    } else {
        group_yields(trees, n - 1) || yields(trees[n - 1])
    }
}

proof fn lemma_same_tree_yields(a: UseTree, b: UseTree)
    requires
        same_tree(a, b),
    ensures
        yields(a) == yields(b),
    decreases a, 0int,
{
    match a {
        UseTree::Path(_, sa) => {
            let sb = match b {
                UseTree::Path(_, sb) => *sb,
                _ => a,
            };
            lemma_same_tree_yields(*sa, sb);
        },
        UseTree::Group(ta) => {
            let tb = match b {
                UseTree::Group(tb) => tb@,
                _ => Seq::empty(),
            };
            lemma_same_trees_yields(ta@, tb, ta@.len() as int);
        },
        _ => {},
    }
}

proof fn lemma_same_trees_yields(ta: Seq<UseTree>, tb: Seq<UseTree>, n: int)
    requires
        0 <= n <= ta.len(),
        n <= tb.len(),
        same_trees(ta, tb, n),
    ensures
        group_yields(ta, n) == group_yields(tb, n),
    decreases ta, n,
{
    if n > 0 {
        lemma_same_trees_yields(ta, tb, n - 1);
        lemma_same_tree_yields(ta[n - 1], tb[n - 1]);
    }
}

/// Whether one of the first `n` trees of a group may bring `ident` into scope.
pub open spec fn group_might_match(trees: Seq<UseTree>, ident: Seq<char>, n: int) -> bool
    decreases trees, n,
{
    if n <= 0 || n > trees.len() {
        false
    } else {
        group_might_match(trees, ident, n - 1) || use_might_match(trees[n - 1], ident)
    }
}

/// The number of nodes of a `use` tree.
pub open spec fn tree_size(tree: UseTree) -> nat
    decreases tree, 0int,
{
    match tree {
        UseTree::Path(_, sub) => 1 + tree_size(*sub),
        UseTree::Group(trees) => 1 + trees_size(trees@, trees@.len() as int),
        _ => 1,
    }
}

/// The number of nodes of the first `n` trees.
pub open spec fn trees_size(trees: Seq<UseTree>, n: int) -> nat
    decreases trees, n,
{
    if n <= 0 || n > trees.len() {
        0
    } else {
        trees_size(trees, n - 1) + tree_size(trees[n - 1])
    }
}

pub proof fn lemma_trees_size(trees: Seq<UseTree>, i: int, n: int)
    requires
        0 <= i < n <= trees.len(),
    ensures
        tree_size(trees[i]) <= trees_size(trees, n),
    decreases n,
{
    if i < n - 1 {
        lemma_trees_size(trees, i, n - 1);
    }
}

/// The tree is `self`, `self as ..`, or a group with one of those.
pub open spec fn imports_self(tree: UseTree) -> bool {
    match tree {
        UseTree::Group(trees) => any_self_tree(trees@, trees@.len() as int),
        _ => is_self_tree(tree),
    }
}

/// One of the first `n` trees is `self` or `self as ..`.
pub open spec fn any_self_tree(trees: Seq<UseTree>, n: int) -> bool
    decreases n,
{
    if n <= 0 || n > trees.len() {
        false
    } else {
        any_self_tree(trees, n - 1) || is_self_tree(trees[n - 1])
    }
}

pub open spec fn is_self_tree(tree: UseTree) -> bool {
    match tree {
        UseTree::Name(name) => name.inner@ == "self"@,
        UseTree::Rename(name, _) => name.inner@ == "self"@,
        _ => false,
    }
}

fn is_self_tree_exec(tree: &UseTree) -> (r: bool)
    ensures
        r == is_self_tree(*tree),
{
    match tree {
        UseTree::Name(name) => name.is("self"),
        UseTree::Rename(name, _) => name.is("self"),
        _ => false,
    }
}

fn imports_self_exec(tree: &UseTree) -> (r: bool)
    ensures
        r == imports_self(*tree),
{
    match tree {
        UseTree::Group(trees) => {
            let mut found = false;
            let mut i: usize = 0;
            while i < trees.len()
                invariant
                    *tree == UseTree::Group(*trees),
                    i <= trees@.len(),
                    found == any_self_tree(trees@, i as int),
                decreases trees@.len() - i,
            {
                let here = is_self_tree_exec(&trees[i]);
                found = found || here;
                i = i + 1;
            }
            found
        },
        _ => is_self_tree_exec(tree),
    }
}

/// Whether a `use` tree may bring `ident` into scope.
pub fn tree_might_match(tree: &UseTree, ident: &Ident) -> (r: bool)
    ensures
        r == use_might_match(*tree, ident.inner@),
    decreases tree,
{
    match tree {
        UseTree::Path(path, sub) => {
            if tree_might_match(sub, ident) {
                return true;
            }
            path.segments.len() > 0 && path.segments[path.segments.len() - 1].same_text(ident)
                && imports_self_exec(sub)
        },
        UseTree::Name(name) => name.same_text(ident),
        UseTree::Rename(_, rename) => rename.same_text(ident),
        UseTree::Glob(_) => true,
        UseTree::Group(trees) => {
            let mut found = false;
            let mut i: usize = 0;
            while i < trees.len()
                invariant
                    *tree == UseTree::Group(*trees),
                    i <= trees@.len(),
                    found == group_might_match(trees@, ident.inner@, i as int),
                decreases trees@.len() - i,
            {
                proof {
                    assert(decreases_to!(*tree => tree->Group_0));
                    assert(decreases_to!(*trees => trees[i as int]));
                }
                let here = tree_might_match(&trees[i], ident);
                found = found || here;
                i = i + 1;
            }
            found
        },
    }
}

/// Two paths with the same leading separator and segments.
pub open spec fn same_path(a: SimplePath, b: SimplePath) -> bool {
    a.leading_sep == b.leading_sep && a.segments@ == b.segments@
}

/// Two `use` trees of the same shape, with the same identifiers and spans.
pub open spec fn same_tree(a: UseTree, b: UseTree) -> bool
    decreases a, 0int,
{
    match a {
        UseTree::Path(pa, sa) => b matches UseTree::Path(pb, sb) && same_path(pa, pb) && same_tree(*sa, *sb),
        UseTree::Name(_) => a == b,
        UseTree::Rename(_, _) => a == b,
        UseTree::Glob(_) => a == b,
        UseTree::Group(ta) => b matches UseTree::Group(tb) && ta@.len() == tb@.len()
            && same_trees(ta@, tb@, ta@.len() as int),
    }
}

/// The first `n` trees of two groups are pairwise the same.
pub open spec fn same_trees(ta: Seq<UseTree>, tb: Seq<UseTree>, n: int) -> bool
    decreases ta, n,
{
    if n <= 0 || n > ta.len() {
        true
    } else {
        same_trees(ta, tb, n - 1) && same_tree(ta[n - 1], tb[n - 1])
    }
}

proof fn lemma_same_tree_symmetric(a: UseTree, b: UseTree)
    requires
        same_tree(a, b),
    ensures
        same_tree(b, a),
    decreases a, 0int,
{
    match a {
        UseTree::Path(_, sa) => {
            if let UseTree::Path(_, sb) = b {
                lemma_same_tree_symmetric(*sa, *sb);
            }
        },
        UseTree::Group(ta) => {
            if let UseTree::Group(tb) = b {
                lemma_same_trees_symmetric(ta@, tb@, ta@.len() as int);
            }
        },
        _ => {},
    }
}

proof fn lemma_same_trees_symmetric(ta: Seq<UseTree>, tb: Seq<UseTree>, n: int)
    requires
        0 <= n <= ta.len(),
        n <= tb.len(),
        same_trees(ta, tb, n),
    ensures
        same_trees(tb, ta, n),
    decreases ta, n,
{
    if n > 0 {
        lemma_same_trees_symmetric(ta, tb, n - 1);
        lemma_same_tree_symmetric(ta[n - 1], tb[n - 1]);
    }
}

proof fn lemma_same_trees_extend(ta: Seq<UseTree>, before: Seq<UseTree>, after: Seq<UseTree>, n: int)
    requires
        0 <= n < ta.len(),
        before.len() == n,
        after.len() == n + 1,
        before.is_prefix_of(after),
        same_trees(ta, before, n),
        same_tree(ta[n], after[n]),
    ensures
        same_trees(ta, after, n + 1),
    decreases n,
{
    if n > 0 {
        lemma_same_trees_prefix(ta, before, after, n);
    }
    assert(same_trees(ta, after, n + 1) == (same_trees(ta, after, n) && same_tree(ta[n], after[n])));
}

proof fn lemma_same_trees_prefix(ta: Seq<UseTree>, before: Seq<UseTree>, after: Seq<UseTree>, n: int)
    requires
        0 <= n <= before.len(),
        n <= ta.len(),
        before.is_prefix_of(after),
        same_trees(ta, before, n),
    ensures
        same_trees(ta, after, n),
    decreases n,
{
    if n > 0 {
        lemma_same_trees_prefix(ta, before, after, n - 1);
        assert(before[n - 1] == after[n - 1]);
    }
}

pub fn clone_path(path: &SimplePath) -> (r: SimplePath)
    ensures
        same_path(r, *path),
{
    let mut segments: Vec<Ident> = Vec::new();
    let mut i: usize = 0;
    while i < path.segments.len()
        invariant
            i <= path.segments@.len(),
            segments@ == path.segments@.take(i as int),
        decreases path.segments@.len() - i,
    {
        segments.push(path.segments[i].duplicate());
        i = i + 1;
        assert(segments@ =~= path.segments@.take(i as int));
    }
    assert(path.segments@.take(path.segments@.len() as int) =~= path.segments@);
    SimplePath { leading_sep: path.leading_sep, segments }
}

pub fn clone_use_tree(tree: &UseTree) -> (r: UseTree)
    ensures
        same_tree(*tree, r),
    decreases tree,
{
    match tree {
        UseTree::Path(path, sub) => UseTree::Path(clone_path(path), Box::new(clone_use_tree(sub))),
        UseTree::Name(name) => UseTree::Name(name.duplicate()),
        UseTree::Rename(name, rename) => UseTree::Rename(name.duplicate(), rename.duplicate()),
        UseTree::Glob(span) => UseTree::Glob(*span),
        UseTree::Group(trees) => {
            let mut out: Vec<UseTree> = Vec::new();
            let mut i: usize = 0;
            while i < trees.len()
                invariant
                    *tree == UseTree::Group(*trees),
                    i <= trees@.len(),
                    out@.len() == i,
                    same_trees(trees@, out@, i as int),
                decreases trees@.len() - i,
            {
                proof {
                    assert(decreases_to!(*tree => tree->Group_0));
                    assert(decreases_to!(*trees => trees[i as int]));
                }
                let c = clone_use_tree(&trees[i]);
                let ghost before = out@;
                out.push(c);
                i = i + 1;
                proof {
                    lemma_same_trees_extend(trees@, before, out@, (i - 1) as int);
                }
            }
            UseTree::Group(out)
        },
    }
}

/// The indices of a list, copied.
pub fn copy_indices(v: &Vec<ResolutionIndex>) -> (r: Vec<ResolutionIndex>)
    ensures
        r@ == v@,
{
    let mut r: Vec<ResolutionIndex> = Vec::new();
    let mut i: usize = 0;
    while i < v.len()
        invariant
            i <= v@.len(),
            r@ == v@.take(i as int),
        decreases v@.len() - i,
    {
        r.push(v[i]);
        i = i + 1;
        assert(r@ =~= v@.take(i as int));
    }
    assert(v@.take(v@.len() as int) =~= v@);
    r
}

/// The state of tracing every `use` item of a graph.
#[derive(Debug)]
pub struct UseResolver {
    pub resolution_graph: ResolutionGraph,
    pub errors: Vec<Diagnostic>,
    /// Per node: whether its `use` tree has been traced.
    pub resolved_uses: Vec<bool>,
    pub vis_solver: VisibilitySolver,
}

impl UseResolver {
    pub open spec fn inv(&self) -> bool {
        &&& self.resolution_graph.wf()
        &&& self.resolution_graph.roots_have_files()
        &&& self.vis_solver.matches(self.resolution_graph)
        &&& self.resolved_uses@.len() == self.resolution_graph.len()
    }

    /// The number of `use` items not traced yet.
    pub open spec fn pending(&self) -> nat {
        pending_count(self.resolution_graph, self.resolved_uses@, self.resolution_graph.len() as int)
    }

    /// What tracing keeps from `self` to `later`: the graph only grows, the
    /// exports and errors recorded so far stay, traced uses stay traced, and
    /// each `use` traced meanwhile whose tree names or globs something has
    /// added a leaf under it or an error.
    pub open spec fn keeps(&self, later: UseResolver) -> bool {
        &&& graph_grows(self.resolution_graph, later.resolution_graph)
        &&& self.vis_solver.exports@.is_prefix_of(later.vis_solver.exports@)
        &&& self.errors@.is_prefix_of(later.errors@)
        &&& later.pending() <= self.pending()
        &&& forall|i: int| 0 <= i < self.resolved_uses@.len() && #[trigger] self.resolved_uses@[i]
            ==> later.resolved_uses@[i]
        &&& forall|i: int| 0 <= i < self.resolved_uses@.len() && !self.resolved_uses@[i]
            && #[trigger] later.resolved_uses@[i] && self.resolution_graph.kind_of(i) == NodeKind::Use
            && yields(use_tree_of(self.resolution_graph.node(i)).unwrap()) ==> grew(*self, later, i)
    }

    pub fn new(resolution_graph: ResolutionGraph, vis_solver: VisibilitySolver) -> (r: UseResolver)
        requires
            resolution_graph.wf(),
            resolution_graph.roots_have_files(),
            vis_solver.matches(resolution_graph),
        ensures
            r.inv(),
            r.resolution_graph == resolution_graph,
            r.vis_solver == vis_solver,
            r.errors@.len() == 0,
            forall|i: int| 0 <= i < r.resolved_uses@.len() ==> !#[trigger] r.resolved_uses@[i],
    {
        let mut resolved_uses: Vec<bool> = Vec::new();
        let mut i: usize = 0;
        while i < resolution_graph.inner.len()
            invariant
                i <= resolution_graph.inner@.len(),
                resolved_uses@.len() == i,
                forall|k: int| 0 <= k < i ==> !#[trigger] resolved_uses@[k],
            decreases resolution_graph.inner@.len() - i,
        {
            resolved_uses.push(false);
            i = i + 1;
        }
        UseResolver { resolution_graph, errors: Vec::new(), resolved_uses, vis_solver }
    }
}

/// From `r` to `later`, an error was recorded or the `use` node `i` gained a
/// child.
pub open spec fn grew(r: UseResolver, later: UseResolver, i: int) -> bool {
    ||| later.errors@.len() > r.errors@.len()
    ||| later.resolution_graph.node(i).spec_children().unwrap().len() > r.resolution_graph.node(
        i,
    ).spec_children().unwrap().len()
}

/// Growth at `i` seen over a step stays seen over a longer run.
pub proof fn lemma_grew_extends(a: UseResolver, b: UseResolver, c: UseResolver, i: int)
    requires
        graph_grows(a.resolution_graph, b.resolution_graph),
        graph_grows(b.resolution_graph, c.resolution_graph),
        a.errors@.is_prefix_of(b.errors@),
        b.errors@.is_prefix_of(c.errors@),
        0 <= i < a.resolution_graph.len(),
        a.resolution_graph.kind_of(i) == NodeKind::Use,
        grew(a, b, i) || grew(b, c, i),
    ensures
        grew(a, c, i),
{
    lemma_node_grows(a.resolution_graph.inner@[i], b.resolution_graph.inner@[i]);
    lemma_node_grows(b.resolution_graph.inner@[i], c.resolution_graph.inner@[i]);
}

/// Marking the untraced `use` node `d` and then tracing it keeps what
/// tracing keeps, provided the tracing of its tree added a leaf or an error
/// where its tree names or globs something.
pub proof fn lemma_keeps_after_mark(before: UseResolver, marked: UseResolver, fin: UseResolver, d: int)
    requires
        before.inv(),
        marked.inv(),
        0 <= d < before.resolution_graph.len(),
        before.resolution_graph.kind_of(d) == NodeKind::Use,
        !before.resolved_uses@[d],
        marked.resolution_graph == before.resolution_graph,
        marked.vis_solver == before.vis_solver,
        marked.errors == before.errors,
        marked.resolved_uses@ == before.resolved_uses@.update(d, true),
        marked.pending() < before.pending(),
        marked.keeps(fin),
        yields(use_tree_of(before.resolution_graph.node(d)).unwrap()) ==> grew(marked, fin, d),
    ensures
        before.keeps(fin),
{
    assert forall|i: int| 0 <= i < before.resolved_uses@.len() && #[trigger] before.resolved_uses@[i]
        implies fin.resolved_uses@[i] by {
        assert(marked.resolved_uses@[i]);
    }
    assert forall|i: int| 0 <= i < before.resolved_uses@.len() && !before.resolved_uses@[i]
        && #[trigger] fin.resolved_uses@[i] && before.resolution_graph.kind_of(i) == NodeKind::Use
        && yields(use_tree_of(before.resolution_graph.node(i)).unwrap()) implies grew(before, fin, i) by {
        if i != d {
            assert(!marked.resolved_uses@[i]);
        }
    }
}

pub proof fn lemma_keeps_refl(r: UseResolver)
    ensures
        r.keeps(r),
{
    lemma_graph_grows_refl(r.resolution_graph);
    assert(r.vis_solver.exports@.is_prefix_of(r.vis_solver.exports@)) by {
        assert(r.vis_solver.exports@.subrange(0, r.vis_solver.exports@.len() as int) =~= r.vis_solver.exports@);
    }
    assert(r.errors@.is_prefix_of(r.errors@)) by {
        assert(r.errors@.subrange(0, r.errors@.len() as int) =~= r.errors@);
    }
}

pub proof fn lemma_keeps_trans(a: UseResolver, b: UseResolver, c: UseResolver)
    requires
        a.inv(),
        b.inv(),
        a.keeps(b),
        b.keeps(c),
    ensures
        a.keeps(c),
{
    lemma_graph_grows_trans(a.resolution_graph, b.resolution_graph, c.resolution_graph);
    assert(a.vis_solver.exports@.is_prefix_of(c.vis_solver.exports@)) by {
        assert forall|k: int| 0 <= k < a.vis_solver.exports@.len() implies a.vis_solver.exports@[k]
            == c.vis_solver.exports@[k] by {
            assert(a.vis_solver.exports@[k] == b.vis_solver.exports@[k]);
        }
    }
    assert(a.errors@.is_prefix_of(c.errors@)) by {
        assert forall|k: int| 0 <= k < a.errors@.len() implies a.errors@[k] == c.errors@[k] by {
            assert(a.errors@[k] == b.errors@[k]);
        }
    }
    assert forall|i: int| 0 <= i < a.resolved_uses@.len() && #[trigger] a.resolved_uses@[i]
        implies c.resolved_uses@[i] by {
        assert(b.resolved_uses@[i]);
    }
    assert forall|i: int| 0 <= i < a.resolved_uses@.len() && !a.resolved_uses@[i]
        && #[trigger] c.resolved_uses@[i] && a.resolution_graph.kind_of(i) == NodeKind::Use
        && yields(use_tree_of(a.resolution_graph.node(i)).unwrap()) implies grew(a, c, i) by {
        lemma_node_grows(a.resolution_graph.inner@[i], b.resolution_graph.inner@[i]);
        if b.resolved_uses@[i] {
        } else {
            assert(c.resolved_uses@[i]);
            assert(b.resolution_graph.kind_of(i) == NodeKind::Use);
        }
        lemma_grew_extends(a, b, c, i);
    }
}

/// A leaf that tracing a `use` adds.
pub open spec fn is_use_leaf(leaf: Leaf) -> bool {
    leaf is UseName || leaf is UseRename || leaf is UseGlob
}

impl UseResolver {
    /// Adds `leaf` under the `use` node `dest`.
    fn add_use_leaf(&mut self, dest: ResolutionIndex, leaf: Leaf) -> (idx: ResolutionIndex)
        requires
            old(self).inv(),
            dest.0 < old(self).resolution_graph.len(),
            old(self).resolution_graph.kind_of(dest.0 as int) == NodeKind::Use,
            is_use_leaf(leaf),
            old(self).resolution_graph.leaf_refs_ok(ResolutionNode::Leaf { parent: dest, leaf }),
        ensures
            final(self).inv(),
            old(self).keeps(*final(self)),
            final(self).pending() == old(self).pending(),
            final(self).errors == old(self).errors,
            idx.0 == old(self).resolution_graph.len(),
            final(self).resolution_graph.len() == old(self).resolution_graph.len() + 1,
            final(self).resolution_graph.inner@[idx.0 as int] == (ResolutionNode::Leaf { parent: dest, leaf }),
            final(self).resolution_graph.node(dest.0 as int).spec_children()
                == Some(old(self).resolution_graph.node(dest.0 as int).spec_children().unwrap().push(idx)),
            forall|k: int| 0 <= k < old(self).resolution_graph.len() && k != dest.0
                ==> #[trigger] final(self).resolution_graph.inner@[k] == old(self).resolution_graph.inner@[k],
            final(self).resolved_uses@ == old(self).resolved_uses@.push(false),
    {
        let ghost g0 = self.resolution_graph;
        let node = ResolutionNode::Leaf { parent: dest, leaf };
        let idx = self.resolution_graph.add_node(node);
        let ghost g1 = self.resolution_graph;
        self.resolution_graph.add_child(dest, idx);
        self.vis_solver.extend_with_node(dest);
        self.resolved_uses.push(false);
        proof {
            let g2 = self.resolution_graph;
            let d = dest.0 as int;
            assert forall|k: int| 0 <= k < g2.len() implies #[trigger] g2.node(k).spec_parent() == if k < g0.len() {
                g0.node(k).spec_parent()
            } else {
                Some(dest)
            } && g2.kind_of(k) == if k < g0.len() { g0.kind_of(k) } else { NodeKind::UseName }
                || (k == g0.len() && g2.kind_of(k) == node.spec_kind()) by {
                if k != d {
                    assert(g2.inner@[k] == g1.inner@[k]);
                }
            }
            assert forall|k: int| 0 <= k < g2.len() implies #[trigger] self.vis_solver.parents@[k]
                == g2.node(k).spec_parent() by {
                if k < g0.len() {
                    if k != d {
                        assert(g2.inner@[k] == g1.inner@[k]);
                    }
                    assert(old(self).vis_solver.parents@[k] == g0.node(k).spec_parent());
                } else {
                    assert(g2.inner@[k] == g1.inner@[k]);
                }
            }
            assert forall|k: int| 0 <= k < g2.len() && #[trigger] g2.kind_of(k) == NodeKind::Root
                implies g2.content_files@[k].is_some() by {
                assert(g2.content_files@ == g0.content_files@.push(None));
                if k != d {
                    assert(g2.inner@[k] == g1.inner@[k]);
                }
                if k < g0.len() {
                    assert(g0.kind_of(k) == NodeKind::Root);
                    assert(g2.content_files@[k] == g0.content_files@[k]);
                } else {
                    assert(g2.inner@[k] == node);
                }
            }
            assert forall|k: int| 0 <= k < g0.len() implies #[trigger] node_grows(g0.inner@[k], g2.inner@[k]) by {
                if k == d {
                    let cb = g2.inner@[k].spec_children().unwrap();
                    let ca = g0.inner@[k].spec_children().unwrap();
                    assert(ca.is_prefix_of(cb)) by {
                        assert(cb == ca.push(idx));
                    }
                } else {
                    assert(g2.inner@[k] == g1.inner@[k]);
                }
            }
            assert(g2.kind_of(g0.len() as int) == node.spec_kind());
            assert(g0.content_files@.is_prefix_of(g2.content_files@)) by {
                assert(g2.content_files@ == g0.content_files@.push(None));
            }
            assert(old(self).vis_solver.exports@.is_prefix_of(self.vis_solver.exports@));
            assert(old(self).errors@.is_prefix_of(self.errors@)) by {
                assert(old(self).errors@.subrange(0, old(self).errors@.len() as int) =~= old(self).errors@);
            }
            assert forall|k: int| 0 <= k < g0.len() implies #[trigger] g0.kind_of(k) == g2.kind_of(k)
                && old(self).resolved_uses@[k] == self.resolved_uses@[k] by {
                if k != d {
                    assert(g2.inner@[k] == g1.inner@[k]);
                }
            }
            lemma_pending_congruent(g0, old(self).resolved_uses@, g2, self.resolved_uses@, g0.len() as int);
        }
        idx
    }

    /// Records the error `e`; nothing else changes.
    fn push_error(&mut self, e: Diagnostic)
        requires
            old(self).inv(),
        ensures
            final(self).inv(),
            old(self).keeps(*final(self)),
            adds_error(*old(self), *final(self), e@),
            final(self).pending() == old(self).pending(),
    {
        self.errors.push(e);
        proof {
            lemma_graph_grows_refl(self.resolution_graph);
            assert(old(self).errors@.is_prefix_of(self.errors@)) by {
                assert(self.errors@.subrange(0, old(self).errors@.len() as int) =~= old(self).errors@);
            }
            assert(old(self).vis_solver.exports@.subrange(0, old(self).vis_solver.exports@.len() as int)
                =~= old(self).vis_solver.exports@);
        }
    }

    /// Marks the `use` item `dest` as traced.
    fn mark_resolved(&mut self, dest: ResolutionIndex)
        requires
            old(self).inv(),
            dest.0 < old(self).resolution_graph.len(),
            old(self).resolution_graph.kind_of(dest.0 as int) == NodeKind::Use,
            !old(self).resolved_uses@[dest.0 as int],
        ensures
            final(self).inv(),
            final(self).pending() + 1 == old(self).pending(),
            final(self).resolution_graph == old(self).resolution_graph,
            final(self).vis_solver == old(self).vis_solver,
            final(self).errors == old(self).errors,
            final(self).resolved_uses@ == old(self).resolved_uses@.update(dest.0 as int, true),
    {
        self.resolved_uses.set(dest.0, true);
        proof {
            lemma_pending_mark(self.resolution_graph, old(self).resolved_uses@, dest.0 as int,
                self.resolution_graph.len() as int);
        }
    }
}

/// Whether a node of kind `k` can continue a path: a `use` path goes
/// through modules, enums and roots, a type path through modules and roots.
pub open spec fn continues_path(k: NodeKind, for_types: bool) -> bool {
    if for_types {
        is_valid_pub_path_segment_kind(k)
    } else {
        is_valid_use_path_segment_kind(k)
    }
}

pub fn continues_path_exec(n: &ResolutionNode, for_types: bool) -> (r: bool)
    ensures
        r == continues_path(n.spec_kind(), for_types),
{
    if for_types {
        n.is_valid_type_path_segment()
    } else {
        n.is_valid_use_path_segment()
    }
}

/// A child that a lookup of `ident` finds directly: it is known by that name
/// and, when only paths are wanted, can continue a path.
pub open spec fn child_matches(g: ResolutionGraph, c: ResolutionIndex, ident: Seq<char>, paths_only: bool, for_types: bool) -> bool {
    g.node(c.0 as int).spec_named(ident) && (!paths_only || continues_path(g.kind_of(c.0 as int), for_types))
}

/// The children among `cs` that a lookup of `ident` finds directly, in order.
pub open spec fn named_matches(g: ResolutionGraph, cs: Seq<ResolutionIndex>, ident: Seq<char>, paths_only: bool, for_types: bool) -> Seq<ResolutionIndex> {
    cs.filter(|c: ResolutionIndex| child_matches(g, c, ident, paths_only, for_types))
}

/// The targets among `cs` that can be followed: any, or only path segments.
pub open spec fn path_targets(g: ResolutionGraph, cs: Seq<ResolutionIndex>, paths_only: bool, for_types: bool) -> Seq<ResolutionIndex> {
    cs.filter(|c: ResolutionIndex| !paths_only || continues_path(g.kind_of(c.0 as int), for_types))
}

/// The crate roots other than `root` that a path may start with.
pub open spec fn global_matches(g: ResolutionGraph, root: ResolutionIndex, paths_only: bool, for_types: bool) -> Seq<ResolutionIndex> {
    roots_other_than(g, g.roots@, root, paths_only, for_types)
}

pub open spec fn roots_other_than(g: ResolutionGraph, roots: Seq<ResolutionIndex>, root: ResolutionIndex, paths_only: bool, for_types: bool) -> Seq<ResolutionIndex> {
    roots.filter(|c: ResolutionIndex| c != root && (!paths_only || continues_path(g.kind_of(c.0 as int), for_types)))
}

/// What a traced name or rename leaf refers to.
pub open spec fn leaf_imports(n: ResolutionNode) -> Seq<ResolutionIndex> {
    match n {
        ResolutionNode::Leaf { leaf: Leaf::UseName(_, imports), .. } => imports@,
        ResolutionNode::Leaf { leaf: Leaf::UseRename(_, _, imports), .. } => imports@,
        _ => Seq::empty(),
    }
}

/// What the first `n` of the children `cs` of a traced `use` import under the
/// name `ident`, in order.
pub open spec fn imports_named(g: ResolutionGraph, cs: Seq<ResolutionIndex>, ident: Seq<char>, paths_only: bool, for_types: bool, n: int) -> Seq<ResolutionIndex>
    decreases n,
{
    if n <= 0 || n > cs.len() {
        Seq::empty()
    } else {
        let c = cs[n - 1];
        imports_named(g, cs, ident, paths_only, for_types, n - 1) + if g.node(c.0 as int).spec_named(ident) {
            path_targets(g, leaf_imports(g.node(c.0 as int)), paths_only, for_types)
        } else {
            Seq::empty()
        }
    }
}

/// Each of `s` can continue a path.
pub open spec fn all_continue(g: ResolutionGraph, s: Seq<ResolutionIndex>, for_types: bool) -> bool {
    forall|k: int| 0 <= k < s.len() ==> continues_path(g.kind_of((#[trigger] s[k]).0 as int), for_types)
}

/// What is kept of candidates for being visible from `dest` is visible from
/// it, and continues a path where they all do.
pub proof fn lemma_visible_candidates(g: ResolutionGraph, solver: VisibilitySolver, dest: int, s: Seq<ResolutionIndex>, paths_only: bool, for_types: bool)
    requires
        paths_only ==> all_continue(g, s, for_types),
    ensures
        forall|k: int| 0 <= k < visible_from(solver, dest, s).len() ==> solver.spec_visible(dest,
            (#[trigger] visible_from(solver, dest, s)[k]).0 as int),
        paths_only ==> all_continue(g, visible_from(solver, dest, s), for_types),
{
    let pred = |i: ResolutionIndex| solver.spec_visible(dest, i.0 as int);
    assert forall|k: int| 0 <= k < visible_from(solver, dest, s).len() implies solver.spec_visible(dest,
        (#[trigger] visible_from(solver, dest, s)[k]).0 as int) by {
        s.lemma_filter_pred(pred, k);
    }
    if paths_only {
        lemma_filter_continues(g, s, pred, for_types);
    }
}

/// What a lookup picks among the candidates found in the scope, among the
/// crate roots and through globs is visible from `dest`, and continues a path
/// where all candidates do.
pub proof fn lemma_chosen_candidates(
    g: ResolutionGraph,
    solver: VisibilitySolver,
    at: LookupPlace,
    ident: Ident,
    paths_only: bool,
    for_types: bool,
    local: Seq<ResolutionIndex>,
    global: Seq<ResolutionIndex>,
    from_globs: Seq<ResolutionIndex>,
)
    requires
        paths_only ==> all_continue(g, local, for_types) && all_continue(g, global, for_types) && all_continue(g,
            from_globs, for_types),
    ensures
        local_and_global_result(g, solver, at.file, at.dest.0 as int, at.previous, at.leading_sep, ident, paths_only,
            local, global) matches Ok(Some(v)) ==> visible_and_continuing(g, solver, at.dest.0 as int, v, paths_only,
            for_types),
        globs_result(g, solver, at.file, at.dest.0 as int, at.previous, ident, paths_only, from_globs) matches Ok(v)
            ==> visible_and_continuing(g, solver, at.dest.0 as int, v, paths_only, for_types),
{
    let d = at.dest.0 as int;
    lemma_visible_candidates(g, solver, d, local, paths_only, for_types);
    lemma_visible_candidates(g, solver, d, global, paths_only, for_types);
    lemma_visible_candidates(g, solver, d, from_globs, paths_only, for_types);
}

/// Each of `v` is visible from `dest` and, for a path, continues it.
pub open spec fn visible_and_continuing(
    g: ResolutionGraph,
    solver: VisibilitySolver,
    dest: int,
    v: Seq<ResolutionIndex>,
    paths_only: bool,
    for_types: bool,
) -> bool {
    &&& forall|k: int| 0 <= k < v.len() ==> solver.spec_visible(dest, (#[trigger] v[k]).0 as int)
    &&& paths_only ==> all_continue(g, v, for_types)
}

/// Two runs of nodes that continue a path, one after the other.
pub proof fn lemma_all_continue_add(g: ResolutionGraph, a: Seq<ResolutionIndex>, b: Seq<ResolutionIndex>, for_types: bool)
    requires
        all_continue(g, a, for_types),
        all_continue(g, b, for_types),
    ensures
        all_continue(g, a + b, for_types),
{
    assert forall|k: int| 0 <= k < (a + b).len() implies continues_path(g.kind_of((#[trigger] (a + b)[k]).0 as int), for_types) by {
        if k < a.len() {
            assert((a + b)[k] == a[k]);
        } else {
            assert((a + b)[k] == b[k - a.len()]);
        }
    }
}

/// Nodes that continue a path still do once uses have been traced further.
pub proof fn lemma_all_continue_grows(g1: ResolutionGraph, g2: ResolutionGraph, s: Seq<ResolutionIndex>, for_types: bool)
    requires
        graph_grows(g1, g2),
        all_below(s, g1.len()),
        all_continue(g1, s, for_types),
    ensures
        all_continue(g2, s, for_types),
{
    assert forall|k: int| 0 <= k < s.len() implies continues_path(g2.kind_of((#[trigger] s[k]).0 as int), for_types) by {
        lemma_node_grows(g1.inner@[s[k].0 as int], g2.inner@[s[k].0 as int]);
    }
}

/// What a filter keeps of nodes that continue a path continues one too.
pub proof fn lemma_filter_continues(g: ResolutionGraph, s: Seq<ResolutionIndex>, pred: spec_fn(ResolutionIndex) -> bool, for_types: bool)
    requires
        all_continue(g, s, for_types),
    ensures
        all_continue(g, s.filter(pred), for_types),
    decreases s.len(),
{
    reveal(Seq::filter);
    if s.len() > 0 {
        let t = s.drop_last();
        assert(all_continue(g, t, for_types)) by {
            assert forall|k: int| 0 <= k < t.len() implies continues_path(g.kind_of((#[trigger] t[k]).0 as int), for_types) by {
                assert(t[k] == s[k]);
            }
        }
        lemma_filter_continues(g, t, pred, for_types);
        let f = s.filter(pred);
        assert forall|k: int| 0 <= k < f.len() implies continues_path(g.kind_of((#[trigger] f[k]).0 as int), for_types) by {
            if k < t.filter(pred).len() {
                assert(f[k] == t.filter(pred)[k]);
            } else {
                assert(f[k] == s.last());
                assert(s[s.len() - 1] == s.last());
            }
        }
    }
}

/// All indices of `s` lie in a graph of `len` nodes.
pub open spec fn all_below(s: Seq<ResolutionIndex>, len: nat) -> bool {
    forall|k: int| 0 <= k < s.len() ==> (#[trigger] s[k]).0 < len
}

pub fn named_children_in(g: &ResolutionGraph, cs: &Vec<ResolutionIndex>, ident: &Ident, paths_only: bool, for_types: bool) -> (r: Vec<ResolutionIndex>)
    requires
        all_below(cs@, g.len()),
    ensures
        r@ == named_matches(*g, cs@, ident.inner@, paths_only, for_types),
        all_below(r@, g.len()),
        paths_only ==> all_continue(*g, r@, for_types),
{
    let mut r: Vec<ResolutionIndex> = Vec::new();
    let mut i: usize = 0;
    while i < cs.len()
        invariant
            all_below(cs@, g.len()),
            i <= cs@.len(),
            r@ == named_matches(*g, cs@.take(i as int), ident.inner@, paths_only, for_types),
            all_below(r@, g.len()),
            paths_only ==> all_continue(*g, r@, for_types),
        decreases cs@.len() - i,
    {
        let c = cs[i];
        proof {
            assert(cs@.take(i + 1).drop_last() =~= cs@.take(i as int));
            reveal_with_fuel(Seq::filter, 1);
        }
        let n = g.get(c);
        if n.is_named(ident) && (!paths_only || continues_path_exec(n, for_types)) {
            r.push(c);
        }
        i = i + 1;
    }
    assert(cs@.take(cs@.len() as int) =~= cs@);
    r
}

pub fn path_targets_in(g: &ResolutionGraph, cs: &Vec<ResolutionIndex>, paths_only: bool, for_types: bool, out: &mut Vec<ResolutionIndex>)
    requires
        all_below(cs@, g.len()),
        all_below(old(out)@, g.len()),
    ensures
        final(out)@ == old(out)@ + path_targets(*g, cs@, paths_only, for_types),
        all_below(final(out)@, g.len()),
        paths_only && all_continue(*g, old(out)@, for_types) ==> all_continue(*g, final(out)@, for_types),
{
    let ghost start = out@;
    let mut i: usize = 0;
    while i < cs.len()
        invariant
            all_below(cs@, g.len()),
            i <= cs@.len(),
            out@ == start + path_targets(*g, cs@.take(i as int), paths_only, for_types),
            all_below(out@, g.len()),
            paths_only && all_continue(*g, start, for_types) ==> all_continue(*g, out@, for_types),
        decreases cs@.len() - i,
    {
        let c = cs[i];
        proof {
            assert(cs@.take(i + 1).drop_last() =~= cs@.take(i as int));
            reveal_with_fuel(Seq::filter, 1);
        }
        if !paths_only || continues_path_exec(g.get(c), for_types) {
            out.push(c);
            proof {
                assert(out@ =~= start + path_targets(*g, cs@.take(i + 1), paths_only, for_types));
            }
        } else {
            assert(out@ =~= start + path_targets(*g, cs@.take(i + 1), paths_only, for_types));
        }
        i = i + 1;
    }
    assert(cs@.take(cs@.len() as int) =~= cs@);
}

pub fn global_candidates(g: &ResolutionGraph, root: ResolutionIndex, paths_only: bool, for_types: bool) -> (r: Vec<ResolutionIndex>)
    requires
        g.wf(),
    ensures
        r@ == global_matches(*g, root, paths_only, for_types),
        all_below(r@, g.len()),
        paths_only ==> all_continue(*g, r@, for_types),
{
    let mut r: Vec<ResolutionIndex> = Vec::new();
    let mut i: usize = 0;
    while i < g.roots.len()
        invariant
            g.wf(),
            i <= g.roots@.len(),
            r@ == roots_other_than(*g, g.roots@.take(i as int), root, paths_only, for_types),
            all_below(r@, g.len()),
            paths_only ==> all_continue(*g, r@, for_types),
        decreases g.roots@.len() - i,
    {
        let c = g.roots[i];
        proof {
            assert(g.roots@.take(i + 1).drop_last() =~= g.roots@.take(i as int));
            reveal_with_fuel(Seq::filter, 1);
        }
        if c.0 != root.0 && (!paths_only || continues_path_exec(g.get(c), for_types)) {
            r.push(c);
        }
        i = i + 1;
    }
    assert(g.roots@.take(g.roots@.len() as int) =~= g.roots@);
    r
}

pub fn imports_named_in(g: &ResolutionGraph, cs: &Vec<ResolutionIndex>, ident: &Ident, paths_only: bool, for_types: bool) -> (r: Vec<ResolutionIndex>)
    requires
        g.wf(),
        all_below(cs@, g.len()),
    ensures
        r@ == imports_named(*g, cs@, ident.inner@, paths_only, for_types, cs@.len() as int),
        all_below(r@, g.len()),
        paths_only ==> all_continue(*g, r@, for_types),
{
    let mut r: Vec<ResolutionIndex> = Vec::new();
    let mut i: usize = 0;
    while i < cs.len()
        invariant
            g.wf(),
            all_below(cs@, g.len()),
            i <= cs@.len(),
            r@ == imports_named(*g, cs@, ident.inner@, paths_only, for_types, i as int),
            all_below(r@, g.len()),
            paths_only ==> all_continue(*g, r@, for_types),
        decreases cs@.len() - i,
    {
        let c = cs[i];
        let n = g.get(c);
        proof {
            assert(g.node_ok(c.0 as int));
        }
        if n.is_named(ident) {
            match n {
                ResolutionNode::Leaf { leaf: Leaf::UseName(_, imports), .. } => {
                    path_targets_in(g, imports, paths_only, for_types, &mut r);
                },
                ResolutionNode::Leaf { leaf: Leaf::UseRename(_, _, imports), .. } => {
                    path_targets_in(g, imports, paths_only, for_types, &mut r);
                },
                _ => {
                    assert(path_targets(*g, Seq::<ResolutionIndex>::empty(), paths_only, for_types) =~= Seq::<ResolutionIndex>::empty());
                    assert(r@ =~= r@ + Seq::<ResolutionIndex>::empty());
                },
            }
        } else {
            assert(r@ =~= r@ + Seq::<ResolutionIndex>::empty());
        }
        i = i + 1;
    }
    r
}

pub fn contains_index(v: &Vec<ResolutionIndex>, x: ResolutionIndex) -> (r: bool)
    ensures
        r == v@.contains(x),
{
    let mut i: usize = 0;
    while i < v.len()
        invariant
            i <= v@.len(),
            forall|k: int| 0 <= k < i ==> v@[k] != x,
        decreases v@.len() - i,
    {
        if v[i].0 == x.0 {
            assert(v@[i as int] == x);
            return true;
        }
        i = i + 1;
    }
    false
}

/// The `use` tree of the node, if it is a `use` item.
/// No `use` item directly in `scope` can bring `ident` in as seen from
/// `dest`: each is hidden from `dest` or cannot name `ident`.
pub open spec fn uses_silent(g: ResolutionGraph, solver: VisibilitySolver, dest: int, scope: int, ident: Seq<char>) -> bool {
    match g.node(scope).spec_children() {
        None => true,
        Some(cs) => forall|k: int|
            0 <= k < cs.len() && g.kind_of((#[trigger] cs[k]).0 as int) == NodeKind::Use ==> !solver.spec_visible(
                dest,
                cs[k].0 as int,
            ) || !use_might_match(use_tree_of(g.node(cs[k].0 as int)).unwrap(), ident),
    }
}

/// The children of `scope` named `ident` that a use path may name, unless
/// the path is global and this is its first segment.
pub open spec fn use_local_named(g: ResolutionGraph, at: LookupPlace, scope: int, ident: Seq<char>, paths_only: bool)
    -> Seq<ResolutionIndex> {
    if (at.previous.len() != 0 || at.leading_sep.is_none()) && g.node(scope).spec_children() is Some {
        named_matches(g, g.node(scope).spec_children().unwrap(), ident, paths_only, false)
    } else {
        Seq::empty()
    }
}

/// The crate roots that the first segment of a use path may name.
pub open spec fn use_global_for(g: ResolutionGraph, at: LookupPlace, paths_only: bool) -> Seq<ResolutionIndex> {
    if at.previous.len() == 0 {
        global_matches(g, at.root, paths_only, false)
    } else {
        Seq::empty()
    }
}

/// What the `use` items among the first `n` of `cs` import under `ident`
/// by name or rename, as seen from `dest` (a `use` item hidden from `dest`,
/// or whose tree cannot bring `ident` in, imports nothing).
pub open spec fn use_named_imports(
    g: ResolutionGraph,
    solver: VisibilitySolver,
    dest: int,
    cs: Seq<ResolutionIndex>,
    ident: Seq<char>,
    paths_only: bool,
    n: int,
) -> Seq<ResolutionIndex>
    decreases n,
{
    if n <= 0 || n > cs.len() {
        Seq::empty()
    } else {
        use_named_imports(g, solver, dest, cs, ident, paths_only, n - 1) + if g.kind_of(cs[n - 1].0 as int)
            == NodeKind::Use {
            named_imports(g, solver, dest, ident, paths_only, true, cs[n - 1])
        } else {
            Seq::empty()
        }
    }
}

/// The candidates for `ident` in `scope` itself on a use path: its children
/// of that name, then what its `use` items import under it; none for the
/// first segment of a global path.
pub open spec fn use_local(g: ResolutionGraph, solver: VisibilitySolver, at: LookupPlace, scope: int, ident: Seq<char>, paths_only: bool) -> Seq<ResolutionIndex> {
    if (at.previous.len() != 0 || at.leading_sep.is_none()) && g.node(scope).spec_children() is Some {
        let cs = g.node(scope).spec_children().unwrap();
        named_matches(g, cs, ident, paths_only, false) + use_named_imports(g, solver, at.dest.0 as int, cs, ident,
            paths_only, cs.len() as int)
    } else {
        Seq::empty()
    }
}

/// What `ident` names in `scope` on a use path when no `use` item has to be
/// traced for it, with the glob scopes in `visited` already searched: a
/// special identifier's meaning, the choice among the local and global
/// candidates, or, when there are none, among what the scope's globs bring
/// in; and the glob scopes searched afterwards.
pub open spec fn use_children_lookup(
    g: ResolutionGraph,
    solver: VisibilitySolver,
    at: LookupPlace,
    scope: int,
    ident: Ident,
    paths_only: bool,
    visited: Seq<ResolutionIndex>,
) -> (Result<Seq<ResolutionIndex>, DiagnosticView>, Seq<ResolutionIndex>) {
    match special_ident_result(g, at.file, at.previous, at.leading_sep, scope, ident) {
        Err(d) => (Err(d), visited),
        Ok(Some(c)) => (Ok(seq![c]), visited),
        Ok(None) => match local_and_global_result(
            g,
            solver,
            at.file,
            at.dest.0 as int,
            at.previous,
            at.leading_sep,
            ident,
            paths_only,
            use_local(g, solver, at, scope, ident.inner@, paths_only),
            use_global_for(g, at, paths_only),
        ) {
            Err(d) => (Err(d), visited),
            Ok(Some(v)) => (Ok(v), visited),
            Ok(None) => {
                let cs = match g.node(scope).spec_children() {
                    Some(cs) => cs,
                    None => Seq::empty(),
                };
                let found = scope_globs(g, solver, at.dest.0 as int, ident.inner@, paths_only, true, cs, 0, visited);
                (globs_result(g, solver, at.file, at.dest.0 as int, at.previous, ident, paths_only, found.0), found.1)
            },
        },
    }
}

/// What `ident` names in `scope` on a use path, when that is decided without
/// tracing another `use` item: a special identifier's meaning, or, when no
/// `use` item of the scope can bring `ident` in, the choice among the
/// scope's children and the crate roots, failing that the lookup's error;
/// `None` otherwise.
pub open spec fn known_use_children(
    g: ResolutionGraph,
    solver: VisibilitySolver,
    at: LookupPlace,
    scope: int,
    ident: Ident,
    paths_only: bool,
) -> Option<Result<Seq<ResolutionIndex>, DiagnosticView>> {
    match special_ident_result(g, at.file, at.previous, at.leading_sep, scope, ident) {
        Err(d) => Some(Err(d)),
        Ok(Some(c)) => Some(Ok(seq![c])),
        Ok(None) => if uses_silent(g, solver, at.dest.0 as int, scope, ident.inner@) {
            match local_and_global_result(
                g,
                solver,
                at.file,
                at.dest.0 as int,
                at.previous,
                at.leading_sep,
                ident,
                paths_only,
                use_local_named(g, at, scope, ident.inner@, paths_only),
                use_global_for(g, at, paths_only),
            ) {
                Err(d) => Some(Err(d)),
                Ok(Some(v)) => Some(Ok(v)),
                Ok(None) => Some(globs_result(g, solver, at.file, at.dest.0 as int, at.previous, ident, paths_only,
                    Seq::empty())),
            }
        } else {
            None
        },
    }
}

/// One segment of a use path looked up in each of the first `n` of `scopes`:
/// the nodes found, whether any lookup succeeded, and the first scope's
/// error; `None` when some lookup has to trace another `use` item.
pub open spec fn use_segment_lookup(
    g: ResolutionGraph,
    solver: VisibilitySolver,
    at: LookupPlace,
    scopes: Seq<ResolutionIndex>,
    ident: Ident,
    paths_only: bool,
    n: int,
) -> Option<(Seq<ResolutionIndex>, bool, Option<DiagnosticView>)>
    decreases n,
{
    if n <= 0 || n > scopes.len() {
        Some((Seq::empty(), false, None))
    } else {
        match use_segment_lookup(g, solver, at, scopes, ident, paths_only, n - 1) {
            None => None,
            Some((next, any_ok, first)) => match known_use_children(g, solver, at, scopes[n - 1].0 as int, ident, paths_only) {
                None => None,
                Some(Ok(v)) => Some((next + v, true, first)),
                Some(Err(e)) => Some((next, any_ok, if n == 1 { Some(e) } else { first })),
            },
        }
    }
}

/// A segment lookup decided over `n` scopes is decided over each prefix of
/// them, and so is the lookup in the last scope of that prefix.
pub proof fn lemma_use_segment_known_prefix(
    g: ResolutionGraph,
    solver: VisibilitySolver,
    at: LookupPlace,
    scopes: Seq<ResolutionIndex>,
    ident: Ident,
    paths_only: bool,
    m: int,
    n: int,
)
    requires
        1 <= m <= n <= scopes.len(),
        use_segment_lookup(g, solver, at, scopes, ident, paths_only, n) is Some,
    ensures
        use_segment_lookup(g, solver, at, scopes, ident, paths_only, m) is Some,
        use_segment_lookup(g, solver, at, scopes, ident, paths_only, m - 1) is Some,
        known_use_children(g, solver, at, scopes[m - 1].0 as int, ident, paths_only) is Some,
    decreases n - m,
{
    if m < n {
        lemma_use_segment_known_prefix(g, solver, at, scopes, ident, paths_only, m + 1, n);
    }
}

/// A use path looked up from segment `i` on, from `scopes`: each segment
/// leads to every node it names in any of the scopes reached so far, or
/// fails with the first scope's error when it names none; `None` when some
/// lookup has to trace another `use` item.
pub open spec fn use_path_lookup_from(
    g: ResolutionGraph,
    solver: VisibilitySolver,
    at: LookupPlace,
    segments: Seq<Ident>,
    i: int,
    scopes: Seq<ResolutionIndex>,
) -> Option<Result<Seq<ResolutionIndex>, DiagnosticView>>
    decreases segments.len() - i,
{
    if i < 0 || i >= segments.len() {
        Some(Ok(scopes))
    } else {
        let paths_only = i + 1 != segments.len();
        match use_segment_lookup(g, solver, at, scopes, segments[i], paths_only, scopes.len() as int) {
            None => None,
            Some((next, any_ok, first)) => if !any_ok {
                match first {
                    Some(e) => Some(Err(e)),
                    None => None,
                }
            } else {
                use_path_lookup_from(g, solver, LookupPlace { previous: at.previous.push(segments[i]), ..at }, segments,
                    i + 1, next)
            },
        }
    }
}

/// One segment of a use path looked up in each of the first `n` of
/// `scopes` in turn, when no `use` item is traced on the way, starting with
/// the glob scopes in `visited` searched: the nodes found, whether any
/// lookup succeeded, the first scope's error, and the glob scopes searched
/// afterwards.
pub open spec fn use_segment_walk(
    g: ResolutionGraph,
    solver: VisibilitySolver,
    at: LookupPlace,
    scopes: Seq<ResolutionIndex>,
    ident: Ident,
    paths_only: bool,
    n: int,
    visited: Seq<ResolutionIndex>,
) -> (Seq<ResolutionIndex>, bool, Option<DiagnosticView>, Seq<ResolutionIndex>)
    decreases n,
{
    if n <= 0 || n > scopes.len() {
        (Seq::empty(), false, None, visited)
    } else {
        let before = use_segment_walk(g, solver, at, scopes, ident, paths_only, n - 1, visited);
        let here = use_children_lookup(g, solver, at, scopes[n - 1].0 as int, ident, paths_only, before.3);
        match here.0 {
            Ok(v) => (before.0 + v, true, before.2, here.1),
            Err(e) => (before.0, before.1, if n == 1 { Some(e) } else { before.2 }, here.1),
        }
    }
}

/// A use path looked up from segment `i` on, from `scopes`, when no `use`
/// item is traced on the way: each segment leads to every node it names in
/// any of the scopes reached so far, or fails with the first scope's error
/// when it names none.
pub open spec fn use_path_walk(
    g: ResolutionGraph,
    solver: VisibilitySolver,
    at: LookupPlace,
    segments: Seq<Ident>,
    i: int,
    scopes: Seq<ResolutionIndex>,
    visited: Seq<ResolutionIndex>,
) -> Result<Seq<ResolutionIndex>, DiagnosticView>
    decreases segments.len() - i,
{
    if i < 0 || i >= segments.len() {
        Ok(scopes)
    } else {
        let paths_only = i + 1 != segments.len();
        let step = use_segment_walk(g, solver, at, scopes, segments[i], paths_only, scopes.len() as int, visited);
        if !step.1 {
            match step.2 {
                Some(e) => Err(e),
                None => Ok(step.0),
            }
        } else {
            use_path_walk(g, solver, LookupPlace { previous: at.previous.push(segments[i]), ..at }, segments, i + 1,
                step.0, step.3)
        }
    }
}

/// A use path written at `dest`, looked up with no glob scope searched yet,
/// when no `use` item is traced on the way (see `use_path_walk`).
pub open spec fn use_path_walked(g: ResolutionGraph, solver: VisibilitySolver, dest: int, path: SimplePath) -> Result<
    Seq<ResolutionIndex>,
    DiagnosticView,
> {
    use_path_walk(
        g,
        solver,
        LookupPlace {
            file: g.spec_file(dest),
            root: ResolutionIndex(root_of(g, dest) as usize),
            dest: ResolutionIndex(dest as usize),
            previous: Seq::empty(),
            leading_sep: path.leading_sep,
        },
        path.segments@,
        0,
        use_start_scopes(g, dest),
        Seq::empty(),
    )
}

/// The scopes a use path written at `dest` starts from: a function's own
/// scope and the one around it, else the scope around `dest`.
pub open spec fn use_start_scopes(g: ResolutionGraph, dest: int) -> Seq<ResolutionIndex> {
    if g.kind_of(dest) == NodeKind::Fn {
        seq![ResolutionIndex(dest as usize), ResolutionIndex(use_scope_of(g, dest) as usize)]
    } else {
        seq![ResolutionIndex(use_scope_of(g, dest) as usize)]
    }
}

/// A use path written at `dest`, looked up (see `use_path_lookup_from`).
pub open spec fn use_path_lookup(g: ResolutionGraph, solver: VisibilitySolver, dest: int, path: SimplePath) -> Option<
    Result<Seq<ResolutionIndex>, DiagnosticView>,
> {
    use_path_lookup_from(
        g,
        solver,
        LookupPlace {
            file: g.spec_file(dest),
            root: ResolutionIndex(root_of(g, dest) as usize),
            dest: ResolutionIndex(dest as usize),
            previous: Seq::empty(),
            leading_sep: path.leading_sep,
        },
        path.segments@,
        0,
        use_start_scopes(g, dest),
    )
}

/// Every glob leaf among `cs` imports from a scope in `visited`: a lookup
/// that already searched those scopes finds nothing more through them.
pub open spec fn all_globs_visited(g: ResolutionGraph, cs: Seq<ResolutionIndex>, visited: Seq<ResolutionIndex>) -> bool {
    forall|k: int|
        0 <= k < cs.len() ==> match #[trigger] g.node(cs[k].0 as int) {
            ResolutionNode::Leaf { leaf: Leaf::UseGlob(_, glob), .. } => visited.contains(glob),
            _ => true,
        }
}

pub open spec fn use_tree_of(n: ResolutionNode) -> Option<UseTree> {
    match n {
        ResolutionNode::Branch { branch: Branch::Use(item_use), .. } => Some(item_use.tree),
        _ => None,
    }
}

/// The leaf that a traced name (`rename` is `None`) or rename under `dest`
/// would be, with the imports it records.
pub open spec fn is_name_leaf(n: ResolutionNode, dest: ResolutionIndex, name: Ident, rename: Option<Ident>) -> bool {
    match rename {
        None => n matches ResolutionNode::Leaf { parent, leaf: Leaf::UseName(nm, _) } && parent == dest && nm == name,
        Some(rn) => n matches ResolutionNode::Leaf { parent, leaf: Leaf::UseRename(nm, rn2, _) } && parent == dest
            && nm == name && rn2 == rn,
    }
}

/// The last identifier followed so far, if any.
pub open spec fn last_ident(previous: Seq<Ident>) -> Option<Ident> {
    if previous.len() == 0 { None } else { Some(previous.last()) }
}

/// A glob right at the start of a path, after a leading `::`, or after `self`
/// has no scope of its own to import from.
pub open spec fn glob_without_scope(at: LookupPlace) -> bool {
    ||| at.previous.len() == 0
    ||| at.leading_sep.is_some()
    ||| at.previous.last().inner@ == "self"@
}

/// `later` is `r` with one more error, whose view is `d`, and the same graph
/// and visibility.
pub open spec fn adds_error(r: UseResolver, later: UseResolver, d: DiagnosticView) -> bool {
    &&& later.resolution_graph == r.resolution_graph
    &&& later.vis_solver == r.vis_solver
    &&& later.errors@.len() == r.errors@.len() + 1
    &&& later.errors@.subrange(0, r.errors@.len() as int) == r.errors@
    &&& later.errors@.last()@ == d
}

/// `later` is `r` with one more node, a leaf under `dest` for `name` (renamed
/// to `rename`, if any) that imports `imports`, listed last among the
/// children of `dest`; no error is added.
pub open spec fn adds_name_leaf(
    r: UseResolver,
    later: UseResolver,
    dest: ResolutionIndex,
    name: Ident,
    rename: Option<Ident>,
    imports: Seq<ResolutionIndex>,
) -> bool {
    &&& later.resolution_graph.len() == r.resolution_graph.len() + 1
    &&& is_name_leaf(later.resolution_graph.inner@.last(), dest, name, rename)
    &&& leaf_imports(later.resolution_graph.inner@.last()) == imports
    &&& later.resolution_graph.node(dest.0 as int).spec_children() == Some(
        r.resolution_graph.node(dest.0 as int).spec_children().unwrap().push(
            ResolutionIndex(r.resolution_graph.len() as usize),
        ),
    )
    &&& later.errors == r.errors
}

/// The number of `use` items left to trace once the one at `d`, being traced,
/// counts as traced.
pub open spec fn settled_pending(r: UseResolver, d: int) -> int {
    r.pending() - if r.resolved_uses@[d] { 0int } else { 1int }
}

/// What tracing `name` (renamed to `rename`, if any) found at `scope` does:
/// `self` outside a group, or in a group at the start of the path, is an
/// error; `self` in a group after a prefix imports the scope itself; any
/// other name imports what it names in the scope, or records the lookup's
/// error; exactly so when the lookup traces no other `use` item (then no
/// `use` item is left untraced that was not before). Where it has to trace
/// some first, it adds an error or a leaf for the name that imports at least
/// one node.
pub open spec fn name_traced(
    r: UseResolver,
    later: UseResolver,
    at: LookupPlace,
    scope: ResolutionIndex,
    name: Ident,
    rename: Option<Ident>,
    in_group: bool,
) -> bool {
    if name.inner@ == "self"@ {
        if !in_group {
            adds_error(r, later, self_usage_view(at.file, name.inner@, name.span, SelfUsageErrorCause::NotInGroup))
        } else if at.previous.len() == 0 {
            adds_error(r, later, self_usage_view(at.file, name.inner@, name.span, SelfUsageErrorCause::InGroupAtRoot))
        } else {
            adds_name_leaf(r, later, at.dest, name, rename, seq![scope])
        }
    } else {
        match known_use_children(r.resolution_graph, r.vis_solver, at, scope.0 as int, name, false) {
            Some(Err(d)) => adds_error(r, later, d),
            Some(Ok(v)) => adds_name_leaf(r, later, at.dest, name, rename, v),
            None => if later.pending() == settled_pending(r, at.dest.0 as int) {
                match use_children_lookup(r.resolution_graph, r.vis_solver, at, scope.0 as int, name, false,
                    Seq::empty()).0 {
                    Err(d) => adds_error(r, later, d),
                    Ok(v) => adds_name_leaf(r, later, at.dest, name, rename, v),
                }
            } else {
                ||| later.errors@.len() > r.errors@.len()
                ||| {
                    &&& later.resolution_graph.len() > r.resolution_graph.len()
                    &&& is_name_leaf(later.resolution_graph.inner@.last(), at.dest, name, rename)
                    &&& leaf_imports(later.resolution_graph.inner@.last()).len() > 0
                }
            },
        }
    }
}

/// The error for a path of a `use` tree that leads to several nodes.
pub open spec fn path_ambiguity_view(at: LookupPlace, p: SimplePath) -> DiagnosticView {
    disambiguation_needed_view(
        at.file,
        p.segments@.last().inner@,
        p.segments@.last().span,
        AmbiguitySource::Item(path_hint(at.previous.len() == 0, p.leading_sep.is_some(), p.segments@.len())),
    )
}

/// `mid` is `r` once the path `p` has led to the nodes `v`: with the
/// ambiguity error added when there are several, else as it was.
pub open spec fn before_rest(r: UseResolver, mid: UseResolver, at: LookupPlace, p: SimplePath, v: Seq<ResolutionIndex>) -> bool {
    if v.len() > 1 && p.segments@.len() > 0 {
        adds_error(r, mid, path_ambiguity_view(at, p))
    } else {
        &&& mid.resolution_graph == r.resolution_graph
        &&& mid.vis_solver == r.vis_solver
        &&& mid.errors == r.errors
    }
}

/// Where the rest of a `use` tree is traced after the path `p`: with the
/// path's segments followed, and its leading `::` when it starts the tree.
pub open spec fn rest_place(at: LookupPlace, p: SimplePath) -> LookupPlace {
    LookupPlace {
        previous: at.previous + p.segments@,
        leading_sep: if at.previous.len() == 0 { p.leading_sep } else { at.leading_sep },
        ..at
    }
}

/// What tracing `tree`, found at `scope` and reached at `at` (in a group
/// when `in_group`), does: a tree that names or globs something adds a leaf
/// under `at.dest` or an error; a glob with a scope to import from adds its
/// leaf, else the error; a name or rename is traced as `name_traced` says;
/// a path after a prefix may not be global, and otherwise records its
/// lookup's error, or, when it leads to several nodes, the ambiguity error
/// first.
pub open spec fn tree_traced(
    r: UseResolver,
    later: UseResolver,
    at: LookupPlace,
    scope: ResolutionIndex,
    tree: UseTree,
    in_group: bool,
) -> bool
    decreases tree,
{
    &&& yields(tree) ==> grew(r, later, at.dest.0 as int)
    &&& match tree {
        UseTree::Glob(span) => if glob_without_scope(at) {
            adds_error(r, later, glob_at_entry_view(at.file, span, at.leading_sep.is_some(),
                match last_ident(at.previous) { Some(i) => Some(i.inner@), None => None }))
        } else {
            &&& later.resolution_graph.len() == r.resolution_graph.len() + 1
            &&& later.resolution_graph.inner@.last() == (ResolutionNode::Leaf {
                parent: at.dest,
                leaf: Leaf::UseGlob(span, scope),
            })
            &&& later.errors == r.errors
        },
        UseTree::Name(n) => name_traced(r, later, at, scope, n, None, in_group),
        UseTree::Rename(n, rn) => name_traced(r, later, at, scope, n, Some(rn), in_group),
        UseTree::Path(p, sub) => if at.previous.len() > 0 && p.leading_sep.is_some() {
            adds_error(r, later, global_path_in_prefixed_use_group_view(at.file, p.leading_sep.unwrap()))
        } else {
            match use_path_lookup(r.resolution_graph, r.vis_solver, scope.0 as int, p) {
                Some(Err(d)) => adds_error(r, later, d),
                Some(Ok(v)) => {
                    &&& v.len() > 1 && p.segments@.len() > 0 ==> {
                        &&& later.errors@.len() > r.errors@.len()
                        &&& later.errors@[r.errors@.len() as int]@ == path_ambiguity_view(at, p)
                    }
                    &&& exists|mid: UseResolver|
                        #[trigger] before_rest(r, mid, at, p, v) && tree_traced(mid, later, rest_place(at, p), v[0],
                            *sub, false)
                },
                None => later.pending() == settled_pending(r, at.dest.0 as int) ==> match use_path_walked(
                    r.resolution_graph,
                    r.vis_solver,
                    scope.0 as int,
                    p,
                ) {
                    Err(d) => adds_error(r, later, d),
                    Ok(v) => exists|mid: UseResolver|
                        #[trigger] before_rest(r, mid, at, p, v) && tree_traced(mid, later, rest_place(at, p), v[0],
                            *sub, false),
                },
            }
        },
        UseTree::Group(_) => true,
    }
}

/// Where the tree of the `use` item `dest` is traced from on its own: its
/// file and root, with nothing followed yet and no leading `::`.
pub open spec fn use_entry_place(g: ResolutionGraph, dest: int) -> LookupPlace {
    LookupPlace {
        file: g.spec_file(dest),
        root: ResolutionIndex(root_of(g, dest) as usize),
        dest: ResolutionIndex(dest as usize),
        previous: Seq::empty(),
        leading_sep: None,
    }
}

/// The scope a `use` item's tree is traced from: the crate root for a
/// global path (which never looks at it), else the scope around the item.
pub open spec fn entry_scope(g: ResolutionGraph, at: LookupPlace) -> ResolutionIndex {
    if at.leading_sep.is_some() {
        ResolutionIndex(0)
    } else {
        ResolutionIndex(use_scope_of(g, at.dest.0 as int) as usize)
    }
}

/// Tracing reads a state only through its graph, visibility and errors, and
/// a tree only through its shape and identifiers.
proof fn lemma_tree_traced_same(
    r1: UseResolver,
    r2: UseResolver,
    later: UseResolver,
    at: LookupPlace,
    scope: ResolutionIndex,
    a: UseTree,
    b: UseTree,
    in_group: bool,
)
    requires
        r1.resolution_graph == r2.resolution_graph,
        r1.vis_solver == r2.vis_solver,
        r1.errors == r2.errors,
        settled_pending(r1, at.dest.0 as int) == settled_pending(r2, at.dest.0 as int),
        same_tree(a, b),
        tree_traced(r1, later, at, scope, a, in_group),
    ensures
        tree_traced(r2, later, at, scope, b, in_group),
    decreases a,
{
    lemma_same_tree_yields(a, b);
    match a {
        UseTree::Path(pa, sa) => {
            if let UseTree::Path(pb, sb) = b {
                assert(pa.segments@ == pb.segments@);
                assert(use_path_lookup(r1.resolution_graph, r1.vis_solver, scope.0 as int, pa) == use_path_lookup(
                    r2.resolution_graph,
                    r2.vis_solver,
                    scope.0 as int,
                    pb,
                ));
                assert(rest_place(at, pa) == rest_place(at, pb));
                assert(path_ambiguity_view(at, pa) == path_ambiguity_view(at, pb));
                assert(use_path_walked(r1.resolution_graph, r1.vis_solver, scope.0 as int, pa) == use_path_walked(
                    r2.resolution_graph,
                    r2.vis_solver,
                    scope.0 as int,
                    pb,
                ));
                if !(at.previous.len() > 0 && pa.leading_sep.is_some()) && use_path_lookup(r1.resolution_graph,
                    r1.vis_solver, scope.0 as int, pa) is None && later.pending() == settled_pending(r1,
                    at.dest.0 as int) {
                    if let Ok(v) = use_path_walked(r1.resolution_graph, r1.vis_solver, scope.0 as int, pa) {
                        let mid = choose|mid: UseResolver|
                            #[trigger] before_rest(r1, mid, at, pa, v) && tree_traced(mid, later, rest_place(at, pa),
                                v[0], *sa, false);
                        lemma_tree_traced_same(mid, mid, later, rest_place(at, pa), v[0], *sa, *sb, false);
                        assert(before_rest(r2, mid, at, pb, v));
                    }
                }
                if !(at.previous.len() > 0 && pa.leading_sep.is_some()) {
                    if let Some(Ok(v)) = use_path_lookup(r1.resolution_graph, r1.vis_solver, scope.0 as int, pa) {
                        let mid = choose|mid: UseResolver|
                            #[trigger] before_rest(r1, mid, at, pa, v) && tree_traced(mid, later, rest_place(at, pa),
                                v[0], *sa, false);
                        lemma_tree_traced_same(mid, mid, later, rest_place(at, pa), v[0], *sa, *sb, false);
                        assert(before_rest(r2, mid, at, pb, v));
                    }
                }
            }
        },
        _ => {},
    }
}

/// The hint of the ambiguity error for a path in a `use` tree that leads to
/// more than one node.
pub open spec fn path_hint(is_entry: bool, global: bool, segments: nat) -> ItemHint {
    if is_entry && global && segments == 1 {
        ItemHint::ExternalNamedScope
    } else if is_entry && segments == 1 {
        ItemHint::InternalNamedChildOrExternalNamedScope
    } else {
        ItemHint::InternalNamedChildScope
    }
}

pub open spec fn opt_ident(i: Option<&Ident>) -> Option<Ident> {
    match i {
        Some(i) => Some(*i),
        None => None,
    }
}

/// How much a call of `trace_use_entry_reenterable` on `dest` lowers the
/// number of pending uses before it traces anything.
pub open spec fn entry_drop(r: UseResolver, dest: ResolutionIndex) -> int {
    if dest.0 < r.resolution_graph.len() && r.resolution_graph.kind_of(dest.0 as int) == NodeKind::Use
        && !r.resolved_uses@[dest.0 as int] {
        1
    } else {
        0
    }
}

/// The part of a tracing context that tracing a tree leaves as it found it.
pub open spec fn same_place(a: TracingContext, b: TracingContext) -> bool {
    a.file == b.file && a.root == b.root && a.dest == b.dest && a.previous_idents@ == b.previous_idents@
}

impl UseResolver {
    /// Traces the `use` item at `dest`, if it is one; anything else is left alone.
    pub fn resolve_use(&mut self, dest: ResolutionIndex)
        requires
            old(self).inv(),
            dest.0 < old(self).resolution_graph.len(),
        ensures
            final(self).inv(),
            old(self).keeps(*final(self)),
            old(self).resolution_graph.kind_of(dest.0 as int) != NodeKind::Use ==> *final(self) == *old(self),
            old(self).resolution_graph.kind_of(dest.0 as int) == NodeKind::Use ==> final(self).resolved_uses@[dest.0 as int],
            old(self).resolved_uses@[dest.0 as int] ==> *final(self) == *old(self),
            old(self).resolution_graph.kind_of(dest.0 as int) == NodeKind::Use && !old(self).resolved_uses@[dest.0 as int]
                ==> tree_traced(
                *old(self),
                *final(self),
                use_entry_place(old(self).resolution_graph, dest.0 as int),
                ResolutionIndex(use_scope_of(old(self).resolution_graph, dest.0 as int) as usize),
                use_tree_of(old(self).resolution_graph.node(dest.0 as int)).unwrap(),
                false,
            ),
    {
        if !self.resolution_graph.get(dest).is_use() {
            return;
        }
        let mut ctx = TracingContext::new(&self.resolution_graph, dest, None);
        proof {
            assert(ctx.previous_idents@ =~= Seq::<Ident>::empty());
            assert(place_of(ctx) == use_entry_place(self.resolution_graph, dest.0 as int));
        }
        self.trace_use_entry_reenterable(&mut ctx);
    }

    /// Traces the `use` item at `ctx.dest` unless it was traced already (or
    /// is not a `use` item at all), in which case nothing changes.
    pub fn trace_use_entry_reenterable(&mut self, ctx: &mut TracingContext)
        requires
            old(self).inv(),
            old(ctx).wf(old(self).resolution_graph),
        ensures
            final(self).inv(),
            old(self).keeps(*final(self)),
            same_place(*old(ctx), *final(ctx)),
            final(self).pending() == old(self).pending() ==> *final(self) == *old(self),
            entry_drop(*old(self), old(ctx).dest) == 0 ==> *final(self) == *old(self),
            old(self).resolution_graph.kind_of(old(ctx).dest.0 as int) == NodeKind::Use
                ==> final(self).resolved_uses@[old(ctx).dest.0 as int],
            entry_drop(*old(self), old(ctx).dest) == 1 ==> tree_traced(
                *old(self),
                *final(self),
                place_of(*old(ctx)),
                entry_scope(old(self).resolution_graph, place_of(*old(ctx))),
                use_tree_of(old(self).resolution_graph.node(old(ctx).dest.0 as int)).unwrap(),
                false,
            ),
        decreases old(self).pending() - entry_drop(*old(self), old(ctx).dest), 4int, 0int, 0int,
    {
        proof {
            lemma_keeps_refl(*self);
        }
        let dest = ctx.dest;
        if !self.resolution_graph.get(dest).is_use() {
            return;
        }
        if self.resolved_uses[dest.0] {
            return;
        }
        let tree = match self.resolution_graph.get(dest) {
            ResolutionNode::Branch { branch: Branch::Use(item_use), .. } => clone_use_tree(&item_use.tree),
            _ => {
                return;
            },
        };
        let ghost before = *self;
        self.mark_resolved(dest);
        let scope = if ctx.leading_sep.is_some() {
            // a global path never looks at its scope
            ResolutionIndex(0)
        } else {
            use_scope(&self.resolution_graph, dest)
        };
        let ghost marked = *self;
        let ghost ctx_at = *ctx;
        self.trace_use(ctx, scope, &tree, false);
        proof {
            lemma_same_tree_yields(use_tree_of(before.resolution_graph.node(dest.0 as int)).unwrap(), tree);
            lemma_keeps_after_mark(before, marked, *self, dest.0 as int);
            lemma_same_tree_symmetric(use_tree_of(before.resolution_graph.node(dest.0 as int)).unwrap(), tree);
            lemma_tree_traced_same(marked, before, *self, place_of(ctx_at), scope, tree,
                use_tree_of(before.resolution_graph.node(dest.0 as int)).unwrap(), false);
            assert(marked.resolved_uses@[dest.0 as int]);
        }
    }

    /// Traces `tree`, found at `scope`, adding a leaf under `ctx.dest` for each
    /// name and glob it brings in and an error for each it cannot.
    #[verifier::rlimit(100)]
    #[verifier::spinoff_prover]
    fn trace_use(&mut self, ctx: &mut TracingContext, scope: ResolutionIndex, tree: &UseTree, in_group: bool)
        requires
            old(self).inv(),
            old(ctx).wf(old(self).resolution_graph),
            scope.0 < old(self).resolution_graph.len(),
            old(self).resolution_graph.kind_of(old(ctx).dest.0 as int) == NodeKind::Use,
            old(self).resolved_uses@[old(ctx).dest.0 as int],
        ensures
            final(self).inv(),
            old(self).keeps(*final(self)),
            same_place(*old(ctx), *final(ctx)),
            tree_traced(*old(self), *final(self), place_of(*old(ctx)), scope, *tree, in_group),
        decreases old(self).pending(), 3int, tree_size(*tree) as int, 0int,
    {
        let ghost start = *self;
        let ghost ctx0 = *ctx;
        proof {
            lemma_keeps_refl(*self);
        }
        match tree {
            UseTree::Path(path, sub) => {
                let is_entry = ctx.previous_idents.len() == 0;
                if is_entry {
                    ctx.leading_sep = path.leading_sep;
                } else if path.leading_sep.is_some() {
                    let e = global_path_in_prefixed_use_group(ctx.file, path.leading_sep.unwrap());
                    self.push_error(e);
                    return;
                }
                let mut path_finder = PathFinder::new();
                let found = match path_finder.find_at_path(self, scope, path) {
                    Ok(v) => v,
                    Err(e) => {
                        let ghost mid = *self;
                        self.push_error(e);
                        proof {
                            lemma_keeps_trans(start, mid, *self);
                            if self.pending() == start.pending() {
                                assert(mid.pending() == start.pending());
                            }
                        }
                        return;
                    },
                };
                let ghost after_find = *self;
                if found.len() > 1 && path.segments.len() > 0 {
                    let hint = if is_entry && ctx.leading_sep.is_some() && path.segments.len() == 1 {
                        ItemHint::ExternalNamedScope
                    } else if is_entry && path.segments.len() == 1 {
                        ItemHint::InternalNamedChildOrExternalNamedScope
                    } else {
                        ItemHint::InternalNamedChildScope
                    };
                    let e = disambiguation_needed(ctx.file, &path.segments[path.segments.len() - 1], AmbiguitySource::Item(hint));
                    let ghost mid = *self;
                    self.push_error(e);
                    proof {
                        lemma_keeps_trans(start, mid, *self);
                    }
                }
                let new_scope = found[0];
                let saved = ctx.previous_idents.len();
                let ghost sep = ctx.leading_sep;
                let mut k: usize = 0;
                while k < path.segments.len()
                    invariant
                        k <= path.segments@.len(),
                        ctx.previous_idents@.len() == saved + k,
                        ctx.previous_idents@.subrange(0, saved as int) == ctx0.previous_idents@,
                        ctx.previous_idents@ == ctx0.previous_idents@ + path.segments@.subrange(0, k as int),
                        saved == ctx0.previous_idents@.len(),
                        ctx.file == ctx0.file,
                        ctx.root == ctx0.root,
                        ctx.dest == ctx0.dest,
                        ctx.leading_sep == sep,
                    decreases path.segments@.len() - k,
                {
                    ctx.previous_idents.push(path.segments[k].duplicate());
                    k = k + 1;
                    assert(ctx.previous_idents@ =~= ctx0.previous_idents@ + path.segments@.subrange(0, k as int));
                }
                let ghost mid = *self;
                let ghost ctx_rest = *ctx;
                proof {
                    assert(path.segments@.subrange(0, path.segments@.len() as int) =~= path.segments@);
                    assert(place_of(ctx_rest) == rest_place(place_of(ctx0), *path));
                }
                proof {
                    lemma_node_grows(start.resolution_graph.inner@[ctx.dest.0 as int],
                        self.resolution_graph.inner@[ctx.dest.0 as int]);
                }
                self.trace_use(ctx, new_scope, sub, false);
                proof {
                    lemma_keeps_trans(start, mid, *self);
                    if yields(**sub) {
                        lemma_grew_extends(start, mid, *self, ctx.dest.0 as int);
                    }
                    if let Some(Ok(v)) = use_path_lookup(start.resolution_graph, start.vis_solver, scope.0 as int,
                        *path) {
                        assert(found@ == v);
                        assert(before_rest(start, mid, place_of(ctx0), *path, v));
                        assert(tree_traced(mid, *self, rest_place(place_of(ctx0), *path), v[0], **sub, false));
                    }
                    if self.pending() == start.pending() {
                        assert(mid.pending() == start.pending());
                        assert(after_find.pending() == start.pending());
                        if let Ok(v) = use_path_walked(start.resolution_graph, start.vis_solver, scope.0 as int, *path) {
                            assert(found@ == v);
                            assert(before_rest(start, mid, place_of(ctx0), *path, v));
                            assert(tree_traced(mid, *self, rest_place(place_of(ctx0), *path), v[0], **sub, false));
                        }
                    }
                }
                while ctx.previous_idents.len() > saved
                    invariant
                        ctx.previous_idents@.len() >= saved,
                        ctx.previous_idents@.subrange(0, saved as int) == ctx0.previous_idents@,
                        saved == ctx0.previous_idents@.len(),
                        ctx.file == ctx0.file,
                        ctx.root == ctx0.root,
                        ctx.dest == ctx0.dest,
                    decreases ctx.previous_idents@.len(),
                {
                    let ghost before = ctx.previous_idents@;
                    ctx.previous_idents.pop();
                    assert(ctx.previous_idents@.subrange(0, saved as int) =~= before.subrange(0, saved as int));
                }
                assert(ctx.previous_idents@ =~= ctx0.previous_idents@);
            },
            UseTree::Name(name) => {
                self.trace_name(ctx, scope, name, None, in_group);
            },
            UseTree::Rename(name, rename) => {
                self.trace_name(ctx, scope, name, Some(rename), in_group);
            },
            UseTree::Glob(span) => {
                let is_entry = ctx.previous_idents.len() == 0;
                let last_is_self = ctx.previous_idents.len() > 0
                    && ctx.previous_idents[ctx.previous_idents.len() - 1].is("self");
                if is_entry || ctx.leading_sep.is_some() || last_is_self {
                    let previous = if ctx.previous_idents.len() == 0 {
                        None
                    } else {
                        Some(&ctx.previous_idents[ctx.previous_idents.len() - 1])
                    };
                    let e = glob_at_entry(ctx.file, *span, ctx.leading_sep, previous);
                    assert(opt_ident_text(previous) == match last_ident(ctx.previous_idents@) {
                        Some(i) => Some(i.inner@),
                        None => None,
                    });
                    self.push_error(e);
                    return;
                }
                proof {
                    assert(self.resolution_graph.leaf_refs_ok(ResolutionNode::Leaf { parent: ctx.dest, leaf: Leaf::UseGlob(*span, scope) }));
                }
                self.add_use_leaf(ctx.dest, Leaf::UseGlob(*span, scope));
            },
            UseTree::Group(trees) => {
                let mut i: usize = 0;
                while i < trees.len()
                    invariant
                        *tree == UseTree::Group(*trees),
                        i <= trees@.len(),
                        self.inv(),
                        start.inv(),
                        start.keeps(*self),
                        start == *old(self),
                        ctx.wf(self.resolution_graph),
                        same_place(ctx0, *ctx),
                        ctx0 == *old(ctx),
                        scope.0 < self.resolution_graph.len(),
                        self.resolution_graph.kind_of(ctx.dest.0 as int) == NodeKind::Use,
                        start.resolution_graph.kind_of(ctx.dest.0 as int) == NodeKind::Use,
                        self.resolved_uses@[ctx.dest.0 as int],
                        ctx.dest.0 < start.resolution_graph.len(),
                        group_yields(trees@, i as int) ==> grew(start, *self, ctx.dest.0 as int),
                    decreases trees@.len() - i,
                {
                    let ghost mid = *self;
                    proof {
                        lemma_trees_size(trees@, i as int, trees@.len() as int);
                        lemma_node_grows(start.resolution_graph.inner@[ctx.dest.0 as int],
                            self.resolution_graph.inner@[ctx.dest.0 as int]);
                    }
                    self.trace_use(ctx, scope, &trees[i], true);
                    proof {
                        lemma_keeps_trans(start, mid, *self);
                        if group_yields(trees@, i as int) || yields(trees@[i as int]) {
                            lemma_keeps_refl(*self);
                            lemma_grew_extends(start, mid, *self, ctx.dest.0 as int);
                        }
                        lemma_node_grows(start.resolution_graph.inner@[ctx.dest.0 as int],
                            self.resolution_graph.inner@[ctx.dest.0 as int]);
                    }
                    i = i + 1;
                }
            },
        }
    }

    /// Traces a name (or rename) of a `use` tree found at `scope`.
    fn trace_name(&mut self, ctx: &mut TracingContext, scope: ResolutionIndex, name: &Ident, rename: Option<&Ident>, in_group: bool)
        requires
            old(self).inv(),
            old(ctx).wf(old(self).resolution_graph),
            scope.0 < old(self).resolution_graph.len(),
            old(self).resolution_graph.kind_of(old(ctx).dest.0 as int) == NodeKind::Use,
            old(self).resolved_uses@[old(ctx).dest.0 as int],
        ensures
            final(self).inv(),
            old(self).keeps(*final(self)),
            *final(ctx) == *old(ctx),
            name_traced(*old(self), *final(self), place_of(*old(ctx)), scope, *name, opt_ident(rename), in_group),
            grew(*old(self), *final(self), old(ctx).dest.0 as int),
        decreases old(self).pending(), 2int, 0int, 0int,
    {
        let ghost start = *self;
        proof {
            lemma_keeps_refl(*self);
        }
        let found = if name.is("self") {
            let cause = if !in_group {
                Some(SelfUsageErrorCause::NotInGroup)
            } else if ctx.previous_idents.len() == 0 {
                Some(SelfUsageErrorCause::InGroupAtRoot)
            } else {
                None
            };
            if let Some(cause) = cause {
                let e = self_usage(ctx.file, name, cause);
                self.push_error(e);
                return;
            }
            let v = vec![scope];
            assert(v@ =~= seq![scope]);
            v
        } else {
            let mut path_finder = PathFinder::new();
            proof {
                assert(path_finder.visited_glob_scopes@ =~= Seq::<ResolutionIndex>::empty());
            }
            match path_finder.find_children(self, ctx, scope, name, false) {
                Ok(v) => v,
                Err(e) => {
                    let ghost mid = *self;
                    self.push_error(e);
                    proof {
                        lemma_keeps_trans(start, mid, *self);
                        if self.pending() == start.pending() {
                            assert(mid.pending() == start.pending());
                            assert(mid == start);
                        }
                    }
                    return;
                },
            }
        };
        let ghost mid = *self;
        proof {
            lemma_node_grows(start.resolution_graph.inner@[ctx.dest.0 as int],
                self.resolution_graph.inner@[ctx.dest.0 as int]);
            if mid.pending() == start.pending() {
                assert(mid == start);
            }
        }
        let ghost found_view = found@;
        let leaf = match rename {
            None => Leaf::UseName(name.duplicate(), found),
            Some(rename) => Leaf::UseRename(name.duplicate(), rename.duplicate(), found),
        };
        let ghost the_leaf = ResolutionNode::Leaf { parent: ctx.dest, leaf };
        let idx = self.add_use_leaf(ctx.dest, leaf);
        proof {
            lemma_keeps_trans(start, mid, *self);
            assert(self.resolution_graph.inner@.last() == the_leaf);
            assert(is_name_leaf(the_leaf, ctx.dest, *name, opt_ident(rename)));
            assert(leaf_imports(the_leaf) == found_view);
            assert(ResolutionIndex(mid.resolution_graph.len() as usize) == idx);
        }
    }
}

/// Looks up the paths of a `use` tree, following other `use` items (tracing
/// them first where needed) and globs.
#[derive(Debug)]
pub struct PathFinder {
    /// The glob scopes already searched in this lookup.
    pub visited_glob_scopes: Vec<ResolutionIndex>,
}

impl PathFinder {
    /// The visited scopes are distinct nodes of a graph of `len` nodes.
    pub open spec fn visited_ok(&self, len: nat) -> bool {
        &&& self.visited_glob_scopes@.no_duplicates()
        &&& all_below(self.visited_glob_scopes@, len)
    }

    pub fn new() -> (r: PathFinder)
        ensures
            r.visited_glob_scopes@.len() == 0,
    {
        PathFinder { visited_glob_scopes: Vec::new() }
    }

    /// The nodes a path leads to from `dest`: every scope reached by each
    /// segment in turn, or the first error when none is reached.
    #[verifier::rlimit(100)]
    #[verifier::spinoff_prover]
    pub fn find_at_path(&mut self, r: &mut UseResolver, dest: ResolutionIndex, path: &SimplePath)
        -> (res: Result<Vec<ResolutionIndex>, Diagnostic>)
        requires
            old(r).inv(),
            dest.0 < old(r).resolution_graph.len(),
        ensures
            final(r).inv(),
            old(r).keeps(*final(r)),
            final(self).visited_ok(final(r).resolution_graph.len()),
            res matches Ok(v) ==> v@.len() > 0 && all_below(v@, final(r).resolution_graph.len()),
            use_path_lookup(old(r).resolution_graph, old(r).vis_solver, dest.0 as int, *path) matches Some(o)
                ==> lookup_view(res) == o && *final(r) == *old(r),
            final(r).pending() == old(r).pending() ==> *final(r) == *old(r) && lookup_view(res) == use_path_walked(
                old(r).resolution_graph,
                old(r).vis_solver,
                dest.0 as int,
                *path,
            ),
        decreases old(r).pending(), 2int, 0int, 0int,
    {
        let ghost start = *r;
        let ghost walk = use_path_walked(start.resolution_graph, start.vis_solver, dest.0 as int, *path);
        let ghost whole = use_path_lookup(start.resolution_graph, start.vis_solver, dest.0 as int, *path);
        proof {
            lemma_keeps_refl(*r);
        }
        self.visited_glob_scopes = Vec::new();
        proof {
            assert(self.visited_glob_scopes@ =~= Seq::<ResolutionIndex>::empty());
        }
        let mut ctx = TracingContext::new(&r.resolution_graph, dest, path.leading_sep);
        let dest_scope = use_scope(&r.resolution_graph, dest);
        let mut scopes: Vec<ResolutionIndex> = if r.resolution_graph.get(dest).kind() == NodeKind::Fn {
            vec![dest, dest_scope]
        } else {
            vec![dest_scope]
        };
        proof {
            assert(scopes@ =~= use_start_scopes(start.resolution_graph, dest.0 as int));
            assert(ctx.previous_idents@ =~= Seq::<Ident>::empty());
            assert(place_of(ctx) == LookupPlace {
                file: start.resolution_graph.spec_file(dest.0 as int),
                root: ResolutionIndex(root_of(start.resolution_graph, dest.0 as int) as usize),
                dest: ResolutionIndex(dest.0 as usize),
                previous: Seq::empty(),
                leading_sep: path.leading_sep,
            });
        }
        let mut i: usize = 0;
        while i < path.segments.len()
            invariant
                r.inv(),
                start.inv(),
                start.keeps(*r),
                start == *old(r),
                i <= path.segments@.len(),
                ctx.wf(r.resolution_graph),
                scopes@.len() > 0,
                all_below(scopes@, r.resolution_graph.len()),
                self.visited_ok(r.resolution_graph.len()),
                whole == use_path_lookup(start.resolution_graph, start.vis_solver, dest.0 as int, *path),
                whole is Some ==> whole == use_path_lookup_from(start.resolution_graph, start.vis_solver, place_of(ctx),
                    path.segments@, i as int, scopes@) && *r == start,
                walk == use_path_walked(start.resolution_graph, start.vis_solver, dest.0 as int, *path),
                r.pending() == start.pending() ==> *r == start && walk == use_path_walk(start.resolution_graph,
                    start.vis_solver, place_of(ctx), path.segments@, i as int, scopes@, self.visited_glob_scopes@),
            decreases path.segments@.len() - i,
        {
            let paths_only = i + 1 != path.segments.len();
            let mut next: Vec<ResolutionIndex> = Vec::new();
            let mut first_err: Option<Diagnostic> = None;
            let mut any_ok = false;
            let ghost seg_known = whole is Some;
            let ghost v_seg = self.visited_glob_scopes@;
            let ghost r_seg = *r;
            let mut j: usize = 0;
            while j < scopes.len()
                invariant
                    r.inv(),
                    start.inv(),
                    start.keeps(*r),
                    start == *old(r),
                    i < path.segments@.len(),
                    j <= scopes@.len(),
                    ctx.wf(r.resolution_graph),
                    scopes@.len() > 0,
                    all_below(scopes@, r.resolution_graph.len()),
                    all_below(next@, r.resolution_graph.len()),
                    any_ok ==> next@.len() > 0,
                    !any_ok && j > 0 ==> first_err.is_some(),
                    self.visited_ok(r.resolution_graph.len()),
                    seg_known == whole is Some,
                    whole == use_path_lookup(start.resolution_graph, start.vis_solver, dest.0 as int, *path),
                    seg_known ==> whole == use_path_lookup_from(start.resolution_graph, start.vis_solver, place_of(ctx),
                        path.segments@, i as int, scopes@),
                    seg_known ==> *r == start && use_segment_lookup(start.resolution_graph, start.vis_solver,
                        place_of(ctx), scopes@, path.segments@[i as int], paths_only, scopes@.len() as int) is Some,
                    seg_known ==> (use_segment_lookup(start.resolution_graph, start.vis_solver, place_of(ctx), scopes@,
                        path.segments@[i as int], paths_only, j as int) matches Some(t) ==> next@ == t.0 && any_ok
                        == t.1 && opt_diagnostic_view(first_err) == t.2),
                    walk == use_path_walked(start.resolution_graph, start.vis_solver, dest.0 as int, *path),
                    r_seg.pending() == start.pending() ==> r_seg == start && walk == use_path_walk(
                        start.resolution_graph, start.vis_solver, place_of(ctx), path.segments@, i as int, scopes@,
                        v_seg),
                    r_seg.pending() <= start.pending(),
                    r.pending() <= r_seg.pending(),
                    r.pending() == start.pending() ==> *r == start && use_segment_walk(start.resolution_graph,
                        start.vis_solver, place_of(ctx), scopes@, path.segments@[i as int], paths_only, j as int, v_seg)
                        == (next@, any_ok, opt_diagnostic_view(first_err), self.visited_glob_scopes@),
                decreases scopes@.len() - j,
            {
                let ghost mid = *r;
                let ghost before_next = next@;
                proof {
                    if seg_known {
                        lemma_use_segment_known_prefix(start.resolution_graph, start.vis_solver, place_of(ctx), scopes@,
                            path.segments@[i as int], paths_only, j as int + 1, scopes@.len() as int);
                    }
                }
                match self.find_children(r, &ctx, scopes[j], &path.segments[i], paths_only) {
                    Ok(mut v) => {
                        let ghost vv = v@;
                        any_ok = true;
                        next.append(&mut v);
                        assert(next@ == before_next + vv);
                    },
                    Err(e) => {
                        if j == 0 {
                            first_err = Some(e);
                        }
                    },
                }
                proof {
                    lemma_keeps_trans(start, mid, *r);
                    if r.pending() == start.pending() {
                        assert(mid.pending() == start.pending());
                    }
                }
                j = j + 1;
            }
            proof {
                if r.pending() == start.pending() {
                    assert(r_seg.pending() == start.pending());
                }
            }
            if !any_ok {
                return Err(first_err.unwrap());
            }
            scopes = next;
            ctx.previous_idents.push(path.segments[i].duplicate());
            i = i + 1;
        }
        Ok(scopes)
    }

    /// The nodes `ident` names in `scope`: a special identifier's meaning, or
    /// the visible items of that name found locally, among crate roots or
    /// through globs. `Ok` always holds at least one node.
    #[verifier::rlimit(100)]
    #[verifier::spinoff_prover]
    pub fn find_children(
        &mut self,
        r: &mut UseResolver,
        ctx: &TracingContext,
        scope: ResolutionIndex,
        ident: &Ident,
        paths_only: bool,
    ) -> (res: Result<Vec<ResolutionIndex>, Diagnostic>)
        requires
            old(r).inv(),
            ctx.wf(old(r).resolution_graph),
            scope.0 < old(r).resolution_graph.len(),
            old(self).visited_ok(old(r).resolution_graph.len()),
        ensures
            final(r).inv(),
            old(r).keeps(*final(r)),
            final(self).visited_ok(final(r).resolution_graph.len()),
            old(self).visited_glob_scopes@.is_prefix_of(final(self).visited_glob_scopes@),
            res matches Ok(v) ==> v@.len() > 0 && all_below(v@, final(r).resolution_graph.len()),
            match special_ident_result(old(r).resolution_graph, ctx.file, ctx.previous_idents@, ctx.leading_sep,
                scope.0 as int, *ident) {
                Err(d) => res matches Err(e) && e@ == d && *final(r) == *old(r),
                Ok(Some(c)) => res matches Ok(v) && v@ == seq![c] && *final(r) == *old(r),
                Ok(None) => true,
            },
            known_use_children(old(r).resolution_graph, old(r).vis_solver, place_of(*ctx), scope.0 as int, *ident,
                paths_only) matches Some(o) ==> lookup_view(res) == o && *final(r) == *old(r),
            special_ident_result(old(r).resolution_graph, ctx.file, ctx.previous_idents@, ctx.leading_sep,
                scope.0 as int, *ident) == Ok::<Option<ResolutionIndex>, DiagnosticView>(None) ==> (res matches Ok(v)
                ==> visible_and_continuing(final(r).resolution_graph, final(r).vis_solver, ctx.dest.0 as int, v@,
                paths_only, false)),
            final(r).pending() == old(r).pending() ==> *final(r) == *old(r),
            final(r).pending() == old(r).pending() ==> (lookup_view(res), final(self).visited_glob_scopes@)
                == use_children_lookup(old(r).resolution_graph, old(r).vis_solver, place_of(*ctx), scope.0 as int,
                *ident, paths_only, old(self).visited_glob_scopes@),
        decreases old(r).pending(), 1int, 0int, 0int,
    {
        let ghost start = *r;
        let ghost visited0 = self.visited_glob_scopes@;
        let ghost sg = start.resolution_graph;
        let ghost ss = start.vis_solver;
        let ghost d = ctx.dest.0 as int;
        let ghost id = ident.inner@;
        proof {
            lemma_keeps_refl(*r);
            assert(visited0.subrange(0, visited0.len() as int) =~= visited0);
        }
        let is_entry = ctx.previous_idents.len() == 0;
        match handle_special_ident(&r.resolution_graph, ctx, scope, ident) {
            Err(e) => {
                return Err(e);
            },
            Ok(Some(child)) => {
                let v = vec![child];
                assert(v@ =~= seq![child]);
                return Ok(v);
            },
            Ok(None) => {},
        }
        let mut local: Vec<ResolutionIndex> = Vec::new();
        if !is_entry || ctx.leading_sep.is_none() {
            if let Some(children) = r.resolution_graph.get(scope).children() {
                proof {
                    assert(r.resolution_graph.node_ok(scope.0 as int));
                }
                let children = copy_indices(children);
                local = named_children_in(&r.resolution_graph, &children, ident, paths_only, false);
                proof {
                    assert(local@ =~= named_matches(sg, children@, id, paths_only, false) + use_named_imports(sg, ss, d,
                        children@, id, paths_only, 0));
                }
                let mut k: usize = 0;
                while k < children.len()
                    invariant
                        r.inv(),
                        start.inv(),
                        start.keeps(*r),
                        start == *old(r),
                        k <= children@.len(),
                        ctx.wf(r.resolution_graph),
                        all_below(children@, r.resolution_graph.len()),
                        all_below(local@, r.resolution_graph.len()),
                        self.visited_ok(r.resolution_graph.len()),
                        visited0.is_prefix_of(self.visited_glob_scopes@),
                        start.resolution_graph.node(scope.0 as int).spec_children() is Some,
                        children@ == start.resolution_graph.node(scope.0 as int).spec_children().unwrap(),
                        uses_silent(start.resolution_graph, start.vis_solver, ctx.dest.0 as int, scope.0 as int,
                            ident.inner@) ==> *r == start && local@ == named_matches(start.resolution_graph, children@,
                            ident.inner@, paths_only, false),
                        paths_only ==> all_continue(r.resolution_graph, local@, false),
                        self.visited_glob_scopes@ == visited0,
                        sg == start.resolution_graph,
                        ss == start.vis_solver,
                        d == ctx.dest.0 as int,
                        id == ident.inner@,
                        r.pending() == start.pending() ==> *r == start,
                        r.pending() == start.pending() ==> local@ == named_matches(sg, children@, id, paths_only, false)
                            + use_named_imports(sg, ss, d, children@, id, paths_only, k as int),
                    decreases children@.len() - k,
                {
                    let c = children[k];
                    proof {
                        if uses_silent(start.resolution_graph, start.vis_solver, ctx.dest.0 as int, scope.0 as int,
                            ident.inner@) {
                            assert(children@[k as int] == c);
                        }
                    }
                    if r.resolution_graph.get(c).is_use() {
                        let ghost mid = *r;
                        let ghost vmid = self.visited_glob_scopes@;
                        let ghost before_local = local@;
                        let mut m = self.matching_from_use(r, ctx, c, ident, paths_only, false);
                        let ghost mv = m@;
                        proof {
                            if r.pending() == start.pending() {
                                assert(mid.pending() == start.pending());
                                assert(*r == mid);
                                assert(children@[k as int] == c);
                                assert(use_named_imports(sg, ss, d, children@, id, paths_only, k + 1) == use_named_imports(
                                    sg, ss, d, children@, id, paths_only, k as int) + mv);
                                assert(before_local + mv =~= named_matches(sg, children@, id, paths_only, false) + (
                                    use_named_imports(sg, ss, d, children@, id, paths_only, k as int) + mv));
                            }
                        }
                        proof {
                            if paths_only {
                                lemma_all_continue_grows(mid.resolution_graph, r.resolution_graph, before_local, false);
                                lemma_all_continue_add(r.resolution_graph, before_local, mv, false);
                            }
                        }
                        proof {
                            if uses_silent(start.resolution_graph, start.vis_solver, ctx.dest.0 as int, scope.0 as int,
                                ident.inner@) {
                                assert(start.resolution_graph.kind_of(children@[k as int].0 as int) == NodeKind::Use);
                            }
                        }
                        local.append(&mut m);
                        assert(local@ == before_local + mv);
                        proof {
                            if uses_silent(start.resolution_graph, start.vis_solver, ctx.dest.0 as int, scope.0 as int,
                                ident.inner@) {
                                assert(local@ =~= before_local);
                            }
                        }
                        proof {
                            lemma_keeps_trans(start, mid, *r);
                            lemma_prefix_trans(visited0, vmid, self.visited_glob_scopes@);
                        }
                    } else {
                        proof {
                            if r.pending() == start.pending() {
                                assert(children@[k as int] == c);
                                assert(use_named_imports(sg, ss, d, children@, id, paths_only, k + 1) =~= use_named_imports(
                                    sg, ss, d, children@, id, paths_only, k as int));
                            }
                        }
                    }
                    k = k + 1;
                }
            }
        }
        let ghost after_local = *r;
        let ghost local_view = local@;
        let global = if is_entry {
            global_candidates(&r.resolution_graph, ctx.root, paths_only, false)
        } else {
            Vec::new()
        };
        proof {
            lemma_chosen_candidates(r.resolution_graph, r.vis_solver, place_of(*ctx), *ident, paths_only, false, local@,
                global@, Seq::empty());
        }
        match find_children_from_local_and_global(&r.resolution_graph, &r.vis_solver, ctx, ident, paths_only, local, global) {
            Err(e) => Err(e),
            Ok(Some(children)) => Ok(children),
            Ok(None) => {
                if !(ctx.leading_sep.is_some() && is_entry) {
                    let mut from_globs: Vec<ResolutionIndex> = Vec::new();
                    let ghost v0 = self.visited_glob_scopes@;
                    let ghost cs_all = match sg.node(scope.0 as int).spec_children() {
                        Some(cs) => cs,
                        None => Seq::<ResolutionIndex>::empty(),
                    };
                    let ghost wg = scope_globs(sg, ss, d, id, paths_only, true, cs_all, 0, v0);
                    let ghost r2 = *r;
                    proof {
                        assert(from_globs@ + wg.0 =~= wg.0);
                    }
                    if let Some(children) = r.resolution_graph.get(scope).children() {
                        proof {
                            assert(r.resolution_graph.node_ok(scope.0 as int));
                        }
                        let children = copy_indices(children);
                        let mut k: usize = 0;
                        while k < children.len()
                            invariant
                                r.inv(),
                                start.inv(),
                                start.keeps(*r),
                                start == *old(r),
                                k <= children@.len(),
                                ctx.wf(r.resolution_graph),
                                all_below(children@, r.resolution_graph.len()),
                                all_below(from_globs@, r.resolution_graph.len()),
                                self.visited_ok(r.resolution_graph.len()),
                                visited0.is_prefix_of(self.visited_glob_scopes@),
                                paths_only ==> all_continue(r.resolution_graph, from_globs@, false),
                                uses_silent(start.resolution_graph, start.vis_solver, ctx.dest.0 as int, scope.0 as int,
                                    ident.inner@) ==> *r == start && from_globs@.len() == 0
                                    && start.resolution_graph.node(scope.0 as int).spec_children() is Some
                                    && children@ == start.resolution_graph.node(scope.0 as int).spec_children().unwrap(),
                                sg == start.resolution_graph,
                                ss == start.vis_solver,
                                d == ctx.dest.0 as int,
                                id == ident.inner@,
                                wg == scope_globs(sg, ss, d, id, paths_only, true, cs_all, 0, v0),
                                r2.pending() == start.pending() ==> r2 == start && cs_all == children@,
                                r2.pending() <= start.pending(),
                                r.pending() <= r2.pending(),
                                r.pending() == start.pending() ==> *r == start && (from_globs@ + scope_globs(sg, ss, d,
                                    id, paths_only, true, cs_all, k as int, self.visited_glob_scopes@).0, scope_globs(sg,
                                    ss, d, id, paths_only, true, cs_all, k as int, self.visited_glob_scopes@).1) == wg,
                            decreases children@.len() - k,
                        {
                            let c = children[k];
                            proof {
                                if uses_silent(start.resolution_graph, start.vis_solver, ctx.dest.0 as int,
                                    scope.0 as int, ident.inner@) {
                                    assert(children@[k as int] == c);
                                }
                            }
                            let ghost vk = self.visited_glob_scopes@;
                            let ghost fk = from_globs@;
                            if r.resolution_graph.get(c).is_use() {
                                let ghost mid = *r;
                                let ghost vmid = self.visited_glob_scopes@;
                                proof {
                                    lemma_distinct_indices_bounded(self.visited_glob_scopes@, r.resolution_graph.len());
                                    if uses_silent(start.resolution_graph, start.vis_solver, ctx.dest.0 as int,
                                        scope.0 as int, ident.inner@) {
                                        assert(start.resolution_graph.kind_of(children@[k as int].0 as int)
                                            == NodeKind::Use);
                                    }
                                }
                                let mut m = self.matching_from_use(r, ctx, c, ident, paths_only, true);
                                let ghost before_globs = from_globs@;
                                let ghost mv = m@;
                                proof {
                                    if paths_only {
                                        lemma_all_continue_grows(mid.resolution_graph, r.resolution_graph, before_globs,
                                            false);
                                        lemma_all_continue_add(r.resolution_graph, before_globs, mv, false);
                                    }
                                }
                                from_globs.append(&mut m);
                                assert(from_globs@ == before_globs + mv);
                                proof {
                                    lemma_keeps_trans(start, mid, *r);
                                    lemma_prefix_trans(visited0, vmid, self.visited_glob_scopes@);
                                    if r.pending() == start.pending() {
                                        assert(mid.pending() == start.pending());
                                        assert(*r == mid);
                                        assert(r2.pending() == start.pending());
                                        assert(cs_all[k as int] == c);
                                        lemma_distinct_indices_bounded(self.visited_glob_scopes@, sg.len());
                                        let rest = scope_globs(sg, ss, d, id, paths_only, true, cs_all, k + 1,
                                            self.visited_glob_scopes@);
                                        assert(scope_globs(sg, ss, d, id, paths_only, true, cs_all, k as int, vk) == (mv
                                            + rest.0, rest.1));
                                        assert(from_globs@ + rest.0 =~= fk + (mv + rest.0));
                                    }
                                }
                            } else {
                                proof {
                                    if r.pending() == start.pending() {
                                        assert(r2.pending() == start.pending());
                                        assert(cs_all[k as int] == c);
                                    }
                                }
                            }
                            k = k + 1;
                        }
                    }
                    proof {
                        lemma_chosen_candidates(r.resolution_graph, r.vis_solver, place_of(*ctx), *ident, paths_only,
                            false, Seq::empty(), Seq::empty(), from_globs@);
                        if r.pending() == start.pending() {
                            if sg.node(scope.0 as int).spec_children() is Some {
                                let fin = scope_globs(sg, ss, d, id, paths_only, true, cs_all, cs_all.len() as int,
                                    self.visited_glob_scopes@);
                                assert(from_globs@ + fin.0 =~= from_globs@);
                            }
                            assert(from_globs@ == wg.0);
                            assert(self.visited_glob_scopes@ == wg.1);
                        }
                    }
                    find_children_from_globs(&r.resolution_graph, &r.vis_solver, ctx, ident, paths_only, from_globs)
                } else {
                    let previous = if ctx.previous_idents.len() == 0 {
                        None
                    } else {
                        Some(&ctx.previous_idents[ctx.previous_idents.len() - 1])
                    };
                    Err(unresolved_item(ctx.file, previous, ident, ItemHint::ExternalNamedScope, Vec::new()))
                }
            },
        }
    }

    /// What the `use` item at `use_index` brings into scope under `ident`, as
    /// seen from `ctx.dest`: through its globs when `glob_only`, else through
    /// its names and renames. The item is traced first if it was not yet.
    fn matching_from_use(
        &mut self,
        r: &mut UseResolver,
        ctx: &TracingContext,
        use_index: ResolutionIndex,
        ident: &Ident,
        paths_only: bool,
        glob_only: bool,
    ) -> (res: Vec<ResolutionIndex>)
        requires
            old(r).inv(),
            ctx.wf(old(r).resolution_graph),
            use_index.0 < old(r).resolution_graph.len(),
            old(r).resolution_graph.kind_of(use_index.0 as int) == NodeKind::Use,
            old(self).visited_ok(old(r).resolution_graph.len()),
        ensures
            final(r).inv(),
            old(r).keeps(*final(r)),
            final(r).pending() == old(r).pending() ==> *final(r) == *old(r),
            final(self).visited_ok(final(r).resolution_graph.len()),
            old(self).visited_glob_scopes@.is_prefix_of(final(self).visited_glob_scopes@),
            all_below(res@, final(r).resolution_graph.len()),
            !old(r).vis_solver.spec_visible(ctx.dest.0 as int, use_index.0 as int)
                || !use_might_match(use_tree_of(old(r).resolution_graph.node(use_index.0 as int)).unwrap(), ident.inner@)
                ==> res@.len() == 0 && *final(r) == *old(r),
            old(r).vis_solver.spec_visible(ctx.dest.0 as int, use_index.0 as int)
                && use_might_match(use_tree_of(old(r).resolution_graph.node(use_index.0 as int)).unwrap(), ident.inner@)
                ==> final(r).resolved_uses@[use_index.0 as int] && (!glob_only ==> res@ == imports_named(
                    final(r).resolution_graph,
                    final(r).resolution_graph.node(use_index.0 as int).spec_children().unwrap(),
                    ident.inner@,
                    paths_only,
                    false,
                    final(r).resolution_graph.node(use_index.0 as int).spec_children().unwrap().len() as int,
                )),
            paths_only ==> all_continue(final(r).resolution_graph, res@, false),
            glob_only && old(r).vis_solver.spec_visible(ctx.dest.0 as int, use_index.0 as int) && use_might_match(
                use_tree_of(old(r).resolution_graph.node(use_index.0 as int)).unwrap(),
                ident.inner@,
            ) && all_globs_visited(
                final(r).resolution_graph,
                final(r).resolution_graph.node(use_index.0 as int).spec_children().unwrap(),
                old(self).visited_glob_scopes@,
            ) ==> res@.len() == 0 && final(self).visited_glob_scopes@ == old(self).visited_glob_scopes@,
            !glob_only ==> final(self).visited_glob_scopes@ == old(self).visited_glob_scopes@,
            !glob_only && final(r).pending() == old(r).pending() ==> res@ == named_imports(old(r).resolution_graph,
                old(r).vis_solver, ctx.dest.0 as int, ident.inner@, paths_only, true, use_index),
            glob_only && final(r).pending() == old(r).pending() ==> (res@, final(self).visited_glob_scopes@)
                == glob_use(old(r).resolution_graph, old(r).vis_solver, ctx.dest.0 as int, ident.inner@, paths_only,
                true, use_index, old(self).visited_glob_scopes@),
        decreases old(r).pending(), 0int, old(r).resolution_graph.len() - old(self).visited_glob_scopes@.len(), 0int,
    {
        let ghost start = *r;
        let ghost visited0 = self.visited_glob_scopes@;
        proof {
            lemma_keeps_refl(*r);
            assert(visited0.subrange(0, visited0.len() as int) =~= visited0);
        }
        if !r.vis_solver.is_target_visible(ctx.dest, use_index) {
            return Vec::new();
        }
        let might_match = match r.resolution_graph.get(use_index) {
            ResolutionNode::Branch { branch: Branch::Use(item_use), .. } => tree_might_match(&item_use.tree, ident),
            _ => false,
        };
        if !might_match {
            return Vec::new();
        }
        if !r.resolved_uses[use_index.0] {
            let mut rebuilt_ctx = TracingContext::new(&r.resolution_graph, use_index, None);
            proof {
                lemma_pending_positive(r.resolution_graph, r.resolved_uses@, use_index.0 as int,
                    r.resolution_graph.len() as int);
            }
            r.trace_use_entry_reenterable(&mut rebuilt_ctx);
        }
        proof {
            lemma_node_grows(start.resolution_graph.inner@[use_index.0 as int],
                r.resolution_graph.inner@[use_index.0 as int]);
            assert(r.resolution_graph.node_ok(use_index.0 as int));
        }
        let use_children = copy_indices(r.resolution_graph.get(use_index).children().unwrap());
        if glob_only {
            let mut matches: Vec<ResolutionIndex> = Vec::new();
            let ghost entered = *r;
            let ghost d = ctx.dest.0 as int;
            let ghost id = ident.inner@;
            let ghost sg = start.resolution_graph;
            let ghost ss = start.vis_solver;
            let ghost whole = glob_leaves(sg, ss, d, id, paths_only, true, use_children@, 0, visited0);
            proof {
                assert(matches@ + whole.0 =~= whole.0);
            }
            let mut i: usize = 0;
            while i < use_children.len()
                invariant
                    r.inv(),
                    start.inv(),
                    start.keeps(*r),
                    start == *old(r),
                    r.pending() == start.pending() ==> *r == start,
                    i <= use_children@.len(),
                    ctx.wf(r.resolution_graph),
                    all_below(use_children@, r.resolution_graph.len()),
                    all_below(matches@, r.resolution_graph.len()),
                    self.visited_ok(r.resolution_graph.len()),
                    visited0.is_prefix_of(self.visited_glob_scopes@),
                    visited0 == old(self).visited_glob_scopes@,
                    use_index.0 < r.resolved_uses@.len(),
                    r.resolved_uses@[use_index.0 as int],
                    use_children@ == entered.resolution_graph.node(use_index.0 as int).spec_children().unwrap(),
                    entered.inv(),
                    entered.keeps(*r),
                    all_below(use_children@, entered.resolution_graph.len()),
                    paths_only ==> all_continue(r.resolution_graph, matches@, false),
                    all_globs_visited(entered.resolution_graph, use_children@, visited0) ==> *r == entered
                        && matches@.len() == 0 && self.visited_glob_scopes@ == visited0,
                    d == ctx.dest.0 as int,
                    id == ident.inner@,
                    sg == start.resolution_graph,
                    ss == start.vis_solver,
                    whole == glob_leaves(sg, ss, d, id, paths_only, true, use_children@, 0, visited0),
                    r.pending() == start.pending() ==> (matches@ + glob_leaves(sg, ss, d, id, paths_only, true,
                        use_children@, i as int, self.visited_glob_scopes@).0, glob_leaves(sg, ss, d, id, paths_only,
                        true, use_children@, i as int, self.visited_glob_scopes@).1) == whole,
                decreases use_children@.len() - i,
            {
                let child = use_children[i];
                let ghost v_in = self.visited_glob_scopes@;
                let ghost m_in = matches@;
                let ghost r_in = *r;
                proof {
                    assert(r.resolution_graph.node_ok(child.0 as int));
                }
                let glob = match r.resolution_graph.get(child) {
                    ResolutionNode::Leaf { leaf: Leaf::UseGlob(_, glob), .. } => Some(*glob),
                    _ => None,
                };
                if let Some(glob) = glob {
                    if !contains_index(&self.visited_glob_scopes, glob) {
                        let ghost vbefore = self.visited_glob_scopes@;
                        self.visited_glob_scopes.push(glob);
                        proof {
                            assert(self.visited_glob_scopes@.no_duplicates()) by {
                                assert forall|a: int, b: int| 0 <= a < b < self.visited_glob_scopes@.len()
                                    implies self.visited_glob_scopes@[a] != self.visited_glob_scopes@[b] by {
                                    if b == vbefore.len() {
                                        assert(vbefore.contains(vbefore[a]));
                                    } else {
                                        assert(vbefore[a] != vbefore[b]);
                                    }
                                }
                            }
                            assert(visited0.is_prefix_of(self.visited_glob_scopes@)) by {
                                assert forall|k: int| 0 <= k < visited0.len() implies visited0[k]
                                    == self.visited_glob_scopes@[k] by {
                                    assert(visited0[k] == vbefore[k]);
                                }
                            }
                            assert(all_below(self.visited_glob_scopes@, r.resolution_graph.len())) by {
                                assert forall|k: int| 0 <= k < self.visited_glob_scopes@.len() implies
                                    (#[trigger] self.visited_glob_scopes@[k]).0 < r.resolution_graph.len() by {
                                    if k < vbefore.len() {
                                        assert(vbefore[k] == self.visited_glob_scopes@[k]);
                                    }
                                }
                            }
                            lemma_distinct_indices_bounded(self.visited_glob_scopes@, r.resolution_graph.len());
                            assert(vbefore.len() < r.resolution_graph.len());
                            assert(!vbefore.contains(glob));
                        }
                        if let Some(src_children) = r.resolution_graph.get(glob).children() {
                            proof {
                                assert(r.resolution_graph.node_ok(glob.0 as int));
                            }
                            let src_children = copy_indices(src_children);
                            let ghost vp = self.visited_glob_scopes@;
                            proof {
                                assert(vp.subrange(0, vp.len() as int) =~= vp);
                            }
                            let ghost wsrc = glob_src(sg, ss, d, id, paths_only, true, src_children@, 0, vp);
                            let mut named = named_children_in(&r.resolution_graph, &src_children, ident, paths_only, false);
                            let ghost before_named = matches@;
                            let ghost nv = named@;
                            matches.append(&mut named);
                            let ghost base = matches@;
                            proof {
                                assert(matches@ == before_named + nv);
                                if paths_only {
                                    lemma_all_continue_add(r.resolution_graph, before_named, nv, false);
                                }
                            }
                            let mut j: usize = 0;
                            while j < src_children.len()
                                invariant
                                    r.inv(),
                                    start.inv(),
                                    start.keeps(*r),
                                    start == *old(r),
                                    r.pending() == start.pending() ==> *r == start,
                                    j <= src_children@.len(),
                                    ctx.wf(r.resolution_graph),
                                    all_below(src_children@, r.resolution_graph.len()),
                                    all_below(use_children@, r.resolution_graph.len()),
                                    all_below(matches@, r.resolution_graph.len()),
                                    self.visited_ok(r.resolution_graph.len()),
                                    visited0.is_prefix_of(self.visited_glob_scopes@),
                                    visited0 == old(self).visited_glob_scopes@,
                                    self.visited_glob_scopes@.len() > visited0.len(),
                                    entered.inv(),
                                    entered.keeps(*r),
                                    paths_only ==> all_continue(r.resolution_graph, matches@, false),
                                    use_index.0 < r.resolved_uses@.len(),
                                    r.resolved_uses@[use_index.0 as int],
                                    d == ctx.dest.0 as int,
                                    id == ident.inner@,
                                    sg == start.resolution_graph,
                                    ss == start.vis_solver,
                                    r.pending() <= r_in.pending(),
                                    r_in.pending() <= start.pending(),
                                    vp.is_prefix_of(self.visited_glob_scopes@),
                                    wsrc == glob_src(sg, ss, d, id, paths_only, true, src_children@, 0, vp),
                                    r.pending() == start.pending() ==> (matches@ + glob_src(sg, ss, d, id, paths_only,
                                        true, src_children@, j as int, self.visited_glob_scopes@).0, glob_src(sg, ss, d,
                                        id, paths_only, true, src_children@, j as int, self.visited_glob_scopes@).1)
                                        == (base + wsrc.0, wsrc.1),
                                decreases src_children@.len() - j,
                            {
                                let c = src_children[j];
                                let ghost vj = self.visited_glob_scopes@;
                                let ghost mj = matches@;
                                let ghost rj = *r;
                                if r.resolution_graph.get(c).is_use() {
                                    let ghost mid = *r;
                                    let ghost vmid = self.visited_glob_scopes@;
                                    proof {
                                        lemma_distinct_indices_bounded(self.visited_glob_scopes@, r.resolution_graph.len());
                                    }
                                    let mut a = self.matching_from_use(r, ctx, c, ident, paths_only, true);
                                    let ghost before_a = matches@;
                                    let ghost av = a@;
                                    proof {
                                        if paths_only {
                                            lemma_all_continue_grows(mid.resolution_graph, r.resolution_graph, before_a,
                                                false);
                                            lemma_all_continue_add(r.resolution_graph, before_a, av, false);
                                        }
                                    }
                                    matches.append(&mut a);
                                    assert(matches@ == before_a + av);
                                    proof {
                                        lemma_keeps_trans(start, mid, *r);
                                        lemma_keeps_trans(entered, mid, *r);
                                        lemma_prefix_trans(visited0, vmid, self.visited_glob_scopes@);
                                        lemma_prefix_trans(vp, vmid, self.visited_glob_scopes@);
                                        lemma_node_grows(mid.resolution_graph.inner@[c.0 as int],
                                            r.resolution_graph.inner@[c.0 as int]);
                                    }
                                    let ghost mid2 = *r;
                                    let ghost vmid2 = self.visited_glob_scopes@;
                                    proof {
                                        lemma_distinct_indices_bounded(self.visited_glob_scopes@, r.resolution_graph.len());
                                    }
                                    let ghost v1 = self.visited_glob_scopes@;
                                    let mut b = self.matching_from_use(r, ctx, c, ident, paths_only, false);
                                    let ghost before_b = matches@;
                                    let ghost bv = b@;
                                    proof {
                                        if paths_only {
                                            lemma_all_continue_grows(mid2.resolution_graph, r.resolution_graph, before_b,
                                                false);
                                            lemma_all_continue_add(r.resolution_graph, before_b, bv, false);
                                        }
                                    }
                                    matches.append(&mut b);
                                    assert(matches@ == before_b + bv);
                                    proof {
                                        lemma_keeps_trans(start, mid2, *r);
                                        lemma_keeps_trans(entered, mid2, *r);
                                        lemma_prefix_trans(visited0, vmid2, self.visited_glob_scopes@);
                                        lemma_prefix_trans(vp, vmid2, self.visited_glob_scopes@);
                                        if r.pending() == start.pending() {
                                            assert(mid2.pending() == start.pending());
                                            assert(mid.pending() == start.pending());
                                            assert(rj == start);
                                            lemma_prefix_trans(vj, vmid, v1);
                                            lemma_distinct_indices_bounded(v1, sg.len());
                                            let rest = glob_src(sg, ss, d, id, paths_only, true, src_children@, j + 1,
                                                v1);
                                            assert(glob_src(sg, ss, d, id, paths_only, true, src_children@, j as int,
                                                vj) == (av + bv + rest.0, rest.1));
                                            assert(matches@ + rest.0 =~= mj + (av + bv + rest.0));
                                        }
                                    }
                                }
                                j = j + 1;
                            }
                            proof {
                                if r.pending() == start.pending() {
                                    let fin = glob_src(sg, ss, d, id, paths_only, true, src_children@, j as int,
                                        self.visited_glob_scopes@);
                                    assert(matches@ + fin.0 =~= matches@);
                                    assert(vp == vbefore.push(glob));
                                    assert(glob_scope(sg, ss, d, id, paths_only, true, glob, vp) == (nv + wsrc.0,
                                        wsrc.1));
                                    assert(matches@ =~= m_in + (nv + wsrc.0));
                                }
                            }
                        } else {
                            proof {
                                assert(matches@ =~= m_in + Seq::<ResolutionIndex>::empty());
                            }
                        }
                        proof {
                            if r.pending() == start.pending() {
                                assert(r_in == start);
                                assert(vbefore == v_in);
                                assert(sg.node(use_children@[i as int].0 as int) matches ResolutionNode::Leaf {
                                    leaf: Leaf::UseGlob(_, gg),
                                    ..
                                } && gg == glob);
                                let first = glob_scope(sg, ss, d, id, paths_only, true, glob, vbefore.push(glob));
                                assert(self.visited_glob_scopes@ == first.1);
                                assert(matches@ == m_in + first.0);
                                lemma_distinct_indices_bounded(self.visited_glob_scopes@, sg.len());
                                let rest = glob_leaves(sg, ss, d, id, paths_only, true, use_children@, i + 1, first.1);
                                assert(glob_leaves(sg, ss, d, id, paths_only, true, use_children@, i as int, v_in)
                                    == (first.0 + rest.0, rest.1));
                                assert(matches@ + rest.0 =~= m_in + (first.0 + rest.0));
                            }
                        }
                    } else {
                        proof {
                            assert(v_in.contains(glob));
                            assert(matches@ + Seq::<ResolutionIndex>::empty() =~= matches@);
                        }
                    }
                } else {
                    proof {
                        assert(matches@ + Seq::<ResolutionIndex>::empty() =~= matches@);
                    }
                }
                i = i + 1;
            }
            proof {
                assert(matches@ + Seq::<ResolutionIndex>::empty() =~= matches@);
                let fg = r.resolution_graph;
                let eg = entered.resolution_graph;
                let u = use_index.0 as int;
                if all_globs_visited(fg, fg.node(u).spec_children().unwrap(), visited0) {
                    lemma_node_grows(eg.inner@[u], fg.inner@[u]);
                    assert forall|k: int| 0 <= k < use_children@.len() implies match #[trigger] eg.node(
                        use_children@[k].0 as int,
                    ) {
                        ResolutionNode::Leaf { leaf: Leaf::UseGlob(_, glob), .. } => visited0.contains(glob),
                        _ => true,
                    } by {
                        let c = use_children@[k].0 as int;
                        assert(fg.node(u).spec_children().unwrap()[k] == use_children@[k]);
                        lemma_node_grows(eg.inner@[c], fg.inner@[c]);
                        assert(match fg.node(fg.node(u).spec_children().unwrap()[k].0 as int) {
                            ResolutionNode::Leaf { leaf: Leaf::UseGlob(_, glob), .. } => visited0.contains(glob),
                            _ => true,
                        });
                    }
                }
            }
            matches
        } else {
            imports_named_in(&r.resolution_graph, &use_children, ident, paths_only, false)
        }
    }
}

pub proof fn lemma_prefix_trans<A>(a: Seq<A>, b: Seq<A>, c: Seq<A>)
    requires
        a.is_prefix_of(b),
        b.is_prefix_of(c),
    ensures
        a.is_prefix_of(c),
{
    assert forall|k: int| 0 <= k < a.len() implies a[k] == c[k] by {
        assert(a[k] == b[k]);
    }
}

} // verus!
