//! Looking up the paths of types and traits once every `use` item has been
//! traced: the graph is only read.

use vstd::prelude::*;

use crate::ast::{Ident, Span, TypePath};
use crate::find_file::FileId;
use crate::error::{unresolved_item, Diagnostic, DiagnosticView, ItemHint};
use super::graph::{is_valid_pub_path_segment_kind, is_trait_or_impl_or_arch_kind, Leaf, NodeKind, ResolutionGraph,
    ResolutionIndex, ResolutionNode};
use super::path::{
    find_children_from_globs, find_children_from_local_and_global, handle_special_ident, local_and_global_result,
    globs_result, lemma_ancestor_index_before, root_of, special_ident_result, TracingContext,
};
use super::uses::{
    all_below, all_continue, contains_index, global_candidates, global_matches, imports_named, imports_named_in,
    lemma_all_continue_add, lemma_chosen_candidates, lemma_distinct_indices_bounded, named_children_in, named_matches,
    use_might_match, use_tree_of, visible_and_continuing,
};
use super::visibility::{is_ancestor, VisibilitySolver};

verus! {

/// `node` itself if a type path can name it (a module or a root), else its
/// nearest such ancestor.
pub open spec fn type_scope_of(g: ResolutionGraph, node: int) -> int
    decreases node,
{
    if 0 <= node < g.len() && !is_valid_pub_path_segment_kind(g.kind_of(node)) {
        match g.node(node).spec_parent() {
            Some(p) => if p.0 < node { type_scope_of(g, p.0 as int) } else { node },
            None => node,
        }
    } else {
        node
    }
}

/// The scope a type path not starting with `Self` is looked up in is the
/// nearest module or root at or above the node it is written in: that node
/// or one of its ancestors, a module or root (or a node with no parent), with
/// no module or root between them.
pub proof fn lemma_type_scope_is_nearest_module(g: ResolutionGraph, node: int)
    requires
        g.wf(),
        0 <= node < g.len(),
    ensures
        type_scope_of(g, node) == node || is_ancestor(g, type_scope_of(g, node), node),
        is_valid_pub_path_segment_kind(g.kind_of(type_scope_of(g, node)))
            || g.node(type_scope_of(g, node)).spec_parent() is None,
        forall|a: int| (a == node || is_ancestor(g, a, node)) && #[trigger] is_ancestor(g, type_scope_of(g, node), a)
            ==> !is_valid_pub_path_segment_kind(g.kind_of(a)),
    decreases node,
{
    assert(g.node_ok(node));
    let m = type_scope_of(g, node);
    if is_valid_pub_path_segment_kind(g.kind_of(node)) || g.node(node).spec_parent() is None {
        assert forall|a: int| (a == node || is_ancestor(g, a, node)) && #[trigger] is_ancestor(g, m, a)
            implies !is_valid_pub_path_segment_kind(g.kind_of(a)) by {
            if a == node {
                lemma_ancestor_index_before(g, m, a);
            } else {
                lemma_ancestor_index_before(g, a, node);
                lemma_ancestor_index_before(g, m, a);
            }
        }
    } else {
        let p = g.node(node).spec_parent().unwrap();
        lemma_type_scope_is_nearest_module(g, p.0 as int);
        assert forall|a: int| (a == node || is_ancestor(g, a, node)) && #[trigger] is_ancestor(g, m, a)
            implies !is_valid_pub_path_segment_kind(g.kind_of(a)) by {
            if a != node {
                assert(a == p.0 || is_ancestor(g, a, p.0 as int));
            }
        }
    }
}

/// The scope a path written at `dest` that starts with `Self` is looked up
/// in: the trait, `impl` or `arch` around `dest` if it is directly in one,
/// else `dest`.
pub open spec fn self_scope_of(g: ResolutionGraph, dest: int) -> int {
    match g.node(dest).spec_parent() {
        Some(p) => if is_trait_or_impl_or_arch_kind(g.kind_of(p.0 as int)) { p.0 as int } else { dest },
        None => dest,
    }
}

/// The scopes a type path written at `dest` starts from.
pub open spec fn start_scopes(g: ResolutionGraph, dest: int, path: TypePath) -> Seq<ResolutionIndex> {
    if path.segments@.len() > 0 && path.segments@[0].ident.inner@ == "Self"@ {
        seq![ResolutionIndex(self_scope_of(g, dest) as usize)]
    } else if g.kind_of(dest) == NodeKind::Fn {
        seq![ResolutionIndex(dest as usize), ResolutionIndex(type_scope_of(g, dest) as usize)]
    } else {
        seq![ResolutionIndex(type_scope_of(g, dest) as usize)]
    }
}

/// What the `use` items among the first `n` of `cs` import under `ident`
/// by name or rename, as seen from `dest`; a `use` item not visible there
/// imports nothing.
pub open spec fn use_imports(
    g: ResolutionGraph,
    solver: VisibilitySolver,
    dest: int,
    cs: Seq<ResolutionIndex>,
    ident: Seq<char>,
    paths_only: bool,
    n: int,
) -> Seq<ResolutionIndex>
    decreases n,
{
    if n <= 0 || n > cs.len() {
        Seq::empty()
    } else {
        let c = cs[n - 1].0 as int;
        use_imports(g, solver, dest, cs, ident, paths_only, n - 1) + if g.kind_of(c) == NodeKind::Use
            && solver.spec_visible(dest, c) {
            let uc = g.node(c).spec_children().unwrap();
            imports_named(g, uc, ident, paths_only, true, uc.len() as int)
        } else {
            Seq::empty()
        }
    }
}

/// Where a path is being looked up, as values: the file and root of the
/// scope it is written in, that scope, the segments already followed and
/// its leading `::`.
pub struct LookupPlace {
    pub file: FileId,
    pub root: ResolutionIndex,
    pub dest: ResolutionIndex,
    pub previous: Seq<Ident>,
    pub leading_sep: Option<Span>,
}

pub open spec fn place_of(ctx: TracingContext) -> LookupPlace {
    LookupPlace {
        file: ctx.file,
        root: ctx.root,
        dest: ctx.dest,
        previous: ctx.previous_idents@,
        leading_sep: ctx.leading_sep,
    }
}

/// The candidates for `ident` in `scope` itself: its children of that name,
/// then what its `use` items import under it; none for the first segment of
/// a global path.
pub open spec fn local_candidates(
    g: ResolutionGraph,
    solver: VisibilitySolver,
    at: LookupPlace,
    scope: int,
    ident: Seq<char>,
    paths_only: bool,
) -> Seq<ResolutionIndex> {
    if (at.previous.len() != 0 || at.leading_sep.is_none()) && g.node(scope).spec_children() is Some {
        let cs = g.node(scope).spec_children().unwrap();
        named_matches(g, cs, ident, paths_only, true) + use_imports(
            g,
            solver,
            at.dest.0 as int,
            cs,
            ident,
            paths_only,
            cs.len() as int,
        )
    } else {
        Seq::empty()
    }
}

/// The crate roots that the first segment of a path may name.
pub open spec fn global_candidates_for(g: ResolutionGraph, at: LookupPlace, paths_only: bool) -> Seq<
    ResolutionIndex,
> {
    if at.previous.len() == 0 {
        global_matches(g, at.root, paths_only, true)
    } else {
        Seq::empty()
    }
}

/// None of `cs` is a glob import.
pub open spec fn glob_free(g: ResolutionGraph, cs: Seq<ResolutionIndex>) -> bool {
    forall|k: int| 0 <= k < cs.len() ==> g.kind_of((#[trigger] cs[k]).0 as int) != NodeKind::UseGlob
}

/// No `use` item directly in `scope` imports with a glob.
pub open spec fn scope_glob_free(g: ResolutionGraph, scope: int) -> bool {
    match g.node(scope).spec_children() {
        None => true,
        Some(cs) => forall|k: int|
            0 <= k < cs.len() && g.kind_of((#[trigger] cs[k]).0 as int) == NodeKind::Use ==> glob_free(
                g,
                g.node(cs[k].0 as int).spec_children().unwrap(),
            ),
    }
}

/// Searching glob imports for `ident`, as seen from `dest`, with the glob
/// scopes in `visited` already searched: what the globs of the `use` item
/// `u` bring in (nothing when `u` is hidden from `dest`, or, for a lookup on
/// a `use` path, when its tree cannot bring `ident` in), and the scopes
/// searched afterwards. Lookups on `use` paths continue through enums too
/// (`for_uses`); type paths only through modules and roots.
pub open spec fn glob_use(
    g: ResolutionGraph,
    solver: VisibilitySolver,
    dest: int,
    ident: Seq<char>,
    paths_only: bool,
    for_uses: bool,
    u: ResolutionIndex,
    visited: Seq<ResolutionIndex>,
) -> (Seq<ResolutionIndex>, Seq<ResolutionIndex>)
    decreases g.len() - visited.len(), 2int, 0int,
{
    if !solver.spec_visible(dest, u.0 as int) || !(g.node(u.0 as int).spec_children() is Some) || (for_uses
        && !use_might_match(use_tree_of(g.node(u.0 as int)).unwrap(), ident)) {
        (Seq::empty(), visited)
    } else {
        let cs = g.node(u.0 as int).spec_children().unwrap();
        glob_leaves(g, solver, dest, ident, paths_only, for_uses, cs, 0, visited)
    }
}

/// The glob leaves among `cs`, from the `i`th on, each searching its scope
/// unless that scope was searched already.
pub open spec fn glob_leaves(
    g: ResolutionGraph,
    solver: VisibilitySolver,
    dest: int,
    ident: Seq<char>,
    paths_only: bool,
    for_uses: bool,
    cs: Seq<ResolutionIndex>,
    i: int,
    visited: Seq<ResolutionIndex>,
) -> (Seq<ResolutionIndex>, Seq<ResolutionIndex>)
    decreases g.len() - visited.len(), 1int, cs.len() - i,
{
    if i < 0 || i >= cs.len() {
        (Seq::empty(), visited)
    } else {
        let first = match g.node(cs[i].0 as int) {
            ResolutionNode::Leaf { leaf: Leaf::UseGlob(_, glob), .. } => if !visited.contains(glob) && visited.len()
                < g.len() {
                glob_scope(g, solver, dest, ident, paths_only, for_uses, glob, visited.push(glob))
            } else {
                (Seq::empty(), visited)
            },
            _ => (Seq::empty(), visited),
        };
        if visited.len() <= first.1.len() <= g.len() {
            let rest = glob_leaves(g, solver, dest, ident, paths_only, for_uses, cs, i + 1, first.1);
            (first.0 + rest.0, rest.1)
        } else {
            first
        }
    }
}

/// What a glob scope brings in under `ident`: its children of that name,
/// then what its `use` items bring in through their globs and their names.
pub open spec fn glob_scope(
    g: ResolutionGraph,
    solver: VisibilitySolver,
    dest: int,
    ident: Seq<char>,
    paths_only: bool,
    for_uses: bool,
    scope: ResolutionIndex,
    visited: Seq<ResolutionIndex>,
) -> (Seq<ResolutionIndex>, Seq<ResolutionIndex>)
    decreases g.len() - visited.len(), 4int, 0int,
{
    match g.node(scope.0 as int).spec_children() {
        None => (Seq::empty(), visited),
        Some(src) => {
            let r = glob_src(g, solver, dest, ident, paths_only, for_uses, src, 0, visited);
            (named_matches(g, src, ident, paths_only, !for_uses) + r.0, r.1)
        },
    }
}

/// What the `use` items among the children `src` of a glob scope, from the
/// `j`th on, bring in: through their globs, then through their names.
pub open spec fn glob_src(
    g: ResolutionGraph,
    solver: VisibilitySolver,
    dest: int,
    ident: Seq<char>,
    paths_only: bool,
    for_uses: bool,
    src: Seq<ResolutionIndex>,
    j: int,
    visited: Seq<ResolutionIndex>,
) -> (Seq<ResolutionIndex>, Seq<ResolutionIndex>)
    decreases g.len() - visited.len(), 3int, src.len() - j,
{
    if j < 0 || j >= src.len() {
        (Seq::empty(), visited)
    } else if g.kind_of(src[j].0 as int) == NodeKind::Use {
        let a = glob_use(g, solver, dest, ident, paths_only, for_uses, src[j], visited);
        if visited.len() <= a.1.len() <= g.len() {
            let rest = glob_src(g, solver, dest, ident, paths_only, for_uses, src, j + 1, a.1);
            (a.0 + named_imports(g, solver, dest, ident, paths_only, for_uses, src[j]) + rest.0, rest.1)
        } else {
            a
        }
    } else {
        glob_src(g, solver, dest, ident, paths_only, for_uses, src, j + 1, visited)
    }
}

/// What the `use` item `u` imports under `ident` by name or rename, as seen
/// from `dest`.
pub open spec fn named_imports(
    g: ResolutionGraph,
    solver: VisibilitySolver,
    dest: int,
    ident: Seq<char>,
    paths_only: bool,
    for_uses: bool,
    u: ResolutionIndex,
) -> Seq<ResolutionIndex> {
    if solver.spec_visible(dest, u.0 as int) && (!for_uses || use_might_match(use_tree_of(g.node(u.0 as int)).unwrap(),
        ident)) {
        let uc = g.node(u.0 as int).spec_children().unwrap();
        imports_named(g, uc, ident, paths_only, !for_uses, uc.len() as int)
    } else {
        Seq::empty()
    }
}

/// What the `use` items among the children `cs` of a scope, from the `k`th
/// on, bring in through their globs.
pub open spec fn scope_globs(
    g: ResolutionGraph,
    solver: VisibilitySolver,
    dest: int,
    ident: Seq<char>,
    paths_only: bool,
    for_uses: bool,
    cs: Seq<ResolutionIndex>,
    k: int,
    visited: Seq<ResolutionIndex>,
) -> (Seq<ResolutionIndex>, Seq<ResolutionIndex>)
    decreases g.len() - visited.len(), 5int, cs.len() - k,
{
    if k < 0 || k >= cs.len() {
        (Seq::empty(), visited)
    } else if g.kind_of(cs[k].0 as int) == NodeKind::Use {
        let a = glob_use(g, solver, dest, ident, paths_only, for_uses, cs[k], visited);
        if visited.len() <= a.1.len() <= g.len() {
            let rest = scope_globs(g, solver, dest, ident, paths_only, for_uses, cs, k + 1, a.1);
            (a.0 + rest.0, rest.1)
        } else {
            a
        }
    } else {
        scope_globs(g, solver, dest, ident, paths_only, for_uses, cs, k + 1, visited)
    }
}

/// What `ident` names in `scope`, with the glob scopes in `visited` already
/// searched: a special identifier's meaning, the choice among the local and
/// global candidates, or, when there are none, the choice among what the
/// scope's globs bring in (the lookup's failure when that is nothing); and
/// the glob scopes searched afterwards.
pub open spec fn children_lookup(
    g: ResolutionGraph,
    solver: VisibilitySolver,
    at: LookupPlace,
    scope: int,
    ident: Ident,
    paths_only: bool,
    visited: Seq<ResolutionIndex>,
) -> (Result<Seq<ResolutionIndex>, DiagnosticView>, Seq<ResolutionIndex>) {
    match special_ident_result(g, at.file, at.previous, at.leading_sep, scope, ident) {
        Err(d) => (Err(d), visited),
        Ok(Some(c)) => (Ok(seq![c]), visited),
        Ok(None) => match local_and_global_result(
            g,
            solver,
            at.file,
            at.dest.0 as int,
            at.previous,
            at.leading_sep,
            ident,
            paths_only,
            local_candidates(g, solver, at, scope, ident.inner@, paths_only),
            global_candidates_for(g, at, paths_only),
        ) {
            Err(d) => (Err(d), visited),
            Ok(Some(v)) => (Ok(v), visited),
            Ok(None) => {
                let cs = match g.node(scope).spec_children() {
                    Some(cs) => cs,
                    None => Seq::empty(),
                };
                let found = scope_globs(g, solver, at.dest.0 as int, ident.inner@, paths_only, false, cs, 0, visited);
                (globs_result(g, solver, at.file, at.dest.0 as int, at.previous, ident, paths_only, found.0), found.1)
            },
        },
    }
}

/// One segment looked up in each of the first `n` of `scopes` in turn,
/// starting with the glob scopes in `visited` searched: the nodes found,
/// whether any lookup succeeded, the first scope's error, and the glob
/// scopes searched afterwards.
pub open spec fn segment_lookup(
    g: ResolutionGraph,
    solver: VisibilitySolver,
    at: LookupPlace,
    scopes: Seq<ResolutionIndex>,
    ident: Ident,
    paths_only: bool,
    n: int,
    visited: Seq<ResolutionIndex>,
) -> (Seq<ResolutionIndex>, bool, Option<DiagnosticView>, Seq<ResolutionIndex>)
    decreases n,
{
    if n <= 0 || n > scopes.len() {
        (Seq::empty(), false, None, visited)
    } else {
        let before = segment_lookup(g, solver, at, scopes, ident, paths_only, n - 1, visited);
        let here = children_lookup(g, solver, at, scopes[n - 1].0 as int, ident, paths_only, before.3);
        match here.0 {
            Ok(v) => (before.0 + v, true, before.2, here.1),
            Err(e) => (before.0, before.1, if n == 1 { Some(e) } else { before.2 }, here.1),
        }
    }
}

/// A type path looked up from segment `i` on, from `scopes`, with the glob
/// scopes in `visited` searched: each segment (but `Self`) leads to every
/// node it names in any of the scopes reached so far, or fails with the
/// first scope's error when it names none.
pub open spec fn path_lookup_from(
    g: ResolutionGraph,
    solver: VisibilitySolver,
    at: LookupPlace,
    path: TypePath,
    i: int,
    scopes: Seq<ResolutionIndex>,
    visited: Seq<ResolutionIndex>,
) -> Result<Seq<ResolutionIndex>, DiagnosticView>
    decreases path.segments@.len() - i,
{
    if i < 0 || i >= path.segments@.len() {
        Ok(scopes)
    } else {
        let seg = path.segments@[i];
        if seg.ident.inner@ == "Self"@ {
            path_lookup_from(g, solver, at, path, i + 1, scopes, visited)
        } else {
            let paths_only = i + 1 != path.segments@.len();
            let step = segment_lookup(g, solver, at, scopes, seg.ident, paths_only, scopes.len() as int, visited);
            if !step.1 {
                match step.2 {
                    Some(e) => Err(e),
                    None => Ok(step.0),
                }
            } else {
                path_lookup_from(
                    g,
                    solver,
                    LookupPlace { previous: at.previous.push(seg.ident), ..at },
                    path,
                    i + 1,
                    step.0,
                    step.3,
                )
            }
        }
    }
}

/// An optional diagnostic, by view.
pub open spec fn opt_diagnostic_view(o: Option<Diagnostic>) -> Option<DiagnosticView> {
    match o {
        Some(d) => Some(d@),
        None => None,
    }
}

/// A type path written at `dest`, looked up (see `path_lookup_from`) with
/// no glob scope searched yet.
pub open spec fn path_lookup(g: ResolutionGraph, solver: VisibilitySolver, dest: int, path: TypePath) -> Result<
    Seq<ResolutionIndex>,
    DiagnosticView,
> {
    path_lookup_from(
        g,
        solver,
        LookupPlace {
            file: g.spec_file(dest),
            root: ResolutionIndex(root_of(g, dest) as usize),
            dest: ResolutionIndex(dest as usize),
            previous: Seq::empty(),
            leading_sep: path.leading_sep,
        },
        path,
        0,
        start_scopes(g, dest, path),
        Seq::empty(),
    )
}

/// Segments that are all `Self` leave the scopes as they are.
proof fn lemma_self_segments_keep_scopes(
    g: ResolutionGraph,
    solver: VisibilitySolver,
    at: LookupPlace,
    path: TypePath,
    i: int,
    scopes: Seq<ResolutionIndex>,
    visited: Seq<ResolutionIndex>,
)
    requires
        0 <= i,
        forall|k: int| i <= k < path.segments@.len() ==> (#[trigger] path.segments@[k]).ident.inner@ == "Self"@,
    ensures
        path_lookup_from(g, solver, at, path, i, scopes, visited) == Ok::<Seq<ResolutionIndex>, DiagnosticView>(scopes),
    decreases path.segments@.len() - i,
{
    if i < path.segments@.len() {
        assert(path.segments@[i].ident.inner@ == "Self"@);
        lemma_self_segments_keep_scopes(g, solver, at, path, i + 1, scopes, visited);
    }
}

/// `Self` names the trait, `impl` or `arch` directly around the node it is
/// written in, and that node itself anywhere else: a type path made of `Self`
/// alone leads there and nowhere else.
pub proof fn lemma_self_names_enclosing_item(g: ResolutionGraph, solver: VisibilitySolver, dest: int, path: TypePath)
    requires
        0 <= dest < g.len(),
        path.segments@.len() > 0,
        forall|k: int| 0 <= k < path.segments@.len() ==> (#[trigger] path.segments@[k]).ident.inner@ == "Self"@,
    ensures
        g.node(dest).spec_parent() matches Some(p) ==> (is_trait_or_impl_or_arch_kind(g.kind_of(p.0 as int))
            ==> path_lookup(g, solver, dest, path) == Ok::<Seq<ResolutionIndex>, DiagnosticView>(seq![p])),
        !(g.node(dest).spec_parent() matches Some(p) && is_trait_or_impl_or_arch_kind(g.kind_of(p.0 as int)))
            ==> path_lookup(g, solver, dest, path) == Ok::<Seq<ResolutionIndex>, DiagnosticView>(
            seq![ResolutionIndex(dest as usize)]),
{
    assert(path.segments@[0].ident.inner@ == "Self"@);
    let at = LookupPlace {
        file: g.spec_file(dest),
        root: ResolutionIndex(root_of(g, dest) as usize),
        dest: ResolutionIndex(dest as usize),
        previous: Seq::empty(),
        leading_sep: path.leading_sep,
    };
    lemma_self_segments_keep_scopes(g, solver, at, path, 0, start_scopes(g, dest, path), Seq::empty());
}

/// A lookup's outcome, by views.
pub open spec fn lookup_view(r: Result<Vec<ResolutionIndex>, Diagnostic>) -> Result<Seq<ResolutionIndex>, DiagnosticView> {
    match r {
        Ok(v) => Ok(v@),
        Err(e) => Err(e@),
    }
}

pub fn type_scope(g: &ResolutionGraph, node: ResolutionIndex) -> (r: ResolutionIndex)
    requires
        g.wf(),
        node.0 < g.len(),
    ensures
        r.0 == type_scope_of(*g, node.0 as int),
        r.0 < g.len(),
{
    let mut scope = node;
    loop
        invariant
            g.wf(),
            scope.0 < g.len(),
            type_scope_of(*g, node.0 as int) == type_scope_of(*g, scope.0 as int),
        decreases scope.0,
    {
        proof {
            assert(g.node_ok(scope.0 as int));
        }
        if g.get(scope).is_valid_type_path_segment() {
            return scope;
        }
        match g.get(scope).parent() {
            Some(p) => scope = p,
            None => return scope,
        }
    }
}

/// Looks up type and trait paths.
pub struct PathFinder<'a> {
    pub resolution_graph: &'a ResolutionGraph,
    pub vis_solver: &'a VisibilitySolver,
    /// The glob scopes already searched in this lookup.
    pub visited_glob_scopes: Vec<ResolutionIndex>,
}

impl<'a> PathFinder<'a> {
    pub open spec fn inv(&self) -> bool {
        &&& self.resolution_graph.wf()
        &&& self.resolution_graph.roots_have_files()
        &&& self.vis_solver.matches(*self.resolution_graph)
        &&& self.visited_glob_scopes@.no_duplicates()
        &&& all_below(self.visited_glob_scopes@, self.resolution_graph.len())
    }

    pub fn new(resolution_graph: &'a ResolutionGraph, vis_solver: &'a VisibilitySolver) -> (r: PathFinder<'a>)
        requires
            resolution_graph.wf(),
            resolution_graph.roots_have_files(),
            vis_solver.matches(*resolution_graph),
        ensures
            r.inv(),
            r.resolution_graph == resolution_graph,
            r.vis_solver == vis_solver,
    {
        PathFinder { resolution_graph, vis_solver, visited_glob_scopes: Vec::new() }
    }

    /// The nodes a type path leads to from `dest`: every scope reached by
    /// each segment in turn (`Self` segments are skipped), or the first error
    /// when none is reached.
    pub fn find_at_path(&mut self, dest: ResolutionIndex, path: &TypePath) -> (res: Result<Vec<ResolutionIndex>, Diagnostic>)
        requires
            old(self).inv(),
            dest.0 < old(self).resolution_graph.len(),
        ensures
            final(self).inv(),
            final(self).resolution_graph == old(self).resolution_graph,
            final(self).vis_solver == old(self).vis_solver,
            res matches Ok(v) ==> v@.len() > 0 && all_below(v@, old(self).resolution_graph.len()),
            path.segments@.len() == 0 ==> (res matches Ok(v) && v@ == start_scopes(*old(self).resolution_graph,
                dest.0 as int, *path)),
            lookup_view(res) == path_lookup(*old(self).resolution_graph, *old(self).vis_solver, dest.0 as int, *path),
    {
        let g = self.resolution_graph;
        let ghost solver = *self.vis_solver;
        let ghost whole = path_lookup(*g, solver, dest.0 as int, *path);
        self.visited_glob_scopes = Vec::new();
        let mut ctx = TracingContext::new(g, dest, path.leading_sep);
        let mut scopes: Vec<ResolutionIndex> = if path.segments.len() > 0 && path.segments[0].ident.is("Self") {
            proof {
                assert(g.node_ok(dest.0 as int));
            }
            let dest_scope = match g.get(dest).parent() {
                Some(p) => if g.get(p).is_trait_or_impl_or_arch() { p } else { dest },
                None => dest,
            };
            vec![dest_scope]
        } else {
            let dest_scope = type_scope(g, dest);
            if g.get(dest).kind() == NodeKind::Fn {
                vec![dest, dest_scope]
            } else {
                vec![dest_scope]
            }
        };
        assert(scopes@ == start_scopes(*g, dest.0 as int, *path));
        assert(ctx.previous_idents@ =~= Seq::<Ident>::empty());
        assert(ctx.root == ResolutionIndex(root_of(*g, dest.0 as int) as usize));
        assert(place_of(ctx) == LookupPlace {
            file: g.spec_file(dest.0 as int),
            root: ResolutionIndex(root_of(*g, dest.0 as int) as usize),
            dest: ResolutionIndex(dest.0 as usize),
            previous: Seq::empty(),
            leading_sep: path.leading_sep,
        });
        let mut i: usize = 0;
        while i < path.segments.len()
            invariant
                self.inv(),
                self.resolution_graph == g,
                g == old(self).resolution_graph,
                self.vis_solver == old(self).vis_solver,
                solver == *self.vis_solver,
                i <= path.segments@.len(),
                path.segments@.len() == 0 ==> scopes@ == start_scopes(*g, dest.0 as int, *path),
                ctx.wf(*g),
                scopes@.len() > 0,
                all_below(scopes@, g.len()),
                whole == path_lookup(*g, solver, dest.0 as int, *path),
                whole == path_lookup_from(*g, solver, place_of(ctx), *path, i as int, scopes@,
                    self.visited_glob_scopes@),
            decreases path.segments@.len() - i,
        {
            let segment = &path.segments[i];
            if segment.ident.is("Self") {
                i = i + 1;
                continue;
            }
            let paths_only = i + 1 != path.segments.len();
            let mut next: Vec<ResolutionIndex> = Vec::new();
            let mut first_err: Option<Diagnostic> = None;
            let mut any_ok = false;
            let ghost v_seg = self.visited_glob_scopes@;
            let mut j: usize = 0;
            while j < scopes.len()
                invariant
                    self.inv(),
                    self.resolution_graph == g,
                    g == old(self).resolution_graph,
                    self.vis_solver == old(self).vis_solver,
                    solver == *self.vis_solver,
                    j <= scopes@.len(),
                    ctx.wf(*g),
                    scopes@.len() > 0,
                    all_below(scopes@, g.len()),
                    all_below(next@, g.len()),
                    any_ok ==> next@.len() > 0,
                    !any_ok && j > 0 ==> first_err.is_some(),
                    segment_lookup(*g, solver, place_of(ctx), scopes@, segment.ident, paths_only, j as int, v_seg)
                        == (next@, any_ok, opt_diagnostic_view(first_err), self.visited_glob_scopes@),
                decreases scopes@.len() - j,
            {
                let ghost before_next = next@;
                match self.find_children(&ctx, scopes[j], &segment.ident, paths_only) {
                    Ok(mut v) => {
                        let ghost vv = v@;
                        any_ok = true;
                        next.append(&mut v);
                        assert(next@ == before_next + vv);
                    },
                    Err(e) => {
                        if j == 0 {
                            first_err = Some(e);
                        }
                    },
                }
                j = j + 1;
            }
            if !any_ok {
                return Err(first_err.unwrap());
            }
            scopes = next;
            ctx.previous_idents.push(segment.ident.duplicate());
            i = i + 1;
        }
        Ok(scopes)
    }

    /// The nodes `ident` names in `scope`: a special identifier's meaning, or
    /// the visible items of that name found locally, among crate roots or
    /// through globs. `Ok` always holds at least one node.
    #[verifier::rlimit(40)]
    pub fn find_children(&mut self, ctx: &TracingContext, scope: ResolutionIndex, ident: &Ident, paths_only: bool)
        -> (res: Result<Vec<ResolutionIndex>, Diagnostic>)
        requires
            old(self).inv(),
            ctx.wf(*old(self).resolution_graph),
            scope.0 < old(self).resolution_graph.len(),
        ensures
            final(self).inv(),
            final(self).resolution_graph == old(self).resolution_graph,
            final(self).vis_solver == old(self).vis_solver,
            res matches Ok(v) ==> v@.len() > 0 && all_below(v@, old(self).resolution_graph.len()),
            match special_ident_result(*old(self).resolution_graph, ctx.file, ctx.previous_idents@, ctx.leading_sep,
                scope.0 as int, *ident) {
                Err(d) => res matches Err(e) && e@ == d,
                Ok(Some(c)) => res matches Ok(v) && v@ == seq![c],
                Ok(None) => true,
            },
            (lookup_view(res), final(self).visited_glob_scopes@) == children_lookup(*old(self).resolution_graph,
                *old(self).vis_solver, place_of(*ctx), scope.0 as int, *ident, paths_only, old(self).visited_glob_scopes@),
            special_ident_result(*old(self).resolution_graph, ctx.file, ctx.previous_idents@, ctx.leading_sep,
                scope.0 as int, *ident) == Ok::<Option<ResolutionIndex>, DiagnosticView>(None) ==> (res matches Ok(v)
                ==> visible_and_continuing(*old(self).resolution_graph, *old(self).vis_solver, ctx.dest.0 as int, v@,
                paths_only, true)),
    {
        let g = self.resolution_graph;
        let is_entry = ctx.previous_idents.len() == 0;
        match handle_special_ident(g, ctx, scope, ident) {
            Err(e) => {
                return Err(e);
            },
            Ok(Some(child)) => {
                let v = vec![child];
                assert(v@ =~= seq![child]);
                return Ok(v);
            },
            Ok(None) => {},
        }
        proof {
            assert(g.node_ok(scope.0 as int));
        }
        let mut local: Vec<ResolutionIndex> = Vec::new();
        if !is_entry || ctx.leading_sep.is_none() {
            if let Some(children) = g.get(scope).children() {
                local = named_children_in(g, children, ident, paths_only, true);
                let mut k: usize = 0;
                while k < children.len()
                    invariant
                        self.inv(),
                        self.resolution_graph == g,
                        g == old(self).resolution_graph,
                        self.vis_solver == old(self).vis_solver,
                        k <= children@.len(),
                        ctx.wf(*g),
                        all_below(children@, g.len()),
                        all_below(local@, g.len()),
                        children@ == g.node(scope.0 as int).spec_children().unwrap(),
                        local@ == named_matches(*g, children@, ident.inner@, paths_only, true) + use_imports(
                            *g,
                            *self.vis_solver,
                            ctx.dest.0 as int,
                            children@,
                            ident.inner@,
                            paths_only,
                            k as int,
                        ),
                        paths_only ==> all_continue(*g, local@, true),
                        self.visited_glob_scopes@ == old(self).visited_glob_scopes@,
                    decreases children@.len() - k,
                {
                    let c = children[k];
                    let ghost before = local@;
                    proof {
                        assert(g.node_ok(c.0 as int));
                    }
                    if g.get(c).is_use() {
                        let mut m = self.matching_from_use(ctx, c, ident, paths_only, false);
                        let ghost mv = m@;
                        local.append(&mut m);
                        proof {
                            if paths_only {
                                lemma_all_continue_add(*g, before, mv, true);
                                assert(local@ == before + mv);
                            }
                        }
                    }
                    assert(local@ =~= named_matches(*g, children@, ident.inner@, paths_only, true) + use_imports(
                        *g,
                        *self.vis_solver,
                        ctx.dest.0 as int,
                        children@,
                        ident.inner@,
                        paths_only,
                        k + 1,
                    ));
                    k = k + 1;
                }
            }
        }
        let global = if is_entry {
            global_candidates(g, ctx.root, paths_only, true)
        } else {
            Vec::new()
        };
        proof {
            lemma_chosen_candidates(*g, *self.vis_solver, place_of(*ctx), *ident, paths_only, true, local@, global@,
                Seq::empty());
        }
        match find_children_from_local_and_global(g, self.vis_solver, ctx, ident, paths_only, local, global) {
            Err(e) => Err(e),
            Ok(Some(children)) => Ok(children),
            Ok(None) => {
                if !(ctx.leading_sep.is_some() && is_entry) {
                    let mut from_globs: Vec<ResolutionIndex> = Vec::new();
                    let ghost v0 = self.visited_glob_scopes@;
                    let ghost cs_all = match g.node(scope.0 as int).spec_children() {
                        Some(cs) => cs,
                        None => Seq::<ResolutionIndex>::empty(),
                    };
                    let ghost wg = scope_globs(*g, *self.vis_solver, ctx.dest.0 as int, ident.inner@, paths_only, false, cs_all,
                        0, v0);
                    if let Some(children) = g.get(scope).children() {
                        let mut k: usize = 0;
                        proof {
                            assert(from_globs@ + wg.0 =~= wg.0);
                        }
                        while k < children.len()
                            invariant
                                self.inv(),
                                self.resolution_graph == g,
                                g == old(self).resolution_graph,
                                self.vis_solver == old(self).vis_solver,
                                k <= children@.len(),
                                ctx.wf(*g),
                                all_below(children@, g.len()),
                                all_below(from_globs@, g.len()),
                                g.node(scope.0 as int).spec_children() is Some,
                                children@ == g.node(scope.0 as int).spec_children().unwrap(),
                                scope_glob_free(*g, scope.0 as int) ==> from_globs@.len() == 0,
                                paths_only ==> all_continue(*g, from_globs@, true),
                                cs_all == children@,
                                wg == scope_globs(*g, *self.vis_solver, ctx.dest.0 as int, ident.inner@, paths_only, false,
                                    cs_all, 0, v0),
                                (from_globs@ + scope_globs(*g, *self.vis_solver, ctx.dest.0 as int, ident.inner@,
                                    paths_only, false, cs_all, k as int, self.visited_glob_scopes@).0, scope_globs(*g,
                                    *self.vis_solver, ctx.dest.0 as int, ident.inner@, paths_only, false, cs_all, k as int,
                                    self.visited_glob_scopes@).1) == wg,
                            decreases children@.len() - k,
                        {
                            let c = children[k];
                            proof {
                                assert(g.node_ok(c.0 as int));
                            }
                            if g.get(c).is_use() {
                                let ghost vk = self.visited_glob_scopes@;
                                proof {
                                    lemma_distinct_indices_bounded(self.visited_glob_scopes@, g.len());
                                }
                                let mut m = self.matching_from_use(ctx, c, ident, paths_only, true);
                                let ghost before_globs = from_globs@;
                                let ghost mv = m@;
                                proof {
                                    lemma_distinct_indices_bounded(self.visited_glob_scopes@, g.len());
                                    let rest = scope_globs(*g, *self.vis_solver, ctx.dest.0 as int, ident.inner@,
                                        paths_only, false, cs_all, k + 1, self.visited_glob_scopes@);
                                    assert(scope_globs(*g, *self.vis_solver, ctx.dest.0 as int, ident.inner@,
                                        paths_only, false, cs_all, k as int, vk) == (mv + rest.0, rest.1));
                                    assert(before_globs + mv + rest.0 =~= before_globs + (mv + rest.0));
                                }
                                proof {
                                    if paths_only {
                                        lemma_all_continue_add(*g, before_globs, mv, true);
                                    }
                                    if scope_glob_free(*g, scope.0 as int) {
                                        assert(children@[k as int] == c);
                                        assert(g.kind_of(children@[k as int].0 as int) == NodeKind::Use);
                                        assert(glob_free(*g, g.node(c.0 as int).spec_children().unwrap()));
                                    }
                                }
                                from_globs.append(&mut m);
                                assert(from_globs@ == before_globs + mv);
                            }
                            k = k + 1;
                        }
                    }
                    proof {
                        if scope_glob_free(*g, scope.0 as int) {
                            assert(from_globs@ =~= Seq::<ResolutionIndex>::empty());
                        }
                    }
                    proof {
                        lemma_chosen_candidates(*g, *self.vis_solver, place_of(*ctx), *ident, paths_only, true,
                            Seq::empty(), Seq::empty(), from_globs@);
                        if g.node(scope.0 as int).spec_children() is Some {
                            let fin = scope_globs(*g, *self.vis_solver, ctx.dest.0 as int, ident.inner@, paths_only, false,
                                cs_all, cs_all.len() as int, self.visited_glob_scopes@);
                            assert(from_globs@ + fin.0 =~= from_globs@);
                        }
                        assert(from_globs@ == wg.0);
                        assert(self.visited_glob_scopes@ == wg.1);
                    }
                    find_children_from_globs(g, self.vis_solver, ctx, ident, paths_only, from_globs)
                } else {
                    let previous = if ctx.previous_idents.len() == 0 {
                        None
                    } else {
                        Some(&ctx.previous_idents[ctx.previous_idents.len() - 1])
                    };
                    Err(unresolved_item(ctx.file, previous, ident, ItemHint::ExternalNamedScope, Vec::new()))
                }
            },
        }
    }

    /// What the `use` item at `use_index` brings into scope under `ident`, as
    /// seen from `ctx.dest`: through its globs when `glob_only`, else through
    /// its names and renames.
    fn matching_from_use(
        &mut self,
        ctx: &TracingContext,
        use_index: ResolutionIndex,
        ident: &Ident,
        paths_only: bool,
        glob_only: bool,
    ) -> (res: Vec<ResolutionIndex>)
        requires
            old(self).inv(),
            ctx.wf(*old(self).resolution_graph),
            use_index.0 < old(self).resolution_graph.len(),
            old(self).resolution_graph.kind_of(use_index.0 as int) == NodeKind::Use,
        ensures
            final(self).inv(),
            final(self).resolution_graph == old(self).resolution_graph,
            final(self).vis_solver == old(self).vis_solver,
            old(self).visited_glob_scopes@.is_prefix_of(final(self).visited_glob_scopes@),
            all_below(res@, old(self).resolution_graph.len()),
            !old(self).vis_solver.spec_visible(ctx.dest.0 as int, use_index.0 as int) ==> res@.len() == 0,
            glob_free(*old(self).resolution_graph, old(self).resolution_graph.node(use_index.0 as int).spec_children().unwrap())
                && glob_only ==> res@.len() == 0,
            !glob_only ==> res@ == named_imports(*old(self).resolution_graph, *old(self).vis_solver, ctx.dest.0 as int,
                ident.inner@, paths_only, false, use_index) && final(self).visited_glob_scopes@
                == old(self).visited_glob_scopes@,
            glob_only ==> (res@, final(self).visited_glob_scopes@) == glob_use(*old(self).resolution_graph,
                *old(self).vis_solver, ctx.dest.0 as int, ident.inner@, paths_only, false, use_index,
                old(self).visited_glob_scopes@),
            paths_only ==> all_continue(*old(self).resolution_graph, res@, true),
        decreases old(self).resolution_graph.len() - old(self).visited_glob_scopes@.len(),
    {
        let g = self.resolution_graph;
        let ghost solver = *self.vis_solver;
        let ghost d = ctx.dest.0 as int;
        let ghost id = ident.inner@;
        let ghost visited0 = self.visited_glob_scopes@;
        proof {
            assert(visited0.subrange(0, visited0.len() as int) =~= visited0);
            assert(g.node_ok(use_index.0 as int));
        }
        if !self.vis_solver.is_target_visible(ctx.dest, use_index) {
            return Vec::new();
        }
        let use_children = g.get(use_index).children().unwrap();
        if !glob_only {
            return imports_named_in(g, use_children, ident, paths_only, true);
        }
        let ghost whole = glob_leaves(*g, solver, d, id, paths_only, false, use_children@, 0, visited0);
        let mut matches: Vec<ResolutionIndex> = Vec::new();
        let mut i: usize = 0;
        proof {
            assert(matches@ + whole.0 =~= whole.0);
        }
        while i < use_children.len()
            invariant
                self.inv(),
                self.resolution_graph == g,
                g == old(self).resolution_graph,
                self.vis_solver == old(self).vis_solver,
                solver == *self.vis_solver,
                d == ctx.dest.0 as int,
                id == ident.inner@,
                i <= use_children@.len(),
                ctx.wf(*g),
                all_below(use_children@, g.len()),
                all_below(matches@, g.len()),
                visited0.is_prefix_of(self.visited_glob_scopes@),
                visited0 == old(self).visited_glob_scopes@,
                use_children@ == g.node(use_index.0 as int).spec_children().unwrap(),
                glob_free(*g, use_children@) ==> matches@.len() == 0,
                paths_only ==> all_continue(*g, matches@, true),
                whole == glob_leaves(*g, solver, d, id, paths_only, false, use_children@, 0, visited0),
                (matches@ + glob_leaves(*g, solver, d, id, paths_only, false, use_children@, i as int,
                    self.visited_glob_scopes@).0, glob_leaves(*g, solver, d, id, paths_only, false, use_children@, i as int,
                    self.visited_glob_scopes@).1) == whole,
            decreases use_children@.len() - i,
        {
            let child = use_children[i];
            let ghost v_in = self.visited_glob_scopes@;
            let ghost m_in = matches@;
            proof {
                assert(g.node_ok(child.0 as int));
            }
            let glob = match g.get(child) {
                ResolutionNode::Leaf { leaf: Leaf::UseGlob(_, glob), .. } => Some(*glob),
                _ => None,
            };
            if let Some(glob) = glob {
                if !contains_index(&self.visited_glob_scopes, glob) {
                    let ghost vbefore = self.visited_glob_scopes@;
                    self.visited_glob_scopes.push(glob);
                    proof {
                        assert(self.visited_glob_scopes@.no_duplicates()) by {
                            assert forall|a: int, b: int| 0 <= a < b < self.visited_glob_scopes@.len()
                                implies self.visited_glob_scopes@[a] != self.visited_glob_scopes@[b] by {
                                if b == vbefore.len() {
                                    assert(vbefore.contains(vbefore[a]));
                                } else {
                                    assert(vbefore[a] != vbefore[b]);
                                }
                            }
                        }
                        assert(visited0.is_prefix_of(self.visited_glob_scopes@)) by {
                            assert forall|k: int| 0 <= k < visited0.len() implies visited0[k]
                                == self.visited_glob_scopes@[k] by {
                                assert(visited0[k] == vbefore[k]);
                            }
                        }
                        lemma_distinct_indices_bounded(self.visited_glob_scopes@, g.len());
                    }
                    let ghost vp = self.visited_glob_scopes@;
                    if let Some(src_children) = g.get(glob).children() {
                        proof {
                            assert(g.node_ok(glob.0 as int));
                        }
                        let ghost wsrc = glob_src(*g, solver, d, id, paths_only, false, src_children@, 0, vp);
                        let mut named = named_children_in(g, src_children, ident, paths_only, true);
                        let ghost before_named = matches@;
                        let ghost nv = named@;
                        matches.append(&mut named);
                        let ghost base = matches@;
                        proof {
                            assert(matches@ == before_named + nv);
                            if paths_only {
                                lemma_all_continue_add(*g, before_named, nv, true);
                            }
                            assert(base + wsrc.0 =~= base + wsrc.0);
                        }
                        let mut j: usize = 0;
                        while j < src_children.len()
                            invariant
                                self.inv(),
                                self.resolution_graph == g,
                                g == old(self).resolution_graph,
                                self.vis_solver == old(self).vis_solver,
                                solver == *self.vis_solver,
                                d == ctx.dest.0 as int,
                                id == ident.inner@,
                                j <= src_children@.len(),
                                ctx.wf(*g),
                                all_below(src_children@, g.len()),
                                all_below(matches@, g.len()),
                                visited0.is_prefix_of(self.visited_glob_scopes@),
                                visited0 == old(self).visited_glob_scopes@,
                                vp.is_prefix_of(self.visited_glob_scopes@),
                                self.visited_glob_scopes@.len() > visited0.len(),
                                paths_only ==> all_continue(*g, matches@, true),
                                wsrc == glob_src(*g, solver, d, id, paths_only, false, src_children@, 0, vp),
                                (matches@ + glob_src(*g, solver, d, id, paths_only, false, src_children@, j as int,
                                    self.visited_glob_scopes@).0, glob_src(*g, solver, d, id, paths_only, false,
                                    src_children@, j as int, self.visited_glob_scopes@).1) == (base + wsrc.0, wsrc.1),
                            decreases src_children@.len() - j,
                        {
                            let c = src_children[j];
                            let ghost vj = self.visited_glob_scopes@;
                            let ghost mj = matches@;
                            if g.get(c).is_use() {
                                let ghost vmid = self.visited_glob_scopes@;
                                proof {
                                    lemma_distinct_indices_bounded(self.visited_glob_scopes@, g.len());
                                }
                                let mut a = self.matching_from_use(ctx, c, ident, paths_only, true);
                                let ghost before_a = matches@;
                                let ghost av = a@;
                                let ghost v1 = self.visited_glob_scopes@;
                                matches.append(&mut a);
                                proof {
                                    assert(matches@ == before_a + av);
                                    if paths_only {
                                        lemma_all_continue_add(*g, before_a, av, true);
                                    }
                                    super::uses::lemma_prefix_trans(visited0, vmid, self.visited_glob_scopes@);
                                    super::uses::lemma_prefix_trans(vp, vmid, self.visited_glob_scopes@);
                                    lemma_distinct_indices_bounded(self.visited_glob_scopes@, g.len());
                                }
                                let ghost vmid2 = self.visited_glob_scopes@;
                                let mut b = self.matching_from_use(ctx, c, ident, paths_only, false);
                                let ghost before_b = matches@;
                                let ghost bv = b@;
                                matches.append(&mut b);
                                proof {
                                    assert(matches@ == before_b + bv);
                                    if paths_only {
                                        lemma_all_continue_add(*g, before_b, bv, true);
                                    }
                                    let rest = glob_src(*g, solver, d, id, paths_only, false, src_children@, j + 1, v1);
                                    assert(glob_src(*g, solver, d, id, paths_only, false, src_children@, j as int, vj) == (av
                                        + bv + rest.0, rest.1));
                                    assert(matches@ + rest.0 =~= mj + (av + bv + rest.0));
                                }
                            }
                            j = j + 1;
                        }
                        proof {
                            let fin = glob_src(*g, solver, d, id, paths_only, false, src_children@, j as int,
                                self.visited_glob_scopes@);
                            assert(matches@ + fin.0 =~= matches@);
                            assert(glob_scope(*g, solver, d, id, paths_only, false, glob, vp) == (nv + wsrc.0, wsrc.1));
                            assert(matches@ =~= m_in + (nv + wsrc.0));
                        }
                    } else {
                        proof {
                            assert(matches@ =~= m_in + Seq::<ResolutionIndex>::empty());
                        }
                    }
                    proof {
                        let first = glob_scope(*g, solver, d, id, paths_only, false, glob, vp);
                        assert(vp == v_in.push(glob));
                        assert(v_in.len() < g.len());
                        assert(self.visited_glob_scopes@ == first.1);
                        assert(matches@ == m_in + first.0);
                        lemma_distinct_indices_bounded(self.visited_glob_scopes@, g.len());
                        let rest = glob_leaves(*g, solver, d, id, paths_only, false, use_children@, i + 1, first.1);
                        assert(glob_leaves(*g, solver, d, id, paths_only, false, use_children@, i as int, v_in) == (first.0
                            + rest.0, rest.1));
                        assert(matches@ + rest.0 =~= m_in + (first.0 + rest.0));
                    }
                } else {
                    proof {
                        assert(v_in.contains(glob));
                        assert(matches@ + Seq::<ResolutionIndex>::empty() =~= matches@);
                    }
                }
            } else {
                proof {
                    assert(matches@ + Seq::<ResolutionIndex>::empty() =~= matches@);
                }
            }
            i = i + 1;
        }
        proof {
            assert(matches@ + Seq::<ResolutionIndex>::empty() =~= matches@);
        }
        matches
    }
}

} // verus!
