//! What path tracing shares between `use` items and type paths: the context of
//! a trace, the special identifiers, and the choice between local, global and
//! glob-imported candidates.

use vstd::prelude::*;

use crate::ast::{Ident, Span};
use crate::error::{
    disambiguation_needed, disambiguation_needed_view, global_path_cannot_have_special_ident,
    global_path_cannot_have_special_ident_view, item_visibility, item_visibility_view,
    special_ident_not_at_start_of_path, special_ident_not_at_start_of_path_view, too_many_supers,
    too_many_supers_view, unresolved_item, unresolved_item_view, AmbiguitySource, Diagnostic,
    DiagnosticView, ItemHint,
};
use crate::find_file::FileId;
use super::graph::{is_valid_use_path_segment_kind, NodeKind, ResolutionGraph, ResolutionIndex};
use super::visibility::{is_ancestor, VisibilitySolver};

verus! {

/// The topmost ancestor of `node` (the node itself if it has no parent).
pub open spec fn root_of(g: ResolutionGraph, node: int) -> int
    decreases node,
{
    if 0 <= node < g.len() {
        match g.node(node).spec_parent() {
            Some(p) => if p.0 < node { root_of(g, p.0 as int) } else { node },
            None => node,
        }
    } else {
        node
    }
}

/// The nearest proper ancestor of `node` that a `use` path can name (a module,
/// an enum or a root), if any.
pub open spec fn use_segment_above(g: ResolutionGraph, node: int) -> Option<ResolutionIndex>
    decreases node,
{
    if 0 <= node < g.len() {
        match g.node(node).spec_parent() {
            Some(p) => if is_valid_use_path_segment_kind(g.kind_of(p.0 as int)) {
                Some(p)
            } else if p.0 < node {
                use_segment_above(g, p.0 as int)
            } else {
                None
            },
            None => None,
        }
    } else {
        None
    }
}

/// `node` itself if a `use` path can name it, else its nearest such ancestor.
pub open spec fn use_scope_of(g: ResolutionGraph, node: int) -> int {
    if is_valid_use_path_segment_kind(g.kind_of(node)) {
        node
    } else {
        use_segment_above(g, node).unwrap().0 as int
    }
}

pub proof fn lemma_root_of(g: ResolutionGraph, node: int)
    requires
        g.wf(),
        0 <= node < g.len(),
    ensures
        0 <= root_of(g, node) <= node,
        g.kind_of(root_of(g, node)) == NodeKind::Root,
    decreases node,
{
    assert(g.node_ok(node));
    if let Some(p) = g.node(node).spec_parent() {
        lemma_root_of(g, p.0 as int);
    }
}

pub proof fn lemma_use_segment_above(g: ResolutionGraph, node: int)
    requires
        g.wf(),
        0 <= node < g.len(),
    ensures
        g.kind_of(node) != NodeKind::Root ==> use_segment_above(g, node) is Some,
        use_segment_above(g, node) matches Some(a) ==> a.0 < node
            && is_valid_use_path_segment_kind(g.kind_of(a.0 as int)),
    decreases node,
{
    assert(g.node_ok(node));
    if let Some(p) = g.node(node).spec_parent() {
        assert(g.node_ok(p.0 as int));
        if !is_valid_use_path_segment_kind(g.kind_of(p.0 as int)) {
            lemma_use_segment_above(g, p.0 as int);
        }
    }
}

/// The topmost ancestor of `node`.
pub fn find_root(g: &ResolutionGraph, node: ResolutionIndex) -> (r: ResolutionIndex)
    requires
        g.wf(),
        node.0 < g.len(),
    ensures
        r.0 == root_of(*g, node.0 as int),
        r.0 < g.len(),
{
    let mut root = node;
    loop
        invariant
            g.wf(),
            root.0 < g.len(),
            root_of(*g, node.0 as int) == root_of(*g, root.0 as int),
        decreases root.0,
    {
        proof {
            assert(g.node_ok(root.0 as int));
        }
        match g.get(root).parent() {
            Some(p) => root = p,
            None => return root,
        }
    }
}

/// `node` itself if a `use` path can name it, else its nearest such ancestor.
pub fn use_scope(g: &ResolutionGraph, node: ResolutionIndex) -> (r: ResolutionIndex)
    requires
        g.wf(),
        node.0 < g.len(),
    ensures
        r.0 == use_scope_of(*g, node.0 as int),
        r.0 <= node.0,
        is_valid_use_path_segment_kind(g.kind_of(r.0 as int)),
{
    let mut scope = node;
    proof {
        lemma_use_segment_above(*g, node.0 as int);
    }
    while !g.get(scope).is_valid_use_path_segment()
        invariant
            g.wf(),
            scope.0 <= node.0 < g.len(),
            !is_valid_use_path_segment_kind(g.kind_of(scope.0 as int)) ==> use_segment_above(*g, scope.0 as int)
                == use_segment_above(*g, node.0 as int) && use_segment_above(*g, scope.0 as int) is Some,
            is_valid_use_path_segment_kind(g.kind_of(scope.0 as int)) ==> (scope == node
                || Some(scope) == use_segment_above(*g, node.0 as int)),
            !is_valid_use_path_segment_kind(g.kind_of(node.0 as int)) ==> use_segment_above(*g, node.0 as int) is Some,
            is_valid_use_path_segment_kind(g.kind_of(node.0 as int)) ==> scope == node,
        decreases scope.0,
    {
        proof {
            assert(g.node_ok(scope.0 as int));
            lemma_use_segment_above(*g, scope.0 as int);
        }
        let p = g.get(scope).parent().unwrap();
        proof {
            if !is_valid_use_path_segment_kind(g.kind_of(p.0 as int)) {
                lemma_use_segment_above(*g, p.0 as int);
            }
        }
        scope = p;
    }
    scope
}

/// Where a path is being traced: the file and scope it is written in, the
/// identifiers already followed, and its leading `::`, if any.
#[derive(Debug)]
pub struct TracingContext {
    pub file: FileId,
    pub root: ResolutionIndex,
    pub dest: ResolutionIndex,
    pub previous_idents: Vec<Ident>,
    pub leading_sep: Option<Span>,
}

impl TracingContext {
    pub open spec fn wf(&self, g: ResolutionGraph) -> bool {
        &&& self.dest.0 < g.len()
        &&& self.root.0 < g.len()
    }

    pub fn new(g: &ResolutionGraph, dest: ResolutionIndex, leading_sep: Option<Span>) -> (ctx: TracingContext)
        requires
            g.wf(),
            g.roots_have_files(),
            dest.0 < g.len(),
        ensures
            ctx.file == g.spec_file(dest.0 as int),
            ctx.root.0 == root_of(*g, dest.0 as int),
            ctx.dest == dest,
            ctx.previous_idents@.len() == 0,
            ctx.leading_sep == leading_sep,
            ctx.wf(*g),
    {
        let root = find_root(g, dest);
        TracingContext { file: g.file(dest), dest, root, previous_idents: Vec::new(), leading_sep }
    }
}

pub open spec fn is_special(ident: Ident) -> bool {
    ident.inner@ == "super"@ || ident.inner@ == "crate"@ || ident.inner@ == "self"@ || ident.inner@ == "Self"@
}

/// The meaning of `ident` in `scope` if it is one of `self`, `super` and `crate`,
/// `None` if it is an ordinary identifier, or the error in its placement.
pub open spec fn special_ident_result(
    g: ResolutionGraph,
    file: FileId,
    previous: Seq<Ident>,
    leading_sep: Option<Span>,
    scope: int,
    ident: Ident,
) -> Result<Option<ResolutionIndex>, DiagnosticView> {
    let is_entry = previous.len() == 0;
    let special = is_special(ident);
    let chained_supers = (previous.len() == 0 || previous.last().inner@ == "super"@) && ident.inner@ == "super"@;
    if !is_entry && special && !chained_supers {
        Err(special_ident_not_at_start_of_path_view(file, ident.inner@, ident.span))
    } else if leading_sep.is_some() && special {
        Err(global_path_cannot_have_special_ident_view(file, ident.inner@, ident.span, leading_sep.unwrap()))
    } else if ident.inner@ == "self"@ {
        Ok(Some(ResolutionIndex(scope as usize)))
    } else if ident.inner@ == "super"@ {
        match use_segment_above(g, scope) {
            Some(a) => Ok(Some(a)),
            None => Err(too_many_supers_view(file, ident.inner@, ident.span)),
        }
    } else if ident.inner@ == "crate"@ {
        Ok(Some(ResolutionIndex(root_of(g, scope) as usize)))
    } else {
        Ok(None)
    }
}

/// An ancestor lies before the node it is an ancestor of.
pub(crate) proof fn lemma_ancestor_index_before(g: ResolutionGraph, a: int, node: int)
    requires
        g.wf(),
        0 <= node < g.len(),
        is_ancestor(g, a, node),
    ensures
        0 <= a < node,
    decreases node,
{
    assert(g.node_ok(node));
    let p = g.node(node).spec_parent().unwrap();
    if p.0 != a {
        lemma_ancestor_index_before(g, a, p.0 as int);
    }
}

/// The root a node belongs to is a root without a parent, and the node
/// itself or one of its ancestors.
pub proof fn lemma_root_of_is_topmost(g: ResolutionGraph, node: int)
    requires
        g.wf(),
        0 <= node < g.len(),
    ensures
        root_of(g, node) == node || is_ancestor(g, root_of(g, node), node),
        g.node(root_of(g, node)).spec_parent() is None,
        g.kind_of(root_of(g, node)) == NodeKind::Root,
    decreases node,
{
    assert(g.node_ok(node));
    lemma_root_of(g, node);
    if let Some(p) = g.node(node).spec_parent() {
        lemma_root_of_is_topmost(g, p.0 as int);
    }
}

/// `super` leads to the nearest proper ancestor that a `use` path can name
/// (a module, an enum or a root): an ancestor of that kind with none of that
/// kind between; there is none exactly when no ancestor is of that kind.
pub proof fn lemma_use_segment_above_is_nearest(g: ResolutionGraph, node: int)
    requires
        g.wf(),
        0 <= node < g.len(),
    ensures
        use_segment_above(g, node) matches Some(a) ==> {
            &&& is_ancestor(g, a.0 as int, node)
            &&& is_valid_use_path_segment_kind(g.kind_of(a.0 as int))
            &&& forall|m: int| is_ancestor(g, m, node) && #[trigger] is_ancestor(g, a.0 as int, m)
                ==> !is_valid_use_path_segment_kind(g.kind_of(m))
        },
        use_segment_above(g, node) is None ==> forall|m: int| #[trigger] is_ancestor(g, m, node)
            ==> !is_valid_use_path_segment_kind(g.kind_of(m)),
    decreases node,
{
    assert(g.node_ok(node));
    if let Some(p) = g.node(node).spec_parent() {
        assert(g.node_ok(p.0 as int));
        if is_valid_use_path_segment_kind(g.kind_of(p.0 as int)) {
            assert forall|m: int| is_ancestor(g, m, node) && #[trigger] is_ancestor(g, p.0 as int, m)
                implies !is_valid_use_path_segment_kind(g.kind_of(m)) by {
                lemma_ancestor_index_before(g, p.0 as int, m);
                if m != p.0 {
                    lemma_ancestor_index_before(g, m, p.0 as int);
                }
            }
        } else {
            lemma_use_segment_above_is_nearest(g, p.0 as int);
            if let Some(a) = use_segment_above(g, node) {
                assert forall|m: int| is_ancestor(g, m, node) && #[trigger] is_ancestor(g, a.0 as int, m)
                    implies !is_valid_use_path_segment_kind(g.kind_of(m)) by {
                    if m != p.0 {
                        assert(is_ancestor(g, m, p.0 as int));
                    }
                }
            } else {
                assert forall|m: int| #[trigger] is_ancestor(g, m, node)
                    implies !is_valid_use_path_segment_kind(g.kind_of(m)) by {
                    if m != p.0 {
                        assert(is_ancestor(g, m, p.0 as int));
                    }
                }
            }
        }
    }
}

/// At the start of a path without a leading `::`, `self` names the scope it
/// is written in, `super` the nearest module, enum or root above it (an error
/// when there is none), and `crate` the root of the crate; an ordinary
/// identifier has no special meaning. After a leading `::` each special
/// identifier is an error, and so is one after the first segment, but for a
/// `super` after a `super`.
pub proof fn lemma_special_idents(
    g: ResolutionGraph,
    file: FileId,
    previous: Seq<Ident>,
    leading_sep: Option<Span>,
    scope: int,
    ident: Ident,
)
    ensures
        previous.len() == 0 && leading_sep is None && ident.inner@ == "self"@ ==> special_ident_result(g, file,
            previous, leading_sep, scope, ident) == Ok::<Option<ResolutionIndex>, DiagnosticView>(
            Some(ResolutionIndex(scope as usize))),
        previous.len() == 0 && leading_sep is None && ident.inner@ == "crate"@ ==> special_ident_result(g, file,
            previous, leading_sep, scope, ident) == Ok::<Option<ResolutionIndex>, DiagnosticView>(
            Some(ResolutionIndex(root_of(g, scope) as usize))),
        (previous.len() == 0 || previous.last().inner@ == "super"@) && leading_sep is None && ident.inner@
            == "super"@ ==> special_ident_result(g, file, previous, leading_sep, scope, ident) == match
            use_segment_above(g, scope) {
            Some(a) => Ok::<Option<ResolutionIndex>, DiagnosticView>(Some(a)),
            None => Err(too_many_supers_view(file, ident.inner@, ident.span)),
        },
        !is_special(ident) ==> special_ident_result(g, file, previous, leading_sep, scope, ident) == Ok::<
            Option<ResolutionIndex>,
            DiagnosticView,
        >(None),
        leading_sep matches Some(s) ==> (previous.len() == 0 && is_special(ident) ==> special_ident_result(g, file,
            previous, leading_sep, scope, ident) == Err::<Option<ResolutionIndex>, DiagnosticView>(
            global_path_cannot_have_special_ident_view(file, ident.inner@, ident.span, s))),
        previous.len() > 0 && is_special(ident) && !(previous.last().inner@ == "super"@ && ident.inner@ == "super"@)
            ==> special_ident_result(g, file, previous, leading_sep, scope, ident) == Err::<
            Option<ResolutionIndex>,
            DiagnosticView,
        >(special_ident_not_at_start_of_path_view(file, ident.inner@, ident.span)),
{
    reveal_strlit("self");
    reveal_strlit("super");
    reveal_strlit("crate");
    assert("crate"@[0] != "self"@[0] && "crate"@[0] != "super"@[0]);
    assert("super"@[1] != "self"@[1]);
}

/// The nearest proper ancestor of `node` that a `use` path can name.
fn find_use_segment_above(g: &ResolutionGraph, node: ResolutionIndex) -> (r: Option<ResolutionIndex>)
    requires
        g.wf(),
        node.0 < g.len(),
    ensures
        r == use_segment_above(*g, node.0 as int),
{
    proof {
        assert(g.node_ok(node.0 as int));
    }
    let mut use_grandparent = g.get(node).parent();
    loop
        invariant
            g.wf(),
            use_grandparent matches Some(p) ==> p.0 < g.len(),
            match use_grandparent {
                Some(p) => use_segment_above(*g, node.0 as int) == if is_valid_use_path_segment_kind(g.kind_of(p.0 as int)) {
                    Some(p)
                } else {
                    use_segment_above(*g, p.0 as int)
                },
                None => use_segment_above(*g, node.0 as int) is None,
            },
        decreases match use_grandparent {
            Some(p) => p.0 + 1,
            None => 0,
        },
    {
        match use_grandparent {
            None => return None,
            Some(p) => {
                if g.get(p).is_valid_use_path_segment() {
                    return Some(p);
                }
                proof {
                    assert(g.node_ok(p.0 as int));
                }
                use_grandparent = g.get(p).parent();
            },
        }
    }
}

/// Resolves `self`, `super` and `crate` at the start of a path (or chained
/// `super`s), and rejects special identifiers elsewhere.
pub fn handle_special_ident(
    g: &ResolutionGraph,
    ctx: &TracingContext,
    scope: ResolutionIndex,
    ident: &Ident,
) -> (r: Result<Option<ResolutionIndex>, Diagnostic>)
    requires
        g.wf(),
        scope.0 < g.len(),
    ensures
        match r {
            Ok(v) => special_ident_result(*g, ctx.file, ctx.previous_idents@, ctx.leading_sep, scope.0 as int, *ident)
                == Ok::<Option<ResolutionIndex>, DiagnosticView>(v),
            Err(d) => special_ident_result(*g, ctx.file, ctx.previous_idents@, ctx.leading_sep, scope.0 as int, *ident)
                == Err::<Option<ResolutionIndex>, DiagnosticView>(d@),
        },
        r matches Ok(Some(i)) ==> i.0 < g.len(),
{
    let is_entry = ctx.previous_idents.len() == 0;
    let is_special_ident = ident.is("super") || ident.is("crate") || ident.is("self") || ident.is("Self");
    let last_is_super = if ctx.previous_idents.len() == 0 {
        true
    } else {
        ctx.previous_idents[ctx.previous_idents.len() - 1].is("super")
    };
    let is_chained_supers = last_is_super && ident.is("super");
    if !is_entry && is_special_ident && !is_chained_supers {
        Err(special_ident_not_at_start_of_path(ctx.file, ident))
    } else if ctx.leading_sep.is_some() && is_special_ident {
        Err(global_path_cannot_have_special_ident(ctx.file, ident, ctx.leading_sep.unwrap()))
    } else if ident.is("self") {
        Ok(Some(scope))
    } else if ident.is("super") {
        proof {
            lemma_use_segment_above(*g, scope.0 as int);
        }
        match find_use_segment_above(g, scope) {
            Some(a) => Ok(Some(a)),
            None => Err(too_many_supers(ctx.file, ident)),
        }
    } else if ident.is("crate") {
        Ok(Some(find_root(g, scope)))
    } else {
        Ok(None)
    }
}

/// The hint for an identifier: a scope (crate or module) while more segments
/// follow, any item for the last one.
pub open spec fn lookup_hint(paths_only: bool, is_entry: bool) -> ItemHint {
    if paths_only && is_entry {
        ItemHint::InternalNamedChildOrExternalNamedScope
    } else if paths_only {
        ItemHint::InternalNamedChildScope
    } else {
        ItemHint::Item
    }
}

fn hint_for(paths_only: bool, is_entry: bool) -> (h: ItemHint)
    ensures
        h == lookup_hint(paths_only, is_entry),
{
    if paths_only && is_entry {
        ItemHint::InternalNamedChildOrExternalNamedScope
    } else if paths_only {
        ItemHint::InternalNamedChildScope
    } else {
        ItemHint::Item
    }
}

/// The candidates visible from `dest`, in order.
pub open spec fn visible_from(solver: VisibilitySolver, dest: int, candidates: Seq<ResolutionIndex>) -> Seq<ResolutionIndex> {
    candidates.filter(|i: ResolutionIndex| solver.spec_visible(dest, i.0 as int))
}

/// The candidates not visible from `dest`, in order.
pub open spec fn hidden_from(solver: VisibilitySolver, dest: int, candidates: Seq<ResolutionIndex>) -> Seq<ResolutionIndex> {
    candidates.filter(|i: ResolutionIndex| !solver.spec_visible(dest, i.0 as int))
}

/// The identifier a declaration is known by; a node without a name (never met
/// among named candidates) is reported under the identifier looked up.
pub open spec fn declaration_ident(g: ResolutionGraph, decl: int, looked_up: Ident) -> Ident {
    match g.node(decl).spec_name() {
        Some(n) => n,
        None => looked_up,
    }
}

pub open spec fn private_item_error(
    g: ResolutionGraph,
    file: FileId,
    ident: Ident,
    decl: ResolutionIndex,
    hint: ItemHint,
) -> DiagnosticView {
    item_visibility_view(
        file,
        ident.inner@,
        ident.span,
        g.spec_file(decl.0 as int),
        declaration_ident(g, decl.0 as int, ident).span,
        hint,
    )
}

/// The choice between candidates found in the scope and crate roots: the visible
/// ones of whichever side has any, an error if both or neither do (or only hidden
/// ones exist), `None` when there is nothing and globs are still to be searched.
pub open spec fn local_and_global_result(
    g: ResolutionGraph,
    solver: VisibilitySolver,
    file: FileId,
    dest: int,
    previous: Seq<Ident>,
    leading_sep: Option<Span>,
    ident: Ident,
    paths_only: bool,
    local: Seq<ResolutionIndex>,
    global: Seq<ResolutionIndex>,
) -> Result<Option<Seq<ResolutionIndex>>, DiagnosticView> {
    let is_entry = previous.len() == 0;
    let hint = lookup_hint(paths_only, is_entry);
    let local_visible = visible_from(solver, dest, local);
    let local_hidden = hidden_from(solver, dest, local);
    let global_visible = visible_from(solver, dest, global);
    let global_hidden = hidden_from(solver, dest, global);
    if global.len() == 0 && local_hidden.len() > 0 && local_visible.len() == 0 {
        Err(private_item_error(g, file, ident, local_hidden[0], hint))
    } else if local_visible.len() == 0 && global_hidden.len() > 0 && global_visible.len() == 0 {
        Err(private_item_error(g, file, ident, global_hidden[0], hint))
    } else if global_visible.len() > 0 && local_visible.len() > 0 {
        Err(disambiguation_needed_view(file, ident.inner@, ident.span, AmbiguitySource::Item(hint)))
    } else if local_visible.len() > 0 {
        Ok(Some(local_visible))
    } else if global_visible.len() > 0 {
        Ok(Some(global_visible))
    } else if !(leading_sep.is_some() && is_entry) {
        Ok(None)
    } else {
        Err(unresolved_item_view(
            file,
            if previous.len() == 0 { None } else { Some(previous.last().inner@) },
            ident.inner@,
            ident.span,
            ItemHint::ExternalNamedScope,
            Seq::empty(),
        ))
    }
}

/// Splits candidates into those visible from `dest` and the others, keeping order.
fn split_visible(
    solver: &VisibilitySolver,
    dest: ResolutionIndex,
    candidates: &Vec<ResolutionIndex>,
) -> (r: (Vec<ResolutionIndex>, Vec<ResolutionIndex>))
    requires
        solver.wf(),
        dest.0 < solver.len(),
        forall|k: int| 0 <= k < candidates@.len() ==> (#[trigger] candidates@[k]).0 < solver.len(),
    ensures
        r.0@ == visible_from(*solver, dest.0 as int, candidates@),
        r.1@ == hidden_from(*solver, dest.0 as int, candidates@),
        forall|k: int| 0 <= k < r.0@.len() ==> (#[trigger] r.0@[k]).0 < solver.len(),
        forall|k: int| 0 <= k < r.1@.len() ==> (#[trigger] r.1@[k]).0 < solver.len(),
{
    let mut visible: Vec<ResolutionIndex> = Vec::new();
    let mut hidden: Vec<ResolutionIndex> = Vec::new();
    let mut i: usize = 0;
    while i < candidates.len()
        invariant
            solver.wf(),
            dest.0 < solver.len(),
            forall|k: int| 0 <= k < candidates@.len() ==> (#[trigger] candidates@[k]).0 < solver.len(),
            i <= candidates@.len(),
            visible@ == visible_from(*solver, dest.0 as int, candidates@.take(i as int)),
            hidden@ == hidden_from(*solver, dest.0 as int, candidates@.take(i as int)),
            forall|k: int| 0 <= k < visible@.len() ==> (#[trigger] visible@[k]).0 < solver.len(),
            forall|k: int| 0 <= k < hidden@.len() ==> (#[trigger] hidden@[k]).0 < solver.len(),
        decreases candidates@.len() - i,
    {
        let c = candidates[i];
        proof {
            assert(candidates@.take(i + 1).drop_last() =~= candidates@.take(i as int));
            reveal_with_fuel(Seq::filter, 1);
        }
        if solver.is_target_visible(dest, c) {
            visible.push(c);
        } else {
            hidden.push(c);
        }
        i = i + 1;
    }
    assert(candidates@.take(candidates@.len() as int) =~= candidates@);
    (visible, hidden)
}

/// The name a declaration is reported under.
pub fn declaration_name<'a>(g: &'a ResolutionGraph, decl: ResolutionIndex, looked_up: &'a Ident) -> (r: &'a Ident)
    requires
        decl.0 < g.len(),
    ensures
        *r == declaration_ident(*g, decl.0 as int, *looked_up),
{
    match g.get(decl).name() {
        Some(n) => n,
        None => looked_up,
    }
}

pub fn find_children_from_local_and_global(
    g: &ResolutionGraph,
    solver: &VisibilitySolver,
    ctx: &TracingContext,
    ident: &Ident,
    paths_only: bool,
    local: Vec<ResolutionIndex>,
    global: Vec<ResolutionIndex>,
) -> (r: Result<Option<Vec<ResolutionIndex>>, Diagnostic>)
    requires
        g.wf(),
        g.roots_have_files(),
        solver.wf(),
        solver.len() == g.len(),
        ctx.dest.0 < g.len(),
        forall|k: int| 0 <= k < local@.len() ==> (#[trigger] local@[k]).0 < g.len(),
        forall|k: int| 0 <= k < global@.len() ==> (#[trigger] global@[k]).0 < g.len(),
    ensures
        match r {
            Ok(Some(v)) => local_and_global_result(*g, *solver, ctx.file, ctx.dest.0 as int, ctx.previous_idents@,
                ctx.leading_sep, *ident, paths_only, local@, global@) == Ok::<Option<Seq<ResolutionIndex>>, DiagnosticView>(Some(v@)),
            Ok(None) => local_and_global_result(*g, *solver, ctx.file, ctx.dest.0 as int, ctx.previous_idents@,
                ctx.leading_sep, *ident, paths_only, local@, global@) == Ok::<Option<Seq<ResolutionIndex>>, DiagnosticView>(None),
            Err(d) => local_and_global_result(*g, *solver, ctx.file, ctx.dest.0 as int, ctx.previous_idents@,
                ctx.leading_sep, *ident, paths_only, local@, global@) == Err::<Option<Seq<ResolutionIndex>>, DiagnosticView>(d@),
        },
        r matches Ok(Some(v)) ==> v@.len() > 0 && (forall|k: int| 0 <= k < v@.len() ==> (#[trigger] v@[k]).0 < g.len()),
{
    let is_entry = ctx.previous_idents.len() == 0;
    let hint = hint_for(paths_only, is_entry);
    let (local_visible, local_not_visible) = split_visible(solver, ctx.dest, &local);
    if global.len() == 0 && local_not_visible.len() != 0 && local_visible.len() == 0 {
        let declaration_idx = local_not_visible[0];
        return Err(item_visibility(
            ctx.file,
            ident,
            g.file(declaration_idx),
            declaration_name(g, declaration_idx, ident),
            hint,
        ));
    }
    let (global_visible, global_not_visible) = split_visible(solver, ctx.dest, &global);
    if local_visible.len() == 0 && global_not_visible.len() != 0 && global_visible.len() == 0 {
        let declaration_idx = global_not_visible[0];
        return Err(item_visibility(
            ctx.file,
            ident,
            g.file(declaration_idx),
            declaration_name(g, declaration_idx, ident),
            hint,
        ));
    }
    if global_visible.len() != 0 && local_visible.len() != 0 {
        Err(disambiguation_needed(ctx.file, ident, AmbiguitySource::Item(hint)))
    } else if local_visible.len() != 0 {
        Ok(Some(local_visible))
    } else if global_visible.len() != 0 {
        Ok(Some(global_visible))
    } else if !(ctx.leading_sep.is_some() && is_entry) {
        Ok(None)
    } else {
        let previous = if ctx.previous_idents.len() == 0 {
            None
        } else {
            Some(&ctx.previous_idents[ctx.previous_idents.len() - 1])
        };
        Err(unresolved_item(ctx.file, previous, ident, ItemHint::ExternalNamedScope, Vec::new()))
    }
}

/// The choice among candidates imported by globs: the visible ones, or an error
/// if there are none.
pub open spec fn globs_result(
    g: ResolutionGraph,
    solver: VisibilitySolver,
    file: FileId,
    dest: int,
    previous: Seq<Ident>,
    ident: Ident,
    paths_only: bool,
    from_globs: Seq<ResolutionIndex>,
) -> Result<Seq<ResolutionIndex>, DiagnosticView> {
    let hint = lookup_hint(paths_only, previous.len() == 0);
    let visible = visible_from(solver, dest, from_globs);
    let hidden = hidden_from(solver, dest, from_globs);
    if hidden.len() > 0 && visible.len() == 0 {
        Err(private_item_error(g, file, ident, hidden[0], hint))
    } else if visible.len() == 0 {
        Err(unresolved_item_view(
            file,
            if previous.len() == 0 { None } else { Some(previous.last().inner@) },
            ident.inner@,
            ident.span,
            hint,
            Seq::empty(),
        ))
    } else {
        Ok(visible)
    }
}

pub fn find_children_from_globs(
    g: &ResolutionGraph,
    solver: &VisibilitySolver,
    ctx: &TracingContext,
    ident: &Ident,
    paths_only: bool,
    local_from_globs: Vec<ResolutionIndex>,
) -> (r: Result<Vec<ResolutionIndex>, Diagnostic>)
    requires
        g.wf(),
        g.roots_have_files(),
        solver.wf(),
        solver.len() == g.len(),
        ctx.dest.0 < g.len(),
        forall|k: int| 0 <= k < local_from_globs@.len() ==> (#[trigger] local_from_globs@[k]).0 < g.len(),
    ensures
        match r {
            Ok(v) => globs_result(*g, *solver, ctx.file, ctx.dest.0 as int, ctx.previous_idents@, *ident, paths_only,
                local_from_globs@) == Ok::<Seq<ResolutionIndex>, DiagnosticView>(v@),
            Err(d) => globs_result(*g, *solver, ctx.file, ctx.dest.0 as int, ctx.previous_idents@, *ident, paths_only,
                local_from_globs@) == Err::<Seq<ResolutionIndex>, DiagnosticView>(d@),
        },
        r matches Ok(v) ==> v@.len() > 0 && (forall|k: int| 0 <= k < v@.len() ==> (#[trigger] v@[k]).0 < g.len()),
{
    let is_entry = ctx.previous_idents.len() == 0;
    let hint = hint_for(paths_only, is_entry);
    let (visible, not_visible) = split_visible(solver, ctx.dest, &local_from_globs);
    if not_visible.len() != 0 && visible.len() == 0 {
        let declaration_idx = not_visible[0];
        Err(item_visibility(ctx.file, ident, g.file(declaration_idx), declaration_name(g, declaration_idx, ident), hint))
    } else if visible.len() == 0 {
        let previous = if ctx.previous_idents.len() == 0 {
            None
        } else {
            Some(&ctx.previous_idents[ctx.previous_idents.len() - 1])
        };
        Err(unresolved_item(ctx.file, previous, ident, hint, Vec::new()))
    } else {
        Ok(visible)
    }
}

} // verus!
