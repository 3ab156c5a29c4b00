//! Checking that the type and trait paths written in items lead to exactly
//! one type or trait (or, for a type, to a generic parameter in scope).

use vstd::prelude::*;

use crate::ast::{Expectation, GenericParam, Ident, TypePath, TypeRef};
use crate::error::{
    disambiguation_needed, disambiguation_needed_view, unexpected_item, unexpected_item_view, AmbiguitySource, Diagnostic,
    DiagnosticView, ItemHint,
};
use super::graph::{
    is_trait_or_impl_or_arch_kind, is_type_existence_checking_candidate_kind, is_type_kind,
    is_valid_pub_path_segment_kind, item_hint_of_kind, NodeKind, ResolutionGraph, ResolutionIndex,
};
use super::type_path::{lemma_self_names_enclosing_item, path_lookup, PathFinder};
use super::uses::all_below;
use super::visibility::{is_ancestor, views, VisibilitySolver};

verus! {

/// Whether the node `i` is what a path of the given expectation must name:
/// a trait, or a type (or, for the single segment `Self`, a trait, `impl` or `arch`).
pub open spec fn accepts(g: ResolutionGraph, i: ResolutionIndex, path: TypePath, expect: Expectation) -> bool {
    match expect {
        Expectation::Trait => g.kind_of(i.0 as int) == NodeKind::Trait,
        Expectation::Type => is_type_kind(g.kind_of(i.0 as int)) || (path.segments@.len() == 1
            && path.segments@[0].ident.inner@ == "Self"@ && is_trait_or_impl_or_arch_kind(g.kind_of(i.0 as int))),
    }
}

pub open spec fn expected_hint(expect: Expectation) -> ItemHint {
    match expect {
        Expectation::Trait => ItemHint::Trait,
        Expectation::Type => ItemHint::Type,
    }
}

/// The hint for what a node is; a node without one counts as an item.
pub open spec fn hint_or_item(g: ResolutionGraph, i: ResolutionIndex) -> ItemHint {
    match item_hint_of_kind(g.kind_of(i.0 as int)) {
        Some(h) => h,
        None => ItemHint::Item,
    }
}

/// What a path concludes from the nodes its lookup found (or the lookup's
/// error): the one acceptable node, or the error to report. An unexpected
/// item is reported as `unexpected_item` names its arguments: the hint of
/// what was found first, then the hint of what was expected.
pub open spec fn found_outcome(
    g: ResolutionGraph,
    scope: int,
    path: TypePath,
    expect: Expectation,
    found: Result<Seq<ResolutionIndex>, DiagnosticView>,
) -> Result<ResolutionIndex, DiagnosticView> {
    match found {
        Err(d) => Err(d),
        Ok(v) => {
            let matching = v.filter(|i: ResolutionIndex| accepts(g, i, path, expect));
            let ident = path.segments@.last().ident;
            if matching.len() == 1 {
                Ok(matching[0])
            } else if matching.len() == 0 {
                Err(unexpected_item_view(g.spec_file(scope), ident.inner@, ident.span, hint_or_item(g, v[0]),
                    expected_hint(expect)))
            } else {
                Err(disambiguation_needed_view(g.spec_file(scope), ident.inner@, ident.span,
                    AmbiguitySource::Item(expected_hint(expect))))
            }
        },
    }
}

/// What a lookup that found a single node concludes: a trait path accepts
/// only a trait, a type path a struct, an enum or a type alias; any other
/// node (a function, a module, a constant...) is reported as an unexpected
/// item, with the hint of what was found and of what was expected.
pub proof fn lemma_single_node_outcome(
    g: ResolutionGraph,
    scope: int,
    path: TypePath,
    expect: Expectation,
    i: ResolutionIndex,
)
    requires
        path.segments@.len() > 0,
    ensures
        expect == Expectation::Trait && g.kind_of(i.0 as int) == NodeKind::Trait ==> found_outcome(g, scope, path,
            expect, Ok(seq![i])) == Ok::<ResolutionIndex, DiagnosticView>(i),
        expect == Expectation::Trait && g.kind_of(i.0 as int) != NodeKind::Trait ==> found_outcome(g, scope, path,
            expect, Ok(seq![i])) == Err::<ResolutionIndex, DiagnosticView>(unexpected_item_view(g.spec_file(scope),
            path.segments@.last().ident.inner@, path.segments@.last().ident.span, hint_or_item(g, i), ItemHint::Trait)),
        expect == Expectation::Type && (g.kind_of(i.0 as int) == NodeKind::Struct || g.kind_of(i.0 as int)
            == NodeKind::Enum || g.kind_of(i.0 as int) == NodeKind::Type) ==> found_outcome(g, scope, path, expect,
            Ok(seq![i])) == Ok::<ResolutionIndex, DiagnosticView>(i),
        expect == Expectation::Type && !(g.kind_of(i.0 as int) == NodeKind::Struct || g.kind_of(i.0 as int)
            == NodeKind::Enum || g.kind_of(i.0 as int) == NodeKind::Type || g.kind_of(i.0 as int) == NodeKind::Trait
            || g.kind_of(i.0 as int) == NodeKind::Impl || g.kind_of(i.0 as int) == NodeKind::Arch)
            ==> found_outcome(g, scope, path, expect, Ok(seq![i])) == Err::<ResolutionIndex, DiagnosticView>(
            unexpected_item_view(g.spec_file(scope), path.segments@.last().ident.inner@,
            path.segments@.last().ident.span, hint_or_item(g, i), ItemHint::Type)),
{
    let f = |x: ResolutionIndex| accepts(g, x, path, expect);
    assert(seq![i].drop_last() =~= Seq::<ResolutionIndex>::empty());
    if f(i) {
        assert(seq![i].filter(f) =~= seq![i]) by {
            reveal_with_fuel(Seq::filter, 2);
        }
    } else {
        assert(seq![i].filter(f) =~= Seq::<ResolutionIndex>::empty()) by {
            reveal_with_fuel(Seq::filter, 2);
        }
    }
}

/// Decides a path from the nodes its lookup found.
pub fn resolve_found(
    g: &ResolutionGraph,
    scope: ResolutionIndex,
    path: &TypePath,
    expect: Expectation,
    found: Result<Vec<ResolutionIndex>, Diagnostic>,
) -> (r: Result<ResolutionIndex, Diagnostic>)
    requires
        g.wf(),
        g.roots_have_files(),
        scope.0 < g.len(),
        path.segments@.len() > 0,
        found matches Ok(v) ==> v@.len() > 0 && all_below(v@, g.len()),
    ensures
        match r {
            Ok(i) => found_outcome(*g, scope.0 as int, *path, expect, match found {
                Ok(v) => Ok(v@),
                Err(e) => Err(e@),
            }) == Ok::<ResolutionIndex, DiagnosticView>(i),
            Err(e) => found_outcome(*g, scope.0 as int, *path, expect, match found {
                Ok(v) => Ok(v@),
                Err(e) => Err(e@),
            }) == Err::<ResolutionIndex, DiagnosticView>(e@),
        },
{
    let found = match found {
        Ok(v) => v,
        Err(e) => {
            return Err(e);
        },
    };
    let single_self = path.segments.len() == 1 && path.segments[0].ident.is("Self");
    let mut matching: Vec<ResolutionIndex> = Vec::new();
    let mut k: usize = 0;
    while k < found.len()
        invariant
            g.wf(),
            all_below(found@, g.len()),
            single_self == (path.segments@.len() == 1 && path.segments@[0].ident.inner@ == "Self"@),
            k <= found@.len(),
            matching@ == found@.take(k as int).filter(|i: ResolutionIndex| accepts(*g, i, *path, expect)),
        decreases found@.len() - k,
    {
        let i = found[k];
        proof {
            assert(found@.take(k + 1).drop_last() =~= found@.take(k as int));
            reveal_with_fuel(Seq::filter, 1);
        }
        let n = g.get(i);
        let ok = match expect {
            Expectation::Trait => n.is_trait(),
            Expectation::Type => n.is_type() || (single_self && n.is_trait_or_impl_or_arch()),
        };
        if ok {
            matching.push(i);
        }
        k = k + 1;
    }
    assert(found@.take(found@.len() as int) =~= found@);
    let hint = match expect {
        Expectation::Trait => ItemHint::Trait,
        Expectation::Type => ItemHint::Type,
    };
    if matching.len() == 1 {
        Ok(matching[0])
    } else {
        let file = g.file(scope);
        let ident = &path.segments[path.segments.len() - 1].ident;
        if matching.len() == 0 {
            let actual = match g.get(found[0]).item_hint() {
                Some(h) => h,
                None => ItemHint::Item,
            };
            Err(unexpected_item(file, ident, actual, hint))
        } else {
            Err(disambiguation_needed(file, ident, AmbiguitySource::Item(hint)))
        }
    }
}

/// The node `i` has a type parameter called `name`.
pub open spec fn has_type_param(g: ResolutionGraph, i: int, name: Seq<char>) -> bool {
    match g.node(i).spec_generics() {
        Some(ps) => any_type_param(ps@, name, ps@.len() as int),
        None => false,
    }
}

/// One of the first `n` parameters is a type parameter called `name`.
pub open spec fn any_type_param(ps: Seq<GenericParam>, name: Seq<char>, n: int) -> bool
    decreases n,
{
    if n <= 0 || n > ps.len() {
        false
    } else {
        any_type_param(ps, name, n - 1) || (ps[n - 1].is_type && ps[n - 1].ident.inner@ == name)
    }
}

/// Some scope from `i` up to (not including) the nearest module or root has a
/// type parameter called `name`.
pub open spec fn generic_in_scope(g: ResolutionGraph, i: int, name: Seq<char>) -> bool
    decreases i,
{
    if 0 <= i < g.len() {
        has_type_param(g, i, name) || match g.node(i).spec_parent() {
            Some(p) => p.0 < i && !is_valid_pub_path_segment_kind(g.kind_of(p.0 as int)) && generic_in_scope(g, p.0 as int, name),
            None => false,
        }
    } else {
        false
    }
}

/// The error a type reference written in `scope` leaves, given what its
/// lookup found: none when it found one acceptable node, or when a type
/// written as a bare identifier names a generic parameter in scope.
pub open spec fn type_ref_error(
    g: ResolutionGraph,
    scope: int,
    tr: TypeRef,
    found: Result<Seq<ResolutionIndex>, DiagnosticView>,
) -> Option<DiagnosticView> {
    match found_outcome(g, scope, tr.path, tr.expect, found) {
        Ok(_) => None,
        Err(d) => if tr.expect == Expectation::Type && tr.path.segments@.len() == 1
            && !tr.path.segments@[0].has_generic_args && generic_in_scope(g, scope, tr.path.segments@[0].ident.inner@) {
            None
        } else {
            Some(d)
        },
    }
}

/// A type parameter among the first `n` is found.
proof fn lemma_any_type_param(ps: Seq<GenericParam>, name: Seq<char>, k: int, n: int)
    requires
        0 <= k < n <= ps.len(),
        ps[k].is_type,
        ps[k].ident.inner@ == name,
    ensures
        any_type_param(ps, name, n),
    decreases n,
{
    if k < n - 1 {
        lemma_any_type_param(ps, name, k, n - 1);
    }
}

/// A type parameter called `name` of a scope `a` is in scope at `i` when `a`
/// is `i` itself or an ancestor reached through no module or root (such as
/// the `impl` around a method), and a type written there as the bare
/// identifier `name` is then never reported, whatever its lookup found.
pub proof fn lemma_enclosing_type_param_in_scope(
    g: ResolutionGraph,
    a: int,
    i: int,
    k: int,
    tr: TypeRef,
    found: Result<Seq<ResolutionIndex>, DiagnosticView>,
)
    requires
        g.wf(),
        0 <= i < g.len(),
        a == i || is_ancestor(g, a, i),
        g.node(a).spec_generics() matches Some(ps) && 0 <= k < ps@.len() && ps@[k].is_type,
        forall|m: int| #[trigger] is_ancestor(g, m, i) && (m == a || is_ancestor(g, a, m))
            ==> !is_valid_pub_path_segment_kind(g.kind_of(m)),
    ensures
        generic_in_scope(g, i, g.node(a).spec_generics().unwrap()@[k].ident.inner@),
        tr.expect == Expectation::Type && tr.path.segments@.len() == 1 && !tr.path.segments@[0].has_generic_args
            && tr.path.segments@[0].ident.inner@ == g.node(a).spec_generics().unwrap()@[k].ident.inner@
            ==> type_ref_error(g, i, tr, found) is None,
    decreases i,
{
    let ps = g.node(a).spec_generics().unwrap();
    let name = ps@[k].ident.inner@;
    assert(g.node_ok(i));
    if a == i {
        lemma_any_type_param(ps@, name, k, ps@.len() as int);
    } else {
        let p = g.node(i).spec_parent().unwrap();
        assert(is_ancestor(g, p.0 as int, i));
        assert forall|m: int| #[trigger] is_ancestor(g, m, p.0 as int) && (m == a || is_ancestor(g, a, m))
            implies !is_valid_pub_path_segment_kind(g.kind_of(m)) by {
            assert(is_ancestor(g, m, i));
        }
        lemma_enclosing_type_param_in_scope(g, a, p.0 as int, k, tr, found);
    }
}

/// `Self` written as a type in a node directly inside a trait, `impl` or
/// `arch` names that item and is accepted: its check reports nothing.
pub proof fn lemma_self_type_accepted(g: ResolutionGraph, solver: VisibilitySolver, dest: int, tr: TypeRef)
    requires
        0 <= dest < g.len(),
        g.node(dest).spec_parent() matches Some(p) && is_trait_or_impl_or_arch_kind(g.kind_of(p.0 as int)),
        tr.expect == Expectation::Type,
        tr.path.segments@.len() == 1,
        tr.path.segments@[0].ident.inner@ == "Self"@,
    ensures
        type_ref_error(g, dest, tr, path_lookup(g, solver, dest, tr.path)) is None,
{
    let p = g.node(dest).spec_parent().unwrap();
    lemma_self_names_enclosing_item(g, solver, dest, tr.path);
    let f = |i: ResolutionIndex| accepts(g, i, tr.path, tr.expect);
    assert(f(p));
    assert(seq![p].filter(f) =~= seq![p]) by {
        reveal_with_fuel(Seq::filter, 2);
        assert(seq![p].drop_last() =~= Seq::<ResolutionIndex>::empty());
    }
}

fn has_type_param_exec(g: &ResolutionGraph, i: ResolutionIndex, name: &Ident) -> (r: bool)
    requires
        i.0 < g.len(),
    ensures
        r == has_type_param(*g, i.0 as int, name.inner@),
{
    match g.get(i).generics() {
        Some(ps) => {
            let mut found = false;
            let mut k: usize = 0;
            while k < ps.len()
                invariant
                    k <= ps@.len(),
                    found == any_type_param(ps@, name.inner@, k as int),
                decreases ps@.len() - k,
            {
                let here = ps[k].is_type && ps[k].ident.same_text(name);
                found = found || here;
                k = k + 1;
            }
            found
        },
        None => false,
    }
}

fn generic_in_scope_exec(g: &ResolutionGraph, scope: ResolutionIndex, name: &Ident) -> (r: bool)
    requires
        g.wf(),
        scope.0 < g.len(),
    ensures
        r == generic_in_scope(*g, scope.0 as int, name.inner@),
{
    let mut current = scope;
    loop
        invariant
            g.wf(),
            current.0 < g.len(),
            generic_in_scope(*g, scope.0 as int, name.inner@) == generic_in_scope(*g, current.0 as int, name.inner@),
        decreases current.0,
    {
        proof {
            assert(g.node_ok(current.0 as int));
        }
        if has_type_param_exec(g, current, name) {
            return true;
        }
        match g.get(current).parent() {
            Some(p) => {
                if g.get(p).is_valid_type_path_segment() {
                    return false;
                }
                current = p;
            },
            None => {
                return false;
            },
        }
    }
}

/// Looks up the path of `tr`, written in `scope`, and decides it.
pub fn check_type_ref(pf: &mut PathFinder, scope: ResolutionIndex, tr: &TypeRef) -> (r: Option<Diagnostic>)
    requires
        old(pf).inv(),
        scope.0 < old(pf).resolution_graph.len(),
        tr.path.segments@.len() > 0,
    ensures
        final(pf).inv(),
        final(pf).resolution_graph == old(pf).resolution_graph,
        final(pf).vis_solver == old(pf).vis_solver,
        match r {
            Some(e) => type_ref_error(*old(pf).resolution_graph, scope.0 as int, *tr, path_lookup(
                *old(pf).resolution_graph,
                *old(pf).vis_solver,
                scope.0 as int,
                tr.path,
            )) == Some(e@),
            None => type_ref_error(*old(pf).resolution_graph, scope.0 as int, *tr, path_lookup(
                *old(pf).resolution_graph,
                *old(pf).vis_solver,
                scope.0 as int,
                tr.path,
            )).is_none(),
        },
{
    let g = pf.resolution_graph;
    let found = pf.find_at_path(scope, &tr.path);
    let ghost found_view = match &found {
        Ok(v) => Ok::<Seq<ResolutionIndex>, DiagnosticView>(v@),
        Err(e) => Err::<Seq<ResolutionIndex>, DiagnosticView>(e@),
    };
    let outcome = resolve_found(g, scope, &tr.path, tr.expect, found);
    let r = match outcome {
        Ok(_) => None,
        Err(e) => {
            let generic = match tr.expect {
                Expectation::Type => tr.path.segments.len() == 1 && !tr.path.segments[0].has_generic_args
                    && generic_in_scope_exec(g, scope, &tr.path.segments[0].ident),
                Expectation::Trait => false,
            };
            if generic {
                None
            } else {
                Some(e)
            }
        },
    };
    assert(found_view matches Ok(v) ==> v.len() > 0);
    assert(match r {
        Some(e) => type_ref_error(*g, scope.0 as int, *tr, found_view) == Some(e@),
        None => type_ref_error(*g, scope.0 as int, *tr, found_view).is_none(),
    });
    r
}

/// The errors for the first `k` of the type references `refs` of node `i`,
/// each looked up where it is written.
pub open spec fn node_ref_errors(
    g: ResolutionGraph,
    solver: VisibilitySolver,
    i: int,
    refs: Seq<TypeRef>,
    k: int,
) -> Seq<DiagnosticView>
    decreases k,
{
    if k <= 0 || k > refs.len() {
        Seq::empty()
    } else {
        let a = node_ref_errors(g, solver, i, refs, k - 1);
        if refs[k - 1].path.segments@.len() == 0 {
            a
        } else {
            a + match type_ref_error(g, i, refs[k - 1], path_lookup(g, solver, i, refs[k - 1].path)) {
                Some(e) => seq![e],
                None => Seq::empty(),
            }
        }
    }
}

/// The errors of checking the type references of the first `n` nodes, node
/// by node and in the order they are written; only the items that can hold
/// them are checked.
pub open spec fn type_existence_errors(g: ResolutionGraph, solver: VisibilitySolver, n: int) -> Seq<DiagnosticView>
    decreases n,
{
    if n <= 0 {
        Seq::empty()
    } else {
        let a = type_existence_errors(g, solver, n - 1);
        if is_type_existence_checking_candidate_kind(g.kind_of(n - 1)) {
            let refs = g.node(n - 1).spec_type_refs();
            a + node_ref_errors(g, solver, n - 1, refs, refs.len() as int)
        } else {
            a
        }
    }
}

/// Checks the type and trait paths of every item of a graph.
pub struct TypeExistenceChecker<'a> {
    pub resolution_graph: &'a ResolutionGraph,
    pub vis_solver: &'a VisibilitySolver,
    pub errors: Vec<Diagnostic>,
}

impl<'a> TypeExistenceChecker<'a> {
    /// Checks the type references `refs` of node `scope`, in order.
    #[verifier::rlimit(30)]
    fn check_refs(&mut self, pf: &mut PathFinder, scope: ResolutionIndex, refs: &Vec<TypeRef>)
        requires
            old(pf).inv(),
            old(pf).resolution_graph == old(self).resolution_graph,
            old(pf).vis_solver == old(self).vis_solver,
            scope.0 < old(self).resolution_graph.len(),
        ensures
            final(pf).inv(),
            final(pf).resolution_graph == old(pf).resolution_graph,
            final(pf).vis_solver == old(pf).vis_solver,
            final(self).resolution_graph == old(self).resolution_graph,
            final(self).vis_solver == old(self).vis_solver,
            old(self).errors@.is_prefix_of(final(self).errors@),
            views(final(self).errors@) == views(old(self).errors@) + node_ref_errors(*old(self).resolution_graph,
                *old(self).vis_solver, scope.0 as int, refs@, refs@.len() as int),
    {
        let g = self.resolution_graph;
        let ghost solver = *self.vis_solver;
        let ghost start = self.errors@;
        proof {
            assert(start.subrange(0, start.len() as int) =~= start);
            assert(views(start) + Seq::<DiagnosticView>::empty() =~= views(start));
        }
        let mut k: usize = 0;
        while k < refs.len()
            invariant
                g == self.resolution_graph,
                g == old(self).resolution_graph,
                self.vis_solver == old(self).vis_solver,
                solver == *self.vis_solver,
                pf.inv(),
                pf.resolution_graph == g,
                pf.vis_solver == self.vis_solver,
                scope.0 < g.len(),
                k <= refs@.len(),
                start == old(self).errors@,
                start.is_prefix_of(self.errors@),
                views(self.errors@) == views(start) + node_ref_errors(*g, solver, scope.0 as int, refs@, k as int),
            decreases refs@.len() - k,
        {
            let ghost before_ref = views(self.errors@);
            let ghost prefix = node_ref_errors(*g, solver, scope.0 as int, refs@, k as int);
            if refs[k].path.segments.len() > 0 {
                if let Some(e) = check_type_ref(pf, scope, &refs[k]) {
                    let ghost before = self.errors@;
                    self.errors.push(e);
                    proof {
                        assert forall|x: int| 0 <= x < start.len() implies start[x] == self.errors@[x] by {
                            assert(start[x] == before[x]);
                        }
                        assert(views(self.errors@) =~= before_ref.push(e@));
                        assert((views(start) + prefix).push(e@) =~= views(start) + (prefix + seq![e@]));
                    }
                } else {
                    proof {
                        assert(prefix + Seq::<DiagnosticView>::empty() =~= prefix);
                    }
                }
            }
            k = k + 1;
        }
    }

    /// Checks, node by node and in the order they are written, the type and
    /// trait references of the items that can hold them; each reference
    /// reports at most one error.
    pub fn visit_all(&mut self)
        requires
            old(self).resolution_graph.wf(),
            old(self).resolution_graph.roots_have_files(),
            old(self).vis_solver.matches(*old(self).resolution_graph),
        ensures
            final(self).resolution_graph == old(self).resolution_graph,
            final(self).vis_solver == old(self).vis_solver,
            old(self).errors@.is_prefix_of(final(self).errors@),
            views(final(self).errors@) == views(old(self).errors@) + type_existence_errors(*old(self).resolution_graph,
                *old(self).vis_solver, old(self).resolution_graph.len() as int),
    {
        let g = self.resolution_graph;
        let ghost solver = *self.vis_solver;
        let ghost start = self.errors@;
        let mut pf = PathFinder::new(g, self.vis_solver);
        let mut i: usize = 0;
        proof {
            assert(start.subrange(0, start.len() as int) =~= start);
            assert(views(start) + Seq::<DiagnosticView>::empty() =~= views(start));
        }
        while i < g.inner.len()
            invariant
                g == self.resolution_graph,
                g == old(self).resolution_graph,
                self.vis_solver == old(self).vis_solver,
                solver == *self.vis_solver,
                pf.inv(),
                pf.resolution_graph == g,
                pf.vis_solver == self.vis_solver,
                i <= g.len(),
                start == old(self).errors@,
                start.is_prefix_of(self.errors@),
                views(self.errors@) == views(start) + type_existence_errors(*g, solver, i as int),
            decreases g.len() - i,
        {
            let scope = ResolutionIndex(i);
            let n = g.get(scope);
            let ghost before_node = type_existence_errors(*g, solver, i as int);
            let ghost before_views = views(self.errors@);
            let ghost before_errors = self.errors@;
            if n.is_type_existence_checking_candidate() {
                match n.type_refs() {
                    Some(refs) => {
                        self.check_refs(&mut pf, scope, refs);
                        proof {
                            lemma_prefix_trans(start, before_errors, self.errors@);
                            let b = node_ref_errors(*g, solver, i as int, refs@, refs@.len() as int);
                            assert(views(self.errors@) =~= views(start) + (before_node + b));
                        }
                    },
                    None => {
                        proof {
                            assert(before_node + Seq::<DiagnosticView>::empty() =~= before_node);
                        }
                    },
                }
            }
            i = i + 1;
        }
    }
}

proof fn lemma_prefix_trans(a: Seq<Diagnostic>, b: Seq<Diagnostic>, c: Seq<Diagnostic>)
    requires
        a.is_prefix_of(b),
        b.is_prefix_of(c),
    ensures
        a.is_prefix_of(c),
{
    assert forall|x: int| 0 <= x < a.len() implies a[x] == c[x] by {
        assert(a[x] == b[x]);
    }
}

} // verus!
