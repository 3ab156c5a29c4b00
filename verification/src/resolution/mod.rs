//! The resolution graph and the passes over it: building it from the files,
//! tracing `use` items, and checking names, imports and type paths.

pub mod conflicts;
pub mod graph;
pub mod name;
pub mod path;
pub mod scope_builder;
pub mod type_existence;
pub mod type_path;
pub mod uses;
pub mod visibility;

pub use graph::{Branch, Leaf, ResolutionGraph, ResolutionIndex, ResolutionNode};

use vstd::prelude::*;

use crate::error::{invalid_raw_identifier, invalid_raw_identifier_view, Diagnostic, DiagnosticView};
use crate::find_file::FileGraph;
use crate::ident::{can_be_raw, spec_can_be_raw};
use conflicts::{all_conflict_errors, ConflictChecker};
use type_existence::{type_existence_errors, TypeExistenceChecker};
use visibility::views;
use graph::NodeKind;
use scope_builder::{item_node_at, lemma_graph_extends_files, nodes_for_items, Item, ScopeBuilder};
use uses::UseResolver;
use visibility::{all_export_errors, build_visibility_solver, VisibilitySolver};

verus! {

/// The errors for the identifier tokens among the first `n` of file `f`
/// that cannot be raw.
pub open spec fn raw_ident_errors_in(fg: FileGraph, f: int, n: int) -> Seq<DiagnosticView>
    decreases n,
{
    if n <= 0 || n > fg.files@[f].idents@.len() {
        Seq::empty()
    } else {
        let ident = fg.files@[f].idents@[n - 1];
        raw_ident_errors_in(fg, f, n - 1) + if spec_can_be_raw(ident.inner@) {
            Seq::empty()
        } else {
            seq![invalid_raw_identifier_view(f as usize, ident.span)]
        }
    }
}

/// The errors for the identifier tokens of the first `n` files that cannot be raw.
pub open spec fn raw_ident_errors(fg: FileGraph, n: int) -> Seq<DiagnosticView>
    decreases n,
{
    if n <= 0 || n > fg.files@.len() {
        Seq::empty()
    } else {
        raw_ident_errors(fg, n - 1) + raw_ident_errors_in(fg, n - 1, fg.files@[n - 1].idents@.len() as int)
    }
}

/// The children of `root` are, in order, the nodes made for `items`.
pub open spec fn root_holds_items(g: ResolutionGraph, root: ResolutionIndex, items: Seq<Item>) -> bool {
    g.node(root.0 as int).spec_children() matches Some(cs) && nodes_for_items(g, cs, items, root)
}

/// The errors end with those of the visibilities of the graph's nodes, in
/// node order (before them come those met while building the graph).
pub open spec fn ends_with_export_errors(errors: Seq<Diagnostic>, g: ResolutionGraph) -> bool {
    let e = all_export_errors(g, g.len() as int);
    &&& views(errors).len() >= e.len()
    &&& views(errors).subrange(views(errors).len() - e.len(), views(errors).len() as int) == e
}

/// Whether the graph holds a `use` item.
pub open spec fn has_use_item(g: ResolutionGraph) -> bool {
    exists|i: int| 0 <= i < g.len() && #[trigger] g.kind_of(i) == NodeKind::Use
}

/// Resolution of a whole source tree.
#[derive(Debug)]
pub struct Resolver<'a> {
    pub file_graph: &'a FileGraph,
    pub resolution_graph: ResolutionGraph,
    pub errors: Vec<Diagnostic>,
    pub vis_solver: VisibilitySolver,
    /// Per node: whether its `use` tree has been traced.
    pub resolved_uses: Vec<bool>,
}

impl<'a> Resolver<'a> {
    pub open spec fn inv(&self) -> bool {
        &&& self.resolution_graph.wf()
        &&& self.resolution_graph.roots_have_files()
        &&& self.file_graph.wf()
        &&& self.vis_solver.matches(self.resolution_graph)
        &&& self.resolved_uses@.len() == self.resolution_graph.len()
    }

    /// Whether every `use` item of the graph has been traced.
    pub open spec fn all_uses_traced(&self) -> bool {
        forall|i: int| 0 <= i < self.resolution_graph.len() && #[trigger] self.resolution_graph.kind_of(i)
            == NodeKind::Use ==> self.resolved_uses@[i]
    }

    /// Builds the graph: one root per root file, with the items of each file
    /// (and of the module files they lead to) under it; then works out where
    /// every item is visible.
    pub fn build(file_graph: &'a FileGraph) -> (r: Resolver<'a>)
        requires
            file_graph.wf(),
        ensures
            r.inv(),
            r.file_graph == file_graph,
            r.resolution_graph.roots@.len() == file_graph.roots@.len(),
            forall|k: int| 0 <= k < r.resolution_graph.roots@.len() ==> #[trigger] r.resolution_graph.content_files@[
                r.resolution_graph.roots@[k].0 as int] == Some(file_graph.roots@[k]),
            forall|i: int| 0 <= i < r.resolved_uses@.len() ==> !#[trigger] r.resolved_uses@[i],
            forall|k: int| 0 <= k < r.resolution_graph.roots@.len() ==> #[trigger] root_holds_items(
                r.resolution_graph,
                r.resolution_graph.roots@[k],
                file_graph.files@[file_graph.roots@[k] as int].items@,
            ),
            ends_with_export_errors(r.errors@, r.resolution_graph),
    {
        let mut resolution_graph = ResolutionGraph::new();
        let mut errors: Vec<Diagnostic> = Vec::new();
        let mut k: usize = 0;
        while k < file_graph.roots.len()
            invariant
                file_graph.wf(),
                resolution_graph.wf(),
                resolution_graph.roots_have_files(),
                k <= file_graph.roots@.len(),
                resolution_graph.roots@.len() == k,
                forall|j: int| 0 <= j < k ==> #[trigger] resolution_graph.content_files@[
                    resolution_graph.roots@[j].0 as int] == Some(file_graph.roots@[j]),
                forall|j: int| 0 <= j < k ==> #[trigger] root_holds_items(
                    resolution_graph,
                    resolution_graph.roots@[j],
                    file_graph.files@[file_graph.roots@[j] as int].items@,
                ),
            decreases file_graph.roots@.len() - k,
        {
            let file_index = file_graph.roots[k];
            let ghost g0 = resolution_graph;
            let root = resolution_graph.add_node(ResolutionNode::Root { name: String::new(), children: Vec::new() });
            resolution_graph.set_content_file(root, file_index);
            let ghost g1 = resolution_graph;
            proof {
                assert forall|i: int| 0 <= i < g1.len() && #[trigger] g1.kind_of(i) == NodeKind::Root implies
                    g1.content_files@[i].is_some() by {
                    if i < g0.len() {
                        assert(g0.kind_of(i) == NodeKind::Root);
                    }
                }
            }
            let mut builder = ScopeBuilder::new(resolution_graph, errors, file_index, root);
            builder.visit_items(file_graph, &file_graph.files[file_index].items);
            proof {
                let g2 = builder.resolution_graph;
                assert(g1.node(root.0 as int).spec_children() == Some(Seq::<ResolutionIndex>::empty()));
                let cs = g2.node(root.0 as int).spec_children().unwrap();
                assert(cs.subrange(0, cs.len() as int) =~= cs);
                assert(g2.roots@ == g1.roots@);
                assert(g1.roots@ == g0.roots@.push(root));
                assert forall|j: int| 0 <= j <= k implies #[trigger] root_holds_items(
                    g2,
                    g2.roots@[j],
                    file_graph.files@[file_graph.roots@[j] as int].items@,
                ) by {
                    if j < k {
                        let rt = g0.roots@[j];
                        assert(root_holds_items(g0, rt, file_graph.files@[file_graph.roots@[j] as int].items@));
                        assert(rt.0 < g0.len());
                        assert(g1.inner@[rt.0 as int] == g0.inner@[rt.0 as int]);
                        assert(g2.inner@[rt.0 as int] == g1.inner@[rt.0 as int]);
                        let rcs = g0.node(rt.0 as int).spec_children().unwrap();
                        let its = file_graph.files@[file_graph.roots@[j] as int].items@;
                        assert forall|m: int| 0 <= m < its.len() implies #[trigger] item_node_at(g2, rcs[m], its[m], rt) by {
                            assert(item_node_at(g0, rcs[m], its[m], rt));
                            assert(g1.inner@[rcs[m].0 as int] == g0.inner@[rcs[m].0 as int]);
                            assert(g2.inner@[rcs[m].0 as int] == g1.inner@[rcs[m].0 as int]);
                        }
                    }
                }
            }
            proof {
                lemma_graph_extends_files(g1, builder.resolution_graph);
                assert forall|j: int| 0 <= j <= k implies #[trigger] builder.resolution_graph.content_files@[
                    builder.resolution_graph.roots@[j].0 as int] == Some(file_graph.roots@[j]) by {
                    assert(g1.roots@[j].0 < g1.len());
                }
            }
            resolution_graph = builder.resolution_graph;
            errors = builder.errors;
            k = k + 1;
        }
        let ghost before_exports = views(errors@);
        let vis_solver = build_visibility_solver(&resolution_graph, &mut errors);
        proof {
            let e = all_export_errors(resolution_graph, resolution_graph.len() as int);
            assert(views(errors@).subrange(before_exports.len() as int, views(errors@).len() as int) =~= e);
        }
        let use_resolver = UseResolver::new(resolution_graph, vis_solver);
        Resolver {
            file_graph,
            resolution_graph: use_resolver.resolution_graph,
            errors: errors,
            vis_solver: use_resolver.vis_solver,
            resolved_uses: use_resolver.resolved_uses,
        }
    }

    /// Traces every `use` item of the graph. Tracing only adds leaves under
    /// `use` items: every other node stays as it was.
    pub fn build_graph(&mut self)
        requires
            old(self).inv(),
        ensures
            final(self).inv(),
            final(self).all_uses_traced(),
            final(self).file_graph == old(self).file_graph,
            old(self).errors@.is_prefix_of(final(self).errors@),
            uses::graph_grows(old(self).resolution_graph, final(self).resolution_graph),
            forall|u: int| 0 <= u < old(self).resolution_graph.len() && old(self).resolution_graph.kind_of(u)
                == NodeKind::Use && !#[trigger] old(self).resolved_uses@[u] && uses::yields(
                uses::use_tree_of(old(self).resolution_graph.node(u)).unwrap(),
            ) ==> final(self).errors@.len() > old(self).errors@.len() || final(self).resolution_graph.node(
                u,
            ).spec_children().unwrap().len() > old(self).resolution_graph.node(u).spec_children().unwrap().len(),
            !has_use_item(old(self).resolution_graph) ==> {
                &&& final(self).resolution_graph == old(self).resolution_graph
                &&& final(self).errors == old(self).errors
                &&& final(self).vis_solver == old(self).vis_solver
            },
    {
        let mut state = UseResolver {
            resolution_graph: ResolutionGraph::new(),
            errors: Vec::new(),
            resolved_uses: Vec::new(),
            vis_solver: VisibilitySolver { parents: Vec::new(), exports: Vec::new() },
        };
        std::mem::swap(&mut state.resolution_graph, &mut self.resolution_graph);
        std::mem::swap(&mut state.errors, &mut self.errors);
        std::mem::swap(&mut state.resolved_uses, &mut self.resolved_uses);
        std::mem::swap(&mut state.vis_solver, &mut self.vis_solver);
        let ghost start = state;
        let use_indices = state.resolution_graph.node_indices();
        let mut k: usize = 0;
        while k < use_indices.len()
            invariant
                state.inv(),
                start.inv(),
                start.keeps(state),
                use_indices@.len() == start.resolution_graph.len(),
                forall|i: int| 0 <= i < use_indices@.len() ==> (#[trigger] use_indices@[i]).0 == i,
                k <= use_indices@.len(),
                forall|i: int| 0 <= i < k && #[trigger] state.resolution_graph.kind_of(i) == NodeKind::Use
                    ==> state.resolved_uses@[i],
                !has_use_item(start.resolution_graph) ==> state == start,
            decreases use_indices@.len() - k,
        {
            let ghost mid = state;
            let idx = use_indices[k];
            if state.resolution_graph.get(idx).is_use() {
                state.resolve_use(idx);
            } else {
                proof {
                    uses::lemma_keeps_refl(state);
                }
            }
            proof {
                uses::lemma_keeps_trans(start, mid, state);
                assert forall|i: int| 0 <= i <= k && #[trigger] state.resolution_graph.kind_of(i) == NodeKind::Use
                    implies state.resolved_uses@[i] by {
                    uses::lemma_node_grows(mid.resolution_graph.inner@[i], state.resolution_graph.inner@[i]);
                    if i < k {
                        assert(mid.resolution_graph.kind_of(i) == NodeKind::Use);
                        assert(mid.resolved_uses@[i]);
                    }
                }
            }
            k = k + 1;
        }
        proof {
            assert forall|i: int| 0 <= i < state.resolution_graph.len() && #[trigger] state.resolution_graph.kind_of(i)
                == NodeKind::Use implies state.resolved_uses@[i] by {
                if i >= start.resolution_graph.len() {
                    assert(uses::is_use_leaf_kind(state.resolution_graph.kind_of(i)));
                }
            }
            assert forall|u: int| 0 <= u < start.resolution_graph.len() && start.resolution_graph.kind_of(u)
                == NodeKind::Use && !#[trigger] start.resolved_uses@[u] && uses::yields(
                uses::use_tree_of(start.resolution_graph.node(u)).unwrap(),
            ) implies uses::grew(start, state, u) by {
                uses::lemma_node_grows(start.resolution_graph.inner@[u], state.resolution_graph.inner@[u]);
                assert(state.resolution_graph.kind_of(u) == NodeKind::Use);
                assert(state.resolved_uses@[u]);
            }
        }
        std::mem::swap(&mut state.resolution_graph, &mut self.resolution_graph);
        std::mem::swap(&mut state.errors, &mut self.errors);
        std::mem::swap(&mut state.resolved_uses, &mut self.resolved_uses);
        std::mem::swap(&mut state.vis_solver, &mut self.vis_solver);
    }

    /// The identifier tokens of every file that cannot be written raw.
    pub fn find_invalid_names(&self) -> (r: Vec<Diagnostic>)
        ensures
            views(r@) == raw_ident_errors(*self.file_graph, self.file_graph.files@.len() as int),
    {
        let fg = self.file_graph;
        let mut errors: Vec<Diagnostic> = Vec::new();
        let mut f: usize = 0;
        while f < fg.files.len()
            invariant
                f <= fg.files@.len(),
                views(errors@) == raw_ident_errors(*fg, f as int),
            decreases fg.files@.len() - f,
        {
            let idents = &fg.files[f].idents;
            let ghost base = views(errors@);
            let mut k: usize = 0;
            while k < idents.len()
                invariant
                    f < fg.files@.len(),
                    idents@ == fg.files@[f as int].idents@,
                    k <= idents@.len(),
                    views(errors@) == base + raw_ident_errors_in(*fg, f as int, k as int),
                decreases idents@.len() - k,
            {
                let ghost before = views(errors@);
                if !can_be_raw(&idents[k]) {
                    let d = invalid_raw_identifier(f, &idents[k]);
                    errors.push(d);
                    assert(views(errors@) =~= before + seq![d@]);
                } else {
                    assert(views(errors@) =~= before + Seq::<DiagnosticView>::empty());
                }
                k = k + 1;
            }
            f = f + 1;
        }
        errors
    }

    /// Checks the graph: identifiers that cannot be raw, names defined more
    /// than once, and type and trait paths that lead nowhere.
    pub fn check_graph(&mut self)
        requires
            old(self).inv(),
        ensures
            final(self).inv(),
            final(self).resolution_graph == old(self).resolution_graph,
            final(self).file_graph == old(self).file_graph,
            views(final(self).errors@) == views(old(self).errors@) + raw_ident_errors(
                *old(self).file_graph,
                old(self).file_graph.files@.len() as int,
            ) + all_conflict_errors(old(self).resolution_graph, old(self).resolution_graph.len() as int)
                + type_existence_errors(old(self).resolution_graph, old(self).vis_solver,
                old(self).resolution_graph.len() as int),
    {
        let mut invalid = self.find_invalid_names();
        let ghost v0 = views(self.errors@);
        let ghost vi = views(invalid@);
        self.errors.append(&mut invalid);
        proof {
            assert(views(self.errors@) =~= v0 + vi);
        }
        let mut errors: Vec<Diagnostic> = Vec::new();
        std::mem::swap(&mut errors, &mut self.errors);
        let mut conflict_checker = ConflictChecker { resolution_graph: &self.resolution_graph, errors };
        conflict_checker.visit_all();
        let ghost after_conflicts = conflict_checker.errors@;
        let mut type_existence_checker = TypeExistenceChecker {
            resolution_graph: &self.resolution_graph,
            vis_solver: &self.vis_solver,
            errors: conflict_checker.errors,
        };
        type_existence_checker.visit_all();
        self.errors = type_existence_checker.errors;
        proof {
            let pre = views(after_conflicts);
            assert(pre.is_prefix_of(views(self.errors@))) by {
                assert forall|k: int| 0 <= k < pre.len() implies pre[k] == views(self.errors@)[k] by {
                    assert(after_conflicts[k] == self.errors@[k]);
                }
            }
        }
    }
}

} // verus!