//! Where each item is visible: restricted visibilities are applied to the
//! scope they name, and a query decides whether a target is visible from a
//! destination.

use vstd::prelude::*;

use crate::ast::{Ident, SimplePath, Span, Vis};
use crate::error::{
    incorrect_visibility_restriction, incorrect_visibility_restriction_view, non_ancestral_visibility,
    non_ancestral_visibility_view, special_ident_not_at_start_of_path,
    special_ident_not_at_start_of_path_view, too_many_supers, too_many_supers_view, unresolved_item,
    unresolved_item_view, unnecessary_visibility, unnecessary_visibility_view, Diagnostic,
    DiagnosticView, ItemHint,
};
use crate::find_file::FileId;
use super::graph::{is_valid_pub_path_segment_kind, NodeKind, ResolutionGraph, ResolutionIndex};
use super::path::{lemma_root_of, root_of};

verus! {

/// The ancestors of `node`, nearest first; with `segments_only`, only those
/// that can appear in a `pub(in ...)` path (modules and roots).
pub open spec fn ancestry(g: ResolutionGraph, node: int, segments_only: bool) -> Seq<ResolutionIndex>
    decreases node,
{
    if 0 <= node < g.len() {
        match g.node(node).spec_parent() {
            None => Seq::empty(),
            Some(p) => if p.0 < node {
                let rest = ancestry(g, p.0 as int, segments_only);
                if !segments_only || is_valid_pub_path_segment_kind(g.kind_of(p.0 as int)) {
                    seq![p] + rest
                } else {
                    rest
                }
            } else {
                Seq::empty()
            },
        }
    } else {
        Seq::empty()
    }
}

/// `a` is a proper ancestor of `node`.
pub open spec fn is_ancestor(g: ResolutionGraph, a: int, node: int) -> bool
    decreases node,
{
    if 0 <= node < g.len() {
        match g.node(node).spec_parent() {
            None => false,
            Some(p) => p.0 == a || (p.0 < node && is_ancestor(g, a, p.0 as int)),
        }
    } else {
        false
    }
}

/// Every entry of an ancestry is a proper ancestor; the entries other than the
/// last are not roots; with `segments_only` all are modules or roots; for a node
/// that is not a root the ancestry ends at a root.
pub proof fn lemma_ancestry(g: ResolutionGraph, node: int, segments_only: bool)
    requires
        g.wf(),
        0 <= node < g.len(),
    ensures
        forall|k: int| 0 <= k < ancestry(g, node, segments_only).len() ==> {
            let e = #[trigger] ancestry(g, node, segments_only)[k];
            &&& 0 <= e.0 < node
            &&& is_ancestor(g, e.0 as int, node)
            &&& (k + 1 < ancestry(g, node, segments_only).len() ==> g.kind_of(e.0 as int) != NodeKind::Root)
            &&& (segments_only ==> is_valid_pub_path_segment_kind(g.kind_of(e.0 as int)))
        },
        g.kind_of(node) != NodeKind::Root ==> ancestry(g, node, segments_only).len() > 0
            && g.kind_of(ancestry(g, node, segments_only).last().0 as int) == NodeKind::Root,
    decreases node,
{
    assert(g.node_ok(node));
    match g.node(node).spec_parent() {
        None => {},
        Some(p) => {
            assert(g.node_ok(p.0 as int));
            lemma_ancestry(g, p.0 as int, segments_only);
            let rest = ancestry(g, p.0 as int, segments_only);
            let a = ancestry(g, node, segments_only);
            assert forall|k: int| 0 <= k < rest.len() implies is_ancestor(g, (#[trigger] rest[k]).0 as int, node) by {
            }
            if g.kind_of(p.0 as int) == NodeKind::Root {
                assert(ancestry(g, p.0 as int, segments_only) =~= Seq::empty());
            }
        },
    }
}

/// The ancestors of `node`, nearest first; with `segments_only`, only modules and roots.
pub fn build_ancestry(g: &ResolutionGraph, node: ResolutionIndex, segments_only: bool) -> (r: Vec<ResolutionIndex>)
    requires
        g.wf(),
        node.0 < g.len(),
    ensures
        r@ == ancestry(*g, node.0 as int, segments_only),
{
    let mut prev_parent = node;
    let mut r: Vec<ResolutionIndex> = Vec::new();
    loop
        invariant
            g.wf(),
            prev_parent.0 < g.len(),
            ancestry(*g, node.0 as int, segments_only) == r@ + ancestry(*g, prev_parent.0 as int, segments_only),
        decreases prev_parent.0,
    {
        proof {
            assert(g.node_ok(prev_parent.0 as int));
        }
        match g.get(prev_parent).parent() {
            None => {
                assert(r@ + ancestry(*g, prev_parent.0 as int, segments_only) =~= r@);
                return r;
            },
            Some(parent) => {
                let ghost before = r@;
                if !segments_only || g.get(parent).is_valid_pub_path_segment() {
                    r.push(parent);
                    assert(before + (seq![parent] + ancestry(*g, parent.0 as int, segments_only))
                        =~= r@ + ancestry(*g, parent.0 as int, segments_only));
                }
                prev_parent = parent;
            },
        }
    }
}

pub open spec fn text_is(i: Ident, s: Seq<char>) -> bool {
    i.inner@ == s
}

/// Some child of `scope` named `name` is a module (or root).
pub open spec fn has_matching_child(g: ResolutionGraph, scope: int, name: Seq<char>) -> bool {
    match g.node(scope).spec_children() {
        Some(cs) => exists|j: int| 0 <= j < cs.len() && g.node((#[trigger] cs[j]).0 as int).spec_named(name)
            && is_valid_pub_path_segment_kind(g.kind_of(cs[j].0 as int)),
        None => false,
    }
}

/// Walks the segments `segs[i + 1..]` of a `pub(in ...)` path from position `pos` of
/// `anc` (the scope named so far), giving the final position or the error met.
pub open spec fn restriction_walk(
    g: ResolutionGraph,
    anc: Seq<ResolutionIndex>,
    file: FileId,
    segs: Seq<Ident>,
    i: int,
    pos: int,
) -> Result<int, DiagnosticView>
    decreases segs.len() - i,
{
    if i < 0 || i + 1 >= segs.len() {
        Ok(pos)
    } else {
        let prev = segs[i];
        let seg = segs[i + 1];
        if text_is(seg, "crate"@) || text_is(seg, "self"@) || (!text_is(prev, "super"@) && text_is(seg, "super"@)) {
            Err(special_ident_not_at_start_of_path_view(file, seg.inner@, seg.span))
        } else if text_is(prev, "super"@) && !text_is(seg, "super"@) {
            Err(non_ancestral_visibility_view(file, seg.inner@, seg.span, Some(prev.inner@)))
        } else if text_is(seg, "super"@) {
            if pos + 1 < anc.len() {
                restriction_walk(g, anc, file, segs, i + 1, pos + 1)
            } else {
                Err(too_many_supers_view(file, seg.inner@, seg.span))
            }
        } else if !(0 <= pos < anc.len() && has_matching_child(g, anc[pos].0 as int, seg.inner@)) {
            Err(unresolved_item_view(
                file,
                Some(prev.inner@),
                seg.inner@,
                seg.span,
                ItemHint::InternalNamedChildScope,
                Seq::empty(),
            ))
        } else if pos == 0 {
            Err(non_ancestral_visibility_view(file, seg.inner@, seg.span, Some(prev.inner@)))
        } else if !g.node(anc[pos - 1].0 as int).spec_named(seg.inner@) {
            Err(non_ancestral_visibility_view(file, seg.inner@, seg.span, Some(prev.inner@)))
        } else {
            restriction_walk(g, anc, file, segs, i + 1, pos - 1)
        }
    }
}

/// The scope a `pub(in path)` on `node` exports it to, or the error in the path.
pub open spec fn restricted_export(
    g: ResolutionGraph,
    node: int,
    file: FileId,
    path: SimplePath,
) -> Result<Option<ResolutionIndex>, DiagnosticView> {
    let anc = ancestry(g, node, true);
    let segs = path.segments@;
    let first = segs[0];
    if path.leading_sep.is_some() {
        Err(incorrect_visibility_restriction_view(file, path.leading_sep.unwrap()))
    } else {
        let start: Result<int, DiagnosticView> = if text_is(first, "crate"@) {
            Ok(if anc.len() == 0 { 0 } else { anc.len() - 1 })
        } else if text_is(first, "super"@) {
            if anc.len() >= 2 {
                Ok(1)
            } else {
                Err(too_many_supers_view(file, first.inner@, first.span))
            }
        } else if text_is(first, "self"@) {
            if segs.len() > 1 {
                Err(non_ancestral_visibility_view(file, first.inner@, first.span, None))
            } else {
                Ok(0)
            }
        } else {
            Err(incorrect_visibility_restriction_view(file, first.span))
        };
        match start {
            Err(e) => Err(e),
            Ok(pos) => match restriction_walk(g, anc, file, segs, 0, pos) {
                Err(e) => Err(e),
                Ok(end) => Ok(Some(anc[end])),
            },
        }
    }
}

proof fn lemma_walk_in_bounds(
    g: ResolutionGraph,
    anc: Seq<ResolutionIndex>,
    file: FileId,
    segs: Seq<Ident>,
    i: int,
    pos: int,
)
    requires
        0 <= pos < anc.len(),
    ensures
        restriction_walk(g, anc, file, segs, i, pos) matches Ok(end) ==> 0 <= end < anc.len(),
    decreases segs.len() - i,
{
    if !(i < 0 || i + 1 >= segs.len()) {
        let prev = segs[i];
        let seg = segs[i + 1];
        if text_is(seg, "super"@) && pos + 1 < anc.len() {
            lemma_walk_in_bounds(g, anc, file, segs, i + 1, pos + 1);
        } else if pos > 0 {
            lemma_walk_in_bounds(g, anc, file, segs, i + 1, pos - 1);
        }
    }
}

/// Applies a `pub(in path)` restriction on `node`: the ancestral scope it names,
/// or why the path does not name one.
///
/// Law: a restriction that resolves always names a module or root among the
/// node's own ancestors.
pub fn apply_visibility_in(
    g: &ResolutionGraph,
    node: ResolutionIndex,
    file: FileId,
    path: &SimplePath,
) -> (r: Result<Option<ResolutionIndex>, Diagnostic>)
    requires
        g.wf(),
        node.0 < g.len(),
        g.kind_of(node.0 as int) != NodeKind::Root,
        path.segments@.len() > 0,
    ensures
        match r {
            Ok(t) => restricted_export(*g, node.0 as int, file, *path) == Ok::<Option<ResolutionIndex>, DiagnosticView>(t),
            Err(d) => restricted_export(*g, node.0 as int, file, *path) == Err::<Option<ResolutionIndex>, DiagnosticView>(d@),
        },
        r matches Ok(Some(a)) ==> ancestry(*g, node.0 as int, true).contains(a)
            && is_ancestor(*g, a.0 as int, node.0 as int) && a.0 < node.0
            && is_valid_pub_path_segment_kind(g.kind_of(a.0 as int)),
{
    if let Some(leading_sep) = path.leading_sep {
        return Err(incorrect_visibility_restriction(file, leading_sep));
    }
    let ancestry = build_ancestry(g, node, true);
    proof {
        lemma_ancestry(*g, node.0 as int, true);
    }
    let ghost anc = ancestry@;
    let ghost segs = path.segments@;
    let first_segment = &path.segments[0];
    let mut ancestry_position: usize = if first_segment.is("crate") {
        if ancestry.len() == 0 { 0 } else { ancestry.len() - 1 }
    } else if first_segment.is("super") {
        if ancestry.len() >= 2 {
            1
        } else {
            return Err(too_many_supers(file, first_segment));
        }
    } else if first_segment.is("self") {
        if path.segments.len() > 1 {
            return Err(non_ancestral_visibility(file, first_segment, None));
        }
        0
    } else {
        return Err(incorrect_visibility_restriction(file, first_segment.span));
    };
    let ghost start = ancestry_position as int;
    assert(restricted_export(*g, node.0 as int, file, *path) == match restriction_walk(*g, anc, file, segs, 0, start) {
        Err(e) => Err(e),
        Ok(end) => Ok::<Option<ResolutionIndex>, DiagnosticView>(Some(anc[end])),
    });
    let seg_count = path.segments.len();
    let mut i: usize = 0;
    while i + 1 < seg_count
        invariant
            g.wf(),
            anc == ancestry@,
            segs == path.segments@,
            anc.len() > 0,
            ancestry_position < anc.len(),
            i + 1 <= segs.len(),
            segs.len() == seg_count,
            restricted_export(*g, node.0 as int, file, *path) == match restriction_walk(*g, anc, file, segs, 0, start) {
                Err(e) => Err(e),
                Ok(end) => Ok::<Option<ResolutionIndex>, DiagnosticView>(Some(anc[end])),
            },
            forall|k: int| 0 <= k < anc.len() ==> is_ancestor(*g, (#[trigger] anc[k]).0 as int, node.0 as int)
                && is_valid_pub_path_segment_kind(g.kind_of(anc[k].0 as int)) && anc[k].0 < node.0,
            restriction_walk(*g, anc, file, segs, 0, start) == restriction_walk(
                *g,
                anc,
                file,
                segs,
                i as int,
                ancestry_position as int,
            ),
            forall|k: int| 0 <= k < anc.len() ==> (#[trigger] anc[k]).0 < g.len(),
        decreases segs.len() - i,
    {
        let prev_segment = &path.segments[i];
        let segment = &path.segments[i + 1];
        if segment.is("crate") || segment.is("self") || (!prev_segment.is("super") && segment.is("super")) {
            return Err(special_ident_not_at_start_of_path(file, segment));
        } else if prev_segment.is("super") && !segment.is("super") {
            return Err(non_ancestral_visibility(file, segment, Some(prev_segment)));
        }
        ancestry_position = if segment.is("super") {
            if ancestry_position + 1 < ancestry.len() {
                ancestry_position + 1
            } else {
                return Err(too_many_supers(file, segment));
            }
        } else {
            let has_matching_child = has_child_module_named(g, ancestry[ancestry_position], segment);
            if !has_matching_child {
                return Err(unresolved_item(
                    file,
                    Some(prev_segment),
                    segment,
                    ItemHint::InternalNamedChildScope,
                    Vec::new(),
                ));
            } else if ancestry_position == 0 {
                return Err(non_ancestral_visibility(file, segment, Some(prev_segment)));
            } else if !g.get(ancestry[ancestry_position - 1]).is_named(segment) {
                return Err(non_ancestral_visibility(file, segment, Some(prev_segment)));
            } else {
                ancestry_position - 1
            }
        };
        i = i + 1;
    }
    assert(restriction_walk(*g, anc, file, segs, i as int, ancestry_position as int) == Ok::<int, DiagnosticView>(
        ancestry_position as int,
    ));
    Ok(Some(ancestry[ancestry_position]))
}

/// Whether some child of `scope` named like `name` is a module (or root).
fn has_child_module_named(g: &ResolutionGraph, scope: ResolutionIndex, name: &Ident) -> (r: bool)
    requires
        g.wf(),
        scope.0 < g.len(),
    ensures
        r == has_matching_child(*g, scope.0 as int, name.inner@),
{
    proof {
        assert(g.node_ok(scope.0 as int));
    }
    match g.get(scope).children() {
        None => false,
        Some(children) => {
            let mut j: usize = 0;
            while j < children.len()
                invariant
                    g.wf(),
                    g.node(scope.0 as int).spec_children() == Some(children@),
                    j <= children@.len(),
                    forall|k: int| 0 <= k < children@.len() ==> (#[trigger] children@[k]).0 < g.len(),
                    forall|k: int| 0 <= k < j ==> !(g.node((#[trigger] children@[k]).0 as int).spec_named(name.inner@)
                        && is_valid_pub_path_segment_kind(g.kind_of(children@[k].0 as int))),
                decreases children@.len() - j,
            {
                let child = g.get(children[j]);
                if child.is_named(name) && child.is_valid_pub_path_segment() {
                    return true;
                }
                j = j + 1;
            }
            false
        },
    }
}

} // verus!

verus! {

/// The diagnostics as seen in specifications.
pub open spec fn views(ds: Seq<Diagnostic>) -> Seq<DiagnosticView> {
    ds.map_values(|d: Diagnostic| d@)
}

pub open spec fn vis_span(v: Vis) -> Span {
    match v {
        Vis::Pub(s) => s,
        Vis::Super(s) => s,
        Vis::Crate(s) => s,
        Vis::Priv(s) => s,
        Vis::LowerSelf(s) => s,
        Vis::Restricted(s, _) => s,
    }
}

fn span_of_vis(v: &Vis) -> (s: Span)
    ensures
        s == vis_span(*v),
{
    match v {
        Vis::Pub(s) => *s,
        Vis::Super(s) => *s,
        Vis::Crate(s) => *s,
        Vis::Priv(s) => *s,
        Vis::LowerSelf(s) => *s,
        Vis::Restricted(s, _) => *s,
    }
}

/// Variants, and whatever lies in a variant, take the visibility of their enclosing item.
pub open spec fn inherits_visibility(g: ResolutionGraph, node: int) -> bool {
    g.kind_of(node) == NodeKind::Variant || (g.node(node).spec_parent() matches Some(p)
        && g.kind_of(p.0 as int) == NodeKind::Variant)
}

/// The scope that `node` is exported to; `None` means it is visible from anywhere.
pub open spec fn spec_export(g: ResolutionGraph, node: int) -> Option<ResolutionIndex>
    decreases node,
{
    if 0 <= node < g.len() {
        let n = g.node(node);
        let parent = n.spec_parent();
        let anc = ancestry(g, node, false);
        if inherits_visibility(g, node) {
            match parent {
                Some(p) => if p.0 < node {
                    spec_export(g, p.0 as int)
                } else {
                    None
                },
                None => None,
            }
        } else {
            match n.spec_visibility() {
                Some(Vis::Pub(_)) => if anc.len() >= 2 { Some(anc[1]) } else { None },
                Some(Vis::Super(_)) => if anc.len() >= 2 { Some(anc[1]) } else { None },
                Some(Vis::Crate(_)) => if anc.len() > 0 { Some(anc.last()) } else { None },
                Some(Vis::Restricted(_, path)) => match restricted_export(g, node, g.spec_file(node), path) {
                    Ok(d) => d,
                    Err(_) => parent,
                },
                _ => parent,
            }
        }
    } else {
        None
    }
}

/// The diagnostics that computing the export of `node` reports.
pub open spec fn export_errors(g: ResolutionGraph, node: int) -> Seq<DiagnosticView> {
    let file = g.spec_file(node);
    if inherits_visibility(g, node) {
        match g.node(node).spec_visibility() {
            Some(v) => seq![unnecessary_visibility_view(file, vis_span(v))],
            None => Seq::empty(),
        }
    } else {
        match g.node(node).spec_visibility() {
            Some(Vis::Restricted(_, path)) => match restricted_export(g, node, file, path) {
                Err(e) => seq![e],
                Ok(_) => Seq::empty(),
            },
            _ => Seq::empty(),
        }
    }
}

/// The diagnostics of the nodes before `upto`, in node order.
pub open spec fn all_export_errors(g: ResolutionGraph, upto: int) -> Seq<DiagnosticView>
    decreases upto,
{
    if upto <= 0 {
        Seq::empty()
    } else {
        all_export_errors(g, upto - 1) + export_errors(g, upto - 1)
    }
}

/// Decides whether a target is visible from a destination, from the parent and
/// export of every node.
#[derive(Debug)]
pub struct VisibilitySolver {
    pub parents: Vec<Option<ResolutionIndex>>,
    /// Where each node is exported to; `None` is beyond the crate, visible from anywhere.
    pub exports: Vec<Option<ResolutionIndex>>,
}

impl VisibilitySolver {
    pub open spec fn len(&self) -> nat {
        self.parents@.len()
    }

    pub open spec fn wf(&self) -> bool {
        &&& self.exports@.len() == self.parents@.len()
        &&& forall|i: int| 0 <= i < self.parents@.len() ==> (#[trigger] self.parents@[i] matches Some(p)
            ==> p.0 < i)
        &&& forall|i: int| 0 <= i < self.exports@.len() ==> (#[trigger] self.exports@[i] matches Some(e)
            ==> e.0 < self.len())
    }

    /// The solver describes the parents of graph `g`.
    pub open spec fn matches(&self, g: ResolutionGraph) -> bool {
        &&& self.wf()
        &&& self.len() == g.len()
        &&& forall|i: int| 0 <= i < g.len() ==> #[trigger] self.parents@[i] == g.node(i).spec_parent()
    }

    /// `a` is a proper ancestor of `node`.
    pub open spec fn spec_is_ancestor(&self, a: int, node: int) -> bool
        decreases node,
    {
        if 0 <= node < self.len() {
            match self.parents@[node] {
                None => false,
                Some(p) => p.0 == a || (p.0 < node && self.spec_is_ancestor(a, p.0 as int)),
            }
        } else {
            false
        }
    }

    /// `x` is in the ancestry of `node`: beyond the crate (`None`), or a proper ancestor.
    pub open spec fn in_ancestry(&self, node: int, x: Option<ResolutionIndex>) -> bool {
        match x {
            None => true,
            Some(a) => self.spec_is_ancestor(a.0 as int, node),
        }
    }

    /// Possibilities:
    /// 1. Target is exported to an ancestor of its parent scope
    /// 2. Target is directly exported to destination
    /// 3. Target is exported outside of its crate
    /// 4. Target is exported to some ancestral scope of destination
    /// 5. Target lies in some ancestral scope of destination
    pub open spec fn spec_visible(&self, dest: int, target: int) -> bool {
        let e = self.exports@[target];
        ||| (self.parents@[target] matches Some(p) && self.in_ancestry(p.0 as int, e))
        ||| e == Some(ResolutionIndex(dest as usize))
        ||| e.is_none()
        ||| self.in_ancestry(dest, e)
        ||| (forall|a: int| #[trigger] self.spec_is_ancestor(a, target) ==> self.spec_is_ancestor(a, dest))
    }

    fn is_ancestor(&self, a: ResolutionIndex, node: ResolutionIndex) -> (r: bool)
        requires
            self.wf(),
            node.0 < self.len(),
        ensures
            r == self.spec_is_ancestor(a.0 as int, node.0 as int),
    {
        let mut cur = node;
        loop
            invariant
                self.wf(),
                cur.0 < self.len(),
                self.spec_is_ancestor(a.0 as int, node.0 as int) == self.spec_is_ancestor(a.0 as int, cur.0 as int),
            decreases cur.0,
        {
            match self.parents[cur.0] {
                None => return false,
                Some(p) => {
                    if p.0 == a.0 {
                        return true;
                    }
                    cur = p;
                },
            }
        }
    }

    proof fn lemma_ancestor_chain(&self, a: int, b: int, node: int)
        requires
            self.wf(),
            self.spec_is_ancestor(a, b),
            self.spec_is_ancestor(b, node),
        ensures
            self.spec_is_ancestor(a, node),
        decreases node,
    {
        if 0 <= node < self.len() {
            match self.parents@[node] {
                None => {},
                Some(p) => {
                    if p.0 != b {
                        self.lemma_ancestor_chain(a, b, p.0 as int);
                    }
                },
            }
        }
    }

    /// An item is visible from everywhere below its own scope: from its
    /// siblings and from anything nested in them.
    pub proof fn lemma_visible_below_own_scope(&self, dest: int, target: int)
        requires
            self.wf(),
            0 <= target < self.len(),
            self.parents@[target] matches Some(p) && self.spec_is_ancestor(p.0 as int, dest),
        ensures
            self.spec_visible(dest, target),
    {
        let p = self.parents@[target].unwrap();
        assert forall|a: int| #[trigger] self.spec_is_ancestor(a, target) implies self.spec_is_ancestor(
            a,
            dest,
        ) by {
            if a != p.0 {
                self.lemma_ancestor_chain(a, p.0 as int, dest);
            }
        }
    }

    proof fn lemma_ancestor_before(&self, a: int, node: int)
        requires
            self.wf(),
            self.spec_is_ancestor(a, node),
        ensures
            a < node,
        decreases node,
    {
        let p = self.parents@[node].unwrap();
        if p.0 != a {
            self.lemma_ancestor_before(a, p.0 as int);
        }
    }

    /// An item exported to its own scope only (a private one) is visible
    /// exactly from that scope and from everything nested in it.
    pub proof fn lemma_private_visible_only_within_scope(&self, dest: usize, target: int)
        requires
            self.wf(),
            0 <= target < self.len(),
            dest < self.len(),
            self.parents@[target] is Some,
            self.exports@[target] == self.parents@[target],
        ensures
            self.spec_visible(dest as int, target) <==> (dest == self.parents@[target].unwrap().0
                || self.spec_is_ancestor(self.parents@[target].unwrap().0 as int, dest as int)),
    {
        let p = self.parents@[target].unwrap();
        if self.spec_is_ancestor(p.0 as int, dest as int) {
            self.lemma_visible_below_own_scope(dest as int, target);
        } else if dest != p.0 {
            if self.spec_is_ancestor(p.0 as int, p.0 as int) {
                self.lemma_ancestor_before(p.0 as int, p.0 as int);
            }
            assert(self.spec_is_ancestor(p.0 as int, target));
            assert(self.exports@[target] != Some(ResolutionIndex(dest)));
            assert(!self.spec_visible(dest as int, target));
        }
    }

    /// An item exported beyond its crate is visible from everywhere.
    pub proof fn lemma_exported_visible_everywhere(&self, dest: int, target: int)
        requires
            self.wf(),
            0 <= target < self.len(),
            self.exports@[target] is None,
        ensures
            self.spec_visible(dest, target),
    {
    }

    /// Whether `target` is visible from `dest`.
    pub fn is_target_visible(&self, dest: ResolutionIndex, target: ResolutionIndex) -> (r: bool)
        requires
            self.wf(),
            dest.0 < self.len(),
            target.0 < self.len(),
        ensures
            r == self.spec_visible(dest.0 as int, target.0 as int),
    {
        let target_export = self.exports[target.0];
        let c1 = match self.parents[target.0] {
            None => false,
            Some(p) => match target_export {
                None => true,
                Some(e) => self.is_ancestor(e, p),
            },
        };
        let c2 = target_export == Some(dest);
        let c3 = target_export.is_none();
        let c4 = match target_export {
            None => true,
            Some(e) => self.is_ancestor(e, dest),
        };
        if c1 || c2 || c3 || c4 {
            return true;
        }
        // every ancestor of the target is an ancestor of the destination
        let mut cur = target;
        loop
            invariant
                self.wf(),
                cur.0 < self.len(),
                dest.0 < self.len(),
                target.0 < self.len(),
                !c1 && !c2 && !c3 && !c4,
                c1 == (self.parents@[target.0 as int] matches Some(p) && self.in_ancestry(p.0 as int, target_export)),
                c2 == (target_export == Some(dest)),
                c3 == target_export.is_none(),
                c4 == self.in_ancestry(dest.0 as int, target_export),
                target_export == self.exports@[target.0 as int],
                cur == target || self.spec_is_ancestor(cur.0 as int, target.0 as int),
                forall|a: int| #[trigger] self.spec_is_ancestor(a, target.0 as int) && !self.spec_is_ancestor(a, cur.0 as int)
                    ==> self.spec_is_ancestor(a, dest.0 as int),
            decreases cur.0,
        {
            match self.parents[cur.0] {
                None => {
                    assert forall|a: int| #[trigger] self.spec_is_ancestor(a, target.0 as int)
                        implies self.spec_is_ancestor(a, dest.0 as int) by {
                        assert(!self.spec_is_ancestor(a, cur.0 as int));
                    }
                    assert(self.spec_visible(dest.0 as int, target.0 as int));
                    return true;
                },
                Some(p) => {
                    if !self.is_ancestor(p, dest) {
                        assert(self.spec_is_ancestor(p.0 as int, target.0 as int)) by {
                            if cur != target {
                                self.lemma_ancestor_chain(p.0 as int, cur.0 as int, target.0 as int);
                            }
                        }
                        return false;
                    }
                    proof {
                        if cur != target {
                            self.lemma_ancestor_chain(p.0 as int, cur.0 as int, target.0 as int);
                        }
                        assert forall|a: int| #[trigger] self.spec_is_ancestor(a, target.0 as int)
                            && !self.spec_is_ancestor(a, p.0 as int) implies self.spec_is_ancestor(a, dest.0 as int) by {
                            assert(self.spec_is_ancestor(a, cur.0 as int) == (p.0 == a || self.spec_is_ancestor(a, p.0 as int)));
                        }
                    }
                    cur = p;
                },
            }
        }
    }
}

} // verus!

verus! {

/// Computes where every node of `g` is exported to, reporting misplaced or
/// malformed visibilities in node order.
pub fn build_visibility_solver(g: &ResolutionGraph, errors: &mut Vec<Diagnostic>) -> (solver: VisibilitySolver)
    requires
        g.wf(),
        g.roots_have_files(),
    ensures
        solver.matches(*g),
        forall|i: int| 0 <= i < g.len() ==> #[trigger] solver.exports@[i] == spec_export(*g, i),
        views(final(errors)@) == views(old(errors)@) + all_export_errors(*g, g.len() as int),
{
    let n = g.inner.len();
    let mut parents: Vec<Option<ResolutionIndex>> = Vec::new();
    let mut exports: Vec<Option<ResolutionIndex>> = Vec::new();
    let mut i: usize = 0;
    while i < n
        invariant
            g.wf(),
            g.roots_have_files(),
            n == g.len(),
            i <= n,
            parents@.len() == i,
            exports@.len() == i,
            forall|k: int| 0 <= k < i ==> #[trigger] parents@[k] == g.node(k).spec_parent(),
            forall|k: int| 0 <= k < i ==> #[trigger] exports@[k] == spec_export(*g, k),
            forall|k: int| 0 <= k < i ==> (#[trigger] exports@[k] matches Some(e) ==> e.0 < n),
            views(errors@) == views(old(errors)@) + all_export_errors(*g, i as int),
        decreases n - i,
    {
        let idx = ResolutionIndex(i);
        proof {
            assert(g.node_ok(i as int));
            lemma_ancestry(*g, i as int, false);
        }
        let node = g.get(idx);
        let parent = node.parent();
        let file = g.file(idx);
        let inherits = match node.kind() {
            NodeKind::Variant => true,
            _ => match parent {
                Some(p) => match g.get(p).kind() {
                    NodeKind::Variant => true,
                    _ => false,
                },
                None => false,
            },
        };
        let ghost before = errors@;
        let export = if inherits {
            if let Some(vis) = node.visibility() {
                errors.push(unnecessary_visibility(file, span_of_vis(vis)));
            }
            match parent {
                Some(p) => exports[p.0],
                None => None,
            }
        } else {
            match node.visibility() {
                Some(Vis::Pub(_)) | Some(Vis::Super(_)) => {
                    let anc = build_ancestry(g, idx, false);
                    if anc.len() >= 2 {
                        Some(anc[1])
                    } else {
                        None
                    }
                },
                Some(Vis::Crate(_)) => {
                    let anc = build_ancestry(g, idx, false);
                    if anc.len() > 0 {
                        Some(anc[anc.len() - 1])
                    } else {
                        None
                    }
                },
                Some(Vis::Restricted(_, path)) => match apply_visibility_in(g, idx, file, path) {
                    Ok(dest) => dest,
                    Err(err) => {
                        errors.push(err);
                        parent
                    },
                },
                _ => parent,
            }
        };
        proof {
            assert(views(errors@) =~= views(before) + export_errors(*g, i as int));
            assert(all_export_errors(*g, i + 1) == all_export_errors(*g, i as int) + export_errors(*g, i as int));
            assert(views(errors@) =~= views(old(errors)@) + all_export_errors(*g, i + 1));
        }
        assert(export matches Some(e) ==> e.0 < n);
        parents.push(parent);
        exports.push(export);
        i = i + 1;
    }
    let solver = VisibilitySolver { parents, exports };
    assert forall|k: int| 0 <= k < solver.parents@.len() implies (#[trigger] solver.parents@[k] matches Some(p)
        ==> p.0 < k) by {
        assert(g.node_ok(k));
    }
    solver
}

/// The farthest ancestor of a node is the root of its crate.
proof fn lemma_ancestry_ends_at_root(g: ResolutionGraph, node: int)
    requires
        0 <= node < g.len(),
        ancestry(g, node, false).len() > 0,
    ensures
        ancestry(g, node, false).last().0 == root_of(g, node),
    decreases node,
{
    let p = g.node(node).spec_parent().unwrap();
    assert(ancestry(g, node, false) == seq![p] + ancestry(g, p.0 as int, false));
    assert(root_of(g, node) == root_of(g, p.0 as int));
    if ancestry(g, p.0 as int, false).len() > 0 {
        lemma_ancestry_ends_at_root(g, p.0 as int);
    } else {
        match g.node(p.0 as int).spec_parent() {
            Some(q) => {
                if q.0 < p.0 {
                    assert(ancestry(g, p.0 as int, false) == seq![q] + ancestry(g, q.0 as int, false));
                }
            },
            None => {},
        }
        assert(root_of(g, p.0 as int) == p.0);
    }
}

/// An item written `pub(crate)` (outside a variant) is exported to the root
/// of its crate, however deep it is nested.
pub proof fn lemma_crate_visibility_exports_to_root(g: ResolutionGraph, node: int)
    requires
        g.wf(),
        0 <= node < g.len(),
        g.kind_of(node) != NodeKind::Root,
        !inherits_visibility(g, node),
        g.node(node).spec_visibility() matches Some(Vis::Crate(_)),
    ensures
        spec_export(g, node) == Some(ResolutionIndex(root_of(g, node) as usize)),
{
    lemma_ancestry(g, node, false);
    lemma_ancestry_ends_at_root(g, node);
    lemma_root_of(g, node);
}

/// Where the other visibilities export an item (outside a variant): `pub`
/// and `pub(super)` to the parent of its scope (beyond the crate when its
/// scope is a root), `pub(self)`, `priv` and no visibility at all to its own
/// scope only.
pub proof fn lemma_export_by_visibility(g: ResolutionGraph, node: int)
    requires
        g.wf(),
        0 <= node < g.len(),
        !inherits_visibility(g, node),
    ensures
        (g.node(node).spec_visibility() matches Some(Vis::Pub(_)) || g.node(node).spec_visibility() matches Some(
            Vis::Super(_),
        )) ==> spec_export(g, node) == match g.node(node).spec_parent() {
            Some(p) => g.node(p.0 as int).spec_parent(),
            None => None,
        },
        (g.node(node).spec_visibility() is None || g.node(node).spec_visibility() matches Some(Vis::Priv(_))
            || g.node(node).spec_visibility() matches Some(Vis::LowerSelf(_))) ==> spec_export(g, node)
            == g.node(node).spec_parent(),
{
    assert(g.node_ok(node));
    if let Some(p) = g.node(node).spec_parent() {
        assert(g.node_ok(p.0 as int));
        assert(ancestry(g, node, false) == seq![p] + ancestry(g, p.0 as int, false));
        if let Some(q) = g.node(p.0 as int).spec_parent() {
            assert(ancestry(g, p.0 as int, false) == seq![q] + ancestry(g, q.0 as int, false));
        }
    }
}

/// A variant, and whatever lies in a variant, is exported where its parent is,
/// whatever visibility is written on it.
pub proof fn lemma_variant_export_inherited(g: ResolutionGraph, node: int)
    requires
        g.wf(),
        0 <= node < g.len(),
        inherits_visibility(g, node),
        g.node(node).spec_parent() is Some,
    ensures
        spec_export(g, node) == spec_export(g, g.node(node).spec_parent().unwrap().0 as int),
{
    assert(g.node_ok(node));
}

/// Within a crate, every node other than the root lies below the root.
proof fn lemma_below_own_root(g: ResolutionGraph, solver: VisibilitySolver, dest: int)
    requires
        g.wf(),
        solver.matches(g),
        0 <= dest < g.len(),
    ensures
        root_of(g, dest) == dest || solver.spec_is_ancestor(root_of(g, dest), dest),
    decreases dest,
{
    assert(g.node_ok(dest));
    assert(solver.parents@[dest] == g.node(dest).spec_parent());
    if let Some(p) = g.node(dest).spec_parent() {
        lemma_below_own_root(g, solver, p.0 as int);
    }
}

/// An item written `pub(crate)` is visible from every node of its crate,
/// its root included.
pub proof fn lemma_crate_visible_within_crate(g: ResolutionGraph, solver: VisibilitySolver, node: int, dest: int)
    requires
        g.wf(),
        solver.matches(g),
        forall|i: int| 0 <= i < g.len() ==> #[trigger] solver.exports@[i] == spec_export(g, i),
        0 <= node < g.len(),
        0 <= dest < g.len(),
        g.kind_of(node) != NodeKind::Root,
        !inherits_visibility(g, node),
        g.node(node).spec_visibility() matches Some(Vis::Crate(_)),
        root_of(g, dest) == root_of(g, node),
    ensures
        solver.spec_visible(dest, node),
{
    lemma_crate_visibility_exports_to_root(g, node);
    lemma_below_own_root(g, solver, dest);
    lemma_root_of(g, dest);
    lemma_root_of(g, node);
    let r = ResolutionIndex(root_of(g, node) as usize);
    assert(solver.exports@[node] == Some(r));
    lemma_ancestry(g, node, false);
    lemma_ancestry_ends_at_root(g, node);
    assert(r.0 as int == root_of(g, dest));
    if root_of(g, dest) == dest {
        assert(r == ResolutionIndex(dest as usize));
    } else {
        assert(solver.in_ancestry(dest, Some(r)));
    }
}

impl VisibilitySolver {
    /// Records a node appended to the graph without a visibility of its own
    /// (a `use` leaf): it is exported to its parent.
    pub fn extend_with_node(&mut self, parent: ResolutionIndex)
        requires
            old(self).wf(),
            parent.0 < old(self).len(),
        ensures
            final(self).wf(),
            final(self).parents@ == old(self).parents@.push(Some(parent)),
            final(self).exports@ == old(self).exports@.push(Some(parent)),
    {
        self.parents.push(Some(parent));
        self.exports.push(Some(parent));
    }
}

} // verus!
