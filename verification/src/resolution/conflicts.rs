//! Checks for names defined more than once: within an item (fields,
//! variants, ports, parameters, bindings), among the items of a scope, and
//! among the names that the `use` items of a scope import.

use vstd::prelude::*;

use crate::ast::Ident;
use crate::error::{
    multiple_definition, multiple_definition_view, reimport, reimport_view, Diagnostic, DiagnosticView, DuplicateHint,
};
use crate::find_file::FileId;
use super::graph::{
    in_same_name_class_kind, item_hint_of_kind, Leaf, NameCheck, NodeKind, ResolutionGraph, ResolutionIndex,
    ResolutionNode,
};
use super::path::{declaration_ident, declaration_name};
use super::uses::leaf_imports;
use super::visibility::views;

verus! {

/// The latest of the first `j` checks that is in the group of check `k` and
/// has its text.
pub open spec fn previous_check(checks: Seq<NameCheck>, k: int, j: int) -> Option<int>
    decreases j,
{
    if j <= 0 {
        None
    } else if checks[j - 1].group == checks[k].group && checks[j - 1].ident.inner@ == checks[k].ident.inner@ {
        Some(j - 1)
    } else {
        previous_check(checks, k, j - 1)
    }
}

/// The errors for the first `n` checks: each check whose text occurred
/// before in its group is reported against the latest such occurrence.
pub open spec fn duplicate_name_errors(file: FileId, checks: Seq<NameCheck>, n: int) -> Seq<DiagnosticView>
    decreases n,
{
    if n <= 0 || n > checks.len() {
        Seq::empty()
    } else {
        duplicate_name_errors(file, checks, n - 1) + match previous_check(checks, n - 1, n - 1) {
            Some(j) => seq![multiple_definition_view(file, checks[j].ident.inner@, checks[j].ident.span,
                checks[n - 1].ident.inner@, checks[n - 1].ident.span, checks[n - 1].hint)],
            None => Seq::empty(),
        }
    }
}

/// Reports every identifier defined twice within its group.
pub fn find_duplicate_names(file: FileId, checks: &Vec<NameCheck>, errors: &mut Vec<Diagnostic>)
    ensures
        views(final(errors)@) == views(old(errors)@) + duplicate_name_errors(file, checks@, checks@.len() as int),
{
    let ghost start = views(errors@);
    let mut k: usize = 0;
    while k < checks.len()
        invariant
            k <= checks@.len(),
            views(errors@) == start + duplicate_name_errors(file, checks@, k as int),
        decreases checks@.len() - k,
    {
        let mut j: usize = k;
        let mut found: Option<usize> = None;
        while j > 0 && found.is_none()
            invariant
                j <= k < checks@.len(),
                previous_check(checks@, k as int, k as int) == match found {
                    Some(f) => Some(f as int),
                    None => previous_check(checks@, k as int, j as int),
                },
                found matches Some(f) ==> f < k,
            decreases j,
        {
            let c = &checks[j - 1];
            if c.group == checks[k].group && c.ident.same_text(&checks[k].ident) {
                found = Some(j - 1);
            }
            j = j - 1;
        }
        let ghost before = errors@;
        if let Some(f) = found {
            let d = multiple_definition(file, &checks[f].ident, &checks[k].ident, checks[k].hint);
            errors.push(d);
            assert(views(errors@) =~= views(before) + seq![d@]);
        } else {
            assert(views(errors@) =~= views(before) + Seq::<DiagnosticView>::empty());
        }
        k = k + 1;
    }
}

/// The errors for a prefix of the checks are never more than those for a
/// longer prefix.
proof fn lemma_duplicate_errors_grow(file: FileId, checks: Seq<NameCheck>, n: int, m: int)
    requires
        0 <= n <= m <= checks.len(),
    ensures
        duplicate_name_errors(file, checks, n).len() <= duplicate_name_errors(file, checks, m).len(),
    decreases m,
{
    if n < m {
        lemma_duplicate_errors_grow(file, checks, n, m - 1);
    }
}

proof fn lemma_previous_check_latest(checks: Seq<NameCheck>, k: int, j: int)
    requires
        0 <= k < checks.len(),
        0 <= j <= checks.len(),
    ensures
        previous_check(checks, k, j) matches Some(x) ==> {
            &&& 0 <= x < j
            &&& checks[x].group == checks[k].group
            &&& checks[x].ident.inner@ == checks[k].ident.inner@
            &&& forall|m: int| x < m < j ==> !((#[trigger] checks[m]).group == checks[k].group
                && checks[m].ident.inner@ == checks[k].ident.inner@)
        },
        previous_check(checks, k, j) is None ==> forall|m: int| 0 <= m < j ==> !((#[trigger] checks[m]).group
            == checks[k].group && checks[m].ident.inner@ == checks[k].ident.inner@),
    decreases j,
{
    if j > 0 {
        lemma_previous_check_latest(checks, k, j - 1);
    }
}

/// A check whose text occurred before in its group is reported against the
/// latest such occurrence: that one shares its group and text, and no check
/// between them does; a check is reported against nothing only when no
/// earlier check shares both.
pub proof fn lemma_reported_against_latest(checks: Seq<NameCheck>, k: int)
    requires
        0 <= k < checks.len(),
    ensures
        previous_check(checks, k, k) matches Some(j) ==> {
            &&& 0 <= j < k
            &&& checks[j].group == checks[k].group
            &&& checks[j].ident.inner@ == checks[k].ident.inner@
            &&& forall|m: int| j < m < k ==> !((#[trigger] checks[m]).group == checks[k].group
                && checks[m].ident.inner@ == checks[k].ident.inner@)
        },
        previous_check(checks, k, k) is None ==> forall|m: int| 0 <= m < k ==> !((#[trigger] checks[m]).group
            == checks[k].group && checks[m].ident.inner@ == checks[k].ident.inner@),
{
    lemma_previous_check_latest(checks, k, k);
}

/// Name checks are compared within their group only: when no two checks of
/// one group share a text, nothing is reported, however often a text recurs
/// across groups (the field `x` of two different variants).
pub proof fn lemma_distinct_within_groups_reports_nothing(file: FileId, checks: Seq<NameCheck>)
    requires
        forall|i: int, k: int| 0 <= i < k < checks.len() && #[trigger] checks[i].group == #[trigger] checks[k].group
            ==> checks[i].ident.inner@ != checks[k].ident.inner@,
    ensures
        duplicate_name_errors(file, checks, checks.len() as int) == Seq::<DiagnosticView>::empty(),
{
    assert forall|n: int| 0 <= n <= checks.len() implies #[trigger] duplicate_name_errors(file, checks, n)
        == Seq::<DiagnosticView>::empty() by {
        lemma_distinct_prefix_reports_nothing(file, checks, n);
    }
}

proof fn lemma_distinct_prefix_reports_nothing(file: FileId, checks: Seq<NameCheck>, n: int)
    requires
        0 <= n <= checks.len(),
        forall|i: int, k: int| 0 <= i < k < checks.len() && #[trigger] checks[i].group == #[trigger] checks[k].group
            ==> checks[i].ident.inner@ != checks[k].ident.inner@,
    ensures
        duplicate_name_errors(file, checks, n) == Seq::<DiagnosticView>::empty(),
    decreases n,
{
    if n > 0 {
        lemma_distinct_prefix_reports_nothing(file, checks, n - 1);
        lemma_previous_check_latest(checks, n - 1, n - 1);
        if let Some(x) = previous_check(checks, n - 1, n - 1) {
            assert(checks[x].group == checks[n - 1].group);
        }
        assert(duplicate_name_errors(file, checks, n) =~= Seq::<DiagnosticView>::empty());
    }
}

/// Two checks of one group with one text are always reported: the later one
/// against an earlier one.
pub proof fn lemma_repeat_within_group_reported(file: FileId, checks: Seq<NameCheck>, i: int, k: int)
    requires
        0 <= i < k < checks.len(),
        checks[i].group == checks[k].group,
        checks[i].ident.inner@ == checks[k].ident.inner@,
    ensures
        duplicate_name_errors(file, checks, checks.len() as int).len() > 0,
{
    lemma_previous_check_latest(checks, k, k);
    if previous_check(checks, k, k) is None {
        assert(checks[i].group == checks[k].group);
    }
    assert(duplicate_name_errors(file, checks, k + 1).len() == duplicate_name_errors(file, checks, k).len() + 1);
    lemma_duplicate_errors_grow(file, checks, k + 1, checks.len() as int);
}

/// The text a named node is known by.
pub open spec fn name_text(g: ResolutionGraph, i: ResolutionIndex) -> Seq<char> {
    g.node(i.0 as int).spec_name().unwrap().inner@
}

/// The identifier a named node is known by.
pub open spec fn name_ident(g: ResolutionGraph, i: ResolutionIndex) -> Ident {
    g.node(i.0 as int).spec_name().unwrap()
}

/// Among the first `n` children `ls` of the `use` item `u`, those known by
/// `name`, each keyed by `u`.
pub open spec fn use_candidates(g: ResolutionGraph, u: ResolutionIndex, ls: Seq<ResolutionIndex>, name: Seq<char>, n: int)
    -> Seq<(ResolutionIndex, ResolutionIndex)>
    decreases n,
{
    if n <= 0 || n > ls.len() {
        Seq::empty()
    } else {
        use_candidates(g, u, ls, name, n - 1) + if g.node(ls[n - 1].0 as int).spec_named(name) {
            seq![(u, ls[n - 1])]
        } else {
            Seq::empty()
        }
    }
}

/// The definitions of `name` among the first `n` children `cs` of a scope, in
/// order: each child known by `name` (keyed by itself), and under each `use`
/// child, its leaves known by `name` (keyed by the `use`).
pub open spec fn conflict_candidates(g: ResolutionGraph, cs: Seq<ResolutionIndex>, name: Seq<char>, n: int)
    -> Seq<(ResolutionIndex, ResolutionIndex)>
    decreases n,
{
    if n <= 0 || n > cs.len() {
        Seq::empty()
    } else {
        let c = cs[n - 1];
        conflict_candidates(g, cs, name, n - 1) + if g.node(c.0 as int).spec_named(name) {
            seq![(c, c)]
        } else if g.kind_of(c.0 as int) == NodeKind::Use {
            let ls = g.node(c.0 as int).spec_children().unwrap();
            use_candidates(g, c, ls, name, ls.len() as int)
        } else {
            Seq::empty()
        }
    }
}

/// The first candidate from `j` on, not claimed yet, that conflicts with
/// candidate `i`: the two definitions (an item, or an imported leaf) are in
/// one name class and have the same name. The class is that of what each
/// definition names: a `use` item itself is in no class, so what it imports
/// under a name is what the rule "names in a name class must be unique"
/// applies to.
pub open spec fn first_claimable(
    g: ResolutionGraph,
    cands: Seq<(ResolutionIndex, ResolutionIndex)>,
    claimed: Seq<bool>,
    i: int,
    j: int,
) -> Option<int>
    decreases cands.len() - j,
{
    if j < 0 || j >= cands.len() {
        None
    } else if !claimed[j] && in_same_name_class_kind(g.kind_of(cands[i].1.0 as int), g.kind_of(cands[j].1.0 as int))
        && name_text(g, cands[i].1) == name_text(g, cands[j].1) {
        Some(j)
    } else {
        first_claimable(g, cands, claimed, i, j + 1)
    }
}

/// The errors for the candidates from `i` on: each is reported against the
/// first later, unclaimed candidate it conflicts with, which is then claimed.
pub open spec fn claimed_conflicts(
    g: ResolutionGraph,
    file: FileId,
    cands: Seq<(ResolutionIndex, ResolutionIndex)>,
    claimed: Seq<bool>,
    i: int,
) -> Seq<DiagnosticView>
    decreases cands.len() - i,
{
    if i < 0 || i >= cands.len() {
        Seq::empty()
    } else {
        match first_claimable(g, cands, claimed, i, i + 1) {
            Some(j) => seq![multiple_definition_view(file, name_text(g, cands[i].1), name_ident(g, cands[i].1).span,
                name_text(g, cands[j].1), name_ident(g, cands[j].1).span, DuplicateHint::Name)]
                + claimed_conflicts(g, file, cands, claimed.update(j, true), i + 1),
            None => claimed_conflicts(g, file, cands, claimed, i + 1),
        }
    }
}

/// Child `k` is named, and no earlier child has its name.
pub open spec fn first_of_name(g: ResolutionGraph, cs: Seq<ResolutionIndex>, k: int) -> bool {
    &&& g.node(cs[k].0 as int).spec_name() is Some
    &&& forall|j: int| 0 <= j < k ==> !g.node((#[trigger] cs[j]).0 as int).spec_named(name_text(g, cs[k]))
}

/// The name conflicts among the children `cs` of a scope, one name at a time
/// in the order the names first occur among the first `n` children.
pub open spec fn scope_name_errors(g: ResolutionGraph, file: FileId, cs: Seq<ResolutionIndex>, n: int) -> Seq<DiagnosticView>
    decreases n,
{
    if n <= 0 || n > cs.len() {
        Seq::empty()
    } else {
        scope_name_errors(g, file, cs, n - 1) + if first_of_name(g, cs, n - 1) {
            let cands = conflict_candidates(g, cs, name_text(g, cs[n - 1]), cs.len() as int);
            claimed_conflicts(g, file, cands, Seq::new(cands.len(), |k: int| false), 0)
        } else {
            Seq::empty()
        }
    }
}

/// The candidates among fewer children come first among those of more.
proof fn lemma_candidates_prefix(g: ResolutionGraph, cs: Seq<ResolutionIndex>, name: Seq<char>, m: int, n: int)
    requires
        0 <= m <= n <= cs.len(),
    ensures
        conflict_candidates(g, cs, name, m).len() <= conflict_candidates(g, cs, name, n).len(),
        forall|x: int| 0 <= x < conflict_candidates(g, cs, name, m).len() ==> #[trigger] conflict_candidates(
            g, cs, name, n)[x] == conflict_candidates(g, cs, name, m)[x],
    decreases n,
{
    if m < n {
        lemma_candidates_prefix(g, cs, name, m, n - 1);
    }
}

/// A later candidate, not claimed yet, that conflicts with candidate `i` is
/// found, if not an earlier one.
proof fn lemma_first_claimable_found(
    g: ResolutionGraph,
    cands: Seq<(ResolutionIndex, ResolutionIndex)>,
    claimed: Seq<bool>,
    i: int,
    j: int,
    b: int,
)
    requires
        0 <= j <= b < cands.len(),
        !claimed[b],
        in_same_name_class_kind(g.kind_of(cands[i].1.0 as int), g.kind_of(cands[b].1.0 as int)),
        name_text(g, cands[i].1) == name_text(g, cands[b].1),
    ensures
        first_claimable(g, cands, claimed, i, j) is Some,
    decreases cands.len() - j,
{
    if j < b {
        lemma_first_claimable_found(g, cands, claimed, i, j + 1, b);
    }
}

/// Two conflicting candidates, the later one not claimed, yield an error.
proof fn lemma_conflicting_pair_reported(
    g: ResolutionGraph,
    file: FileId,
    cands: Seq<(ResolutionIndex, ResolutionIndex)>,
    claimed: Seq<bool>,
    i: int,
    a: int,
    b: int,
)
    requires
        0 <= i <= a < b < cands.len(),
        !claimed[b],
        in_same_name_class_kind(g.kind_of(cands[a].1.0 as int), g.kind_of(cands[b].1.0 as int)),
        name_text(g, cands[a].1) == name_text(g, cands[b].1),
    ensures
        claimed_conflicts(g, file, cands, claimed, i).len() > 0,
    decreases cands.len() - i,
{
    if first_claimable(g, cands, claimed, i, i + 1) is None {
        if i == a {
            lemma_first_claimable_found(g, cands, claimed, a, a + 1, b);
        } else {
            lemma_conflicting_pair_reported(g, file, cands, claimed, i + 1, a, b);
        }
    }
}

/// The errors for fewer children are never more than those for more.
proof fn lemma_scope_errors_grow(g: ResolutionGraph, file: FileId, cs: Seq<ResolutionIndex>, m: int, n: int)
    requires
        0 <= m <= n <= cs.len(),
    ensures
        scope_name_errors(g, file, cs, m).len() <= scope_name_errors(g, file, cs, n).len(),
    decreases n,
{
    if m < n {
        lemma_scope_errors_grow(g, file, cs, m, n - 1);
    }
}

/// The first child known by `name`, at or before child `k`.
proof fn lemma_first_named(g: ResolutionGraph, cs: Seq<ResolutionIndex>, name: Seq<char>, k: int) -> (f: int)
    requires
        0 <= k < cs.len(),
        g.node(cs[k].0 as int).spec_named(name),
    ensures
        0 <= f <= k,
        g.node(cs[f].0 as int).spec_named(name),
        forall|j: int| 0 <= j < f ==> !g.node((#[trigger] cs[j]).0 as int).spec_named(name),
    decreases k,
{
    if exists|j: int| 0 <= j < k && g.node((#[trigger] cs[j]).0 as int).spec_named(name) {
        let j = choose|j: int| 0 <= j < k && g.node((#[trigger] cs[j]).0 as int).spec_named(name);
        lemma_first_named(g, cs, name, j)
    } else {
        k
    }
}

/// Two items of one scope with one name that are in one name class (two
/// functions, a function and a constant, two modules, a type and anything
/// named) are always reported.
pub proof fn lemma_same_class_same_name_reported(g: ResolutionGraph, file: FileId, cs: Seq<ResolutionIndex>, k1: int, k2: int)
    requires
        0 <= k1 < k2 < cs.len(),
        g.node(cs[k1].0 as int).spec_name() is Some,
        g.node(cs[k2].0 as int).spec_named(g.node(cs[k1].0 as int).spec_name().unwrap().inner@),
        in_same_name_class_kind(g.kind_of(cs[k1].0 as int), g.kind_of(cs[k2].0 as int)),
    ensures
        scope_name_errors(g, file, cs, cs.len() as int).len() > 0,
{
    let name = g.node(cs[k1].0 as int).spec_name().unwrap().inner@;
    let n = cs.len() as int;
    let f = lemma_first_named(g, cs, name, k1);
    assert(first_of_name(g, cs, f));
    assert(name_text(g, cs[f]) == name);
    let cands = conflict_candidates(g, cs, name, n);
    let p1 = conflict_candidates(g, cs, name, k1).len() as int;
    let p2 = conflict_candidates(g, cs, name, k2).len() as int;
    assert(conflict_candidates(g, cs, name, k1 + 1)[p1] == (cs[k1], cs[k1]));
    assert(conflict_candidates(g, cs, name, k2 + 1)[p2] == (cs[k2], cs[k2]));
    lemma_candidates_prefix(g, cs, name, k1 + 1, k2);
    lemma_candidates_prefix(g, cs, name, k1 + 1, n);
    lemma_candidates_prefix(g, cs, name, k2 + 1, n);
    assert(cands[p1] == (cs[k1], cs[k1]));
    assert(cands[p2] == (cs[k2], cs[k2]));
    let claimed = Seq::new(cands.len(), |k: int| false);
    lemma_conflicting_pair_reported(g, file, cands, claimed, 0, p1, p2);
    assert(scope_name_errors(g, file, cs, f + 1).len() > 0);
    lemma_scope_errors_grow(g, file, cs, f + 1, n);
}

/// All indices in `s` lie below `len`.
pub open spec fn pairs_below(s: Seq<(ResolutionIndex, ResolutionIndex)>, len: nat) -> bool {
    forall|k: int| 0 <= k < s.len() ==> (#[trigger] s[k]).0.0 < len && s[k].1.0 < len
}

fn use_candidates_in(g: &ResolutionGraph, u: ResolutionIndex, name: &Ident, out: &mut Vec<(ResolutionIndex, ResolutionIndex)>)
    requires
        g.wf(),
        u.0 < g.len(),
        g.kind_of(u.0 as int) == NodeKind::Use,
        pairs_below(old(out)@, g.len()),
    ensures
        final(out)@ == old(out)@ + use_candidates(*g, u, g.node(u.0 as int).spec_children().unwrap(), name.inner@,
            g.node(u.0 as int).spec_children().unwrap().len() as int),
        pairs_below(final(out)@, g.len()),
{
    proof {
        assert(g.node_ok(u.0 as int));
    }
    let ls = g.get(u).children().unwrap();
    let ghost start = out@;
    let mut k: usize = 0;
    while k < ls.len()
        invariant
            g.wf(),
            u.0 < g.len(),
            ls@ == g.node(u.0 as int).spec_children().unwrap(),
            forall|j: int| 0 <= j < ls@.len() ==> (#[trigger] ls@[j]).0 < g.len(),
            k <= ls@.len(),
            out@ == start + use_candidates(*g, u, ls@, name.inner@, k as int),
            pairs_below(out@, g.len()),
        decreases ls@.len() - k,
    {
        let l = ls[k];
        if g.get(l).is_named(name) {
            out.push((u, l));
        } else {
            assert(out@ =~= out@ + Seq::<(ResolutionIndex, ResolutionIndex)>::empty());
        }
        k = k + 1;
    }
}

fn conflict_candidates_in(g: &ResolutionGraph, cs: &Vec<ResolutionIndex>, name: &Ident)
    -> (r: Vec<(ResolutionIndex, ResolutionIndex)>)
    requires
        g.wf(),
        forall|j: int| 0 <= j < cs@.len() ==> (#[trigger] cs@[j]).0 < g.len(),
    ensures
        r@ == conflict_candidates(*g, cs@, name.inner@, cs@.len() as int),
        pairs_below(r@, g.len()),
{
    let mut r: Vec<(ResolutionIndex, ResolutionIndex)> = Vec::new();
    let mut k: usize = 0;
    while k < cs.len()
        invariant
            g.wf(),
            forall|j: int| 0 <= j < cs@.len() ==> (#[trigger] cs@[j]).0 < g.len(),
            k <= cs@.len(),
            r@ == conflict_candidates(*g, cs@, name.inner@, k as int),
            pairs_below(r@, g.len()),
        decreases cs@.len() - k,
    {
        let c = cs[k];
        let n = g.get(c);
        if n.is_named(name) {
            r.push((c, c));
        } else if n.is_use() {
            use_candidates_in(g, c, name, &mut r);
        } else {
            assert(r@ =~= r@ + Seq::<(ResolutionIndex, ResolutionIndex)>::empty());
        }
        k = k + 1;
    }
    r
}

/// Reports the conflicts among `cands`, claiming each duplicate once.
fn report_claimed(
    g: &ResolutionGraph,
    file: FileId,
    cands: &Vec<(ResolutionIndex, ResolutionIndex)>,
    errors: &mut Vec<Diagnostic>,
)
    requires
        g.wf(),
        pairs_below(cands@, g.len()),
        forall|k: int| 0 <= k < cands@.len() ==> g.node((#[trigger] cands@[k]).1.0 as int).spec_name() is Some,
    ensures
        views(final(errors)@) == views(old(errors)@) + claimed_conflicts(*g, file, cands@,
            Seq::new(cands@.len(), |k: int| false), 0),
{
    let ghost start = views(errors@);
    let ghost all = claimed_conflicts(*g, file, cands@, Seq::new(cands@.len(), |k: int| false), 0);
    let mut claimed: Vec<bool> = Vec::new();
    let mut c: usize = 0;
    while c < cands.len()
        invariant
            c <= cands@.len(),
            claimed@.len() == c,
            forall|k: int| 0 <= k < c ==> !#[trigger] claimed@[k],
        decreases cands@.len() - c,
    {
        claimed.push(false);
        c = c + 1;
    }
    assert(claimed@ =~= Seq::new(cands@.len(), |k: int| false));
    let mut i: usize = 0;
    while i < cands.len()
        invariant
            g.wf(),
            pairs_below(cands@, g.len()),
            forall|k: int| 0 <= k < cands@.len() ==> g.node((#[trigger] cands@[k]).1.0 as int).spec_name() is Some,
            i <= cands@.len(),
            claimed@.len() == cands@.len(),
            start + all == views(errors@) + claimed_conflicts(*g, file, cands@, claimed@, i as int),
        decreases cands@.len() - i,
    {
        let mut j: usize = i + 1;
        let mut found: Option<usize> = None;
        while j < cands.len() && found.is_none()
            invariant
                g.wf(),
                pairs_below(cands@, g.len()),
                forall|k: int| 0 <= k < cands@.len() ==> g.node((#[trigger] cands@[k]).1.0 as int).spec_name() is Some,
                i < cands@.len(),
                i + 1 <= j <= cands@.len(),
                claimed@.len() == cands@.len(),
                first_claimable(*g, cands@, claimed@, i as int, i + 1) == match found {
                    Some(f) => Some(f as int),
                    None => first_claimable(*g, cands@, claimed@, i as int, j as int),
                },
                found matches Some(f) ==> i < f < cands@.len(),
            decreases cands@.len() - j,
        {
            let (_, ni) = cands[i];
            let (_, nj) = cands[j];
            if !claimed[j] && g.get(ni).in_same_name_class(g.get(nj)) && g.get(ni).name().unwrap().same_text(
                g.get(nj).name().unwrap(),
            ) {
                found = Some(j);
            }
            j = j + 1;
        }
        let ghost before = errors@;
        if let Some(f) = found {
            let (_, ni) = cands[i];
            let (_, nj) = cands[f];
            let d = multiple_definition(file, g.get(ni).name().unwrap(), g.get(nj).name().unwrap(), DuplicateHint::Name);
            errors.push(d);
            claimed.set(f, true);
            assert(views(errors@) =~= views(before) + seq![d@]);
        }
        i = i + 1;
    }
}

/// Reports the names defined more than once among the children of `node`.
pub fn find_name_conflicts_in(g: &ResolutionGraph, node: ResolutionIndex, file: FileId, errors: &mut Vec<Diagnostic>)
    requires
        g.wf(),
        node.0 < g.len(),
    ensures
        views(final(errors)@) == views(old(errors)@) + match g.node(node.0 as int).spec_children() {
            Some(cs) => scope_name_errors(*g, file, cs, cs.len() as int),
            None => Seq::empty(),
        },
{
    proof {
        assert(g.node_ok(node.0 as int));
    }
    let cs = match g.get(node).children() {
        Some(cs) => cs,
        None => {
            assert(views(errors@) =~= views(errors@) + Seq::<DiagnosticView>::empty());
            return;
        },
    };
    let ghost start = views(errors@);
    let mut k: usize = 0;
    while k < cs.len()
        invariant
            g.wf(),
            forall|j: int| 0 <= j < cs@.len() ==> (#[trigger] cs@[j]).0 < g.len(),
            k <= cs@.len(),
            views(errors@) == start + scope_name_errors(*g, file, cs@, k as int),
        decreases cs@.len() - k,
    {
        let c = cs[k];
        let ghost before = views(errors@);
        match g.get(c).name() {
            Some(name) => {
                let mut j: usize = 0;
                let mut seen = false;
                while j < k && !seen
                    invariant
                        j <= k < cs@.len(),
                        forall|x: int| 0 <= x < cs@.len() ==> (#[trigger] cs@[x]).0 < g.len(),
                        !seen ==> forall|x: int| 0 <= x < j ==> !g.node((#[trigger] cs@[x]).0 as int).spec_named(name.inner@),
                        seen ==> exists|x: int| 0 <= x < k && g.node((#[trigger] cs@[x]).0 as int).spec_named(name.inner@),
                    decreases k - j,
                {
                    if g.get(cs[j]).is_named(name) {
                        seen = true;
                    }
                    j = j + 1;
                }
                if !seen {
                    let cands = conflict_candidates_in(g, cs, name);
                    proof {
                        assert forall|x: int| 0 <= x < cands@.len() implies g.node((#[trigger] cands@[x]).1.0 as int).spec_name() is Some by {
                            lemma_candidates_named(*g, cs@, name.inner@, cs@.len() as int, x);
                        }
                    }
                    report_claimed(g, file, &cands, errors);
                } else {
                    assert(views(errors@) =~= before + Seq::<DiagnosticView>::empty());
                }
            },
            None => {
                assert(views(errors@) =~= before + Seq::<DiagnosticView>::empty());
            },
        }
        k = k + 1;
    }
}

pub proof fn lemma_candidates_named(g: ResolutionGraph, cs: Seq<ResolutionIndex>, name: Seq<char>, n: int, x: int)
    requires
        0 <= x < conflict_candidates(g, cs, name, n).len(),
    ensures
        g.node(conflict_candidates(g, cs, name, n)[x].1.0 as int).spec_named(name),
    decreases n,
{
    if n > 0 && n <= cs.len() {
        let prev = conflict_candidates(g, cs, name, n - 1);
        if x < prev.len() {
            lemma_candidates_named(g, cs, name, n - 1, x);
        } else {
            let c = cs[n - 1];
            if !g.node(c.0 as int).spec_named(name) && g.kind_of(c.0 as int) == NodeKind::Use {
                let ls = g.node(c.0 as int).spec_children().unwrap();
                lemma_use_candidates_named(g, c, ls, name, ls.len() as int, x - prev.len());
            }
        }
    }
}

pub proof fn lemma_use_candidates_named(g: ResolutionGraph, u: ResolutionIndex, ls: Seq<ResolutionIndex>, name: Seq<char>, n: int, x: int)
    requires
        0 <= x < use_candidates(g, u, ls, name, n).len(),
    ensures
        g.node(use_candidates(g, u, ls, name, n)[x].1.0 as int).spec_named(name),
    decreases n,
{
    if n > 0 && n <= ls.len() {
        let prev = use_candidates(g, u, ls, name, n - 1);
        if x < prev.len() {
            lemma_use_candidates_named(g, u, ls, name, n - 1, x);
        }
    }
}

/// What the named leaves among the first `n` children `ls` of a `use` item
/// import, in order, each paired with its leaf.
pub open spec fn leaf_events(g: ResolutionGraph, ls: Seq<ResolutionIndex>, n: int) -> Seq<(ResolutionIndex, ResolutionIndex)>
    decreases n,
{
    if n <= 0 || n > ls.len() {
        Seq::empty()
    } else {
        let l = ls[n - 1];
        leaf_events(g, ls, n - 1) + if g.node(l.0 as int).spec_name() is Some {
            leaf_imports(g.node(l.0 as int)).map_values(|x: ResolutionIndex| (x, l))
        } else {
            Seq::empty()
        }
    }
}

/// What the `use` items among the first `n` children `cs` of a scope import,
/// in order, each paired with the leaf that imports it.
pub open spec fn import_events(g: ResolutionGraph, cs: Seq<ResolutionIndex>, n: int) -> Seq<(ResolutionIndex, ResolutionIndex)>
    decreases n,
{
    if n <= 0 || n > cs.len() {
        Seq::empty()
    } else {
        let c = cs[n - 1];
        import_events(g, cs, n - 1) + if g.kind_of(c.0 as int) == NodeKind::Use {
            let ls = g.node(c.0 as int).spec_children().unwrap();
            leaf_events(g, ls, ls.len() as int)
        } else {
            Seq::empty()
        }
    }
}

/// The position of the entry for `x` among the first `n` entries.
pub open spec fn find_import(m: Seq<(ResolutionIndex, ResolutionIndex)>, x: ResolutionIndex, n: int) -> Option<int>
    decreases n,
{
    if n <= 0 || n > m.len() {
        None
    } else {
        match find_import(m, x, n - 1) {
            Some(p) => Some(p),
            None => if m[n - 1].0 == x { Some(n - 1) } else { None },
        }
    }
}

/// After the first `n` events: each imported node once, in the order first
/// imported, with the leaf that imported it last.
pub open spec fn imports_after(events: Seq<(ResolutionIndex, ResolutionIndex)>, n: int) -> Seq<(ResolutionIndex, ResolutionIndex)>
    decreases n,
{
    if n <= 0 || n > events.len() {
        Seq::empty()
    } else {
        let m = imports_after(events, n - 1);
        match find_import(m, events[n - 1].0, m.len() as int) {
            Some(p) => m.update(p, events[n - 1]),
            None => m.push(events[n - 1]),
        }
    }
}

/// The errors for the first `n` events: a node imported again is reported
/// against the leaf that imported it before.
pub open spec fn reimport_errors(g: ResolutionGraph, file: FileId, events: Seq<(ResolutionIndex, ResolutionIndex)>, n: int)
    -> Seq<DiagnosticView>
    decreases n,
{
    if n <= 0 || n > events.len() {
        Seq::empty()
    } else {
        let m = imports_after(events, n - 1);
        let (x, l) = events[n - 1];
        reimport_errors(g, file, events, n - 1) + match find_import(m, x, m.len() as int) {
            Some(p) => {
                let prev = name_ident(g, m[p].1);
                let cur = name_ident(g, l);
                let decl = declaration_ident(g, x.0 as int, cur);
                seq![reimport_view(file, prev.inner@, prev.span, cur.inner@, cur.span, g.spec_file(x.0 as int),
                    decl.inner@, decl.span, item_hint_of_kind(g.kind_of(x.0 as int)))]
            },
            None => Seq::empty(),
        }
    }
}

/// Some child among `cs` is known by `t`.
pub open spec fn has_child_named(g: ResolutionGraph, cs: Seq<ResolutionIndex>, t: Seq<char>) -> bool {
    exists|k: int| 0 <= k < cs.len() && g.node((#[trigger] cs[k]).0 as int).spec_named(t)
}

/// The nodes below `n`, in order, that are the last importing leaf of some
/// entry and are known by `t`.
pub open spec fn group_leaves(g: ResolutionGraph, fin: Seq<(ResolutionIndex, ResolutionIndex)>, t: Seq<char>, n: int)
    -> Seq<ResolutionIndex>
    decreases n,
{
    if n <= 0 {
        Seq::empty()
    } else {
        group_leaves(g, fin, t, n - 1) + if exists|q: int| 0 <= q < fin.len() && (#[trigger] fin[q]).1.0 == n - 1
            && name_text(g, fin[q].1) == t {
            seq![ResolutionIndex((n - 1) as usize)]
        } else {
            Seq::empty()
        }
    }
}

/// One error per neighbouring pair among the first `n` leaves.
pub open spec fn pair_errors(g: ResolutionGraph, file: FileId, ls: Seq<ResolutionIndex>, n: int) -> Seq<DiagnosticView>
    decreases n,
{
    if n <= 1 || n > ls.len() {
        Seq::empty()
    } else {
        pair_errors(g, file, ls, n - 1) + seq![multiple_definition_view(file, name_text(g, ls[n - 2]),
            name_ident(g, ls[n - 2]).span, name_text(g, ls[n - 1]), name_ident(g, ls[n - 1]).span, DuplicateHint::Name)]
    }
}

/// Entry `p` is the first whose leaf is known by its name.
pub open spec fn first_import_of_name(g: ResolutionGraph, fin: Seq<(ResolutionIndex, ResolutionIndex)>, p: int) -> bool {
    forall|q: int| 0 <= q < p ==> name_text(g, (#[trigger] fin[q]).1) != name_text(g, fin[p].1)
}

/// The conflicts among the names imported into a scope, one name at a time
/// in the order the names first occur among the first `n` entries; names also
/// defined directly in the scope are left to the scope's own check.
pub open spec fn import_name_errors(
    g: ResolutionGraph,
    file: FileId,
    cs: Seq<ResolutionIndex>,
    fin: Seq<(ResolutionIndex, ResolutionIndex)>,
    n: int,
) -> Seq<DiagnosticView>
    decreases n,
{
    if n <= 0 || n > fin.len() {
        Seq::empty()
    } else {
        let t = name_text(g, fin[n - 1].1);
        import_name_errors(g, file, cs, fin, n - 1) + if first_import_of_name(g, fin, n - 1) && !has_child_named(g, cs, t) {
            let ls = group_leaves(g, fin, t, g.len() as int);
            pair_errors(g, file, ls, ls.len() as int)
        } else {
            Seq::empty()
        }
    }
}

/// All errors about the imports of a scope with children `cs`.
pub open spec fn use_conflict_errors(g: ResolutionGraph, file: FileId, cs: Seq<ResolutionIndex>) -> Seq<DiagnosticView> {
    let events = import_events(g, cs, cs.len() as int);
    let fin = imports_after(events, events.len() as int);
    reimport_errors(g, file, events, events.len() as int) + import_name_errors(g, file, cs, fin, fin.len() as int)
}

/// Every event pairs a node of the graph with a named leaf of the graph.
pub open spec fn events_ok(g: ResolutionGraph, events: Seq<(ResolutionIndex, ResolutionIndex)>) -> bool {
    forall|k: int| 0 <= k < events.len() ==> (#[trigger] events[k]).0.0 < g.len() && events[k].1.0 < g.len()
        && g.node(events[k].1.0 as int).spec_name() is Some
}

fn import_events_in(g: &ResolutionGraph, cs: &Vec<ResolutionIndex>) -> (r: Vec<(ResolutionIndex, ResolutionIndex)>)
    requires
        g.wf(),
        forall|j: int| 0 <= j < cs@.len() ==> (#[trigger] cs@[j]).0 < g.len(),
    ensures
        r@ == import_events(*g, cs@, cs@.len() as int),
        events_ok(*g, r@),
{
    let mut r: Vec<(ResolutionIndex, ResolutionIndex)> = Vec::new();
    let mut k: usize = 0;
    while k < cs.len()
        invariant
            g.wf(),
            forall|j: int| 0 <= j < cs@.len() ==> (#[trigger] cs@[j]).0 < g.len(),
            k <= cs@.len(),
            r@ == import_events(*g, cs@, k as int),
            events_ok(*g, r@),
        decreases cs@.len() - k,
    {
        let c = cs[k];
        if g.get(c).is_use() {
            proof {
                assert(g.node_ok(c.0 as int));
            }
            let ls = g.get(c).children().unwrap();
            let ghost base = r@;
            let mut j: usize = 0;
            while j < ls.len()
                invariant
                    g.wf(),
                    forall|x: int| 0 <= x < ls@.len() ==> (#[trigger] ls@[x]).0 < g.len(),
                    j <= ls@.len(),
                    r@ == base + leaf_events(*g, ls@, j as int),
                    events_ok(*g, r@),
                decreases ls@.len() - j,
            {
                let l = ls[j];
                proof {
                    assert(g.node_ok(l.0 as int));
                }
                let ghost before = r@;
                if g.get(l).name().is_some() {
                    let imports = match g.get(l) {
                        ResolutionNode::Leaf { leaf: Leaf::UseName(_, imports), .. } => Some(imports),
                        ResolutionNode::Leaf { leaf: Leaf::UseRename(_, _, imports), .. } => Some(imports),
                        _ => None,
                    };
                    match imports {
                        Some(imports) => {
                            let mut q: usize = 0;
                            while q < imports.len()
                                invariant
                                    g.wf(),
                                    l.0 < g.len(),
                                    g.node(l.0 as int).spec_name() is Some,
                                    imports@ == leaf_imports(g.node(l.0 as int)),
                                    forall|x: int| 0 <= x < imports@.len() ==> (#[trigger] imports@[x]).0 < g.len(),
                                    q <= imports@.len(),
                                    r@ == before + imports@.take(q as int).map_values(|x: ResolutionIndex| (x, l)),
                                    events_ok(*g, r@),
                                decreases imports@.len() - q,
                            {
                                r.push((imports[q], l));
                                q = q + 1;
                                assert(imports@.take(q as int).map_values(|x: ResolutionIndex| (x, l)) =~= imports@.take(
                                    q - 1).map_values(|x: ResolutionIndex| (x, l)).push((imports@[q - 1], l)));
                            }
                            assert(imports@.take(imports@.len() as int) =~= imports@);
                        },
                        None => {
                            assert(leaf_imports(g.node(l.0 as int)) =~= Seq::<ResolutionIndex>::empty());
                            assert(r@ =~= before + leaf_imports(g.node(l.0 as int)).map_values(|x: ResolutionIndex| (x, l)));
                        },
                    }
                } else {
                    assert(r@ =~= before + Seq::<(ResolutionIndex, ResolutionIndex)>::empty());
                }
                j = j + 1;
                assert(r@ =~= base + leaf_events(*g, ls@, j as int));
            }
            assert(r@ =~= import_events(*g, cs@, k + 1));
        } else {
            assert(r@ =~= r@ + Seq::<(ResolutionIndex, ResolutionIndex)>::empty());
        }
        k = k + 1;
    }
    r
}

pub proof fn lemma_find_import_stable(m: Seq<(ResolutionIndex, ResolutionIndex)>, x: ResolutionIndex, j: int, n: int)
    requires
        0 <= j < n <= m.len(),
        find_import(m, x, j + 1) == Some(j),
    ensures
        find_import(m, x, n) == Some(j),
    decreases n,
{
    if n > j + 1 {
        lemma_find_import_stable(m, x, j, n - 1);
    }
}

pub proof fn lemma_find_import_found(m: Seq<(ResolutionIndex, ResolutionIndex)>, x: ResolutionIndex, n: int)
    requires
        find_import(m, x, n) is Some,
    ensures
        0 <= find_import(m, x, n).unwrap() < n <= m.len(),
        m[find_import(m, x, n).unwrap()].0 == x,
    decreases n,
{
    if find_import(m, x, n - 1) is Some {
        lemma_find_import_found(m, x, n - 1);
    }
}

fn find_import_in(m: &Vec<(ResolutionIndex, ResolutionIndex)>, x: ResolutionIndex) -> (r: Option<usize>)
    ensures
        r matches Some(p) ==> find_import(m@, x, m@.len() as int) == Some(p as int),
        r is None ==> find_import(m@, x, m@.len() as int) is None,
        r matches Some(p) ==> p < m@.len() && m@[p as int].0 == x,
{
    let mut j: usize = 0;
    while j < m.len()
        invariant
            j <= m@.len(),
            find_import(m@, x, j as int).is_none(),
        decreases m@.len() - j,
    {
        if m[j].0.0 == x.0 {
            proof {
                assert(m@[j as int].0 == x);
                lemma_find_import_stable(m@, x, j as int, m@.len() as int);
            }
            return Some(j);
        }
        j = j + 1;
    }
    None
}

pub proof fn lemma_group_leaves_member(g: ResolutionGraph, fin: Seq<(ResolutionIndex, ResolutionIndex)>, t: Seq<char>, n: int, k: int)
    requires
        0 <= k < group_leaves(g, fin, t, n).len(),
    ensures
        exists|q: int| 0 <= q < fin.len() && (#[trigger] fin[q]).1 == group_leaves(g, fin, t, n)[k]
            && name_text(g, fin[q].1) == t,
    decreases n,
{
    if n > 0 {
        let prev = group_leaves(g, fin, t, n - 1);
        if k < prev.len() {
            lemma_group_leaves_member(g, fin, t, n - 1, k);
        } else {
            let q = choose|q: int| 0 <= q < fin.len() && (#[trigger] fin[q]).1.0 == n - 1 && name_text(g, fin[q].1) == t;
            assert(fin[q].1 == ResolutionIndex((n - 1) as usize));
        }
    }
}

fn is_group_leaf(g: &ResolutionGraph, fin: &Vec<(ResolutionIndex, ResolutionIndex)>, t: &Ident, i: usize) -> (r: bool)
    requires
        events_ok(*g, fin@),
    ensures
        r == exists|q: int| 0 <= q < fin@.len() && (#[trigger] fin@[q]).1.0 == i && name_text(*g, fin@[q].1) == t.inner@,
{
    let mut q: usize = 0;
    while q < fin.len()
        invariant
            events_ok(*g, fin@),
            q <= fin@.len(),
            forall|x: int| 0 <= x < q ==> !((#[trigger] fin@[x]).1.0 == i && name_text(*g, fin@[x].1) == t.inner@),
        decreases fin@.len() - q,
    {
        let (_, l) = fin[q];
        if l.0 == i && g.get(l).name().unwrap().same_text(t) {
            assert(fin@[q as int].1.0 == i && name_text(*g, fin@[q as int].1) == t.inner@);
            return true;
        }
        q = q + 1;
    }
    false
}

fn group_leaves_in(g: &ResolutionGraph, fin: &Vec<(ResolutionIndex, ResolutionIndex)>, t: &Ident) -> (r: Vec<ResolutionIndex>)
    requires
        events_ok(*g, fin@),
    ensures
        r@ == group_leaves(*g, fin@, t.inner@, g.len() as int),
{
    let mut r: Vec<ResolutionIndex> = Vec::new();
    let mut i: usize = 0;
    while i < g.inner.len()
        invariant
            events_ok(*g, fin@),
            i <= g.len(),
            r@ == group_leaves(*g, fin@, t.inner@, i as int),
        decreases g.len() - i,
    {
        if is_group_leaf(g, fin, t, i) {
            r.push(ResolutionIndex(i));
        } else {
            assert(r@ =~= r@ + Seq::<ResolutionIndex>::empty());
        }
        i = i + 1;
    }
    r
}

/// Reports the nodes a scope imports more than once, and the names imported
/// more than once into it that it does not define itself.
pub fn find_use_conflicts_in(g: &ResolutionGraph, node: ResolutionIndex, file: FileId, errors: &mut Vec<Diagnostic>)
    requires
        g.wf(),
        g.roots_have_files(),
        node.0 < g.len(),
    ensures
        views(final(errors)@) == views(old(errors)@) + match g.node(node.0 as int).spec_children() {
            Some(cs) => use_conflict_errors(*g, file, cs),
            None => Seq::empty(),
        },
{
    proof {
        assert(g.node_ok(node.0 as int));
    }
    let cs = match g.get(node).children() {
        Some(cs) => cs,
        None => {
            assert(views(errors@) =~= views(errors@) + Seq::<DiagnosticView>::empty());
            return;
        },
    };
    let ghost start = views(errors@);
    let events = import_events_in(g, cs);
    let mut m: Vec<(ResolutionIndex, ResolutionIndex)> = Vec::new();
    let mut k: usize = 0;
    while k < events.len()
        invariant
            g.wf(),
            g.roots_have_files(),
            events_ok(*g, events@),
            k <= events@.len(),
            m@ == imports_after(events@, k as int),
            events_ok(*g, m@),
            views(errors@) == start + reimport_errors(*g, file, events@, k as int),
        decreases events@.len() - k,
    {
        let (x, l) = events[k];
        let ghost before = errors@;
        let ghost m_before = m@;
        proof {
            assert(events@[k as int] == (x, l));
            assert(imports_after(events@, (k + 1) as int) == match find_import(m_before, x, m_before.len() as int) {
                Some(q) => m_before.update(q, (x, l)),
                None => m_before.push((x, l)),
            });
        }
        match find_import_in(&m, x) {
            Some(p) => {
                let prev = m[p].1;
                let cur = g.get(l).name().unwrap();
                let d = reimport(file, g.get(prev).name().unwrap(), cur, g.file(x), declaration_name(g, x, cur),
                    g.get(x).item_hint());
                let ghost m0 = m@;
                errors.push(d);
                m.set(p, (x, l));
                assert(views(errors@) =~= views(before) + seq![d@]);
                assert(m@ == m0.update(p as int, events@[k as int]));
            },
            None => {
                m.push((x, l));
                assert(views(errors@) =~= views(before) + Seq::<DiagnosticView>::empty());
            },
        }
        assert(m@ =~= imports_after(events@, (k + 1) as int));
        assert(views(errors@) =~= start + reimport_errors(*g, file, events@, (k + 1) as int));
        k = k + 1;
    }
    let ghost mid = views(errors@);
    let mut p: usize = 0;
    while p < m.len()
        invariant
            g.wf(),
            forall|j: int| 0 <= j < cs@.len() ==> (#[trigger] cs@[j]).0 < g.len(),
            events_ok(*g, m@),
            p <= m@.len(),
            views(errors@) == mid + import_name_errors(*g, file, cs@, m@, p as int),
        decreases m@.len() - p,
    {
        let t = g.get(m[p].1).name().unwrap();
        let mut first = true;
        let mut q: usize = 0;
        while q < p
            invariant
                events_ok(*g, m@),
                q <= p < m@.len(),
                *t == g.node(m@[p as int].1.0 as int).spec_name().unwrap(),
                first == forall|x: int| 0 <= x < q ==> name_text(*g, (#[trigger] m@[x]).1) != name_text(*g, m@[p as int].1),
            decreases p - q,
        {
            if g.get(m[q].1).name().unwrap().same_text(t) {
                first = false;
            }
            q = q + 1;
        }
        let mut has_child = false;
        let mut c: usize = 0;
        while c < cs.len()
            invariant
                forall|j: int| 0 <= j < cs@.len() ==> (#[trigger] cs@[j]).0 < g.len(),
                c <= cs@.len(),
                has_child == exists|j: int| 0 <= j < c && g.node((#[trigger] cs@[j]).0 as int).spec_named(t.inner@),
            decreases cs@.len() - c,
        {
            if g.get(cs[c]).is_named(t) {
                assert(g.node(cs@[c as int].0 as int).spec_named(t.inner@));
                has_child = true;
            }
            c = c + 1;
        }
        let ghost before = views(errors@);
        if first && !has_child {
            let ls = group_leaves_in(g, &m, t);
            let mut n: usize = 1;
            proof {
                assert forall|x: int| 0 <= x < ls@.len() implies (#[trigger] ls@[x]).0 < g.len()
                    && g.node(ls@[x].0 as int).spec_name() is Some by {
                    lemma_group_leaves_member(*g, m@, t.inner@, g.len() as int, x);
                }
            }
            while n < ls.len()
                invariant
                    1 <= n,
                    n <= ls@.len() || ls@.len() == 0,
                    forall|x: int| 0 <= x < ls@.len() ==> (#[trigger] ls@[x]).0 < g.len()
                        && g.node(ls@[x].0 as int).spec_name() is Some,
                    views(errors@) == before + pair_errors(*g, file, ls@, n as int),
                decreases ls@.len() - n,
            {
                let ghost b = errors@;
                let d = multiple_definition(file, g.get(ls[n - 1]).name().unwrap(), g.get(ls[n]).name().unwrap(),
                    DuplicateHint::Name);
                errors.push(d);
                assert(views(errors@) =~= views(b) + seq![d@]);
                n = n + 1;
            }
            if ls.len() == 0 {
                assert(pair_errors(*g, file, ls@, 0) =~= pair_errors(*g, file, ls@, 1));
            }
            assert(views(errors@) =~= before + pair_errors(*g, file, ls@, ls@.len() as int));
        } else {
            assert(views(errors@) =~= before + Seq::<DiagnosticView>::empty());
        }
        p = p + 1;
    }
}

/// The file the items directly in scope `i` are written in, for the scopes
/// whose names are checked: a module's own file if it has one, else the file
/// the scope is declared in.
pub open spec fn scope_file(g: ResolutionGraph, i: int) -> Option<FileId> {
    match g.kind_of(i) {
        NodeKind::Root | NodeKind::Impl | NodeKind::Trait | NodeKind::Arch | NodeKind::Fn => Some(g.spec_file(i)),
        NodeKind::Mod => Some(
            match g.content_files@[i] {
                Some(f) => f,
                None => g.spec_file(i),
            },
        ),
        _ => None,
    }
}

/// The errors about node `i`: duplicates within its item, then, for a
/// scope, the name conflicts and import conflicts among its children.
pub open spec fn node_conflict_errors(g: ResolutionGraph, i: int) -> Seq<DiagnosticView> {
    let checks = g.node(i).spec_name_checks();
    duplicate_name_errors(g.spec_file(i), checks, checks.len() as int) + match scope_file(g, i) {
        Some(f) => {
            let cs = g.node(i).spec_children().unwrap();
            scope_name_errors(g, f, cs, cs.len() as int) + use_conflict_errors(g, f, cs)
        },
        None => Seq::empty(),
    }
}

/// The errors about the first `n` nodes, in order.
pub open spec fn all_conflict_errors(g: ResolutionGraph, n: int) -> Seq<DiagnosticView>
    decreases n,
{
    if n <= 0 {
        Seq::empty()
    } else {
        all_conflict_errors(g, n - 1) + node_conflict_errors(g, n - 1)
    }
}

/// Reports the conflicts about one node.
fn check_node(g: &ResolutionGraph, node: ResolutionIndex, errors: &mut Vec<Diagnostic>)
    requires
        g.wf(),
        g.roots_have_files(),
        node.0 < g.len(),
    ensures
        views(final(errors)@) == views(old(errors)@) + node_conflict_errors(*g, node.0 as int),
{
    let ghost before = views(errors@);
    let file = g.file(node);
    match g.get(node).name_checks() {
        Some(checks) => find_duplicate_names(file, checks, errors),
        None => {
            assert(views(errors@) =~= views(errors@) + duplicate_name_errors(file,
                g.node(node.0 as int).spec_name_checks(), 0));
        },
    }
    let ghost after_checks = views(errors@);
    let file_of_scope = match g.get(node).kind() {
        NodeKind::Root | NodeKind::Impl | NodeKind::Trait | NodeKind::Arch | NodeKind::Fn => Some(file),
        NodeKind::Mod => match g.content_files[node.0] {
            Some(f) => Some(f),
            None => Some(file),
        },
        _ => None,
    };
    assert(file_of_scope == scope_file(*g, node.0 as int));
    match file_of_scope {
        Some(f) => {
            proof {
                assert(g.node_ok(node.0 as int));
            }
            find_name_conflicts_in(g, node, f, errors);
            find_use_conflicts_in(g, node, f, errors);
        },
        None => {},
    }
    assert(views(errors@) =~= before + node_conflict_errors(*g, node.0 as int));
}

/// Checks a whole graph for names defined more than once.
pub struct ConflictChecker<'a> {
    pub resolution_graph: &'a ResolutionGraph,
    pub errors: Vec<Diagnostic>,
}

impl<'a> ConflictChecker<'a> {
    /// Checks every node of the graph, in order.
    pub fn visit_all(&mut self)
        requires
            old(self).resolution_graph.wf(),
            old(self).resolution_graph.roots_have_files(),
        ensures
            final(self).resolution_graph == old(self).resolution_graph,
            views(final(self).errors@) == views(old(self).errors@) + all_conflict_errors(*old(self).resolution_graph,
                old(self).resolution_graph.len() as int),
    {
        let g = self.resolution_graph;
        let ghost start = views(self.errors@);
        let mut i: usize = 0;
        while i < g.inner.len()
            invariant
                g == self.resolution_graph,
                g.wf(),
                g.roots_have_files(),
                i <= g.len(),
                views(self.errors@) == start + all_conflict_errors(*g, i as int),
            decreases g.len() - i,
        {
            let ghost before = views(self.errors@);
            check_node(g, ResolutionIndex(i), &mut self.errors);
            assert(views(self.errors@) =~= start + all_conflict_errors(*g, (i + 1) as int));
            i = i + 1;
        }
    }
}

} // verus!
