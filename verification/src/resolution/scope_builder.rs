//! Building the resolution graph from the items of the files: one node per
//! item, nested as the items are, with `mod name;` declarations followed into
//! the files that back them.

use vstd::prelude::*;

use crate::ast::{Ident, Vis};
use crate::error::{module_with_external_file_in_fn, module_with_external_file_in_fn_view, Diagnostic};
use crate::find_file::{FileGraph, FileId, ModFile};
use super::graph::{
    vis_ok, Branch, ItemData, ItemMod, ItemUse, Leaf, NodeKind, ResolutionGraph, ResolutionIndex, ResolutionNode,
    UnnamedData,
};
use super::uses::{clone_path, clone_use_tree, same_path};

verus! {

/// Where the content of a module is.
#[derive(Debug)]
pub enum ModContent {
    /// Written in braces after the declaration.
    Here(Vec<Item>),
    /// In a file of its own.
    File,
}

/// A field of a struct.
#[derive(Debug)]
pub enum Field {
    Named(ItemData),
    Unnamed(UnnamedData),
}

/// An item of a file, with the items nested in it.
#[derive(Debug)]
pub enum Item {
    Mod(ItemMod, ModContent),
    Use(ItemUse),
    Const(ItemData),
    /// A function and the items declared anywhere in its body.
    Fn(ItemData, Vec<Item>),
    Type(ItemData),
    Trait(ItemData),
    Struct(ItemData, Vec<Field>),
    Enum(ItemData, Vec<ItemData>),
    Impl(UnnamedData, Vec<Item>),
    Entity(ItemData),
    Arch(UnnamedData, Vec<Item>),
    TraitAlias(ItemData),
}

/// A `pub(in path)` names at least one segment.
pub open spec fn opt_vis_ok(v: Option<Vis>) -> bool {
    v matches Some(Vis::Restricted(_, path)) ==> path.segments@.len() > 0
}

pub open spec fn field_ok(f: Field) -> bool {
    match f {
        Field::Named(d) => opt_vis_ok(d.vis),
        Field::Unnamed(u) => opt_vis_ok(u.vis),
    }
}

/// Every visibility written in the item and the items nested in it is well formed.
pub open spec fn item_ok(item: Item) -> bool
    decreases item, 0int,
{
    match item {
        Item::Mod(m, content) => opt_vis_ok(m.vis) && match content {
            ModContent::Here(items) => items_ok_upto(items@, items@.len() as int),
            ModContent::File => true,
        },
        Item::Use(u) => opt_vis_ok(u.vis),
        Item::Const(d) => opt_vis_ok(d.vis),
        Item::Fn(d, body) => opt_vis_ok(d.vis) && items_ok_upto(body@, body@.len() as int),
        Item::Type(d) => opt_vis_ok(d.vis),
        Item::Trait(d) => opt_vis_ok(d.vis),
        Item::Struct(d, fields) => opt_vis_ok(d.vis) && forall|k: int| 0 <= k < fields@.len() ==> field_ok(#[trigger] fields@[k]),
        Item::Enum(d, variants) => opt_vis_ok(d.vis) && forall|k: int| 0 <= k < variants@.len() ==> opt_vis_ok(#[trigger] variants@[k].vis),
        Item::Impl(u, items) => opt_vis_ok(u.vis) && items_ok_upto(items@, items@.len() as int),
        Item::Entity(d) => opt_vis_ok(d.vis),
        Item::Arch(u, items) => opt_vis_ok(u.vis) && items_ok_upto(items@, items@.len() as int),
        Item::TraitAlias(d) => opt_vis_ok(d.vis),
    }
}

/// The first `n` items are well formed.
pub open spec fn items_ok_upto(items: Seq<Item>, n: int) -> bool
    decreases items, n,
{
    if n <= 0 || n > items.len() {
        true
    } else {
        items_ok_upto(items, n - 1) && item_ok(items[n - 1])
    }
}

pub open spec fn items_ok(items: Seq<Item>) -> bool {
    items_ok_upto(items, items.len() as int)
}

pub proof fn lemma_items_ok(items: Seq<Item>, i: int, n: int)
    requires
        0 <= i < n <= items.len(),
        items_ok_upto(items, n),
    ensures
        item_ok(items[i]),
    decreases n,
{
    if i < n - 1 {
        lemma_items_ok(items, i, n - 1);
    }
}

/// The number of items in an item, counting itself.
pub open spec fn item_size(item: Item) -> nat
    decreases item, 0int,
{
    match item {
        Item::Mod(_, ModContent::Here(items)) => 1 + items_size(items@, items@.len() as int),
        Item::Fn(_, body) => 1 + items_size(body@, body@.len() as int),
        Item::Impl(_, items) => 1 + items_size(items@, items@.len() as int),
        Item::Arch(_, items) => 1 + items_size(items@, items@.len() as int),
        _ => 1,
    }
}

pub open spec fn items_size(items: Seq<Item>, n: int) -> nat
    decreases items, n,
{
    if n <= 0 || n > items.len() {
        0
    } else {
        items_size(items, n - 1) + item_size(items[n - 1])
    }
}

pub proof fn lemma_items_size(items: Seq<Item>, i: int, n: int)
    requires
        0 <= i < n <= items.len(),
    ensures
        item_size(items[i]) <= items_size(items, n),
    decreases n,
{
    if i < n - 1 {
        lemma_items_size(items, i, n - 1);
    }
}

/// The kind of node an item becomes.
pub open spec fn item_kind(item: Item) -> NodeKind {
    match item {
        Item::Mod(..) => NodeKind::Mod,
        Item::Use(_) => NodeKind::Use,
        Item::Const(_) => NodeKind::Const,
        Item::Fn(..) => NodeKind::Fn,
        Item::Type(_) => NodeKind::Type,
        Item::Trait(_) => NodeKind::Trait,
        Item::Struct(..) => NodeKind::Struct,
        Item::Enum(..) => NodeKind::Enum,
        Item::Impl(..) => NodeKind::Impl,
        Item::Entity(_) => NodeKind::Entity,
        Item::Arch(..) => NodeKind::Arch,
        Item::TraitAlias(_) => NodeKind::TraitAlias,
    }
}

/// The name an item is known by, if any.
pub open spec fn item_name(item: Item) -> Option<Ident> {
    match item {
        Item::Mod(m, _) => Some(m.ident),
        Item::Use(_) => None,
        Item::Const(d) => Some(d.ident),
        Item::Fn(d, _) => Some(d.ident),
        Item::Type(d) => Some(d.ident),
        Item::Trait(d) => Some(d.ident),
        Item::Struct(d, _) => Some(d.ident),
        Item::Enum(d, _) => Some(d.ident),
        Item::Impl(..) => None,
        Item::Entity(d) => Some(d.ident),
        Item::Arch(..) => None,
        Item::TraitAlias(d) => Some(d.ident),
    }
}

/// Two visibilities written alike.
pub open spec fn same_vis(a: Option<Vis>, b: Option<Vis>) -> bool {
    match a {
        None => b is None,
        Some(Vis::Restricted(sa, pa)) => b matches Some(Vis::Restricted(sb, pb)) && sa == sb && same_path(pa, pb),
        Some(_) => a == b,
    }
}

pub fn clone_vis(v: &Option<Vis>) -> (r: Option<Vis>)
    ensures
        same_vis(*v, r),
{
    match v {
        None => None,
        Some(Vis::Pub(s)) => Some(Vis::Pub(*s)),
        Some(Vis::Super(s)) => Some(Vis::Super(*s)),
        Some(Vis::Crate(s)) => Some(Vis::Crate(*s)),
        Some(Vis::Priv(s)) => Some(Vis::Priv(*s)),
        Some(Vis::LowerSelf(s)) => Some(Vis::LowerSelf(*s)),
        Some(Vis::Restricted(s, path)) => Some(Vis::Restricted(*s, clone_path(path))),
    }
}

fn clone_data(d: &ItemData) -> (r: ItemData)
    ensures
        r.ident == d.ident,
        same_vis(d.vis, r.vis),
{
    ItemData {
        vis: clone_vis(&d.vis),
        ident: d.ident.duplicate(),
        generics: d.generics.clone(),
        name_checks: d.name_checks.clone(),
        type_refs: d.type_refs.clone(),
    }
}

fn clone_unnamed(u: &UnnamedData) -> (r: UnnamedData)
    ensures
        same_vis(u.vis, r.vis),
{
    UnnamedData {
        vis: clone_vis(&u.vis),
        generics: u.generics.clone(),
        name_checks: u.name_checks.clone(),
        type_refs: u.type_refs.clone(),
    }
}

/// From `a` to `b`, every node of `a` but `s` stays as it was.
pub open spec fn nodes_kept_but(a: ResolutionGraph, b: ResolutionGraph, s: int) -> bool {
    forall|i: int| 0 <= i < a.len() && i != s ==> #[trigger] b.inner@[i] == a.inner@[i]
}

/// From `a` to `b`, the children of `s`, if it has a list of them, gained
/// `added` at the end.
pub open spec fn children_added(a: ResolutionGraph, b: ResolutionGraph, s: int, added: Seq<ResolutionIndex>) -> bool {
    a.node(s).spec_children() matches Some(cs) ==> b.node(s).spec_children() == Some(cs + added)
}

/// `c` is a node made for `item` under `scope`.
pub open spec fn item_node_at(g: ResolutionGraph, c: ResolutionIndex, item: Item, scope: ResolutionIndex) -> bool {
    &&& 0 <= c.0 < g.len()
    &&& g.kind_of(c.0 as int) == item_kind(item)
    &&& g.node(c.0 as int).spec_parent() == Some(scope)
    &&& g.node(c.0 as int).spec_name() == item_name(item)
}

/// The children `cs` of `scope` in `g` are, in order, the nodes made for
/// `items`.
pub open spec fn nodes_for_items(g: ResolutionGraph, cs: Seq<ResolutionIndex>, items: Seq<Item>, scope: ResolutionIndex) -> bool {
    &&& cs.len() == items.len()
    &&& forall|k: int| 0 <= k < items.len() ==> #[trigger] item_node_at(g, cs[k], items[k], scope)
}

/// A node added under `s` (from `a` to `b`), then nodes added under it (from
/// The node `c` made for a `mod name;` holds, in order, the nodes made for
/// the items of the file found for it, or nothing when none was found.
pub open spec fn holds_file_items(g: ResolutionGraph, fg: FileGraph, c: ResolutionIndex, item: Item) -> bool {
    item matches Item::Mod(_, ModContent::File) ==> match g.content_files@[c.0 as int] {
        Some(f) => g.node(c.0 as int).spec_children() matches Some(cs) && nodes_for_items(
            g,
            cs,
            fg.files@[f as int].items@,
            c,
        ),
        None => g.node(c.0 as int).spec_children() == Some(Seq::<ResolutionIndex>::empty()),
    }
}

/// The items written inside `item` whose nodes go under its own node: the
/// contents of an inline module, the items of a function body, of an `impl`
/// or of an `arch`.
pub open spec fn nested_items(item: Item) -> Option<Seq<Item>> {
    match item {
        Item::Mod(_, ModContent::Here(items)) => Some(items@),
        Item::Fn(_, body) => Some(body@),
        Item::Impl(_, items) => Some(items@),
        Item::Arch(_, items) => Some(items@),
        _ => None,
    }
}

/// The node `c` made for `item` holds, in order, the nodes made for the
/// items written inside it.
pub open spec fn holds_nested(g: ResolutionGraph, c: ResolutionIndex, item: Item) -> bool {
    nested_items(item) matches Some(items) ==> g.node(c.0 as int).spec_children() matches Some(cs) && nodes_for_items(
        g,
        cs,
        items,
        c,
    )
}

/// `b` to `c`): the nodes of `a` but `s` stay, and `s` gained that one node.
pub proof fn lemma_nested_frame(a: ResolutionGraph, b: ResolutionGraph, c: ResolutionGraph, s: int)
    requires
        0 <= s < a.len(),
        a.len() <= b.len(),
        nodes_kept_but(a, b, s),
        children_added(a, b, s, seq![ResolutionIndex(a.len() as usize)]),
        nodes_kept_but(b, c, a.len() as int),
    ensures
        nodes_kept_but(a, c, s),
        children_added(a, c, s, seq![ResolutionIndex(a.len() as usize)]),
{
    lemma_kept_but_trans(a, b, c, s, a.len() as int);
    assert(c.inner@[s] == b.inner@[s]);
}

pub proof fn lemma_kept_but_trans(a: ResolutionGraph, b: ResolutionGraph, c: ResolutionGraph, s: int, t: int)
    requires
        nodes_kept_but(a, b, s),
        nodes_kept_but(b, c, t),
        a.len() <= b.len(),
        t == s || t >= a.len() || t < 0,
    ensures
        nodes_kept_but(a, c, s),
{
    assert forall|i: int| 0 <= i < a.len() && i != s implies #[trigger] c.inner@[i] == a.inner@[i] by {
        assert(b.inner@[i] == a.inner@[i]);
    }
}

/// `b` is `a` with nodes appended: existing nodes keep their kind, parent and
/// name, and their children only gain entries at the end.
pub open spec fn graph_extends(a: ResolutionGraph, b: ResolutionGraph) -> bool {
    &&& a.len() <= b.len()
    &&& forall|i: int| 0 <= i < a.len() ==> {
        &&& #[trigger] b.kind_of(i) == a.kind_of(i)
        &&& b.node(i).spec_parent() == a.node(i).spec_parent()
        &&& b.node(i).spec_name() == a.node(i).spec_name()
        &&& (a.node(i).spec_children() matches Some(ca) ==> b.node(i).spec_children() matches Some(cb)
            && ca.is_prefix_of(cb))
        &&& b.content_files@[i] == a.content_files@[i]
    }
    &&& forall|i: int| a.len() <= i < b.len() ==> #[trigger] b.kind_of(i) != NodeKind::Root
    &&& b.roots@ == a.roots@
}

pub proof fn lemma_graph_extends_refl(a: ResolutionGraph)
    requires
        a.wf(),
    ensures
        graph_extends(a, a),
{
    assert forall|i: int| 0 <= i < a.len() implies (#[trigger] a.node(i).spec_children() matches Some(ca)
        ==> a.node(i).spec_children() matches Some(cb) && ca.is_prefix_of(cb)) by {
        if let Some(ca) = a.node(i).spec_children() {
            assert(ca.subrange(0, ca.len() as int) =~= ca);
        }
    }
}

pub proof fn lemma_graph_extends_trans(a: ResolutionGraph, b: ResolutionGraph, c: ResolutionGraph)
    requires
        graph_extends(a, b),
        graph_extends(b, c),
    ensures
        graph_extends(a, c),
{
    assert forall|i: int| 0 <= i < a.len() implies (#[trigger] a.node(i).spec_children() matches Some(ca)
        ==> c.node(i).spec_children() matches Some(cc) && ca.is_prefix_of(cc)) by {
        assert(b.kind_of(i) == a.kind_of(i));
        assert(c.kind_of(i) == b.kind_of(i));
        if let Some(ca) = a.node(i).spec_children() {
            let cb = b.node(i).spec_children().unwrap();
            let cc = c.node(i).spec_children().unwrap();
            assert forall|k: int| 0 <= k < ca.len() implies ca[k] == cc[k] by {
                assert(ca[k] == cb[k]);
            }
        }
    }
    assert forall|i: int| a.len() <= i < c.len() implies #[trigger] c.kind_of(i) != NodeKind::Root by {
        if i < b.len() {
            assert(b.kind_of(i) != NodeKind::Root);
        }
    }
}

pub proof fn lemma_graph_extends_files(a: ResolutionGraph, b: ResolutionGraph)
    requires
        a.wf(),
        b.wf(),
        graph_extends(a, b),
        a.roots_have_files(),
        forall|i: int| a.len() <= i < b.len() ==> #[trigger] b.kind_of(i) != NodeKind::Root,
    ensures
        b.roots_have_files(),
{
    assert forall|i: int| 0 <= i < b.len() && #[trigger] b.kind_of(i) == NodeKind::Root implies
        b.content_files@[i].is_some() by {
        if i < a.len() {
            assert(a.kind_of(i) == NodeKind::Root);
        }
    }
}

/// The texts of the module identifiers among `scopes`, in order.
pub open spec fn mod_idents(g: ResolutionGraph, scopes: Seq<ResolutionIndex>) -> Seq<Seq<char>>
    decreases scopes.len(),
{
    if scopes.len() == 0 {
        Seq::empty()
    } else {
        let rest = mod_idents(g, scopes.drop_last());
        match g.node(scopes.last().0 as int) {
            ResolutionNode::Branch { branch: Branch::Mod(m), .. } => rest.push(m.ident.inner@),
            _ => rest,
        }
    }
}

/// `path` ends with the identifiers `idents`.
pub open spec fn ends_with(path: Seq<Seq<char>>, idents: Seq<Ident>) -> bool {
    &&& idents.len() <= path.len()
    &&& forall|k: int| 0 <= k < idents.len() ==> #[trigger] idents[k].inner@ == path[path.len() - idents.len() + k]
}

/// Among the first `n` module files, the one whose identifiers are the longest
/// suffix of `path` (the last of equally long ones), with that length.
pub open spec fn best_mod_file(entries: Seq<ModFile>, path: Seq<Seq<char>>, n: int) -> Option<(FileId, nat)>
    decreases n,
{
    if n <= 0 || n > entries.len() {
        None
    } else {
        let prev = best_mod_file(entries, path, n - 1);
        let e = entries[n - 1];
        if ends_with(path, e.idents@) {
            match prev {
                Some((_, l)) => if e.idents@.len() >= l {
                    Some((e.file, e.idents@.len()))
                } else {
                    prev
                },
                None => Some((e.file, e.idents@.len())),
            }
        } else {
            prev
        }
    }
}

/// The file backing a module declared as `path` (module identifiers from the
/// crate root) in a file with the given module files.
pub open spec fn mod_file_for(entries: Seq<ModFile>, path: Seq<Seq<char>>) -> Option<FileId> {
    match best_mod_file(entries, path, entries.len() as int) {
        Some((f, _)) => Some(f),
        None => None,
    }
}

fn ends_with_exec(path: &Vec<Ident>, idents: &Vec<Ident>) -> (r: bool)
    ensures
        r == ends_with(path@.map_values(|i: Ident| i.inner@), idents@),
{
    let ghost texts = path@.map_values(|i: Ident| i.inner@);
    if idents.len() > path.len() {
        return false;
    }
    let offset = path.len() - idents.len();
    let mut k: usize = 0;
    while k < idents.len()
        invariant
            idents@.len() <= path@.len(),
            path@.len() <= usize::MAX,
            offset == path@.len() - idents@.len(),
            texts == path@.map_values(|i: Ident| i.inner@),
            k <= idents@.len(),
            forall|j: int| 0 <= j < k ==> #[trigger] idents@[j].inner@ == texts[texts.len() - idents@.len() + j],
        decreases idents@.len() - k,
    {
        if !idents[k].same_text(&path[offset + k]) {
            assert(texts[texts.len() - idents@.len() + k] == path@[offset + k].inner@);
            return false;
        }
        k = k + 1;
    }
    true
}

/// The state of building the graph: the files and scopes entered so far.
#[derive(Debug)]
pub struct ScopeBuilder {
    pub resolution_graph: ResolutionGraph,
    pub errors: Vec<Diagnostic>,
    pub file_ancestry: Vec<FileId>,
    pub scope_ancestry: Vec<ResolutionIndex>,
}

impl ScopeBuilder {
    pub open spec fn inv(&self, fg: FileGraph) -> bool {
        &&& self.resolution_graph.wf()
        &&& fg.wf()
        &&& self.file_ancestry@.len() > 0
        &&& forall|k: int| 0 <= k < self.file_ancestry@.len() ==> #[trigger] self.file_ancestry@[k] < fg.len()
        &&& self.scope_ancestry@.len() > 0
        &&& forall|k: int| 0 <= k < self.scope_ancestry@.len() ==> (#[trigger] self.scope_ancestry@[k]).0
            < self.resolution_graph.len()
    }

    /// The file whose items are being visited.
    pub open spec fn current_file(&self) -> int {
        self.file_ancestry@.last() as int
    }

    /// The scope new nodes go under.
    pub open spec fn scope(&self) -> ResolutionIndex {
        self.scope_ancestry@.last()
    }

    /// What a visit keeps from `self` to `later`.
    pub open spec fn keeps(&self, later: ScopeBuilder) -> bool {
        &&& graph_extends(self.resolution_graph, later.resolution_graph)
        &&& self.errors@.is_prefix_of(later.errors@)
        &&& later.file_ancestry@ == self.file_ancestry@
        &&& later.scope_ancestry@ == self.scope_ancestry@
    }

    /// A builder that adds nodes under `root`, a root backed by `file`.
    pub fn new(resolution_graph: ResolutionGraph, errors: Vec<Diagnostic>, file: FileId, root: ResolutionIndex) -> (b: ScopeBuilder)
        ensures
            b.resolution_graph == resolution_graph,
            b.errors == errors,
            b.file_ancestry@ == seq![file],
            b.scope_ancestry@ == seq![root],
    {
        ScopeBuilder { resolution_graph, errors, file_ancestry: vec![file], scope_ancestry: vec![root] }
    }
}

pub proof fn lemma_builder_keeps_trans(a: ScopeBuilder, b: ScopeBuilder, c: ScopeBuilder)
    requires
        a.keeps(b),
        b.keeps(c),
    ensures
        a.keeps(c),
{
    lemma_graph_extends_trans(a.resolution_graph, b.resolution_graph, c.resolution_graph);
    assert forall|k: int| 0 <= k < a.errors@.len() implies a.errors@[k] == c.errors@[k] by {
        assert(a.errors@[k] == b.errors@[k]);
    }
}

pub proof fn lemma_builder_keeps_refl(a: ScopeBuilder)
    requires
        a.resolution_graph.wf(),
    ensures
        a.keeps(a),
{
    lemma_graph_extends_refl(a.resolution_graph);
    assert(a.errors@.subrange(0, a.errors@.len() as int) =~= a.errors@);
}

/// Some scope among `scopes` is a function.
pub open spec fn in_fn(g: ResolutionGraph, scopes: Seq<ResolutionIndex>) -> bool {
    exists|k: int| 0 <= k < scopes.len() && #[trigger] g.kind_of(scopes[k].0 as int) == NodeKind::Fn
}

/// A node that the builder may add: a branch without children yet, or a
/// leaf that refers to nothing.
pub open spec fn is_item_node(n: ResolutionNode) -> bool {
    &&& vis_ok(n)
    &&& match n {
        ResolutionNode::Root { .. } => false,
        ResolutionNode::Branch { children, .. } => children@.len() == 0,
        ResolutionNode::Leaf { leaf, .. } => !(leaf is UseName || leaf is UseRename || leaf is UseGlob),
    }
}

pub proof fn lemma_same_vis_ok(a: Option<Vis>, b: Option<Vis>)
    requires
        same_vis(a, b),
        opt_vis_ok(a),
    ensures
        opt_vis_ok(b),
{
}

fn clone_mod(m: &ItemMod) -> (r: ItemMod)
    ensures
        r.ident == m.ident,
        r.span == m.span,
        same_vis(m.vis, r.vis),
{
    ItemMod { vis: clone_vis(&m.vis), ident: m.ident.duplicate(), span: m.span }
}

impl ScopeBuilder {
    /// Adds `node` under the current scope.
    fn add_item_node(&mut self, fg: &FileGraph, node: ResolutionNode) -> (idx: ResolutionIndex)
        requires
            old(self).inv(*fg),
            node.spec_parent() == Some(old(self).scope()),
            is_item_node(node),
        ensures
            final(self).inv(*fg),
            old(self).keeps(*final(self)),
            final(self).errors == old(self).errors,
            idx.0 == old(self).resolution_graph.len(),
            final(self).resolution_graph.len() == old(self).resolution_graph.len() + 1,
            final(self).resolution_graph.inner@[idx.0 as int] == node,
            final(self).resolution_graph.content_files@ == old(self).resolution_graph.content_files@.push(None),
            nodes_kept_but(old(self).resolution_graph, final(self).resolution_graph, old(self).scope().0 as int),
            children_added(old(self).resolution_graph, final(self).resolution_graph, old(self).scope().0 as int,
                seq![idx]),
    {
        let ghost g0 = self.resolution_graph;
        let parent = self.scope_ancestry[self.scope_ancestry.len() - 1];
        let idx = self.resolution_graph.add_node(node);
        let ghost g1 = self.resolution_graph;
        self.resolution_graph.add_child(parent, idx);
        proof {
            let g2 = self.resolution_graph;
            assert forall|i: int| 0 <= i < g0.len() implies {
                &&& #[trigger] g2.kind_of(i) == g0.kind_of(i)
                &&& g2.node(i).spec_parent() == g0.node(i).spec_parent()
                &&& g2.node(i).spec_name() == g0.node(i).spec_name()
                &&& (g0.node(i).spec_children() matches Some(ca) ==> g2.node(i).spec_children() matches Some(cb)
                    && ca.is_prefix_of(cb))
                &&& g2.content_files@[i] == g0.content_files@[i]
            } by {
                assert(g1.inner@[i] == g0.inner@[i]);
                if i != parent.0 {
                    assert(g2.inner@[i] == g1.inner@[i]);
                    if let Some(ca) = g0.node(i).spec_children() {
                        assert(ca.subrange(0, ca.len() as int) =~= ca);
                    }
                } else {
                    if let Some(ca) = g0.node(i).spec_children() {
                        let cb = g2.node(i).spec_children().unwrap();
                        assert(cb == ca.push(idx));
                    }
                }
            }
            assert(g2.inner@[idx.0 as int] == g1.inner@[idx.0 as int]);
            assert forall|i: int| 0 <= i < g0.len() && i != parent.0 implies #[trigger] g2.inner@[i] == g0.inner@[i] by {
                assert(g1.inner@[i] == g0.inner@[i]);
            }
            assert(g1.inner@[parent.0 as int] == g0.inner@[parent.0 as int]);
            if let Some(cs) = g0.node(parent.0 as int).spec_children() {
                assert(g2.node(parent.0 as int).spec_children().unwrap() =~= cs + seq![idx]);
            }
            assert forall|k: int| 0 <= k < self.scope_ancestry@.len() implies (#[trigger] self.scope_ancestry@[k]).0
                < self.resolution_graph.len() by {
                assert(old(self).scope_ancestry@[k].0 < g0.len());
            }
            assert(old(self).errors@.subrange(0, old(self).errors@.len() as int) =~= old(self).errors@);
        }
        idx
    }

    /// Adds the nodes of `items` under the current scope, in order.
    pub fn visit_items(&mut self, fg: &FileGraph, items: &Vec<Item>)
        requires
            old(self).inv(*fg),
            items_ok(items@),
        ensures
            final(self).inv(*fg),
            old(self).keeps(*final(self)),
            final(self).resolution_graph.len() >= old(self).resolution_graph.len() + items@.len(),
            nodes_kept_but(old(self).resolution_graph, final(self).resolution_graph, old(self).scope().0 as int),
            old(self).resolution_graph.node(old(self).scope().0 as int).spec_children() matches Some(cs) ==> {
                &&& final(self).resolution_graph.node(old(self).scope().0 as int).spec_children() matches Some(fcs)
                &&& fcs.len() == cs.len() + items@.len()
                &&& fcs.subrange(0, cs.len() as int) == cs
                &&& nodes_for_items(final(self).resolution_graph, fcs.subrange(cs.len() as int, fcs.len() as int),
                    items@, old(self).scope())
            },
        decreases fg.len() - old(self).current_file(), items_size(items@, items@.len() as int), 2int,
    {
        let ghost start = *self;
        let ghost sc = start.scope().0 as int;
        proof {
            lemma_builder_keeps_refl(*self);
            assert forall|k: int| 0 <= k < start.resolution_graph.len() && k != sc implies
                #[trigger] self.resolution_graph.inner@[k] == start.resolution_graph.inner@[k] by {}
        }
        let mut i: usize = 0;
        while i < items.len()
            invariant
                self.inv(*fg),
                start.keeps(*self),
                start == *old(self),
                start.inv(*fg),
                sc == start.scope().0 as int,
                items_ok(items@),
                i <= items@.len(),
                self.resolution_graph.len() >= start.resolution_graph.len() + i,
                nodes_kept_but(start.resolution_graph, self.resolution_graph, sc),
                start.resolution_graph.node(sc).spec_children() matches Some(cs) ==> {
                    &&& self.resolution_graph.node(sc).spec_children() matches Some(fcs)
                    &&& fcs.len() == cs.len() + i
                    &&& fcs.subrange(0, cs.len() as int) == cs
                    &&& nodes_for_items(self.resolution_graph, fcs.subrange(cs.len() as int, fcs.len() as int),
                        items@.subrange(0, i as int), start.scope())
                },
            decreases items@.len() - i,
        {
            let ghost mid = *self;
            proof {
                lemma_items_ok(items@, i as int, items@.len() as int);
                lemma_items_size(items@, i as int, items@.len() as int);
            }
            self.visit_item(fg, &items[i]);
            proof {
                lemma_builder_keeps_trans(start, mid, *self);
                lemma_kept_but_trans(start.resolution_graph, mid.resolution_graph, self.resolution_graph, sc, sc);
                if let Some(cs) = start.resolution_graph.node(sc).spec_children() {
                    let g = self.resolution_graph;
                    let mg = mid.resolution_graph;
                    let mcs = mg.node(sc).spec_children().unwrap();
                    let fcs = g.node(sc).spec_children().unwrap();
                    assert(mg.inner.len() == mg.inner@.len());
                    let c = ResolutionIndex(mg.len() as usize);
                    assert(fcs == mcs + seq![c]);
                    assert(fcs.subrange(0, cs.len() as int) =~= cs) by {
                        assert(mcs.subrange(0, cs.len() as int) == cs);
                    }
                    let news = fcs.subrange(cs.len() as int, fcs.len() as int);
                    let mnews = mcs.subrange(cs.len() as int, mcs.len() as int);
                    assert(news =~= mnews.push(c));
                    assert forall|k: int| 0 <= k < i + 1 implies #[trigger] item_node_at(g, news[k],
                        items@.subrange(0, i + 1)[k], start.scope()) by {
                        if k < i {
                            assert(news[k] == mnews[k]);
                            assert(item_node_at(mg, mnews[k], items@.subrange(0, i as int)[k], start.scope()));
                            let j = mnews[k].0 as int;
                            assert(g.kind_of(j) == mg.kind_of(j));
                        } else {
                            assert(news[k] == c);
                            assert(items@.subrange(0, i + 1)[k] == items@[i as int]);
                        }
                    }
                }
            }
            i = i + 1;
        }
        proof {
            assert(items@.subrange(0, items@.len() as int) =~= items@);
        }
    }

    /// Some scope entered so far is a function.
    fn in_fn_scope(&self) -> (r: bool)
        requires
            self.resolution_graph.wf(),
            forall|k: int| 0 <= k < self.scope_ancestry@.len() ==> (#[trigger] self.scope_ancestry@[k]).0
                < self.resolution_graph.len(),
        ensures
            r == in_fn(self.resolution_graph, self.scope_ancestry@),
    {
        let mut k: usize = 0;
        while k < self.scope_ancestry.len()
            invariant
                forall|j: int| 0 <= j < self.scope_ancestry@.len() ==> (#[trigger] self.scope_ancestry@[j]).0
                    < self.resolution_graph.len(),
                k <= self.scope_ancestry@.len(),
                forall|j: int| 0 <= j < k ==> #[trigger] self.resolution_graph.kind_of(self.scope_ancestry@[j].0 as int)
                    != NodeKind::Fn,
            decreases self.scope_ancestry@.len() - k,
        {
            if self.resolution_graph.get(self.scope_ancestry[k]).kind() == NodeKind::Fn {
                assert(self.resolution_graph.kind_of(self.scope_ancestry@[k as int].0 as int) == NodeKind::Fn);
                return true;
            }
            k = k + 1;
        }
        false
    }

    /// The file that backs the module `ident` declared in the current scope:
    /// among the module files of the current file, the one whose identifier
    /// path is the longest suffix of the module path of the declaration.
    fn find_mod_file(&self, fg: &FileGraph, ident: &Ident) -> (r: Option<FileId>)
        requires
            self.inv(*fg),
        ensures
            r == mod_file_for(fg.children@[self.current_file()]@,
                mod_idents(self.resolution_graph, self.scope_ancestry@).push(ident.inner@)),
            r matches Some(f) ==> self.current_file() < f < fg.len(),
    {
        let ghost g = self.resolution_graph;
        let ghost scopes = self.scope_ancestry@;
        let mut path: Vec<Ident> = Vec::new();
        let mut k: usize = 0;
        while k < self.scope_ancestry.len()
            invariant
                self.resolution_graph.wf(),
                forall|j: int| 0 <= j < self.scope_ancestry@.len() ==> (#[trigger] self.scope_ancestry@[j]).0
                    < self.resolution_graph.len(),
                k <= self.scope_ancestry@.len(),
                path@.map_values(|i: Ident| i.inner@) == mod_idents(self.resolution_graph, self.scope_ancestry@.take(k as int)),
            decreases self.scope_ancestry@.len() - k,
        {
            let ghost before = path@;
            proof {
                assert(self.scope_ancestry@.take(k + 1).drop_last() =~= self.scope_ancestry@.take(k as int));
            }
            match self.resolution_graph.get(self.scope_ancestry[k]) {
                ResolutionNode::Branch { branch: Branch::Mod(m), .. } => {
                    path.push(m.ident.duplicate());
                    assert(path@.map_values(|i: Ident| i.inner@) =~= before.map_values(|i: Ident| i.inner@).push(m.ident.inner@));
                },
                _ => {},
            }
            k = k + 1;
        }
        let ghost before = path@;
        path.push(ident.duplicate());
        proof {
            assert(self.scope_ancestry@.take(self.scope_ancestry@.len() as int) =~= self.scope_ancestry@);
            assert(path@.map_values(|i: Ident| i.inner@) =~= before.map_values(|i: Ident| i.inner@).push(ident.inner@));
        }
        let ghost texts = path@.map_values(|i: Ident| i.inner@);
        let cur = self.file_ancestry[self.file_ancestry.len() - 1];
        let entries = &fg.children[cur];
        let mut best: Option<(FileId, usize)> = None;
        let mut e: usize = 0;
        while e < entries.len()
            invariant
                fg.wf(),
                cur < fg.len(),
                entries@ == fg.children@[cur as int]@,
                texts == path@.map_values(|i: Ident| i.inner@),
                e <= entries@.len(),
                match best_mod_file(entries@, texts, e as int) {
                    Some((f, l)) => best == Some((f, l as usize)) && l <= usize::MAX,
                    None => best.is_none(),
                },
                best matches Some((f, _)) ==> cur < f < fg.len(),
            decreases entries@.len() - e,
        {
            let entry = &entries[e];
            proof {
                assert(cur < entry.file < fg.len());
            }
            if ends_with_exec(&path, &entry.idents) {
                let l = entry.idents.len();
                match best {
                    Some((_, bl)) => {
                        if l >= bl {
                            best = Some((entry.file, l));
                        }
                    },
                    None => {
                        best = Some((entry.file, l));
                    },
                }
            }
            e = e + 1;
        }
        match best {
            Some((f, _)) => Some(f),
            None => None,
        }
    }

    /// Adds the node of `item` under the current scope, and the nodes of the
    /// items nested in it (following a `mod name;` into its file) under it.
    pub fn visit_item(&mut self, fg: &FileGraph, item: &Item)
        requires
            old(self).inv(*fg),
            item_ok(*item),
        ensures
            final(self).inv(*fg),
            old(self).keeps(*final(self)),
            final(self).resolution_graph.len() > old(self).resolution_graph.len(),
            final(self).resolution_graph.kind_of(old(self).resolution_graph.len() as int) == item_kind(*item),
            final(self).resolution_graph.node(old(self).resolution_graph.len() as int).spec_parent()
                == Some(old(self).scope()),
            final(self).resolution_graph.node(old(self).resolution_graph.len() as int).spec_name() == item_name(*item),
            item matches Item::Mod(m, ModContent::File) ==> {
                &&& final(self).resolution_graph.content_files@[old(self).resolution_graph.len() as int]
                    == mod_file_for(fg.children@[old(self).current_file()]@,
                        mod_idents(old(self).resolution_graph, old(self).scope_ancestry@).push(m.ident.inner@))
                &&& in_fn(old(self).resolution_graph, old(self).scope_ancestry@) ==> {
                    &&& final(self).errors@.len() > old(self).errors@.len()
                    &&& final(self).errors@[old(self).errors@.len() as int]@ == module_with_external_file_in_fn_view(
                        old(self).current_file() as FileId, m.span)
                }
            },
            nodes_kept_but(old(self).resolution_graph, final(self).resolution_graph, old(self).scope().0 as int),
            children_added(old(self).resolution_graph, final(self).resolution_graph, old(self).scope().0 as int,
                seq![ResolutionIndex(old(self).resolution_graph.len() as usize)]),
            holds_nested(final(self).resolution_graph, ResolutionIndex(old(self).resolution_graph.len() as usize), *item),
            holds_file_items(final(self).resolution_graph, *fg, ResolutionIndex(old(self).resolution_graph.len() as usize),
                *item),
        decreases fg.len() - old(self).current_file(), item_size(*item), 1int,
    {
        let parent = self.scope_ancestry[self.scope_ancestry.len() - 1];
        match item {
            Item::Mod(_, ModContent::File) => self.visit_mod_file(fg, item),
            Item::Mod(_, ModContent::Here(_)) | Item::Fn(..) | Item::Impl(..) | Item::Arch(..) => {
                self.visit_nested(fg, item)
            },
            Item::Struct(..) => self.visit_struct(fg, item),
            Item::Enum(..) => self.visit_enum(fg, item),
            Item::Use(u) => {
                let vis = clone_vis(&u.vis);
                proof {
                    lemma_same_vis_ok(u.vis, vis);
                }
                let data = ItemUse { vis, tree: clone_use_tree(&u.tree), span: u.span };
                self.add_item_node(fg, ResolutionNode::Branch { parent, branch: Branch::Use(data), children: Vec::new() });
            },
            Item::Const(d) => {
                let data = clone_data(d);
                proof {
                    lemma_same_vis_ok(d.vis, data.vis);
                }
                self.add_item_node(fg, ResolutionNode::Leaf { parent, leaf: Leaf::Const(data) });
            },
            Item::Type(d) => {
                let data = clone_data(d);
                proof {
                    lemma_same_vis_ok(d.vis, data.vis);
                }
                self.add_item_node(fg, ResolutionNode::Leaf { parent, leaf: Leaf::Type(data) });
            },
            Item::TraitAlias(d) => {
                let data = clone_data(d);
                proof {
                    lemma_same_vis_ok(d.vis, data.vis);
                }
                self.add_item_node(fg, ResolutionNode::Leaf { parent, leaf: Leaf::TraitAlias(data) });
            },
            Item::Entity(d) => {
                let data = clone_data(d);
                proof {
                    lemma_same_vis_ok(d.vis, data.vis);
                }
                self.add_item_node(fg, ResolutionNode::Leaf { parent, leaf: Leaf::Entity(data) });
            },
            Item::Trait(d) => {
                let data = clone_data(d);
                proof {
                    lemma_same_vis_ok(d.vis, data.vis);
                }
                self.add_item_node(fg, ResolutionNode::Branch { parent, branch: Branch::Trait(data), children: Vec::new() });
            },
        }
    }

    /// A module with its content in braces, a function, an `impl` or an
    /// `arch`: its node, then the nodes of the items in it, under it.
    fn visit_nested(&mut self, fg: &FileGraph, item: &Item)
        requires
            old(self).inv(*fg),
            item_ok(*item),
            item is Fn || item is Impl || item is Arch || item matches Item::Mod(_, ModContent::Here(_)),
        ensures
            final(self).inv(*fg),
            old(self).keeps(*final(self)),
            final(self).resolution_graph.len() > old(self).resolution_graph.len(),
            final(self).resolution_graph.kind_of(old(self).resolution_graph.len() as int) == item_kind(*item),
            final(self).resolution_graph.node(old(self).resolution_graph.len() as int).spec_parent()
                == Some(old(self).scope()),
            final(self).resolution_graph.node(old(self).resolution_graph.len() as int).spec_name() == item_name(*item),
            item matches Item::Mod(m, ModContent::File) ==> {
                &&& final(self).resolution_graph.content_files@[old(self).resolution_graph.len() as int]
                    == mod_file_for(fg.children@[old(self).current_file()]@,
                        mod_idents(old(self).resolution_graph, old(self).scope_ancestry@).push(m.ident.inner@))
                &&& in_fn(old(self).resolution_graph, old(self).scope_ancestry@) ==> {
                    &&& final(self).errors@.len() > old(self).errors@.len()
                    &&& final(self).errors@[old(self).errors@.len() as int]@ == module_with_external_file_in_fn_view(
                        old(self).current_file() as FileId, m.span)
                }
            },
            nodes_kept_but(old(self).resolution_graph, final(self).resolution_graph, old(self).scope().0 as int),
            children_added(old(self).resolution_graph, final(self).resolution_graph, old(self).scope().0 as int,
                seq![ResolutionIndex(old(self).resolution_graph.len() as usize)]),
            holds_nested(final(self).resolution_graph, ResolutionIndex(old(self).resolution_graph.len() as usize), *item),
            holds_file_items(final(self).resolution_graph, *fg, ResolutionIndex(old(self).resolution_graph.len() as usize),
                *item),
        decreases fg.len() - old(self).current_file(), item_size(*item), 0int,
    {
        let ghost start = *self;
        proof {
            lemma_builder_keeps_refl(*self);
        }
        let parent = self.scope_ancestry[self.scope_ancestry.len() - 1];
        let (node, items) = match item {
            Item::Mod(m, ModContent::Here(items)) => {
                let data = clone_mod(m);
                proof {
                    lemma_same_vis_ok(m.vis, data.vis);
                }
                (ResolutionNode::Branch { parent, branch: Branch::Mod(data), children: Vec::new() }, items)
            },
            Item::Fn(d, body) => {
                let data = clone_data(d);
                proof {
                    lemma_same_vis_ok(d.vis, data.vis);
                }
                (ResolutionNode::Branch { parent, branch: Branch::Fn(data), children: Vec::new() }, body)
            },
            Item::Impl(u, items) => {
                let data = clone_unnamed(u);
                proof {
                    lemma_same_vis_ok(u.vis, data.vis);
                }
                (ResolutionNode::Branch { parent, branch: Branch::Impl(data), children: Vec::new() }, items)
            },
            Item::Arch(u, items) => {
                let data = clone_unnamed(u);
                proof {
                    lemma_same_vis_ok(u.vis, data.vis);
                }
                (ResolutionNode::Branch { parent, branch: Branch::Arch(data), children: Vec::new() }, items)
            },
            _ => {
                proof {
                    assert(false);
                }
                return;
            },
        };
        let idx = self.add_item_node(fg, node);
        let ghost added = *self;
        self.scope_ancestry.push(idx);
        proof {
            assert(self.resolution_graph.node(idx.0 as int).spec_children() == Some(Seq::<ResolutionIndex>::empty()));
        }
        self.visit_items(fg, items);
        proof {
            let fcs = self.resolution_graph.node(idx.0 as int).spec_children().unwrap();
            assert(fcs.subrange(0, fcs.len() as int) =~= fcs);
            assert(nested_items(*item) == Some(items@));
        }
        self.scope_ancestry.pop();
        proof {
            assert(self.scope_ancestry@ =~= start.scope_ancestry@);
            lemma_nested_keeps(start, added, *self);
                    lemma_nested_frame(start.resolution_graph, added.resolution_graph, self.resolution_graph,
                        start.scope().0 as int);
        }
    }

    /// A `mod name;`: its node, backed by the file found for it, whose items
    /// are added under it.
    fn visit_mod_file(&mut self, fg: &FileGraph, item: &Item)
        requires
            old(self).inv(*fg),
            item_ok(*item),
            item matches Item::Mod(_, ModContent::File),
        ensures
            final(self).inv(*fg),
            old(self).keeps(*final(self)),
            final(self).resolution_graph.len() > old(self).resolution_graph.len(),
            final(self).resolution_graph.kind_of(old(self).resolution_graph.len() as int) == item_kind(*item),
            final(self).resolution_graph.node(old(self).resolution_graph.len() as int).spec_parent()
                == Some(old(self).scope()),
            final(self).resolution_graph.node(old(self).resolution_graph.len() as int).spec_name() == item_name(*item),
            item matches Item::Mod(m, ModContent::File) ==> {
                &&& final(self).resolution_graph.content_files@[old(self).resolution_graph.len() as int]
                    == mod_file_for(fg.children@[old(self).current_file()]@,
                        mod_idents(old(self).resolution_graph, old(self).scope_ancestry@).push(m.ident.inner@))
                &&& in_fn(old(self).resolution_graph, old(self).scope_ancestry@) ==> {
                    &&& final(self).errors@.len() > old(self).errors@.len()
                    &&& final(self).errors@[old(self).errors@.len() as int]@ == module_with_external_file_in_fn_view(
                        old(self).current_file() as FileId, m.span)
                }
            },
            nodes_kept_but(old(self).resolution_graph, final(self).resolution_graph, old(self).scope().0 as int),
            children_added(old(self).resolution_graph, final(self).resolution_graph, old(self).scope().0 as int,
                seq![ResolutionIndex(old(self).resolution_graph.len() as usize)]),
            holds_nested(final(self).resolution_graph, ResolutionIndex(old(self).resolution_graph.len() as usize), *item),
            holds_file_items(final(self).resolution_graph, *fg, ResolutionIndex(old(self).resolution_graph.len() as usize),
                *item),
        decreases fg.len() - old(self).current_file(), item_size(*item), 0int,
    {
        let ghost start = *self;
        proof {
            lemma_builder_keeps_refl(*self);
        }
        let parent = self.scope_ancestry[self.scope_ancestry.len() - 1];
        let m = match item {
            Item::Mod(m, _) => m,
            _ => {
                proof {
                    assert(false);
                }
                return;
            },
        };
                        let is_fn = self.in_fn_scope();
                        if is_fn {
                            let file = self.file_ancestry[self.file_ancestry.len() - 1];
                            let e = module_with_external_file_in_fn(file, m.span);
                            self.errors.push(e);
                        }
                        let file_index = self.find_mod_file(fg, &m.ident);
                        let ghost pushed = *self;
                        let data = clone_mod(m);
                        proof {
                            lemma_same_vis_ok(m.vis, data.vis);
                            lemma_graph_extends_refl(pushed.resolution_graph);
                            assert(start.errors@.is_prefix_of(pushed.errors@)) by {
                                assert(pushed.errors@.subrange(0, start.errors@.len() as int) =~= start.errors@);
                            }
                            assert(start.keeps(pushed));
                        }
                        let idx = self.add_item_node(fg, ResolutionNode::Branch { parent, branch: Branch::Mod(data), children: Vec::new() });
                        proof {
                            lemma_builder_keeps_trans(start, pushed, *self);
                        }
                        if let Some(file_index) = file_index {
                            let ghost before_set = *self;
                            self.resolution_graph.set_content_file(idx, file_index);
                            proof {
                                lemma_extends_after_set(pushed.resolution_graph, before_set.resolution_graph,
                                    self.resolution_graph, idx.0 as int);
                                lemma_builder_keeps_trans(start, pushed, *self);
                            }
                            let ghost added = *self;
                            self.scope_ancestry.push(idx);
                            self.file_ancestry.push(file_index);
                            proof {
                                assert(self.resolution_graph.node(idx.0 as int).spec_children()
                                    == Some(Seq::<ResolutionIndex>::empty()));
                            }
                            self.visit_items(fg, &fg.files[file_index].items);
                            proof {
                                let fcs = self.resolution_graph.node(idx.0 as int).spec_children().unwrap();
                                assert(fcs.subrange(0, fcs.len() as int) =~= fcs);
                                assert(added.resolution_graph.content_files@[idx.0 as int] == Some(file_index));
                                assert(self.resolution_graph.kind_of(idx.0 as int) == added.resolution_graph.kind_of(
                                    idx.0 as int));
                                assert(self.resolution_graph.content_files@[idx.0 as int] == Some(file_index));
                            }
                            self.file_ancestry.pop();
                            self.scope_ancestry.pop();
                            proof {
                                assert(self.scope_ancestry@ =~= start.scope_ancestry@);
                                assert(self.file_ancestry@ =~= start.file_ancestry@);
                                lemma_nested_keeps(start, added, *self);
                    lemma_nested_frame(start.resolution_graph, added.resolution_graph, self.resolution_graph,
                        start.scope().0 as int);
                                if is_fn {
                                    assert(added.errors@[start.errors@.len() as int] == pushed.errors@[start.errors@.len() as int]);
                                    assert(self.errors@[start.errors@.len() as int] == added.errors@[start.errors@.len() as int]);
                                }
                            }
                        }
    }

    /// A struct: its node, and one leaf per field under it.
    fn visit_struct(&mut self, fg: &FileGraph, item: &Item)
        requires
            old(self).inv(*fg),
            item_ok(*item),
            item is Struct,
        ensures
            final(self).inv(*fg),
            old(self).keeps(*final(self)),
            final(self).resolution_graph.len() > old(self).resolution_graph.len(),
            final(self).resolution_graph.kind_of(old(self).resolution_graph.len() as int) == item_kind(*item),
            final(self).resolution_graph.node(old(self).resolution_graph.len() as int).spec_parent()
                == Some(old(self).scope()),
            final(self).resolution_graph.node(old(self).resolution_graph.len() as int).spec_name() == item_name(*item),
            item matches Item::Mod(m, ModContent::File) ==> {
                &&& final(self).resolution_graph.content_files@[old(self).resolution_graph.len() as int]
                    == mod_file_for(fg.children@[old(self).current_file()]@,
                        mod_idents(old(self).resolution_graph, old(self).scope_ancestry@).push(m.ident.inner@))
                &&& in_fn(old(self).resolution_graph, old(self).scope_ancestry@) ==> {
                    &&& final(self).errors@.len() > old(self).errors@.len()
                    &&& final(self).errors@[old(self).errors@.len() as int]@ == module_with_external_file_in_fn_view(
                        old(self).current_file() as FileId, m.span)
                }
            },
            nodes_kept_but(old(self).resolution_graph, final(self).resolution_graph, old(self).scope().0 as int),
            children_added(old(self).resolution_graph, final(self).resolution_graph, old(self).scope().0 as int,
                seq![ResolutionIndex(old(self).resolution_graph.len() as usize)]),
            holds_nested(final(self).resolution_graph, ResolutionIndex(old(self).resolution_graph.len() as usize), *item),
            holds_file_items(final(self).resolution_graph, *fg, ResolutionIndex(old(self).resolution_graph.len() as usize),
                *item),
    {
        let ghost start = *self;
        proof {
            lemma_builder_keeps_refl(*self);
        }
        let parent = self.scope_ancestry[self.scope_ancestry.len() - 1];
        let (d, fields) = match item {
            Item::Struct(d, fields) => (d, fields),
            _ => {
                proof {
                    assert(false);
                }
                return;
            },
        };
                let data = clone_data(d);
                proof {
                    lemma_same_vis_ok(d.vis, data.vis);
                }
                let idx = self.add_item_node(fg, ResolutionNode::Branch { parent, branch: Branch::Struct(data), children: Vec::new() });
                let ghost added = *self;
                self.scope_ancestry.push(idx);
                let mut k: usize = 0;
                while k < fields.len()
                    invariant
                        self.inv(*fg),
                        added.inv(*fg),
                        graph_extends(added.resolution_graph, self.resolution_graph),
                        self.errors == added.errors,
                        self.scope_ancestry@ == added.scope_ancestry@.push(idx),
                        self.file_ancestry@ == added.file_ancestry@,
                        nodes_kept_but(added.resolution_graph, self.resolution_graph, idx.0 as int),
                        added.resolution_graph.len() <= self.resolution_graph.len(),
                        forall|j: int| 0 <= j < fields@.len() ==> field_ok(#[trigger] fields@[j]),
                        k <= fields@.len(),
                    decreases fields@.len() - k,
                {
                    let ghost mid = *self;
                    let node = match &fields[k] {
                        Field::Named(f) => {
                            let fd = clone_data(f);
                            proof {
                                lemma_same_vis_ok(f.vis, fd.vis);
                            }
                            ResolutionNode::Leaf { parent: idx, leaf: Leaf::NamedField(fd) }
                        },
                        Field::Unnamed(f) => {
                            let fd = clone_unnamed(f);
                            proof {
                                lemma_same_vis_ok(f.vis, fd.vis);
                            }
                            ResolutionNode::Leaf { parent: idx, leaf: Leaf::UnnamedField(fd) }
                        },
                    };
                    self.add_item_node(fg, node);
                    proof {
                        lemma_graph_extends_trans(added.resolution_graph, mid.resolution_graph, self.resolution_graph);
                        lemma_kept_but_trans(added.resolution_graph, mid.resolution_graph, self.resolution_graph,
                            idx.0 as int, idx.0 as int);
                    }
                    k = k + 1;
                }
                self.scope_ancestry.pop();
                proof {
                    assert(self.scope_ancestry@ =~= start.scope_ancestry@);
                    assert(added.errors@.subrange(0, added.errors@.len() as int) =~= added.errors@);
                    lemma_nested_keeps(start, added, *self);
                    lemma_nested_frame(start.resolution_graph, added.resolution_graph, self.resolution_graph,
                        start.scope().0 as int);
                }
    }

    /// An enum: its node, and one node per variant under it.
    fn visit_enum(&mut self, fg: &FileGraph, item: &Item)
        requires
            old(self).inv(*fg),
            item_ok(*item),
            item is Enum,
        ensures
            final(self).inv(*fg),
            old(self).keeps(*final(self)),
            final(self).resolution_graph.len() > old(self).resolution_graph.len(),
            final(self).resolution_graph.kind_of(old(self).resolution_graph.len() as int) == item_kind(*item),
            final(self).resolution_graph.node(old(self).resolution_graph.len() as int).spec_parent()
                == Some(old(self).scope()),
            final(self).resolution_graph.node(old(self).resolution_graph.len() as int).spec_name() == item_name(*item),
            item matches Item::Mod(m, ModContent::File) ==> {
                &&& final(self).resolution_graph.content_files@[old(self).resolution_graph.len() as int]
                    == mod_file_for(fg.children@[old(self).current_file()]@,
                        mod_idents(old(self).resolution_graph, old(self).scope_ancestry@).push(m.ident.inner@))
                &&& in_fn(old(self).resolution_graph, old(self).scope_ancestry@) ==> {
                    &&& final(self).errors@.len() > old(self).errors@.len()
                    &&& final(self).errors@[old(self).errors@.len() as int]@ == module_with_external_file_in_fn_view(
                        old(self).current_file() as FileId, m.span)
                }
            },
            nodes_kept_but(old(self).resolution_graph, final(self).resolution_graph, old(self).scope().0 as int),
            children_added(old(self).resolution_graph, final(self).resolution_graph, old(self).scope().0 as int,
                seq![ResolutionIndex(old(self).resolution_graph.len() as usize)]),
            holds_nested(final(self).resolution_graph, ResolutionIndex(old(self).resolution_graph.len() as usize), *item),
            holds_file_items(final(self).resolution_graph, *fg, ResolutionIndex(old(self).resolution_graph.len() as usize),
                *item),
    {
        let ghost start = *self;
        proof {
            lemma_builder_keeps_refl(*self);
        }
        let parent = self.scope_ancestry[self.scope_ancestry.len() - 1];
        let (d, variants) = match item {
            Item::Enum(d, variants) => (d, variants),
            _ => {
                proof {
                    assert(false);
                }
                return;
            },
        };
                let data = clone_data(d);
                proof {
                    lemma_same_vis_ok(d.vis, data.vis);
                }
                let idx = self.add_item_node(fg, ResolutionNode::Branch { parent, branch: Branch::Enum(data), children: Vec::new() });
                let ghost added = *self;
                self.scope_ancestry.push(idx);
                let mut k: usize = 0;
                while k < variants.len()
                    invariant
                        self.inv(*fg),
                        added.inv(*fg),
                        graph_extends(added.resolution_graph, self.resolution_graph),
                        self.errors == added.errors,
                        self.scope_ancestry@ == added.scope_ancestry@.push(idx),
                        self.file_ancestry@ == added.file_ancestry@,
                        nodes_kept_but(added.resolution_graph, self.resolution_graph, idx.0 as int),
                        added.resolution_graph.len() <= self.resolution_graph.len(),
                        forall|j: int| 0 <= j < variants@.len() ==> opt_vis_ok(#[trigger] variants@[j].vis),
                        k <= variants@.len(),
                    decreases variants@.len() - k,
                {
                    let ghost mid = *self;
                    let vd = clone_data(&variants[k]);
                    proof {
                        lemma_same_vis_ok(variants@[k as int].vis, vd.vis);
                    }
                    self.add_item_node(fg, ResolutionNode::Branch { parent: idx, branch: Branch::Variant(vd), children: Vec::new() });
                    proof {
                        lemma_graph_extends_trans(added.resolution_graph, mid.resolution_graph, self.resolution_graph);
                        lemma_kept_but_trans(added.resolution_graph, mid.resolution_graph, self.resolution_graph,
                            idx.0 as int, idx.0 as int);
                    }
                    k = k + 1;
                }
                self.scope_ancestry.pop();
                proof {
                    assert(self.scope_ancestry@ =~= start.scope_ancestry@);
                    assert(added.errors@.subrange(0, added.errors@.len() as int) =~= added.errors@);
                    lemma_nested_keeps(start, added, *self);
                    lemma_nested_frame(start.resolution_graph, added.resolution_graph, self.resolution_graph,
                        start.scope().0 as int);
                }
    }
}

pub proof fn lemma_extends_after_set(a: ResolutionGraph, b: ResolutionGraph, c: ResolutionGraph, idx: int)
    requires
        a.wf(),
        b.wf(),
        graph_extends(a, b),
        c.inner == b.inner,
        c.roots == b.roots,
        a.len() <= idx,
        c.content_files@.len() == b.content_files@.len(),
        forall|i: int| 0 <= i < c.content_files@.len() && i != idx ==> c.content_files@[i] == b.content_files@[i],
    ensures
        graph_extends(a, c),
{
    assert forall|i: int| 0 <= i < a.len() implies {
        &&& #[trigger] c.kind_of(i) == a.kind_of(i)
        &&& c.node(i).spec_parent() == a.node(i).spec_parent()
        &&& c.node(i).spec_name() == a.node(i).spec_name()
        &&& (a.node(i).spec_children() matches Some(ca) ==> c.node(i).spec_children() matches Some(cb)
            && ca.is_prefix_of(cb))
        &&& c.content_files@[i] == a.content_files@[i]
    } by {
        assert(b.kind_of(i) == a.kind_of(i));
        assert(c.inner@[i] == b.inner@[i]);
    }
    assert forall|i: int| a.len() <= i < c.len() implies #[trigger] c.kind_of(i) != NodeKind::Root by {
        assert(b.kind_of(i) != NodeKind::Root);
    }
}

/// After visiting nested items with one more scope (and file) entered and
/// left again, what the visit keeps still holds.
pub proof fn lemma_nested_keeps(start: ScopeBuilder, added: ScopeBuilder, fin: ScopeBuilder)
    requires
        start.keeps(added),
        graph_extends(added.resolution_graph, fin.resolution_graph),
        added.errors@.is_prefix_of(fin.errors@),
        fin.scope_ancestry@ == start.scope_ancestry@,
        fin.file_ancestry@ == start.file_ancestry@,
    ensures
        start.keeps(fin),
{
    lemma_graph_extends_trans(start.resolution_graph, added.resolution_graph, fin.resolution_graph);
    assert forall|k: int| 0 <= k < start.errors@.len() implies start.errors@[k] == fin.errors@[k] by {
        assert(start.errors@[k] == added.errors@[k]);
    }
}

} // verus!
