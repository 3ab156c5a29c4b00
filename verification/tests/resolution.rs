use rhdlc::ast::{
    Expectation, GenericParam, Ident, PathSegment, SimplePath, Span, TypePath, TypeRef, UseTree,
    Vis,
};
use rhdlc::error::{Diagnostic, DuplicateHint, LabelStyle, Severity};
use rhdlc::find_file::{mod_requests, File, FileFinder, FileGraph};
use rhdlc::resolution::graph::{name_check, DeclaredName, ItemData, ItemMod, ItemUse, NameCheck, UnnamedData};
use rhdlc::resolution::scope_builder::{Field, Item, ModContent};
use rhdlc::resolution::Resolver;

fn id(s: &str, at: usize) -> Ident {
    Ident::new(s.to_string(), Span { start: at, end: at + s.len() })
}

fn data(name: &str, at: usize, vis: Option<Vis>) -> ItemData {
    ItemData { vis, ident: id(name, at), generics: None, name_checks: vec![], type_refs: vec![] }
}

fn pub_vis(at: usize) -> Option<Vis> {
    Some(Vis::Pub(Span { start: at, end: at + 3 }))
}

fn strukt(name: &str, at: usize, vis: Option<Vis>) -> Item {
    Item::Struct(data(name, at, vis), vec![])
}

fn module(name: &str, at: usize, vis: Option<Vis>, items: Vec<Item>) -> Item {
    Item::Mod(
        ItemMod { vis, ident: id(name, at), span: Span { start: at, end: at + name.len() } },
        ModContent::Here(items),
    )
}

fn use_item(tree: UseTree, at: usize) -> Item {
    Item::Use(ItemUse { vis: None, tree, span: Span { start: at, end: at + 1 } })
}

fn path(segments: &[(&str, usize)], tree: UseTree) -> UseTree {
    UseTree::Path(
        SimplePath { leading_sep: None, segments: segments.iter().map(|(s, a)| id(s, *a)).collect() },
        Box::new(tree),
    )
}

fn type_path(segments: &[(&str, usize)]) -> TypePath {
    TypePath {
        leading_sep: None,
        segments: segments
            .iter()
            .map(|(s, a)| PathSegment { ident: id(s, *a), has_generic_args: false })
            .collect(),
    }
}

fn graph_of(items: Vec<Item>, idents: Vec<Ident>) -> FileGraph {
    let mut g = FileGraph::new();
    g.add_node(File {
        name: "top.rhdl".to_string(),
        content: String::new(),
        items,
        idents,
        parent: None,
    });
    g
}

fn resolve(g: &FileGraph) -> Vec<Diagnostic> {
    let mut r = Resolver::build(g);
    r.build_graph();
    r.check_graph();
    r.errors
}

fn messages(errors: &[Diagnostic]) -> Vec<String> {
    errors.iter().map(|d| d.message.clone()).collect()
}

#[test]
fn compile_pass_stdin() {
    // The reader "string" holding `struct a {}`: one struct, no module declarations.
    let content = "struct a {}";
    let mut finder = FileFinder::new();
    let items = vec![strukt("a", 7, None)];
    assert!(mod_requests(&items, &vec![]).is_empty());
    let idx = finder.add_found_file(
        "string".to_string(),
        content.to_string(),
        items,
        vec![id("struct", 0), id("a", 7)],
        vec![],
    );
    finder.enter(idx);
    finder.leave();
    assert!(finder.errors.is_empty());
    assert_eq!(finder.file_graph.files[0].name, "string");
    assert!(resolve(&finder.file_graph).is_empty());
}

#[test]
fn two_structs_with_one_name_conflict() {
    let g = graph_of(vec![strukt("a", 7, None), strukt("a", 20, None)], vec![]);
    let errors = resolve(&g);
    assert_eq!(messages(&errors), vec!["the name `a` is defined multiple times".to_string()]);
    let d = &errors[0];
    assert_eq!(d.severity, Severity::Error);
    assert_eq!(d.labels[0].style, LabelStyle::Primary);
    assert_eq!(d.labels[0].range, Span { start: 20, end: 21 });
    assert_eq!(d.labels[0].message, "`a` redefined here");
    assert_eq!(d.labels[1].range, Span { start: 7, end: 8 });
}

#[test]
fn a_struct_and_a_function_of_one_name_do_not_conflict_with_a_module() {
    let g = graph_of(
        vec![module("a", 4, None, vec![]), Item::Fn(data("b", 20, None), vec![]), strukt("c", 30, None)],
        vec![],
    );
    assert!(resolve(&g).is_empty());
}

#[test]
fn use_of_a_missing_item_is_unresolved() {
    // use crate::b;
    let g = graph_of(vec![use_item(path(&[("crate", 4)], UseTree::Name(id("b", 11))), 0)], vec![]);
    let errors = resolve(&g);
    assert_eq!(errors.len(), 1);
    assert!(errors[0].message.starts_with("unresolved"));
    assert!(errors[0].message.ends_with("`b`"));
    assert_eq!(errors[0].labels[0].range, Span { start: 11, end: 12 });
}

#[test]
fn use_of_a_public_item_resolves() {
    // mod m { pub struct S {} } use m::S;
    let g = graph_of(
        vec![
            module("m", 4, None, vec![strukt("S", 15, pub_vis(8))]),
            use_item(path(&[("m", 30)], UseTree::Name(id("S", 33))), 26),
        ],
        vec![],
    );
    assert!(resolve(&g).is_empty());
}

#[test]
fn use_of_a_private_item_is_refused() {
    // mod m { struct S {} } use m::S;
    let g = graph_of(
        vec![
            module("m", 4, None, vec![strukt("S", 15, None)]),
            use_item(path(&[("m", 30)], UseTree::Name(id("S", 33))), 26),
        ],
        vec![],
    );
    let errors = resolve(&g);
    assert_eq!(errors.len(), 1);
    assert!(errors[0].message.ends_with("`S` is private"));
    assert_eq!(errors[0].labels[0].range, Span { start: 33, end: 34 });
    assert_eq!(errors[0].labels[1].range, Span { start: 15, end: 16 });
}

#[test]
fn too_many_supers_in_a_use() {
    // use super::a;
    let g = graph_of(vec![use_item(path(&[("super", 4)], UseTree::Name(id("a", 11))), 0)], vec![]);
    let errors = resolve(&g);
    assert_eq!(messages(&errors), vec!["there are too many leading `super` keywords".to_string()]);
}

#[test]
fn raw_path_keywords_are_invalid() {
    let g = graph_of(vec![], vec![id("r#self", 0), id("r#foo", 10), id("r#_", 20)]);
    let errors = resolve(&g);
    assert_eq!(errors.len(), 2);
    assert_eq!(errors[0].labels[0].range, Span { start: 0, end: 6 });
    assert_eq!(errors[1].labels[0].range, Span { start: 20, end: 23 });
}

#[test]
fn a_field_of_an_unknown_type_is_reported() {
    // struct S { a: Missing }
    // The paths that a struct's fields name are the struct's own references.
    let mut s = data("S", 7, None);
    s.type_refs = vec![TypeRef { path: type_path(&[("Missing", 14)]), expect: Expectation::Type }];
    let g = graph_of(vec![Item::Struct(s, vec![Field::Named(data("a", 11, None))])], vec![]);
    let errors = resolve(&g);
    assert_eq!(errors.len(), 1);
    assert!(errors[0].message.contains("`Missing`"));
    assert_eq!(errors[0].labels[0].range, Span { start: 14, end: 21 });
}

#[test]
fn a_field_of_a_known_type_or_parameter_passes() {
    // struct T {} struct S<P> { a: T, b: P }
    let mut s = data("S", 19, None);
    s.generics = Some(vec![GenericParam { ident: id("P", 21), is_type: true, bounds: vec![] }]);
    s.type_refs = vec![
        TypeRef { path: type_path(&[("T", 33)]), expect: Expectation::Type },
        TypeRef { path: type_path(&[("P", 39)]), expect: Expectation::Type },
    ];
    let fields = vec![Field::Named(data("a", 30, None)), Field::Named(data("b", 36, None))];
    let g = graph_of(vec![strukt("T", 7, None), Item::Struct(s, fields)], vec![]);
    assert!(resolve(&g).is_empty());
}

#[test]
fn duplicate_fields_are_reported() {
    // struct S { a: u8, a: u8 }
    let mut s = data("S", 7, None);
    s.name_checks = vec![
        NameCheck { group: 0, hint: DuplicateHint::Field, ident: id("a", 11) },
        NameCheck { group: 0, hint: DuplicateHint::Field, ident: id("a", 18) },
    ];
    let g = graph_of(vec![Item::Struct(s, vec![])], vec![]);
    let errors = resolve(&g);
    assert_eq!(messages(&errors), vec!["the field `a` is defined multiple times".to_string()]);
}

#[test]
fn impl_blocks_are_unnamed() {
    let g = graph_of(
        vec![
            strukt("S", 7, None),
            Item::Impl(
                UnnamedData { vis: None, generics: None, name_checks: vec![], type_refs: vec![] },
                vec![Item::Fn(data("f", 30, None), vec![])],
            ),
        ],
        vec![],
    );
    assert!(resolve(&g).is_empty());
}

#[test]
fn an_import_conflicts_with_an_item_of_its_name() {
    // mod m { pub struct x {} } use m::x; fn x() {}
    let g = graph_of(
        vec![
            module("m", 4, None, vec![strukt("x", 19, pub_vis(8))]),
            use_item(path(&[("m", 30)], UseTree::Name(id("x", 33))), 26),
            Item::Fn(data("x", 40, None), vec![]),
        ],
        vec![],
    );
    let errors = resolve(&g);
    assert_eq!(messages(&errors), vec!["the name `x` is defined multiple times".to_string()]);
    // use m::x; fn x() {} mod m { pub struct x {} }, the use first
    let g = graph_of(
        vec![
            use_item(path(&[("m", 4)], UseTree::Name(id("x", 7))), 0),
            Item::Fn(data("x", 13, None), vec![]),
            module("m", 24, None, vec![strukt("x", 39, pub_vis(28))]),
        ],
        vec![],
    );
    assert_eq!(messages(&resolve(&g)), vec!["the name `x` is defined multiple times".to_string()]);
}

#[test]
fn a_type_used_as_a_trait_is_unexpected() {
    // struct S {} impl S for S {}
    let refs = vec![
        TypeRef { path: type_path(&[("S", 17)]), expect: Expectation::Trait },
        TypeRef { path: type_path(&[("S", 23)]), expect: Expectation::Type },
    ];
    let g = graph_of(
        vec![
            strukt("S", 7, None),
            Item::Impl(UnnamedData { vis: None, generics: None, name_checks: vec![], type_refs: refs }, vec![]),
        ],
        vec![],
    );
    let errors = resolve(&g);
    assert_eq!(messages(&errors), vec!["expected trait, found type `S`".to_string()]);
    assert_eq!(errors[0].labels[0].message, "not a trait");
}

#[test]
fn a_bare_self_import_is_refused() {
    // use self;
    let g = graph_of(vec![use_item(UseTree::Name(id("self", 4)), 0)], vec![]);
    let errors = resolve(&g);
    assert_eq!(messages(&errors), vec!["`self` imports are only allowed within a braced list".to_string()]);
    assert_eq!(errors[0].labels[0].range, Span { start: 4, end: 8 });
    assert_eq!(errors[0].labels[0].message, "surround this with curly braces");
}

#[test]
fn a_self_import_in_a_group_at_the_root_is_refused() {
    // use {self};
    let g = graph_of(vec![use_item(UseTree::Group(vec![UseTree::Name(id("self", 5))]), 0)], vec![]);
    let errors = resolve(&g);
    assert_eq!(
        messages(&errors),
        vec!["`self` imports are only allowed in a braced list with a non-empty prefix".to_string()]
    );
}

#[test]
fn a_self_import_after_a_prefix_imports_the_module() {
    // mod m {} use m::{self};
    let g = graph_of(
        vec![
            module("m", 4, None, vec![]),
            use_item(path(&[("m", 15)], UseTree::Group(vec![UseTree::Name(id("self", 19))])), 11),
        ],
        vec![],
    );
    assert!(resolve(&g).is_empty());
}

#[test]
fn a_global_path_after_a_prefix_is_refused() {
    // mod m { pub struct S {} } use m::{::S};
    let inner = UseTree::Path(
        SimplePath { leading_sep: Some(Span { start: 35, end: 37 }), segments: vec![] },
        Box::new(UseTree::Name(id("S", 37))),
    );
    let g = graph_of(
        vec![
            module("m", 4, None, vec![strukt("S", 19, pub_vis(8))]),
            use_item(path(&[("m", 30)], UseTree::Group(vec![inner])), 26),
        ],
        vec![],
    );
    let errors = resolve(&g);
    assert_eq!(messages(&errors), vec!["a global path cannot follow a prefix in a use group".to_string()]);
    assert_eq!(errors[0].labels[0].range, Span { start: 35, end: 37 });
}

#[test]
fn an_item_imported_twice_in_one_scope_is_reported() {
    // mod m { pub struct S {} } use self::T as U; use m::S as T;
    // (the first use is traced first and traces the second on demand)
    let g = graph_of(
        vec![
            module("m", 4, None, vec![strukt("S", 19, pub_vis(8))]),
            use_item(path(&[("self", 60)], UseTree::Rename(id("T", 66), id("U", 71))), 56),
            use_item(path(&[("m", 30)], UseTree::Rename(id("S", 33), id("T", 38))), 26),
        ],
        vec![],
    );
    let errors = resolve(&g);
    assert_eq!(messages(&errors), vec!["the type `S` is imported multiple times".to_string()]);
    assert_eq!(errors[0].labels[0].range, Span { start: 38, end: 39 });
    assert_eq!(errors[0].labels[0].message, "`T` imports it again here");
    assert_eq!(errors[0].labels[1].range, Span { start: 71, end: 72 });
    assert_eq!(errors[0].labels[1].message, "`U` first imports it here");
}

#[test]
fn a_use_through_another_use_resolves() {
    // mod m { pub struct S {} } mod n { use super::T as U; } use m::S as T;
    let g = graph_of(
        vec![
            module("m", 4, None, vec![strukt("S", 19, pub_vis(8))]),
            module("n", 40, None, vec![use_item(path(&[("super", 52)], UseTree::Rename(id("T", 59), id("U", 64))), 48)]),
            use_item(path(&[("m", 80)], UseTree::Rename(id("S", 83), id("T", 88))), 76),
        ],
        vec![],
    );
    assert!(resolve(&g).is_empty());
}

#[test]
fn declared_names_are_checked_in_their_groups() {
    let t = name_check(DeclaredName::TypeParam, id("T", 0));
    let c = name_check(DeclaredName::ConstParam, id("N", 3));
    let l = name_check(DeclaredName::Lifetime, id("a", 6));
    assert_eq!((t.group, c.group, l.group), (0, 0, 1));
    assert_eq!(l.hint, DuplicateHint::Lifetime);
    assert_eq!(c.hint, DuplicateHint::TypeParam);
    let b = name_check(DeclaredName::Binding, id("x", 9));
    assert_eq!((b.group, b.hint), (2, DuplicateHint::NameBinding));
    let f = name_check(DeclaredName::Field, id("f", 12));
    let v = name_check(DeclaredName::Variant, id("V", 15));
    assert_eq!((f.group, f.hint, v.group, v.hint), (3, DuplicateHint::Field, 3, DuplicateHint::Variant));
    let vf = name_check(DeclaredName::VariantField(2), id("g", 18));
    assert_eq!((vf.group, vf.hint), (6, DuplicateHint::Field));
    assert_eq!((vf.ident.inner.as_str(), vf.ident.span), ("g", Span { start: 18, end: 19 }));
}
