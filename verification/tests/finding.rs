use rhdlc::ast::{Ident, Span};
use rhdlc::error::{FileFindingError, IoFailure};
use rhdlc::find_file::{
    choose_mod_file, mod_requests, stdin_fallback_extension, strip_raw_prefix, FileContentSource,
    FileFinder, ModFileChoice, ModRequest,
};
use rhdlc::ident::{can_be_raw, is_path_segment_keyword};
use rhdlc::resolution::graph::{kinds_in_same_name_class, ItemData, ItemMod, NodeKind};
use rhdlc::resolution::name::Name;
use rhdlc::resolution::visibility::VisibilitySolver;
use rhdlc::resolution::ResolutionIndex;
use rhdlc::type_checker::{ConcreteType, TypeParam};
use rhdlc::resolution::scope_builder::{Item, ModContent};

fn id(s: &str, at: usize) -> Ident {
    Ident::new(s.to_string(), Span { start: at, end: at + s.len() })
}

fn file_mod(name: &str, at: usize) -> Item {
    Item::Mod(
        ItemMod { vis: None, ident: id(name, at), span: Span { start: at - 4, end: at + name.len() + 1 } },
        ModContent::File,
    )
}

fn names(idents: &[Ident]) -> Vec<String> {
    idents.iter().map(|i| i.inner.clone()).collect()
}

#[test]
fn module_declarations_are_collected_in_order() {
    // mod a; mod b { mod c; struct S; mod d { mod e; } } mod f;
    let items = vec![
        file_mod("a", 4),
        Item::Mod(
            ItemMod { vis: None, ident: id("b", 11), span: Span { start: 7, end: 50 } },
            ModContent::Here(vec![
                file_mod("c", 19),
                Item::Struct(
                    ItemData { vis: None, ident: id("S", 29), generics: None, name_checks: vec![], type_refs: vec![] },
                    vec![],
                ),
                Item::Mod(
                    ItemMod { vis: None, ident: id("d", 36), span: Span { start: 32, end: 48 } },
                    ModContent::Here(vec![file_mod("e", 44)]),
                ),
            ]),
        ),
        file_mod("f", 56),
    ];
    let requests = mod_requests(&items, &vec![id("top", 0)]);
    let paths: Vec<Vec<String>> = requests.iter().map(|r| names(&r.ident_path)).collect();
    assert_eq!(
        paths,
        vec![
            vec!["top", "a"],
            vec!["top", "b", "c"],
            vec!["top", "b", "d", "e"],
            vec!["top", "f"],
        ]
        .into_iter()
        .map(|v| v.into_iter().map(String::from).collect::<Vec<_>>())
        .collect::<Vec<_>>()
    );
    assert_eq!(requests[1].ident.inner, "c");
    assert_eq!(requests[1].span, Span { start: 15, end: 21 });
}

#[test]
fn which_module_file_is_taken() {
    assert_eq!(choose_mod_file(true, false), ModFileChoice::File);
    assert_eq!(choose_mod_file(false, true), ModFileChoice::Folder);
    assert_eq!(choose_mod_file(true, true), ModFileChoice::Both);
    assert_eq!(choose_mod_file(false, false), ModFileChoice::Neither);
}

#[test]
fn module_file_paths() {
    let mut finder = FileFinder::new();
    finder.cwd = vec!["src".to_string()];
    finder.extension = "rhdl".to_string();
    let (file, folder) = finder.mod_file_paths(&vec![id("a", 0), id("r#b", 3)]);
    assert_eq!(file, vec!["src", "a", "b.rhdl"]);
    assert_eq!(folder, vec!["src", "a", "b", "mod.rhdl"]);
    finder.extension = String::new();
    let (file, folder) = finder.mod_file_paths(&vec![id("c", 0)]);
    assert_eq!(file, vec!["src", "c"]);
    assert_eq!(folder, vec!["src", "c", "mod"]);
}

#[test]
fn found_files_hang_below_the_file_being_followed() {
    let mut finder = FileFinder::new();
    let root = finder.add_found_file("top.rhdl".into(), String::new(), vec![], vec![], vec![]);
    assert_eq!(root, 0);
    assert_eq!(finder.file_graph.roots, vec![0]);
    finder.enter(root);
    let child = finder.add_found_file("a.rhdl".into(), String::new(), vec![], vec![], vec![id("a", 4)]);
    assert_eq!(child, 1);
    assert_eq!(finder.file_graph.files[1].parent, Some(0));
    assert_eq!(finder.file_graph.children[0].len(), 1);
    assert_eq!(finder.file_graph.children[0][0].file, 1);
    assert_eq!(names(&finder.file_graph.children[0][0].idents), vec!["a".to_string()]);
    finder.leave();
    assert!(finder.ancestry.is_empty());
    finder.leave();
    assert!(finder.ancestry.is_empty());
    assert_eq!(finder.file_graph.node_indices(), vec![0, 1]);
}

#[test]
fn sources_and_extensions() {
    assert_eq!(FileContentSource::File("a/b.rhdl".into()).name(), "a/b.rhdl");
    assert_eq!(FileContentSource::Reader("stdin".into()).name(), "stdin");
    assert_eq!(stdin_fallback_extension(), "rhdl");
    assert_eq!(strip_raw_prefix(&id("r#type", 0)), "type");
    assert_eq!(strip_raw_prefix(&id("ab", 0)), "ab");
}

#[test]
fn raw_identifiers() {
    for k in ["r#super", "r#self", "r#Self", "r#crate"] {
        assert!(is_path_segment_keyword(&id(k, 0)));
        assert!(!can_be_raw(&id(k, 0)));
    }
    assert!(!can_be_raw(&id("r#_", 0)));
    assert!(!can_be_raw(&id("r#", 0)));
    assert!(can_be_raw(&id("r#fn", 0)));
    assert!(!is_path_segment_keyword(&id("super", 0)));
}

#[test]
fn name_classes() {
    let all = |s: &str| {
        vec![
            Name::Fn(id(s, 0)),
            Name::Var(id(s, 0)),
            Name::Macro(id(s, 0)),
            Name::Type(id(s, 0)),
            Name::Mod(id(s, 0)),
            Name::Crate(id(s, 0)),
            Name::UseName(id(s, 0)),
            Name::UseRename(id(s, 0)),
        ]
    };
    for a in all("x") {
        assert!(a.in_same_name_class(&a));
        for b in all("x") {
            assert_eq!(a.in_same_name_class(&b), b.in_same_name_class(&a));
            assert_eq!(a.conflicts_with(&b), b.conflicts_with(&a));
        }
        for b in all("y") {
            assert!(!a.conflicts_with(&b));
        }
    }
    assert!(!Name::Fn(id("x", 0)).in_same_name_class(&Name::Mod(id("x", 0))));
    assert!(Name::Fn(id("x", 0)).conflicts_with(&Name::Type(id("x", 9))));
    assert_eq!(Name::Mod(id("m", 3)).to_string(), "m");
    assert_eq!(Name::Mod(id("m", 3)).span(), Span { start: 3, end: 4 });
}

#[test]
fn names_of_items() {
    let s = Item::Struct(
        ItemData { vis: None, ident: id("S", 7), generics: None, name_checks: vec![], type_refs: vec![] },
        vec![],
    );
    match Name::from_item(&s) {
        Some(Name::Type(i)) => assert_eq!(i.inner, "S"),
        other => panic!("unexpected {:?}", other),
    }
    match Name::from_item(&file_mod("m", 4)) {
        Some(Name::Mod(i)) => assert_eq!(i.inner, "m"),
        other => panic!("unexpected {:?}", other),
    }
    let c = Item::Const(ItemData { vis: None, ident: id("C", 6), generics: None, name_checks: vec![], type_refs: vec![] });
    assert!(matches!(Name::from_item(&c), Some(Name::Var(_))));
}

#[test]
fn an_unbounded_parameter_takes_any_type() {
    let p = TypeParam { bounds: vec![] };
    assert!(p.satisfied_by(&ConcreteType::Tuple(vec![])));
}

#[test]
fn visibility_below_the_own_scope() {
    // 0 is the root; 1 and 3 are in 0; 2 is in 1.
    // 1 is private (exported to 0), 2 is private to 1, 3 is exported beyond the crate.
    let solver = VisibilitySolver {
        parents: vec![None, Some(ResolutionIndex(0)), Some(ResolutionIndex(1)), Some(ResolutionIndex(0))],
        exports: vec![None, Some(ResolutionIndex(0)), Some(ResolutionIndex(1)), None],
    };
    let r = |i: usize| ResolutionIndex(i);
    assert!(solver.is_target_visible(r(3), r(1)));
    assert!(solver.is_target_visible(r(2), r(1)));
    assert!(solver.is_target_visible(r(2), r(3)));
    assert!(!solver.is_target_visible(r(3), r(2)));
}

#[test]
fn name_classes_of_node_kinds_are_symmetric() {
    let kinds = [
        NodeKind::Root, NodeKind::Mod, NodeKind::Use, NodeKind::Fn, NodeKind::Struct, NodeKind::Enum,
        NodeKind::Variant, NodeKind::Impl, NodeKind::Arch, NodeKind::Trait, NodeKind::Block,
        NodeKind::UseName, NodeKind::UseRename, NodeKind::UseGlob, NodeKind::Const, NodeKind::Type,
        NodeKind::TraitAlias, NodeKind::NamedField, NodeKind::UnnamedField, NodeKind::Entity,
    ];
    for a in kinds {
        for b in kinds {
            assert_eq!(kinds_in_same_name_class(a, b), kinds_in_same_name_class(b, a));
        }
    }
    assert!(kinds_in_same_name_class(NodeKind::Mod, NodeKind::Entity));
    assert!(!kinds_in_same_name_class(NodeKind::Mod, NodeKind::Fn));
}

#[test]
fn unnamed_nodes_and_roots_keep_out_of_other_classes() {
    let kinds = [
        NodeKind::Root, NodeKind::Mod, NodeKind::Use, NodeKind::Fn, NodeKind::Struct, NodeKind::Enum,
        NodeKind::Variant, NodeKind::Impl, NodeKind::Arch, NodeKind::Trait, NodeKind::Block,
        NodeKind::UseName, NodeKind::UseRename, NodeKind::UseGlob, NodeKind::Const, NodeKind::Type,
        NodeKind::TraitAlias, NodeKind::NamedField, NodeKind::UnnamedField, NodeKind::Entity,
    ];
    for unnamed in [NodeKind::Impl, NodeKind::Arch, NodeKind::Use, NodeKind::UnnamedField, NodeKind::UseGlob] {
        for b in kinds {
            assert!(!kinds_in_same_name_class(unnamed, b));
        }
    }
    for b in kinds {
        assert_eq!(kinds_in_same_name_class(NodeKind::Root, b), b == NodeKind::Root);
    }
    assert!(kinds_in_same_name_class(NodeKind::Struct, NodeKind::Fn));
}

fn missing() -> FileFindingError {
    FileFindingError::Io(IoFailure { not_found: true, message: "No such file or directory".to_string() })
}

fn request_b() -> ModRequest {
    ModRequest { ident: id("b", 4), span: Span { start: 0, end: 6 }, ident_path: vec![id("b", 4)] }
}

#[test]
fn a_module_with_both_files_is_a_conflict() {
    let mut finder = FileFinder::new();
    let choice = finder.settle_mod_file(0, &request_b(), "b.rhdl".to_string(), None, "b/mod.rhdl".to_string(), None);
    assert_eq!(choice, ModFileChoice::Both);
    assert_eq!(finder.errors.len(), 1);
    assert!(finder.errors[0].message.contains("`b`"));
}

#[test]
fn a_module_with_one_file_takes_it_quietly() {
    let mut finder = FileFinder::new();
    let choice = finder.settle_mod_file(0, &request_b(), "b.rhdl".to_string(), None, "b/mod.rhdl".to_string(), Some(missing()));
    assert_eq!(choice, ModFileChoice::File);
    let choice = finder.settle_mod_file(0, &request_b(), "b.rhdl".to_string(), Some(missing()), "b/mod.rhdl".to_string(), None);
    assert_eq!(choice, ModFileChoice::Folder);
    assert!(finder.errors.is_empty());
}

#[test]
fn a_module_with_no_file_reports_its_own_file() {
    let mut finder = FileFinder::new();
    let choice = finder.settle_mod_file(0, &request_b(), "b.rhdl".to_string(), Some(missing()), "b/mod.rhdl".to_string(), Some(missing()));
    assert_eq!(choice, ModFileChoice::Neither);
    assert_eq!(finder.errors.len(), 1);
    assert!(finder.errors[0].message.contains("b.rhdl"));
}

#[test]
fn module_files_take_the_root_extension_or_the_fallback() {
    let mut finder = FileFinder::new();
    finder.set_extension(Some("rs".to_string()));
    assert_eq!(finder.extension, "rs");
    finder.set_extension(None);
    assert_eq!(finder.extension, "rhdl");
}
