use rhdlc::ast::{Ident, Span};
use rhdlc::error::{
    conflicting_mod_files, disambiguation_needed, glob_at_entry,
    global_path_cannot_have_special_ident, global_path_in_prefixed_use_group,
    incorrect_visibility_restriction, invalid_raw_identifier, item_visibility,
    module_with_external_file_in_fn, multiple_definition, non_ancestral_visibility, parse,
    parse_diagnostic, reimport, scope_visibility, self_usage,
    special_ident_not_at_start_of_path, too_many_supers, unexpected_item,
    unnecessary_visibility, unresolved_item, working_directory, AmbiguitySource, Diagnostic,
    DuplicateHint, FileFindingError, IoFailure, ItemHint, LabelStyle, ParseError,
    SelfUsageErrorCause, Severity,
};

fn sp(start: usize, end: usize) -> Span {
    Span { start, end }
}

fn id(s: &str, at: usize) -> Ident {
    Ident::new(s.to_string(), sp(at, at + s.len()))
}

fn labels(d: &Diagnostic) -> Vec<(LabelStyle, usize, Span, String)> {
    d.labels.iter().map(|l| (l.style, l.file_id, l.range, l.message.clone())).collect()
}

#[test]
fn too_many_supers_text() {
    let d = too_many_supers(1, &id("super", 4));
    assert_eq!(d.severity, Severity::Error);
    assert_eq!(d.message, "there are too many leading `super` keywords");
    assert_eq!(labels(&d), vec![(LabelStyle::Primary, 1, sp(4, 9), "goes beyond the crate root".to_string())]);
    assert_eq!(d.notes, vec!["try removing that `super` from the path".to_string()]);
}

#[test]
fn special_identifiers_in_paths() {
    let d = special_ident_not_at_start_of_path(0, &id("self", 7));
    assert_eq!(d.message, "special identifier `self` can only be in the start position of a path");
    let d = global_path_cannot_have_special_ident(0, &id("crate", 6), sp(4, 6));
    assert_eq!(d.message, "global paths cannot start with `crate`");
    assert_eq!(d.labels.len(), 2);
    assert_eq!(d.labels[1].message, "makes this path global");
    assert_eq!(d.labels[1].style, LabelStyle::Secondary);
}

#[test]
fn ambiguity_text() {
    let d = disambiguation_needed(0, &id("a", 3), AmbiguitySource::Glob);
    assert_eq!(d.message, "`a` is ambiguous (glob versus other globs found during resolution)");
    assert_eq!(d.labels[0].message, "ambiguous name");
}

#[test]
fn unresolved_item_text() {
    let d = unresolved_item(2, Some(&id("m", 0)), &id("x", 3), ItemHint::Item, vec![]);
    assert_eq!(d.message, "unresolved item `x`");
    assert_eq!(labels(&d), vec![(LabelStyle::Primary, 2, sp(3, 4), "no `x` item in `m`".to_string())]);
    assert!(d.notes.is_empty());
    let d = unresolved_item(
        0,
        None,
        &id("x", 3),
        ItemHint::Type,
        vec![vec!["crate".to_string(), "a".to_string(), "x".to_string()]],
    );
    assert_eq!(d.labels[0].message, "no `x` type");
    assert_eq!(d.notes, vec!["Did you mean:".to_string(), "crate::a::x".to_string()]);
}

#[test]
fn unexpected_and_private_items() {
    let d = unexpected_item(0, &id("S", 5), ItemHint::Type, ItemHint::InternalNamedChildScope);
    assert_eq!(d.message, "expected mod, found type `S`");
    assert_eq!(d.labels[0].message, "not a mod");
    let d = item_visibility(0, &id("S", 5), 1, &id("S", 40), ItemHint::Type);
    assert_eq!(d.message, "type `S` is private");
    assert_eq!(
        labels(&d),
        vec![
            (LabelStyle::Primary, 0, sp(5, 6), "type is private".to_string()),
            (LabelStyle::Secondary, 1, sp(40, 41), "declared here".to_string()),
        ]
    );
    assert_eq!(d.notes, vec!["modify the visibility of `S` if you want to use it".to_string()]);
    let d = scope_visibility(0, &id("m", 2), ItemHint::InternalNamedChildScope);
    assert_eq!(d.message, "item is not visible in mod `m`");
}

#[test]
fn self_usage_text() {
    let d = self_usage(0, &id("self", 0), SelfUsageErrorCause::NotInGroup);
    assert_eq!(d.message, "`self` imports are only allowed within a braced list");
    assert_eq!(d.labels[0].message, "surround this with curly braces");
    let d = self_usage(0, &id("self", 0), SelfUsageErrorCause::InGroupAtRoot);
    assert_eq!(d.message, "`self` imports are only allowed in a braced list with a non-empty prefix");
    assert_eq!(d.labels[0].message, "this makes no sense");
}

#[test]
fn raw_identifier_text() {
    let d = invalid_raw_identifier(3, &id("r#self", 9));
    assert_eq!(d.message, "`{}` cannot be a raw identifier");
    assert_eq!(labels(&d), vec![(LabelStyle::Primary, 3, sp(9, 15), String::new())]);
}

#[test]
fn glob_at_entry_texts() {
    let d = glob_at_entry(0, sp(5, 6), Some(sp(4, 6)), None);
    assert_eq!(d.message, "cannot glob-import without a scope");
    assert_eq!(d.labels[0].message, "this would import all crates");
    let d = glob_at_entry(0, sp(11, 12), None, Some(&id("super", 4)));
    assert_eq!(d.labels[0].message, "this would re-import all local items");
    let d = glob_at_entry(0, sp(11, 12), None, Some(&id("crate", 4)));
    assert_eq!(d.labels[0].message, "this would re-import all crates and local items");
}

#[test]
fn visibility_texts() {
    let d = incorrect_visibility_restriction(0, sp(0, 10));
    assert_eq!(d.message, "incorrect visibility restriction");
    let d = non_ancestral_visibility(0, &id("b", 8), Some(&id("a", 5)));
    assert_eq!(d.message, "`b` is not an ancestor of `a`");
    assert_eq!(d.notes, vec!["visibility can only be restricted to an ancestral path".to_string()]);
    let d = non_ancestral_visibility(0, &id("b", 8), None);
    assert_eq!(d.message, "`b` is not an ancestor of this scope");
    let d = unnecessary_visibility(0, sp(0, 3));
    assert_eq!(d.message, "unnecessary visibility qualifier");
    assert_eq!(d.labels[0].message, "visibility is implied by the enclosing item");
}

#[test]
fn module_texts() {
    let d = module_with_external_file_in_fn(0, sp(10, 16));
    assert_eq!(d.message, "a module in a function cannot be loaded from an external file");
    assert_eq!(d.labels[0].message, "give the module a body");
    let d = global_path_in_prefixed_use_group(0, sp(7, 9));
    assert_eq!(d.message, "a global path cannot follow a prefix in a use group");
}

#[test]
fn multiple_definition_texts() {
    let d = multiple_definition(0, &id("x", 3), &id("x", 9), DuplicateHint::NameBinding);
    assert_eq!(d.message, "the name `x` is bound multiple times");
    assert_eq!(
        labels(&d),
        vec![
            (LabelStyle::Primary, 0, sp(9, 10), "`x` rebound here".to_string()),
            (LabelStyle::Secondary, 0, sp(3, 4), "previous binding of the name `x` here".to_string()),
        ]
    );
    let d = multiple_definition(0, &id("V", 3), &id("V", 9), DuplicateHint::Variant);
    assert_eq!(d.message, "the variant `V` is defined multiple times");
    assert_eq!(d.labels[1].message, "previous definition of the variant `V` here");
}

#[test]
fn reimport_text() {
    let d = reimport(0, &id("a", 4), &id("a", 14), 1, &id("a", 30), Some(ItemHint::Fn));
    assert_eq!(d.message, "the function `a` is imported multiple times");
    assert_eq!(d.labels.len(), 3);
    assert_eq!(d.labels[0].message, "`a` imports it again here");
    assert_eq!(d.labels[1].message, "`a` first imports it here");
    assert_eq!(d.labels[2].file_id, 1);
    let d = reimport(0, &id("a", 4), &id("a", 14), 1, &id("a", 30), None);
    assert_eq!(d.message, "the item `a` is imported multiple times");
}

#[test]
fn file_errors() {
    let io = FileFindingError::Io(IoFailure { not_found: true, message: "gone".to_string() });
    assert!(io.is_io_not_found());
    let d = io.diagnostic("a.rhdl".to_string(), Some((0, sp(0, 6))));
    assert_eq!(d.message, "couldn't read a.rhdl: gone");
    assert_eq!(labels(&d), vec![(LabelStyle::Primary, 0, sp(0, 6), "declared here".to_string())]);
    let other = FileFindingError::Io(IoFailure { not_found: false, message: "denied".to_string() });
    assert!(!other.is_io_not_found());
    assert!(other.diagnostic("b".to_string(), None).labels.is_empty());
    let parsed = FileFindingError::Parse(working_directory("x"));
    assert!(!parsed.is_io_not_found());
    assert_eq!(parsed.diagnostic("c".to_string(), None).message, "couldn't get the current working directory: x");
    let d = conflicting_mod_files(Some(0), &id("m", 4), sp(0, 6), "m.rhdl", "m.rhdl/mod.rhdl");
    assert_eq!(d.message, "conflicting files for module `m` were found at m.rhdl and m.rhdl/mod.rhdl");
    assert_eq!(d.labels[0].message, "declared here");
    assert!(conflicting_mod_files(None, &id("m", 4), sp(0, 6), "a", "b").labels.is_empty());
}

#[test]
fn parse_errors() {
    let e = ParseError::UnrecognizedToken {
        left: 3,
        right: 5,
        expected: vec!["\"fn\"".to_string(), "\"mod\"".to_string()],
    };
    let d = parse("top.rhdl", 0, None, &e);
    assert_eq!(d.message, "could not parse top.rhdl: unexpected token");
    assert_eq!(
        labels(&d),
        vec![(
            LabelStyle::Primary,
            0,
            sp(3, 5),
            format!("expected any of {:?}", vec!["\"fn\"", "\"mod\""]),
        )]
    );
    let e = ParseError::UnrecognizedEOF { location: 7, expected: vec![] };
    let d = parse("top.rhdl", 0, Some((1, sp(2, 4))), &e);
    assert_eq!(d.message, "could not parse top.rhdl: unexpected EOF");
    assert_eq!(d.labels[0].message, "expected any of []");
    assert_eq!(d.labels[0].range, sp(7, 7));
    assert_eq!(d.labels[1].style, LabelStyle::Secondary);
    assert_eq!(d.labels[1].message, "declared here");
    let d = parse("x", 0, None, &ParseError::User { error: "bad".to_string() });
    assert_eq!(d.message, "could not parse x: bad");
    assert!(d.labels.is_empty());
    let d = parse_diagnostic("x", 0, None, &ParseError::InvalidToken { location: 2 }, "");
    assert_eq!(d.message, "could not parse x: invalid token");
    assert_eq!(labels(&d), vec![(LabelStyle::Primary, 0, sp(2, 2), String::new())]);
    let d = parse_diagnostic("x", 0, None, &ParseError::ExtraToken { left: 1, right: 4 }, "");
    assert_eq!(d.message, "could not parse x: extra token");
}
