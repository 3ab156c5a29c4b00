use rhdlc::ast::{Ident, Span};
use rhdlc::error::IoFailure;
use rhdlc::render::{
    render_location, LineColumn, Mention, Reference, ResolutionSource, SourcePath, SourceSpan,
    Style, Styled,
};
use rhdlc::report::{
    join_path, DuplicateError, MultipleDefinitionError, NotFoundError, ResolveError, ScopeError,
    WrappedIoError,
};
use rhdlc::resolve::{self, ModResolver};
use rhdlc::tree;
use rhdlc::text::{decimal_text, nth_line, repeated, space_text, trimmed_end};

fn lc(line: usize, column: usize) -> LineColumn {
    LineColumn { line, column }
}

fn span(a: (usize, usize), b: (usize, usize)) -> SourceSpan {
    SourceSpan { start: lc(a.0, a.1), end: lc(b.0, b.1) }
}

fn file(name: &str, stem: &str, parent: &str) -> ResolutionSource {
    ResolutionSource::File(SourcePath {
        file_name: Some(name.to_string()),
        file_stem: Some(stem.to_string()),
        parent_stem: Some(parent.to_string()),
        parent_name: Some(parent.to_string()),
    })
}

fn joined(v: &[Styled]) -> String {
    v.iter().map(|s| s.text.as_str()).collect()
}

fn mention(kind: Reference, message: &str, s: SourceSpan) -> Mention {
    Mention { kind, message: message.to_string(), span: s }
}

fn ident(s: &str) -> Ident {
    Ident::new(s.to_string(), Span { start: 0, end: s.len() })
}

#[test]
fn decimal_numbers() {
    assert_eq!(decimal_text(0), "0");
    assert_eq!(decimal_text(7), "7");
    assert_eq!(decimal_text(1234), "1234");
    assert_eq!(decimal_text(100), "100");
}

#[test]
fn runs_of_characters() {
    assert_eq!(repeated("-", 3), "---");
    assert_eq!(repeated("^", 0), "");
    assert_eq!(space_text(2), "  ");
}

#[test]
fn trailing_white_space_is_trimmed() {
    assert_eq!(trimmed_end("ab \t\u{3000}"), "ab");
    assert_eq!(trimmed_end("  a b"), "  a b");
    assert_eq!(trimmed_end(" \n "), "");
}

#[test]
fn lines_of_a_text() {
    let code = "a\r\nb\n\nc";
    assert_eq!(nth_line(code, 0).as_deref(), Some("a"));
    assert_eq!(nth_line(code, 1).as_deref(), Some("b"));
    assert_eq!(nth_line(code, 2).as_deref(), Some(""));
    assert_eq!(nth_line(code, 3).as_deref(), Some("c"));
    assert_eq!(nth_line(code, 4), None);
    assert_eq!(nth_line("a\n", 1), None);
    assert_eq!(nth_line("a\r", 0).as_deref(), Some("a\r"));
    assert_eq!(nth_line("", 0), None);
    for (k, l) in code.lines().enumerate() {
        assert_eq!(nth_line(code, k).as_deref(), Some(l));
    }
}

#[test]
fn location_with_a_reference_before_the_main_place() {
    let code = "fn main() {\n    let x = 1;\n}\n";
    let main = mention(Reference::Error, "here", span((2, 8), (2, 9)));
    let refs = vec![mention(Reference::Info, "in", span((1, 3), (1, 7)))];
    let out = render_location("oops", &main, refs, &file("top.rhdl", "top", "src"), code).unwrap();
    assert_eq!(
        joined(&out),
        "error: oops\n --> top.rhdl:2:8\n  |\n1 | fn main() {\n  |    ---- in\n2 |     let x = 1;\n  |         ^ here\n"
    );
    assert_eq!(out[0].style, Style::RedBold);
    assert_eq!(out[1].style, Style::Bold);
    assert!(out.iter().any(|s| s.text == "----" && s.style == Style::BlueBold));
    assert!(out.iter().any(|s| s.text == "^" && s.style == Style::RedBold));
}

#[test]
fn location_orders_references_by_position() {
    let code = "a b c\nd e f\n";
    let main = mention(Reference::Warning, "w", span((1, 2), (1, 3)));
    let refs = vec![
        mention(Reference::Info, "later", span((2, 0), (2, 1))),
        mention(Reference::Error, "first", span((1, 0), (1, 1))),
    ];
    let out = render_location("c", &main, refs, &ResolutionSource::Stdin, code).unwrap();
    assert_eq!(
        joined(&out),
        "warning: c\n --> <stdin>:1:2\n  |\n1 | a b c\n  | ^ first\n1 | a b c\n  |   ^ w\n2 | d e f\n  | - later\n"
    );
    assert_eq!(out[0].style, Style::YellowBold);
}

#[test]
fn location_of_an_empty_place_shows_the_note_alone() {
    let main = mention(Reference::Error, "here", span((3, 1), (3, 1)));
    let out = render_location("oops", &main, vec![], &file("mod.rhdl", "mod", "foo"), "").unwrap();
    assert_eq!(joined(&out), "error: oops\n --> foo/mod.rhdl\n  | here\n");
}

#[test]
fn location_on_a_missing_line_is_none() {
    let main = mention(Reference::Error, "here", span((5, 0), (5, 2)));
    assert!(render_location("oops", &main, vec![], &ResolutionSource::Stdin, "a\nb\n").is_none());
}

#[test]
fn location_running_over_lines_underlines_to_the_end_of_the_first() {
    let code = "abcd\nef\n";
    let main = mention(Reference::Info, "x", span((1, 1), (2, 1)));
    let out = render_location("c", &main, vec![], &ResolutionSource::Stdin, code).unwrap();
    assert_eq!(joined(&out), "info: c\n --> <stdin>:1:1\n  |\n1 | abcd\n  |  --- x\n");
}

#[test]
fn wide_line_numbers_are_padded() {
    let code = "a\n".repeat(10);
    let main = mention(Reference::Error, "m", span((10, 0), (10, 1)));
    let refs = vec![mention(Reference::Info, "r", span((2, 0), (2, 1)))];
    let out = render_location("c", &main, refs, &ResolutionSource::Stdin, &code).unwrap();
    assert_eq!(
        joined(&out),
        "error: c\n  --> <stdin>:10:0\n   |\n 2 | a\n   | - r\n10 | a\n   | ^ m\n"
    );
}

#[test]
fn module_paths_are_joined() {
    assert_eq!(join_path(&vec!["a".to_string(), "b".to_string()]), "a::b");
    assert_eq!(join_path(&vec!["a".to_string()]), "a");
    assert_eq!(join_path(&vec![]), "");
}

#[test]
fn wrapped_io_error_text() {
    let e = WrappedIoError { cause: "No such file".to_string(), path: "a.rhdl".to_string() };
    let out = e.render();
    assert_eq!(joined(&out), "error: couldn't read a.rhdl: No such file\n");
    assert_eq!(out[0].style, Style::RedBold);
    assert_eq!(out[1].style, Style::Bold);
}

#[test]
fn duplicate_and_not_found_errors_text() {
    let d = DuplicateError {
        ident_path: vec!["a".to_string(), "b".to_string()],
        file: "a/b.rhdl".to_string(),
        folder: "a/b/mod.rhdl".to_string(),
    };
    assert_eq!(
        joined(&d.render()),
        "\nerror: duplicate instances of `a::b` were found\n --> a/b.rhdl\n --> a/b/mod.rhdl\n"
    );
    let n = NotFoundError {
        ident_path: vec!["c".to_string()],
        file: "c.rhdl".to_string(),
        folder: "c/mod.rhdl".to_string(),
    };
    let out = ResolveError::NotFoundError(n).render().unwrap();
    assert_eq!(
        joined(&out),
        "\nerror: could not find a file for `c` at either of\n --> c.rhdl\n --> c/mod.rhdl\n"
    );
}

#[test]
fn report_parse_error_text() {
    let e = rhdlc::report::PreciseSynParseError {
        cause: "expected `;`".to_string(),
        span: span((1, 5), (1, 6)),
        res: ResolutionSource::Stdin,
        code: "let x\n".to_string(),
    };
    let out = ResolveError::ParseError(e).render().unwrap();
    assert_eq!(
        joined(&out),
        "error: could not parse stdin\n --> <stdin>:1:5\n  |\n1 | let x\n  |      ^ expected `;`\n"
    );
}

#[test]
fn multiple_definition_text() {
    let e = MultipleDefinitionError {
        name: "x".to_string(),
        original: span((1, 3), (1, 4)),
        duplicates: vec![span((2, 3), (2, 4))],
        source: file("top.rhdl", "top", "src"),
        content: "fn x\nfn x\n".to_string(),
    };
    let out = ScopeError::MultipleDefinitionError(e).render().unwrap();
    assert_eq!(
        joined(&out),
        "error: the name `x` is defined multiple times\n --> top.rhdl:1:3\n  |\n1 | fn x\n  |    ^ \n2 | fn x\n  |    - \n"
    );
}

#[test]
fn syn_parse_error_text() {
    let e = resolve::PreciseSynParseError {
        cause: "expected `;`".to_string(),
        span: span((1, 5), (1, 6)),
        path: SourcePath {
            file_name: Some("top.rhdl".to_string()),
            file_stem: Some("top".to_string()),
            parent_stem: None,
            parent_name: None,
        },
        code: "let x\n".to_string(),
    };
    assert_eq!(
        joined(&e.render_location()),
        "\nerror: expected `;`\n --> top.rhdl:1:5\n  |\n1 | let x\n  |      ^ expected `;`\n"
    );
}

#[test]
fn syn_parse_error_falls_back() {
    let e = resolve::PreciseSynParseError {
        cause: "bad".to_string(),
        span: span((1, 0), (1, 0)),
        path: SourcePath {
            file_name: Some("mod.rhdl".to_string()),
            file_stem: Some("mod".to_string()),
            parent_stem: Some("foo".to_string()),
            parent_name: Some("foo".to_string()),
        },
        code: "x".to_string(),
    };
    assert_eq!(joined(&e.render_location()), "\nerror: bad\n --> foo/mod.rhdl\n  | bad\n");
    let missing = resolve::PreciseSynParseError {
        cause: "bad".to_string(),
        span: span((4, 0), (4, 1)),
        path: SourcePath { file_name: None, file_stem: None, parent_stem: None, parent_name: None },
        code: "x".to_string(),
    };
    assert_eq!(
        joined(&missing.render_location()),
        "\nerror: bad\n --> Unknown File\n  | bad\n"
    );
}

#[test]
fn mod_resolver_candidates() {
    let r = ModResolver::new("src".to_string());
    let (f, d) = r.candidates(&ident("a"));
    assert_eq!(f, "src/a.rhdl");
    assert_eq!(d, "src/a/mod.rhdl");
    let (f, d) = ModResolver::new(String::new()).candidates(&ident("a"));
    assert_eq!(f, "a.rhdl");
    assert_eq!(d, "a/mod.rhdl");
    let (f, _) = ModResolver::new("src/".to_string()).candidates(&ident("b"));
    assert_eq!(f, "src/b.rhdl");
    assert_eq!(r.folder_resolver(&ident("a")).cwd, "src/a");
}

#[test]
fn mod_resolver_chooses_and_reports() {
    let mut r = ModResolver::new("src".to_string());
    let f = r.choose_file(&ident("a"), true, true).unwrap();
    assert_eq!(f.path, "src/a.rhdl");
    assert!(!f.in_folder);
    let f = r.choose_file(&ident("a"), false, true).unwrap();
    assert_eq!(f.path, "src/a/mod.rhdl");
    assert!(f.in_folder);
    assert!(r.errors.is_empty());
    assert!(r.choose_file(&ident("b"), false, false).is_none());
    assert_eq!(r.errors.len(), 1);
    match &r.errors[0] {
        resolve::ResolveError::NotFoundError(i) => assert_eq!(i.inner, "b"),
        _ => panic!("expected a not-found error"),
    }
    let mut inner = r.folder_resolver(&ident("a"));
    inner.record(resolve::ResolveError::IoError(IoFailure {
        not_found: false,
        message: "denied".to_string(),
    }));
    r.absorb(inner);
    assert_eq!(r.errors.len(), 2);
    let texts: Vec<String> = r.errors.iter().map(|e| joined(&e.render())).collect();
    assert_eq!(texts, vec!["b".to_string(), "denied".to_string()]);
    assert_eq!(r.finish().unwrap_err().len(), 2);
    assert!(ModResolver::new("x".to_string()).finish().is_ok());
}

#[test]
fn tree_resolver_paths_and_choices() {
    let mut r = tree::Resolver::new("src".to_string(), "rhdl".to_string());
    let path = vec!["a".to_string(), "b".to_string()];
    let (file, folder) = r.mod_paths(&path);
    assert_eq!(file, "src/a/b.rhdl");
    assert_eq!(folder, "src/a/b/mod.rhdl");
    let found = r.choose_file(&path, true, false).unwrap();
    assert_eq!(found.path, "src/a/b.rhdl");
    assert!(!found.is_folder);
    let found = r.choose_file(&path, false, true).unwrap();
    assert_eq!(found.path, "src/a/b/mod.rhdl");
    assert!(found.is_folder);
    assert!(r.errors.is_empty());
    assert!(r.choose_file(&path, true, true).is_none());
    assert!(r.choose_file(&path, false, false).is_none());
    let texts: Vec<String> = r.errors.iter().map(|e| joined(&e.render().unwrap())).collect();
    assert_eq!(
        texts,
        vec![
            "\nerror: duplicate instances of `a::b` were found\n --> src/a/b.rhdl\n --> src/a/b/mod.rhdl\n".to_string(),
            "\nerror: could not find a file for `a::b` at either of\n --> src/a/b.rhdl\n --> src/a/b/mod.rhdl\n".to_string(),
        ]
    );
    let bare = tree::Resolver::new(String::new(), String::new());
    assert_eq!(bare.mod_paths(&vec!["m".to_string()]), ("m".to_string(), "m/mod".to_string()));
    let mut r = tree::Resolver::new("/".to_string(), "rhdl".to_string());
    assert_eq!(r.mod_paths(&vec!["m".to_string()]).0, "/m.rhdl");
    r.record(ResolveError::IoError(WrappedIoError { cause: "x".to_string(), path: "y".to_string() }));
    assert_eq!(r.errors.len(), 1);
}
