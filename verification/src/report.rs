//! The errors met while reading a source tree and building its scopes, each
//! rendered as styled text.

use vstd::prelude::*;

use crate::error::text;
use crate::render::{
    emit, emit_str, location_lines, location_ok, mention_views, render_location, styled_views, sv,
    Mention, MentionView, Reference, ResolutionSource, SourceSpan, Style, Styled,
    StyledView,
};

verus! {

/// The segments of a module path joined with `::`.
pub open spec fn joined_path(s: Seq<Seq<char>>) -> Seq<char>
    decreases s.len(),
{
    if s.len() == 0 {
        Seq::empty()
    } else if s.len() == 1 {
        s[0]
    } else {
        joined_path(s.drop_last()) + "::"@ + s.last()
    }
}

pub open spec fn string_views(s: Seq<String>) -> Seq<Seq<char>> {
    s.map_values(|x: String| x@)
}

/// The segments of a module path joined with `::`.
pub fn join_path(segments: &Vec<String>) -> (r: String)
    ensures
        r@ == joined_path(string_views(segments@)),
{
    let ghost all = string_views(segments@);
    let mut r = String::new();
    let mut i: usize = 0;
    while i < segments.len()
        invariant
            i <= segments.len(),
            all == string_views(segments@),
            r@ == joined_path(all.take(i as int)),
        decreases segments.len() - i,
    {
        assert(all.take(i + 1).drop_last() =~= all.take(i as int));
        assert(all.take(i + 1).last() == segments@[i as int]@);
        if i > 0 {
            r.append("::");
        } else {
            assert(all.take(0) =~= Seq::<Seq<char>>::empty());
            assert(r@ =~= Seq::<char>::empty());
        }
        r.append(segments[i].as_str());
        i = i + 1;
    }
    assert(all.take(i as int) =~= all);
    r
}

/// Two files were found for one module.
#[derive(Debug)]
pub struct DuplicateError {
    /// The module's path, one segment per element.
    pub ident_path: Vec<String>,
    pub file: String,
    pub folder: String,
}

/// No file was found for a module.
#[derive(Debug)]
pub struct NotFoundError {
    /// The module's path, one segment per element.
    pub ident_path: Vec<String>,
    pub file: String,
    pub folder: String,
}

/// A file could not be read.
#[derive(Debug)]
pub struct WrappedIoError {
    /// What the system said.
    pub cause: String,
    /// The file's path.
    pub path: String,
}

/// A file could not be parsed.
#[derive(Debug)]
pub struct PreciseSynParseError {
    /// What the parser said.
    pub cause: String,
    /// Where the parser stopped.
    pub span: SourceSpan,
    pub res: ResolutionSource,
    pub code: String,
}

/// A name was defined more than once in one scope.
#[derive(Debug)]
pub struct MultipleDefinitionError {
    pub name: String,
    /// The first definition.
    pub original: SourceSpan,
    /// The later ones.
    pub duplicates: Vec<SourceSpan>,
    pub source: ResolutionSource,
    pub content: String,
}

/// The lines of an error about two files and a module path: the header, then
/// an arrow to each file.
pub open spec fn two_files_lines(header: Seq<char>, file: Seq<char>, folder: Seq<char>) -> Seq<
    StyledView,
> {
    seq![
        sv("\n"@, Style::Plain),
        sv("error"@, Style::RedBold),
        sv(header, Style::Bold),
        sv("\n "@, Style::Plain),
        sv("-->"@, Style::BlueBold),
        sv(" "@ + file + "\n "@, Style::Plain),
        sv("-->"@, Style::BlueBold),
        sv(" "@ + folder + "\n"@, Style::Plain),
    ]
}

fn two_files(header: String, file: &str, folder: &str) -> (r: Vec<Styled>)
    ensures
        styled_views(r@) == two_files_lines(header@, file@, folder@),
{
    let mut out: Vec<Styled> = Vec::new();
    emit_str(&mut out, "\n", Style::Plain);
    emit_str(&mut out, "error", Style::RedBold);
    emit(&mut out, header, Style::Bold);
    emit_str(&mut out, "\n ", Style::Plain);
    emit_str(&mut out, "-->", Style::BlueBold);
    let mut f = text(" ");
    f.append(file);
    f.append("\n ");
    emit(&mut out, f, Style::Plain);
    emit_str(&mut out, "-->", Style::BlueBold);
    let mut d = text(" ");
    d.append(folder);
    d.append("\n");
    emit(&mut out, d, Style::Plain);
    assert(styled_views(out@) =~= two_files_lines(header@, file@, folder@));
    out
}

pub open spec fn duplicate_lines(e: DuplicateError) -> Seq<StyledView> {
    two_files_lines(
        ": duplicate instances of `"@ + joined_path(string_views(e.ident_path@)) + "` were found"@,
        e.file@,
        e.folder@,
    )
}

impl DuplicateError {
    /// The error as styled text.
    pub fn render(&self) -> (r: Vec<Styled>)
        ensures
            styled_views(r@) == duplicate_lines(*self),
    {
        let mut header = text(": duplicate instances of `");
        header.append(join_path(&self.ident_path).as_str());
        header.append("` were found");
        two_files(header, self.file.as_str(), self.folder.as_str())
    }
}

pub open spec fn not_found_lines(e: NotFoundError) -> Seq<StyledView> {
    two_files_lines(
        ": could not find a file for `"@ + joined_path(string_views(e.ident_path@))
            + "` at either of"@,
        e.file@,
        e.folder@,
    )
}

impl NotFoundError {
    /// The error as styled text.
    pub fn render(&self) -> (r: Vec<Styled>)
        ensures
            styled_views(r@) == not_found_lines(*self),
    {
        let mut header = text(": could not find a file for `");
        header.append(join_path(&self.ident_path).as_str());
        header.append("` at either of");
        two_files(header, self.file.as_str(), self.folder.as_str())
    }
}

pub open spec fn wrapped_io_lines(e: WrappedIoError) -> Seq<StyledView> {
    seq![
        sv("error"@, Style::RedBold),
        sv(": couldn't read "@ + e.path@ + ": "@ + e.cause@, Style::Bold),
        sv("\n"@, Style::Plain),
    ]
}

impl WrappedIoError {
    /// The error as styled text.
    pub fn render(&self) -> (r: Vec<Styled>)
        ensures
            styled_views(r@) == wrapped_io_lines(*self),
    {
        let mut out: Vec<Styled> = Vec::new();
        emit_str(&mut out, "error", Style::RedBold);
        let mut header = text(": couldn't read ");
        header.append(self.path.as_str());
        header.append(": ");
        header.append(self.cause.as_str());
        emit(&mut out, header, Style::Bold);
        emit_str(&mut out, "\n", Style::Plain);
        assert(styled_views(out@) =~= wrapped_io_lines(*self));
        out
    }
}

/// The headline of a parse error, by where the code came from.
pub open spec fn parse_failure_text(res: ResolutionSource) -> Seq<char> {
    match res {
        ResolutionSource::File(_) => "could not parse file"@,
        ResolutionSource::Stdin => "could not parse stdin"@,
    }
}

pub open spec fn parse_error_mention(e: PreciseSynParseError) -> MentionView {
    MentionView { kind: Reference::Error, message: e.cause@, span: e.span }
}

pub open spec fn parse_error_lines(e: PreciseSynParseError) -> Option<Seq<StyledView>> {
    location_lines(parse_failure_text(e.res), parse_error_mention(e), Seq::empty(), e.res, e.code@)
}

impl PreciseSynParseError {
    /// The error as styled text, pointing at where parsing stopped; `None`
    /// when that line is not in the code.
    pub fn render(&self) -> (r: Option<Vec<Styled>>)
        requires
            location_ok(parse_error_mention(*self), Seq::empty(), self.code@),
        ensures
            match r {
                Some(v) => parse_error_lines(*self) == Some(styled_views(v@)),
                None => parse_error_lines(*self) is None,
            },
    {
        let msg = match &self.res {
            ResolutionSource::File(_) => "could not parse file",
            ResolutionSource::Stdin => "could not parse stdin",
        };
        let main = Mention { kind: Reference::Error, message: self.cause.clone(), span: self.span };
        let refs: Vec<Mention> = Vec::new();
        assert(mention_views(refs@) =~= Seq::<MentionView>::empty());
        render_location(msg, &main, refs, &self.res, self.code.as_str())
    }
}

/// The headline of a multiple-definition error.
pub open spec fn defined_twice_text(name: Seq<char>) -> Seq<char> {
    "the name `"@ + name + "` is defined multiple times"@
}

pub open spec fn original_mention(span: SourceSpan) -> MentionView {
    MentionView { kind: Reference::Error, message: Seq::empty(), span }
}

pub open spec fn duplicate_mentions(span: SourceSpan) -> Seq<MentionView> {
    seq![MentionView { kind: Reference::Info, message: Seq::empty(), span }]
}

/// One message per later definition, each showing the first definition and
/// that one; `None` once a line is missing from the code.
pub open spec fn multiple_definition_lines(
    name: Seq<char>,
    original: SourceSpan,
    duplicates: Seq<SourceSpan>,
    source: ResolutionSource,
    content: Seq<char>,
) -> Option<Seq<StyledView>>
    decreases duplicates.len(),
{
    if duplicates.len() == 0 {
        Some(Seq::empty())
    } else {
        match multiple_definition_lines(name, original, duplicates.drop_last(), source, content) {
            None => None,
            Some(a) => match location_lines(
                defined_twice_text(name),
                original_mention(original),
                duplicate_mentions(duplicates.last()),
                source,
                content,
            ) {
                None => None,
                Some(b) => Some(a + b),
            },
        }
    }
}

/// Whether each message of a multiple-definition error can be shown when
/// the ones before it were.
pub open spec fn multiple_definition_ok(
    name: Seq<char>,
    original: SourceSpan,
    duplicates: Seq<SourceSpan>,
    source: ResolutionSource,
    content: Seq<char>,
) -> bool {
    forall|i: int|
        #![trigger duplicates[i]]
        0 <= i < duplicates.len() && multiple_definition_lines(
            name,
            original,
            duplicates.take(i),
            source,
            content,
        ) is Some ==> location_ok(
            original_mention(original),
            duplicate_mentions(duplicates[i]),
            content,
        )
}

proof fn lemma_multiple_missing(
    name: Seq<char>,
    original: SourceSpan,
    duplicates: Seq<SourceSpan>,
    source: ResolutionSource,
    content: Seq<char>,
    k: int,
)
    requires
        0 <= k <= duplicates.len(),
        multiple_definition_lines(name, original, duplicates.take(k), source, content) is None,
    ensures
        multiple_definition_lines(name, original, duplicates, source, content) is None,
    decreases duplicates.len() - k,
{
    if k < duplicates.len() {
        assert(duplicates.take(k + 1).drop_last() =~= duplicates.take(k));
        lemma_multiple_missing(name, original, duplicates, source, content, k + 1);
    } else {
        assert(duplicates.take(k) =~= duplicates);
    }
}

impl MultipleDefinitionError {
    /// The error as styled text (see `multiple_definition_lines`).
    pub fn render(&self) -> (r: Option<Vec<Styled>>)
        requires
            multiple_definition_ok(
                self.name@,
                self.original,
                self.duplicates@,
                self.source,
                self.content@,
            ),
        ensures
            match r {
                Some(v) => multiple_definition_lines(
                    self.name@,
                    self.original,
                    self.duplicates@,
                    self.source,
                    self.content@,
                ) == Some(styled_views(v@)),
                None => multiple_definition_lines(
                    self.name@,
                    self.original,
                    self.duplicates@,
                    self.source,
                    self.content@,
                ) is None,
            },
    {
        let ghost dups = self.duplicates@;
        let mut out: Vec<Styled> = Vec::new();
        let mut i: usize = 0;
        while i < self.duplicates.len()
            invariant
                i <= self.duplicates.len(),
                dups == self.duplicates@,
                multiple_definition_ok(self.name@, self.original, dups, self.source, self.content@),
                multiple_definition_lines(
                    self.name@,
                    self.original,
                    dups.take(i as int),
                    self.source,
                    self.content@,
                ) == Some(styled_views(out@)),
            decreases self.duplicates.len() - i,
        {
            let mut cause = text("the name `");
            cause.append(self.name.as_str());
            cause.append("` is defined multiple times");
            let main = Mention { kind: Reference::Error, message: String::new(), span: self.original };
            let mut refs: Vec<Mention> = Vec::new();
            refs.push(
                Mention { kind: Reference::Info, message: String::new(), span: self.duplicates[i] },
            );
            assert(main@ == original_mention(self.original));
            assert(mention_views(refs@) =~= duplicate_mentions(dups[i as int]));
            assert(dups.take(i + 1).drop_last() =~= dups.take(i as int));
            assert(dups.take(i + 1).last() == dups[i as int]);
            match render_location(cause.as_str(), &main, refs, &self.source, self.content.as_str()) {
                None => {
                    proof {
                        lemma_multiple_missing(
                            self.name@,
                            self.original,
                            dups,
                            self.source,
                            self.content@,
                            i + 1,
                        );
                    }
                    return None;
                },
                Some(mut v) => {
                    let ghost before = styled_views(out@);
                    let ghost added = styled_views(v@);
                    out.append(&mut v);
                    assert(styled_views(out@) =~= before + added);
                },
            }
            i = i + 1;
        }
        assert(dups.take(i as int) =~= dups);
        Some(out)
    }
}

/// An error met while reading a source tree.
#[derive(Debug)]
pub enum ResolveError {
    IoError(WrappedIoError),
    ParseError(PreciseSynParseError),
    NotFoundError(NotFoundError),
    DuplicateError(DuplicateError),
}

/// Whether an error can be shown.
pub open spec fn resolve_error_ok(e: ResolveError) -> bool {
    match e {
        ResolveError::ParseError(p) => location_ok(parse_error_mention(p), Seq::empty(), p.code@),
        _ => true,
    }
}

/// An error as styled text; `None` when a line it points at is missing.
pub open spec fn resolve_error_lines(e: ResolveError) -> Option<Seq<StyledView>> {
    match e {
        ResolveError::IoError(x) => Some(wrapped_io_lines(x)),
        ResolveError::ParseError(x) => parse_error_lines(x),
        ResolveError::NotFoundError(x) => Some(not_found_lines(x)),
        ResolveError::DuplicateError(x) => Some(duplicate_lines(x)),
    }
}

impl ResolveError {
    /// The error as styled text (see `resolve_error_lines`).
    pub fn render(&self) -> (r: Option<Vec<Styled>>)
        requires
            resolve_error_ok(*self),
        ensures
            match r {
                Some(v) => resolve_error_lines(*self) == Some(styled_views(v@)),
                None => resolve_error_lines(*self) is None,
            },
    {
        match self {
            ResolveError::IoError(x) => Some(x.render()),
            ResolveError::ParseError(x) => x.render(),
            ResolveError::NotFoundError(x) => Some(x.render()),
            ResolveError::DuplicateError(x) => Some(x.render()),
        }
    }
}

/// An error met while building scopes.
#[derive(Debug)]
pub enum ScopeError {
    MultipleDefinitionError(MultipleDefinitionError),
}

impl ScopeError {
    /// The error as styled text (see `multiple_definition_lines`).
    pub fn render(&self) -> (r: Option<Vec<Styled>>)
        requires
            match *self {
                ScopeError::MultipleDefinitionError(e) => multiple_definition_ok(
                    e.name@,
                    e.original,
                    e.duplicates@,
                    e.source,
                    e.content@,
                ),
            },
        ensures
            match *self {
                ScopeError::MultipleDefinitionError(e) => match r {
                    Some(v) => multiple_definition_lines(
                        e.name@,
                        e.original,
                        e.duplicates@,
                        e.source,
                        e.content@,
                    ) == Some(styled_views(v@)),
                    None => multiple_definition_lines(
                        e.name@,
                        e.original,
                        e.duplicates@,
                        e.source,
                        e.content@,
                    ) is None,
                },
            },
    {
        match self {
            ScopeError::MultipleDefinitionError(e) => e.render(),
        }
    }
}

} // verus!
