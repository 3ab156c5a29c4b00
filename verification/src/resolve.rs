//! Pulling the files of out-of-line modules into one source tree: where a
//! module's file is looked for, which one is taken, and the errors met on
//! the way. Reading and parsing the files is left to the caller, which
//! reports what it found.

use vstd::prelude::*;

use crate::ast::{str_eq, Ident};
use crate::error::{text, IoFailure};
use crate::render::{emit, emit_str, styled_views, sv, SourcePath, SourceSpan, Style, Styled, StyledView};
use crate::text::{
    byte_len, decimal, decimal_text, lines, nth_line, repeat_char, repeated, space_text, spaces,
    trim_end, trimmed_end,
};

verus! {

/// A parse error, located in its file.
#[derive(Debug)]
pub struct PreciseSynParseError {
    /// What the parser said.
    pub cause: String,
    /// Where the parser stopped.
    pub span: SourceSpan,
    /// The file's path.
    pub path: SourcePath,
    /// The file's content.
    pub code: String,
}

/// How a parse error names its file: the file name, prefixed with the
/// directory's name for a `mod.rhdl`.
pub open spec fn parse_error_path(p: SourcePath) -> Seq<char> {
    let name = match p.file_name {
        Some(n) => n@,
        None => "Unknown File"@,
    };
    if name == "mod.rhdl"@ {
        let dir = match p.parent_name {
            Some(d) => d@,
            None => "Unknown Directory"@,
        };
        dir + "/"@ + name
    } else {
        name
    }
}

fn parse_error_path_text(p: &SourcePath) -> (r: String)
    ensures
        r@ == parse_error_path(*p),
{
    let name = match &p.file_name {
        Some(n) => n.clone(),
        None => text("Unknown File"),
    };
    if str_eq(name.as_str(), "mod.rhdl") {
        let mut dir = match &p.parent_name {
            Some(d) => d.clone(),
            None => text("Unknown Directory"),
        };
        dir.append("/");
        dir.append(name.as_str());
        dir
    } else {
        name
    }
}

/// The short form of a parse error, for when its place cannot be shown.
pub open spec fn parse_fallback_lines(cause: Seq<char>, filepath: Seq<char>) -> Seq<StyledView> {
    seq![
        sv("\n"@, Style::Plain),
        sv("error"@, Style::RedBold),
        sv(": "@ + cause, Style::Bold),
        sv("\n "@, Style::Plain),
        sv("-->"@, Style::BlueBold),
        sv(" "@ + filepath + "\n  "@, Style::Plain),
        sv("|"@, Style::BlueBold),
        sv(" "@, Style::Plain),
        sv(cause, Style::RedBold),
        sv("\n"@, Style::Plain),
    ]
}

/// A parse error as styled text: the header, the file and position, the
/// line of code and an underline under the place where parsing stopped. The
/// short form when that place is empty or its line is not in the code.
pub open spec fn parse_error_lines(e: PreciseSynParseError) -> Seq<StyledView> {
    let cause = e.cause@;
    let filepath = parse_error_path(e.path);
    let start = e.span.start;
    let end = e.span.end;
    let ls = lines(e.code@);
    if start == end || start.line - 1 >= ls.len() {
        parse_fallback_lines(cause, filepath)
    } else {
        let line = ls[start.line - 1];
        let end_col: nat = if end.line > start.line {
            byte_len(line)
        } else {
            end.column as nat
        };
        let label = decimal(start.line as nat);
        let indent = spaces(label.len());
        seq![
            sv("\n"@, Style::Plain),
            sv("error"@, Style::RedBold),
            sv(": "@ + cause, Style::Bold),
            sv("\n"@ + indent, Style::Plain),
            sv("-->"@, Style::BlueBold),
            sv(
                " "@ + filepath + ":"@ + label + ":"@ + decimal(start.column as nat) + "\n"@ + indent
                    + " "@,
                Style::Plain,
            ),
            sv("|"@, Style::BlueBold),
            sv("\n"@, Style::Plain),
            sv(label, Style::BlueBold),
            sv(" "@, Style::Plain),
            sv("|"@, Style::BlueBold),
            sv(" "@ + trim_end(line) + "\n"@ + indent + " "@, Style::Plain),
            sv("|"@, Style::BlueBold),
            sv(" "@ + spaces(start.column as nat), Style::Plain),
            sv(repeat_char('^', (end_col - start.column) as nat), Style::RedBold),
            sv(" "@, Style::Plain),
            sv(cause, Style::RedBold),
            sv("\n"@, Style::Plain),
        ]
    }
}

/// Whether a parse error can be shown: a place that is not empty is on a
/// line counted from one, and where that line is in the code, the place does
/// not end before it starts.
pub open spec fn parse_error_ok(e: PreciseSynParseError) -> bool {
    let start = e.span.start;
    let end = e.span.end;
    let ls = lines(e.code@);
    start != end ==> {
        &&& 1 <= start.line
        &&& start.line - 1 < ls.len() ==> start.column <= (if end.line > start.line {
            byte_len(ls[start.line - 1])
        } else {
            end.column as nat
        })
    }
}

impl PreciseSynParseError {
    fn render_fallback(cause: &str, filepath: &str) -> (r: Vec<Styled>)
        ensures
            styled_views(r@) == parse_fallback_lines(cause@, filepath@),
    {
        let mut out: Vec<Styled> = Vec::new();
        emit_str(&mut out, "\n", Style::Plain);
        emit_str(&mut out, "error", Style::RedBold);
        let mut header = text(": ");
        header.append(cause);
        emit(&mut out, header, Style::Bold);
        emit_str(&mut out, "\n ", Style::Plain);
        emit_str(&mut out, "-->", Style::BlueBold);
        let mut path = text(" ");
        path.append(filepath);
        path.append("\n  ");
        emit(&mut out, path, Style::Plain);
        emit_str(&mut out, "|", Style::BlueBold);
        emit_str(&mut out, " ", Style::Plain);
        emit_str(&mut out, cause, Style::RedBold);
        emit_str(&mut out, "\n", Style::Plain);
        assert(styled_views(out@) =~= parse_fallback_lines(cause@, filepath@));
        out
    }

    /// The error as styled text (see `parse_error_lines`).
    pub fn render_location(&self) -> (r: Vec<Styled>)
        requires
            parse_error_ok(*self),
        ensures
            styled_views(r@) == parse_error_lines(*self),
    {
        let filepath = parse_error_path_text(&self.path);
        let cause = self.cause.as_str();
        let start = self.span.start;
        let end = self.span.end;
        if start.line == end.line && start.column == end.column {
            return Self::render_fallback(cause, filepath.as_str());
        }
        let line = match nth_line(self.code.as_str(), start.line - 1) {
            Some(l) => l,
            None => {
                return Self::render_fallback(cause, filepath.as_str());
            },
        };
        let end_col = if end.line > start.line {
            line.as_str().as_bytes().len()
        } else {
            end.column
        };
        let label = decimal_text(start.line);
        let indent = space_text(label.as_str().unicode_len());
        let mut out: Vec<Styled> = Vec::new();
        emit_str(&mut out, "\n", Style::Plain);
        emit_str(&mut out, "error", Style::RedBold);
        let mut header = text(": ");
        header.append(cause);
        emit(&mut out, header, Style::Bold);
        let mut first = text("\n");
        first.append(indent.as_str());
        emit(&mut out, first, Style::Plain);
        emit_str(&mut out, "-->", Style::BlueBold);
        let mut place = text(" ");
        place.append(filepath.as_str());
        place.append(":");
        place.append(label.as_str());
        place.append(":");
        place.append(decimal_text(start.column).as_str());
        place.append("\n");
        place.append(indent.as_str());
        place.append(" ");
        emit(&mut out, place, Style::Plain);
        emit_str(&mut out, "|", Style::BlueBold);
        emit_str(&mut out, "\n", Style::Plain);
        emit(&mut out, label, Style::BlueBold);
        emit_str(&mut out, " ", Style::Plain);
        emit_str(&mut out, "|", Style::BlueBold);
        let mut code_part = text(" ");
        code_part.append(trimmed_end(line.as_str()).as_str());
        code_part.append("\n");
        code_part.append(indent.as_str());
        code_part.append(" ");
        emit(&mut out, code_part, Style::Plain);
        emit_str(&mut out, "|", Style::BlueBold);
        let mut offset = text(" ");
        offset.append(space_text(start.column).as_str());
        emit(&mut out, offset, Style::Plain);
        proof {
            reveal_strlit("^");
        }
        emit(&mut out, repeated("^", end_col - start.column), Style::RedBold);
        emit_str(&mut out, " ", Style::Plain);
        emit_str(&mut out, cause, Style::RedBold);
        emit_str(&mut out, "\n", Style::Plain);
        assert(styled_views(out@) =~= parse_error_lines(*self));
        out
    }
}

/// An error met while pulling module files into a source tree.
#[derive(Debug)]
pub enum ResolveError {
    /// A file could not be read.
    IoError(IoFailure),
    /// A file could not be parsed.
    ParseError(PreciseSynParseError),
    /// No file was found for the module with this name.
    NotFoundError(Ident),
}

/// Whether an error can be shown.
pub open spec fn resolve_error_ok(e: ResolveError) -> bool {
    match e {
        ResolveError::ParseError(p) => parse_error_ok(p),
        _ => true,
    }
}

/// An error as styled text: what the system said, the parse error, or the
/// name of the module that has no file.
pub open spec fn resolve_error_lines(e: ResolveError) -> Seq<StyledView> {
    match e {
        ResolveError::IoError(x) => seq![sv(x.message@, Style::Plain)],
        ResolveError::ParseError(x) => parse_error_lines(x),
        ResolveError::NotFoundError(x) => seq![sv(x.inner@, Style::Plain)],
    }
}

impl ResolveError {
    /// The error as styled text (see `resolve_error_lines`).
    pub fn render(&self) -> (r: Vec<Styled>)
        requires
            resolve_error_ok(*self),
        ensures
            styled_views(r@) == resolve_error_lines(*self),
    {
        match self {
            ResolveError::IoError(x) => {
                let mut out: Vec<Styled> = Vec::new();
                emit(&mut out, x.message.clone(), Style::Plain);
                assert(styled_views(out@) =~= resolve_error_lines(*self));
                out
            },
            ResolveError::ParseError(x) => x.render_location(),
            ResolveError::NotFoundError(x) => {
                let mut out: Vec<Styled> = Vec::new();
                emit(&mut out, x.inner.clone(), Style::Plain);
                assert(styled_views(out@) =~= resolve_error_lines(*self));
                out
            },
        }
    }
}

/// `name` appended to the directory path `base`, with a `/` between them
/// unless `base` is empty or already ends with one.
pub open spec fn path_join(base: Seq<char>, name: Seq<char>) -> Seq<char> {
    if base.len() == 0 || base.last() == '/' {
        base + name
    } else {
        base + "/"@ + name
    }
}

fn join(base: &str, name: &str) -> (r: String)
    ensures
        r@ == path_join(base@, name@),
{
    let n = base.unicode_len();
    let mut r = String::from_str(base);
    if n > 0 && base.get_char(n - 1) != '/' {
        r.append("/");
    }
    r.append(name);
    r
}

/// The file of module `ident` next to its parent: `ident.rhdl`.
pub open spec fn mod_file_path(cwd: Seq<char>, ident: Seq<char>) -> Seq<char> {
    path_join(cwd, ident + ".rhdl"@)
}

/// The file of module `ident` in a directory of its own: `ident/mod.rhdl`.
pub open spec fn mod_folder_file_path(cwd: Seq<char>, ident: Seq<char>) -> Seq<char> {
    path_join(cwd, ident + "/mod.rhdl"@)
}

/// The file of a module in a directory of its own is the `mod.rhdl` that the
/// resolver for that directory would take for a module named `mod`: the two
/// ways of naming it agree.
pub proof fn lemma_folder_file_in_folder(cwd: Seq<char>, ident: Seq<char>)
    requires
        ident.len() > 0,
        ident.last() != '/',
    ensures
        mod_folder_file_path(cwd, ident) == mod_file_path(path_join(cwd, ident), "mod"@),
{
    reveal_strlit("/mod.rhdl");
    reveal_strlit("mod");
    reveal_strlit(".rhdl");
    reveal_strlit("/");
    let dir = path_join(cwd, ident);
    assert(dir.last() == ident.last()) by {
        if cwd.len() == 0 || cwd.last() == '/' {
            assert(dir =~= cwd + ident);
        } else {
            assert(dir =~= cwd + "/"@ + ident);
        }
    }
    assert(dir.len() > 0);
    if cwd.len() == 0 || cwd.last() == '/' {
        assert(cwd + (ident + "/mod.rhdl"@) =~= cwd + ident + "/"@ + ("mod"@ + ".rhdl"@));
    } else {
        assert(cwd + "/"@ + (ident + "/mod.rhdl"@) =~= cwd + "/"@ + ident + "/"@ + ("mod"@ + ".rhdl"@));
    }
}

/// Where a module's content is taken from.
#[derive(Debug)]
pub struct ModFile {
    pub path: String,
    /// The file is the `mod.rhdl` of the module's own directory, whose other
    /// modules are then looked for in that directory.
    pub in_folder: bool,
}

/// Pulls the content of out-of-line modules from their files, looking for
/// them in one directory, and keeps the errors met.
#[derive(Debug)]
pub struct ModResolver {
    /// The directory module files are looked for in.
    pub cwd: String,
    pub errors: Vec<ResolveError>,
}

impl ModResolver {
    /// A resolver that looks for module files in `cwd`, with no errors yet.
    pub fn new(cwd: String) -> (r: ModResolver)
        ensures
            r.cwd@ == cwd@,
            r.errors@.len() == 0,
    {
        ModResolver { cwd, errors: Vec::new() }
    }

    /// The two files that can hold module `ident`: `ident.rhdl` and
    /// `ident/mod.rhdl` in the resolver's directory.
    pub fn candidates(&self, ident: &Ident) -> (r: (String, String))
        ensures
            r.0@ == mod_file_path(self.cwd@, ident.inner@),
            r.1@ == mod_folder_file_path(self.cwd@, ident.inner@),
    {
        let mut file = ident.inner.clone();
        file.append(".rhdl");
        let mut folder_file = ident.inner.clone();
        folder_file.append("/mod.rhdl");
        (join(self.cwd.as_str(), file.as_str()), join(self.cwd.as_str(), folder_file.as_str()))
    }

    /// Picks the file of module `ident` from which of its two candidates are
    /// files: `ident.rhdl` first. When neither is, records that the module
    /// was not found.
    pub fn choose_file(&mut self, ident: &Ident, file_exists: bool, folder_file_exists: bool) -> (r:
        Option<ModFile>)
        ensures
            file_exists ==> (r matches Some(f) && f.path@ == mod_file_path(
                old(self).cwd@,
                ident.inner@,
            ) && !f.in_folder),
            !file_exists && folder_file_exists ==> (r matches Some(f) && f.path@
                == mod_folder_file_path(old(self).cwd@, ident.inner@) && f.in_folder),
            r is Some ==> final(self).errors@ == old(self).errors@,
            !file_exists && !folder_file_exists ==> r is None && final(self).errors@.len()
                == old(self).errors@.len() + 1 && (final(self).errors@.last() matches
                ResolveError::NotFoundError(i) && i == *ident),
            final(self).cwd == old(self).cwd,
            final(self).errors@.subrange(0, old(self).errors@.len() as int) == old(self).errors@,
    {
        let (file, folder_file) = self.candidates(ident);
        if file_exists {
            Some(ModFile { path: file, in_folder: false })
        } else if folder_file_exists {
            Some(ModFile { path: folder_file, in_folder: true })
        } else {
            self.errors.push(ResolveError::NotFoundError(ident.duplicate()));
            assert(self.errors@.subrange(0, old(self).errors@.len() as int) =~= old(
                self,
            ).errors@);
            None
        }
    }

    /// The resolver for the modules of a module whose file is the
    /// `mod.rhdl` of its own directory: it looks in that directory.
    pub fn folder_resolver(&self, ident: &Ident) -> (r: ModResolver)
        ensures
            r.cwd@ == path_join(self.cwd@, ident.inner@),
            r.errors@.len() == 0,
    {
        ModResolver::new(join(self.cwd.as_str(), ident.inner.as_str()))
    }

    /// Records an error met while reading or parsing a module's file.
    pub fn record(&mut self, error: ResolveError)
        ensures
            final(self).cwd == old(self).cwd,
            final(self).errors@ == old(self).errors@.push(error),
    {
        self.errors.push(error);
    }

    /// Takes over the errors of the resolver of a module's directory.
    pub fn absorb(&mut self, other: ModResolver)
        ensures
            final(self).cwd == old(self).cwd,
            final(self).errors@ == old(self).errors@ + other.errors@,
    {
        let mut other = other;
        self.errors.append(&mut other.errors);
    }

    /// The outcome of resolving a tree: its errors, if there are any.
    pub fn finish(self) -> (r: Result<(), Vec<ResolveError>>)
        ensures
            self.errors@.len() == 0 <==> r is Ok,
            r matches Err(e) ==> e@ == self.errors@,
    {
        if self.errors.len() > 0 {
            Err(self.errors)
        } else {
            Ok(())
        }
    }
}

} // verus!
