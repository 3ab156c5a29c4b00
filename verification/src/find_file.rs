//! The files of a source tree: each root file and each file that backs a
//! `mod name;` declaration, with the edges from a file to the module files it
//! declares.

use vstd::prelude::*;

use crate::ast::{Ident, Span};
use crate::error::{conflicting_mod_files, conflicting_mod_files_view, io_failure_view, Diagnostic, DiagnosticView, FileFindingError};
use crate::resolution::scope_builder::{items_ok, Item, ModContent};

verus! {

/// The position of a file in a [`FileGraph`].
pub type FileId = usize;

/// A parsed source file.
#[derive(Debug)]
pub struct File {
    /// The path or name the file was read from.
    pub name: String,
    pub content: String,
    /// The items of the file.
    pub items: Vec<Item>,
    /// Every identifier token of the file, in order.
    pub idents: Vec<Ident>,
    /// The file that declared this one as a module, if any.
    pub parent: Option<FileId>,
}

/// A module file declared by another file, with the path of module
/// identifiers (relative to the declaring file) that leads to it.
#[derive(Debug)]
pub struct ModFile {
    pub idents: Vec<Ident>,
    pub file: FileId,
}

#[derive(Debug)]
pub struct FileGraph {
    pub files: Vec<File>,
    pub roots: Vec<FileId>,
    /// Per file, the module files it declares, in the order they were found.
    pub children: Vec<Vec<ModFile>>,
}

impl FileGraph {
    pub open spec fn len(&self) -> nat {
        self.files@.len()
    }

    /// Edges lead from a file to a later one; every file's items are well formed.
    pub open spec fn wf(&self) -> bool {
        &&& self.children@.len() == self.files@.len()
        &&& forall|p: int, k: int| 0 <= p < self.children@.len() && 0 <= k < self.children@[p]@.len()
            ==> p < (#[trigger] self.children@[p]@[k]).file < self.files@.len()
        &&& forall|k: int| 0 <= k < self.roots@.len() ==> (#[trigger] self.roots@[k]) < self.files@.len()
        &&& forall|f: int| 0 <= f < self.files@.len() ==> items_ok(#[trigger] self.files@[f].items@)
    }

    pub fn new() -> (g: FileGraph)
        ensures
            g.wf(),
            g.len() == 0,
            g.roots@.len() == 0,
    {
        FileGraph { files: Vec::new(), roots: Vec::new(), children: Vec::new() }
    }

    /// Adds a file; one without a parent is a root.
    pub fn add_node(&mut self, file: File) -> (idx: FileId)
        requires
            old(self).wf(),
            items_ok(file.items@),
        ensures
            final(self).wf(),
            idx == old(self).len(),
            final(self).files@ == old(self).files@.push(file),
            final(self).roots@ == if file.parent.is_none() {
                old(self).roots@.push(idx)
            } else {
                old(self).roots@
            },
            final(self).children@.len() == old(self).children@.len() + 1,
            final(self).children@.last()@.len() == 0,
            forall|p: int| 0 <= p < old(self).children@.len() ==> #[trigger] final(self).children@[p]
                == old(self).children@[p],
    {
        let idx = self.files.len();
        if file.parent.is_none() {
            self.roots.push(idx);
        }
        self.files.push(file);
        self.children.push(Vec::new());
        proof {
            assert forall|p: int, k: int| 0 <= p < self.children@.len() && 0 <= k < self.children@[p]@.len()
                implies p < (#[trigger] self.children@[p]@[k]).file < self.files@.len() by {
                assert(p < old(self).children@.len());
                assert(self.children@[p] == old(self).children@[p]);
            }
            assert forall|f: int| 0 <= f < self.files@.len() implies items_ok(#[trigger] self.files@[f].items@) by {
                if f < old(self).files@.len() {
                    assert(self.files@[f] == old(self).files@[f]);
                }
            }
        }
        idx
    }

    /// Records that `parent` declares the module file `child` under `idents`.
    pub fn add_edge(&mut self, parent: FileId, idents: Vec<Ident>, child: FileId)
        requires
            old(self).wf(),
            parent < child < old(self).len(),
        ensures
            final(self).wf(),
            final(self).files == old(self).files,
            final(self).roots == old(self).roots,
            final(self).children@.len() == old(self).children@.len(),
            final(self).children@[parent as int]@ == old(self).children@[parent as int]@.push(ModFile { idents, file: child }),
            forall|p: int| 0 <= p < old(self).children@.len() && p != parent ==> #[trigger] final(self).children@[p]
                == old(self).children@[p],
    {
        let mut entries: Vec<ModFile> = Vec::new();
        std::mem::swap(&mut entries, &mut self.children[parent]);
        entries.push(ModFile { idents, file: child });
        self.children.set(parent, entries);
        proof {
            assert forall|p: int, k: int| 0 <= p < self.children@.len() && 0 <= k < self.children@[p]@.len()
                implies p < (#[trigger] self.children@[p]@[k]).file < self.files@.len() by {
                if p != parent {
                    assert(self.children@[p] == old(self).children@[p]);
                } else if k < old(self).children@[p]@.len() {
                    assert(self.children@[p]@[k] == old(self).children@[p]@[k]);
                }
            }
        }
    }

    /// The indices of all files, in order.
    pub fn node_indices(&self) -> (r: Vec<FileId>)
        ensures
            r@.len() == self.len(),
            forall|i: int| 0 <= i < r@.len() ==> #[trigger] r@[i] == i,
    {
        let mut r: Vec<FileId> = Vec::new();
        let mut i: usize = 0;
        while i < self.files.len()
            invariant
                i <= self.files@.len(),
                r@.len() == i,
                forall|k: int| 0 <= k < r@.len() ==> #[trigger] r@[k] == k,
            decreases self.files@.len() - i,
        {
            r.push(i);
            i = i + 1;
        }
        r
    }
}

/// Where a source is read from.
#[derive(Debug)]
pub enum FileContentSource {
    /// A file at this path.
    File(String),
    /// A reader with this name, such as standard input.
    Reader(String),
}

impl FileContentSource {
    pub fn name(&self) -> (r: String)
        ensures
            r@ == match *self {
                FileContentSource::File(path) => path@,
                FileContentSource::Reader(name) => name@,
            },
    {
        match self {
            FileContentSource::File(path) => path.clone(),
            FileContentSource::Reader(name) => name.clone(),
        }
    }
}

/// The extension module files get when the root was not read from a file
/// with an extension.
pub fn stdin_fallback_extension() -> (r: &'static str)
    ensures
        r@ == "rhdl"@,
{
    proof {
        reveal_strlit("rhdl");
    }
    "rhdl"
}

/// A `mod name;` to look up: its identifier, where it is declared, and its
/// module path from the root of the file that declares it (its own
/// identifier last).
#[derive(Debug)]
pub struct ModRequest {
    pub ident: Ident,
    pub span: Span,
    pub ident_path: Vec<Ident>,
}

/// The `mod name;` declarations among the first `n` items, directly or inside
/// modules written in braces, in order, each with its module path below `prefix`.
pub open spec fn mod_requests_of(items: Seq<Item>, prefix: Seq<Ident>, n: int) -> Seq<(Ident, Span, Seq<Ident>)>
    decreases items, n,
{
    if n <= 0 || n > items.len() {
        Seq::empty()
    } else {
        mod_requests_of(items, prefix, n - 1) + match items[n - 1] {
            Item::Mod(m, ModContent::File) => seq![(m.ident, m.span, prefix.push(m.ident))],
            Item::Mod(m, ModContent::Here(sub)) => mod_requests_of(sub@, prefix.push(m.ident), sub@.len() as int),
            _ => Seq::empty(),
        }
    }
}

pub open spec fn request_view(r: ModRequest) -> (Ident, Span, Seq<Ident>) {
    (r.ident, r.span, r.ident_path@)
}

fn copy_idents(v: &Vec<Ident>) -> (r: Vec<Ident>)
    ensures
        r@ == v@,
{
    let mut r: Vec<Ident> = Vec::new();
    let mut i: usize = 0;
    while i < v.len()
        invariant
            i <= v@.len(),
            r@ == v@.take(i as int),
        decreases v@.len() - i,
    {
        r.push(v[i].duplicate());
        i = i + 1;
        assert(r@ =~= v@.take(i as int));
    }
    assert(v@.take(v@.len() as int) =~= v@);
    r
}

/// The `mod name;` declarations of `items`, directly or inside modules
/// written in braces, in order, each with its module path below `prefix`.
pub fn mod_requests(items: &Vec<Item>, prefix: &Vec<Ident>) -> (r: Vec<ModRequest>)
    ensures
        r@.map_values(|q: ModRequest| request_view(q)) == mod_requests_of(items@, prefix@, items@.len() as int),
    decreases items@,
{
    let mut r: Vec<ModRequest> = Vec::new();
    let mut i: usize = 0;
    while i < items.len()
        invariant
            i <= items@.len(),
            r@.map_values(|q: ModRequest| request_view(q)) == mod_requests_of(items@, prefix@, i as int),
        decreases items@.len() - i,
    {
        let ghost before = r@.map_values(|q: ModRequest| request_view(q));
        match &items[i] {
            Item::Mod(m, ModContent::File) => {
                let mut path = copy_idents(prefix);
                path.push(m.ident.duplicate());
                r.push(ModRequest { ident: m.ident.duplicate(), span: m.span, ident_path: path });
                assert(r@.map_values(|q: ModRequest| request_view(q)) =~= before + seq![(m.ident, m.span, prefix@.push(m.ident))]);
            },
            Item::Mod(m, ModContent::Here(sub)) => {
                let mut path = copy_idents(prefix);
                path.push(m.ident.duplicate());
                proof {
                    assert(decreases_to!(items@ => items@[i as int]));
                }
                let mut nested = mod_requests(sub, &path);
                let ghost nv = nested@.map_values(|q: ModRequest| request_view(q));
                r.append(&mut nested);
                assert(r@.map_values(|q: ModRequest| request_view(q)) =~= before + nv);
            },
            _ => {
                assert(r@.map_values(|q: ModRequest| request_view(q)) =~= before + Seq::<(Ident, Span, Seq<Ident>)>::empty());
            },
        }
        i = i + 1;
    }
    r
}

/// What was found for a module: its own file, its folder's `mod` file, both, or neither.
#[derive(Debug, Clone, Copy, PartialEq, Eq, Structural)]
pub enum ModFileChoice {
    File,
    Folder,
    Both,
    Neither,
}

/// Which module file to take, given which of the two could be read and parsed:
/// the only one found; with both, the module's own file (and the conflict is
/// reported); with neither, none.
pub fn choose_mod_file(file_found: bool, folder_found: bool) -> (r: ModFileChoice)
    ensures
        r == if file_found && folder_found {
            ModFileChoice::Both
        } else if file_found {
            ModFileChoice::File
        } else if folder_found {
            ModFileChoice::Folder
        } else {
            ModFileChoice::Neither
        },
{
    if file_found && folder_found {
        ModFileChoice::Both
    } else if file_found {
        ModFileChoice::File
    } else if folder_found {
        ModFileChoice::Folder
    } else {
        ModFileChoice::Neither
    }
}

/// The diagnostic for a file `name` that could not be had.
pub open spec fn finding_error_view(e: FileFindingError, name: Seq<char>, parent: Option<(FileId, Span)>) -> DiagnosticView {
    match e {
        FileFindingError::Parse(p) => p@,
        FileFindingError::Io(f) => io_failure_view(name, f.message@, parent),
    }
}

pub open spec fn not_found(e: FileFindingError) -> bool {
    e matches FileFindingError::Io(f) && f.not_found
}

/// What is reported for a module neither of whose files could be had: when
/// neither exists, that its own file does not; otherwise each failure that
/// is not a missing file, its own file's first.
pub open spec fn unfound_module_views(
    file_error: FileFindingError,
    file_name: Seq<char>,
    folder_error: FileFindingError,
    folder_name: Seq<char>,
    parent: Option<(FileId, Span)>,
) -> Seq<DiagnosticView> {
    if not_found(file_error) && not_found(folder_error) {
        seq![finding_error_view(file_error, file_name, parent)]
    } else {
        (if not_found(file_error) {
            Seq::empty()
        } else {
            seq![finding_error_view(file_error, file_name, parent)]
        }) + (if not_found(folder_error) {
            Seq::empty()
        } else {
            seq![finding_error_view(folder_error, folder_name, parent)]
        })
    }
}

/// The errors for a module neither of whose files could be had (see
/// `unfound_module_views`), appended to `errors`.
pub fn report_unfound_module(
    errors: &mut Vec<Diagnostic>,
    file_error: FileFindingError,
    file_name: String,
    folder_error: FileFindingError,
    folder_name: String,
    parent: Option<(FileId, Span)>,
)
    ensures
        final(errors)@.map_values(|d: Diagnostic| d@) == old(errors)@.map_values(|d: Diagnostic| d@)
            + unfound_module_views(file_error, file_name@, folder_error, folder_name@, parent),
{
    let ghost v = unfound_module_views(file_error, file_name@, folder_error, folder_name@, parent);
    let ghost before = errors@.map_values(|d: Diagnostic| d@);
    let file_missing = file_error.is_io_not_found();
    let folder_missing = folder_error.is_io_not_found();
    if file_missing && folder_missing {
        errors.push(file_error.diagnostic(file_name, parent));
    } else {
        if !file_missing {
            errors.push(file_error.diagnostic(file_name, parent));
        }
        if !folder_missing {
            errors.push(folder_error.diagnostic(folder_name, parent));
        }
    }
    assert(errors@.map_values(|d: Diagnostic| d@) =~= before + v);
}

/// An identifier as a path component: without a leading `r#`.
pub open spec fn path_component(text: Seq<char>) -> Seq<char> {
    if text.len() >= 2 && text[0] == 'r' && text[1] == '#' {
        text.subrange(2, text.len() as int)
    } else {
        text
    }
}

/// `name` with the extension `ext` (none when `ext` is empty).
pub open spec fn with_extension(name: Seq<char>, ext: Seq<char>) -> Seq<char> {
    if ext.len() == 0 {
        name
    } else {
        name + "."@ + ext
    }
}

/// The path components of the file of a module with module path `idents`:
/// `a/b/c.ext` below `cwd`.
pub open spec fn mod_file_components(cwd: Seq<Seq<char>>, idents: Seq<Ident>, ext: Seq<char>) -> Seq<Seq<char>> {
    let comps = idents.map_values(|i: Ident| path_component(i.inner@));
    cwd + comps.drop_last().push(with_extension(comps.last(), ext))
}

pub fn strip_raw_prefix(ident: &Ident) -> (r: String)
    ensures
        r@ == path_component(ident.inner@),
{
    let s = ident.inner.as_str();
    let n = s.unicode_len();
    if n >= 2 && s.get_char(0) == 'r' && s.get_char(1) == '#' {
        s.substring_char(2, n).to_string()
    } else {
        ident.inner.clone()
    }
}

fn add_extension(name: String, ext: &str) -> (r: String)
    ensures
        r@ == with_extension(name@, ext@),
{
    if ext.unicode_len() == 0 {
        name
    } else {
        let mut r = name;
        r.append(".");
        r.append(ext);
        r
    }
}

/// Finds the files of a source tree: keeps the graph of files found so far,
/// the errors, and where the search stands.
#[derive(Debug)]
pub struct FileFinder {
    pub file_graph: FileGraph,
    pub errors: Vec<Diagnostic>,
    /// The directory module files are looked up in, as path components.
    pub cwd: Vec<String>,
    /// The files whose module declarations are being followed, innermost last.
    pub ancestry: Vec<FileId>,
    /// The extension of module files.
    pub extension: String,
}

/// The path components of a module's folder file: `a/b/c/mod.ext` below
/// `cwd` for the module path `a::b::c`, the `{ident}/mod.rhdl` layout that
/// module files are documented to follow (the tree pulled together by
/// `resolve` and `tree` uses it too).
pub open spec fn mod_folder_components(cwd: Seq<Seq<char>>, idents: Seq<Ident>, ext: Seq<char>) -> Seq<Seq<char>> {
    cwd + idents.map_values(|i: Ident| path_component(i.inner@)).push(with_extension("mod"@, ext))
}

impl FileFinder {
    pub open spec fn inv(&self) -> bool {
        &&& self.file_graph.wf()
        &&& forall|k: int| 0 <= k < self.ancestry@.len() ==> (#[trigger] self.ancestry@[k]) < self.file_graph.len()
    }

    pub fn new() -> (r: FileFinder)
        ensures
            r.inv(),
            r.file_graph.len() == 0,
            r.file_graph.roots@.len() == 0,
            r.file_graph.children@.len() == 0,
            r.errors@.len() == 0,
            r.ancestry@.len() == 0,
            r.cwd@.len() == 0,
            r.extension@.len() == 0,
    {
        FileFinder {
            file_graph: FileGraph::new(),
            errors: Vec::new(),
            cwd: Vec::new(),
            ancestry: Vec::new(),
            extension: String::new(),
        }
    }

    /// The two paths, as components, that the module with module path
    /// `idents` may be read from: its own file and its folder's `mod` file.
    pub fn mod_file_paths(&self, idents: &Vec<Ident>) -> (r: (Vec<String>, Vec<String>))
        requires
            idents@.len() > 0,
        ensures
            r.0@.map_values(|s: String| s@) == mod_file_components(self.cwd@.map_values(|s: String| s@), idents@,
                self.extension@),
            r.1@.map_values(|s: String| s@) == mod_folder_components(self.cwd@.map_values(|s: String| s@), idents@,
                self.extension@),
    {
        let ghost comps = idents@.map_values(|i: Ident| path_component(i.inner@));
        let ghost cwd = self.cwd@.map_values(|s: String| s@);
        let ghost want = mod_file_components(cwd, idents@, self.extension@);
        let mut file: Vec<String> = Vec::new();
        let mut k: usize = 0;
        while k < self.cwd.len()
            invariant
                k <= self.cwd@.len(),
                cwd == self.cwd@.map_values(|s: String| s@),
                file@.len() == k,
                forall|x: int| 0 <= x < k ==> (#[trigger] file@[x])@ == cwd[x],
            decreases self.cwd@.len() - k,
        {
            file.push(self.cwd[k].clone());
            k = k + 1;
        }
        let last_index = idents.len() - 1;
        let mut j: usize = 0;
        while j < last_index
            invariant
                idents@.len() > 0,
                last_index == idents@.len() - 1,
                j <= last_index,
                comps == idents@.map_values(|i: Ident| path_component(i.inner@)),
                file@.len() == cwd.len() + j,
                forall|x: int| 0 <= x < cwd.len() ==> (#[trigger] file@[x])@ == cwd[x],
                forall|x: int| 0 <= x < j ==> (#[trigger] file@[cwd.len() + x])@ == comps[x],
            decreases last_index - j,
        {
            file.push(strip_raw_prefix(&idents[j]));
            j = j + 1;
        }
        let last = add_extension(strip_raw_prefix(&idents[last_index]), self.extension.as_str());
        file.push(last);
        assert(file@.map_values(|s: String| s@) =~= want) by {
            assert forall|x: int| 0 <= x < want.len() implies file@.map_values(|s: String| s@)[x] == want[x] by {
                if x < cwd.len() {
                } else if x < cwd.len() + last_index {
                    assert(file@[cwd.len() + (x - cwd.len())]@ == comps[x - cwd.len()]);
                }
            }
        }
        let mut folder: Vec<String> = Vec::new();
        let mut k: usize = 0;
        let whole = file.len() - 1;
        while k < whole
            invariant
                whole == file@.len() - 1,
                k <= whole,
                folder@.len() == k,
                forall|x: int| 0 <= x < k ==> (#[trigger] folder@[x])@ == file@[x]@,
            decreases whole - k,
        {
            folder.push(file[k].clone());
            k = k + 1;
        }
        folder.push(strip_raw_prefix(&idents[last_index]));
        proof {
            reveal_strlit("mod");
        }
        folder.push(add_extension(String::from_str("mod"), self.extension.as_str()));
        assert(folder@.map_values(|s: String| s@) =~= mod_folder_components(cwd, idents@, self.extension@)) by {
            let f = file@.map_values(|s: String| s@);
            assert forall|x: int| 0 <= x < whole implies (#[trigger] folder@[x])@ == (cwd + comps)[x] by {
                assert(folder@[x]@ == f[x]);
                assert(f[x] == want[x]);
            }
        }
        (file, folder)
    }

    /// The root file `name` could not be had: its failure is reported.
    pub fn report_unreadable_root(&mut self, name: String, failure: FileFindingError)
        ensures
            final(self).errors@.map_values(|d: Diagnostic| d@) == old(self).errors@.map_values(|d: Diagnostic| d@).push(
                finding_error_view(failure, name@, None),
            ),
            final(self).file_graph == old(self).file_graph,
            final(self).ancestry == old(self).ancestry,
            final(self).cwd == old(self).cwd,
            final(self).extension == old(self).extension,
    {
        let d = failure.diagnostic(name, None);
        self.errors.push(d);
        assert(self.errors@.map_values(|d: Diagnostic| d@) =~= old(self).errors@.map_values(|d: Diagnostic| d@).push(d@));
    }

    /// Module files get the extension of the root file, or, when it has
    /// none (it was not read from a file), the fallback one.
    pub fn set_extension(&mut self, root_extension: Option<String>)
        ensures
            final(self).extension@ == match root_extension {
                Some(e) => e@,
                None => "rhdl"@,
            },
            final(self).file_graph == old(self).file_graph,
            final(self).errors == old(self).errors,
            final(self).ancestry == old(self).ancestry,
            final(self).cwd == old(self).cwd,
    {
        self.extension = match root_extension {
            Some(e) => e,
            None => String::from_str(stdin_fallback_extension()),
        };
    }

    /// Settles a `mod name;` declared in `parent` once both of its files were
    /// tried (`None` where one was read and parsed): the choice between them
    /// (see `choose_mod_file`), reporting the conflict when both were found
    /// and the failures when neither was (see `unfound_module_views`).
    pub fn settle_mod_file(
        &mut self,
        parent: FileId,
        request: &ModRequest,
        file_name: String,
        file_failure: Option<FileFindingError>,
        folder_name: String,
        folder_failure: Option<FileFindingError>,
    ) -> (r: ModFileChoice)
        ensures
            r == if file_failure is None && folder_failure is None {
                ModFileChoice::Both
            } else if file_failure is None {
                ModFileChoice::File
            } else if folder_failure is None {
                ModFileChoice::Folder
            } else {
                ModFileChoice::Neither
            },
            final(self).errors@.map_values(|d: Diagnostic| d@) == old(self).errors@.map_values(|d: Diagnostic| d@) + match (
                file_failure,
                folder_failure,
            ) {
                (None, None) => seq![
                    conflicting_mod_files_view(Some(parent), request.ident.inner@, request.span, file_name@, folder_name@),
                ],
                (Some(fe), Some(de)) => unfound_module_views(fe, file_name@, de, folder_name@, Some((parent, request.span))),
                _ => Seq::<DiagnosticView>::empty(),
            },
            final(self).file_graph == old(self).file_graph,
            final(self).ancestry == old(self).ancestry,
            final(self).cwd == old(self).cwd,
            final(self).extension == old(self).extension,
    {
        let ghost before = self.errors@.map_values(|d: Diagnostic| d@);
        let choice = choose_mod_file(file_failure.is_none(), folder_failure.is_none());
        match (file_failure, folder_failure) {
            (None, None) => {
                let d = conflicting_mod_files(Some(parent), &request.ident, request.span, file_name.as_str(),
                    folder_name.as_str());
                self.errors.push(d);
                assert(self.errors@.map_values(|d: Diagnostic| d@) =~= before + seq![d@]);
            },
            (Some(fe), Some(de)) => {
                report_unfound_module(&mut self.errors, fe, file_name, de, folder_name, Some((parent, request.span)));
            },
            _ => {
                assert(self.errors@.map_values(|d: Diagnostic| d@) =~= before + Seq::<DiagnosticView>::empty());
            },
        }
        choice
    }

    /// Adds a file found for the innermost file being followed (a root file
    /// when there is none), recorded under the module path `idents`.
    pub fn add_found_file(&mut self, name: String, content: String, items: Vec<Item>, idents: Vec<Ident>, ident_path: Vec<Ident>)
        -> (idx: FileId)
        requires
            old(self).inv(),
            items_ok(items@),
        ensures
            final(self).inv(),
            idx == old(self).file_graph.len(),
            final(self).file_graph.files@.len() == old(self).file_graph.files@.len() + 1,
            final(self).file_graph.files@.last().parent == if old(self).ancestry@.len() == 0 {
                None
            } else {
                Some(old(self).ancestry@.last())
            },
            final(self).file_graph.files@ == old(self).file_graph.files@.push(File {
                name,
                content,
                items,
                idents,
                parent: final(self).file_graph.files@.last().parent,
            }),
            old(self).ancestry@.len() == 0 ==> final(self).file_graph.roots@ == old(self).file_graph.roots@.push(idx),
            final(self).file_graph.children@.len() == old(self).file_graph.children@.len() + 1,
            final(self).file_graph.children@.last()@.len() == 0,
            forall|q: int|
                0 <= q < old(self).file_graph.children@.len() && (old(self).ancestry@.len() == 0 || q
                    != old(self).ancestry@.last()) ==> #[trigger] final(self).file_graph.children@[q]
                    == old(self).file_graph.children@[q],
            old(self).ancestry@.len() > 0 ==> {
                let p = old(self).ancestry@.last() as int;
                &&& final(self).file_graph.roots@ == old(self).file_graph.roots@
                &&& final(self).file_graph.children@[p]@ == old(self).file_graph.children@[p]@.push(
                    ModFile { idents: ident_path, file: idx },
                )
            },
            final(self).cwd == old(self).cwd,
            final(self).extension == old(self).extension,
            final(self).ancestry == old(self).ancestry,
            final(self).errors == old(self).errors,
    {
        let parent = if self.ancestry.len() == 0 {
            None
        } else {
            Some(self.ancestry[self.ancestry.len() - 1])
        };
        let idx = self.file_graph.add_node(File { name, content, items, idents, parent });
        if let Some(p) = parent {
            self.file_graph.add_edge(p, ident_path, idx);
        }
        proof {
            assert forall|k: int| 0 <= k < self.ancestry@.len() implies (#[trigger] self.ancestry@[k]) < self.file_graph.len() by {
                assert(old(self).ancestry@[k] < old(self).file_graph.len());
            }
        }
        idx
    }

    /// Starts following the module declarations of file `idx`.
    pub fn enter(&mut self, idx: FileId)
        requires
            old(self).inv(),
            idx < old(self).file_graph.len(),
        ensures
            final(self).inv(),
            final(self).ancestry@ == old(self).ancestry@.push(idx),
            final(self).file_graph == old(self).file_graph,
    {
        self.ancestry.push(idx);
    }

    /// Stops following the innermost file.
    pub fn leave(&mut self)
        requires
            old(self).inv(),
        ensures
            final(self).inv(),
            final(self).ancestry@ == if old(self).ancestry@.len() == 0 {
                old(self).ancestry@
            } else {
                old(self).ancestry@.drop_last()
            },
            final(self).file_graph == old(self).file_graph,
    {
        if self.ancestry.len() > 0 {
            self.ancestry.pop();
        }
    }
}

} // verus!
