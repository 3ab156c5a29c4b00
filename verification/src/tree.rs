//! Finding the file of each out-of-line module of a source tree: the two
//! paths a module may be at, and what is reported when it is at both or at
//! neither. Reading the files is left to the caller.

use vstd::prelude::*;

use crate::find_file::with_extension;
use crate::report::{string_views, DuplicateError, NotFoundError, ResolveError};
use crate::resolve::path_join;

verus! {

/// `segments` appended one by one to the directory path `base`.
pub open spec fn join_all(base: Seq<char>, segments: Seq<Seq<char>>) -> Seq<char>
    decreases segments.len(),
{
    if segments.len() == 0 {
        base
    } else {
        path_join(join_all(base, segments.drop_last()), segments.last())
    }
}

/// The file of the module at `idents`, below `cwd`: `a/b/c.ext`.
pub open spec fn module_file(cwd: Seq<char>, idents: Seq<Seq<char>>, ext: Seq<char>) -> Seq<char> {
    path_join(join_all(cwd, idents.drop_last()), with_extension(idents.last(), ext))
}

/// The folder file of the module at `idents`, below `cwd`: `a/b/c/mod.ext`.
pub open spec fn module_folder_file(cwd: Seq<char>, idents: Seq<Seq<char>>, ext: Seq<char>) -> Seq<char> {
    path_join(join_all(cwd, idents), with_extension("mod"@, ext))
}

fn join(base: &str, name: &str) -> (r: String)
    ensures
        r@ == path_join(base@, name@),
{
    let n = base.unicode_len();
    let mut r = String::from_str(base);
    if n > 0 && base.get_char(n - 1) != '/' {
        r.append("/");
    }
    r.append(name);
    r
}

fn extended(name: &str, ext: &str) -> (r: String)
    ensures
        r@ == with_extension(name@, ext@),
{
    let mut r = String::from_str(name);
    if ext.unicode_len() > 0 {
        r.append(".");
        r.append(ext);
    }
    r
}

fn copy_strings(v: &Vec<String>) -> (r: Vec<String>)
    ensures
        string_views(r@) == string_views(v@),
{
    let mut r: Vec<String> = Vec::new();
    let mut i: usize = 0;
    while i < v.len()
        invariant
            i <= v.len(),
            string_views(r@) == string_views(v@).take(i as int),
        decreases v.len() - i,
    {
        let c = v[i].clone();
        let ghost before = string_views(r@);
        r.push(c);
        assert(string_views(r@) =~= before.push(c@));
        assert(string_views(v@).take(i + 1) =~= string_views(v@).take(i as int).push(v@[i as int]@));
        i = i + 1;
    }
    assert(string_views(v@).take(i as int) =~= string_views(v@));
    r
}

/// Where a module's file was found.
#[derive(Debug)]
pub struct FoundModule {
    pub path: String,
    /// The file is the `mod` file of the module's own folder.
    pub is_folder: bool,
}

/// Looks for the files of the modules of a source tree, below the
/// directory of its top level file, and keeps the errors met.
#[derive(Debug)]
pub struct Resolver {
    /// The directory of the top level file.
    pub cwd: String,
    /// The extension of the top level file, given to module files.
    pub extension: String,
    pub errors: Vec<ResolveError>,
}

impl Resolver {
    /// A resolver for a tree whose top level file is in `cwd` and has the
    /// extension `extension`.
    pub fn new(cwd: String, extension: String) -> (r: Resolver)
        ensures
            r.cwd@ == cwd@,
            r.extension@ == extension@,
            r.errors@.len() == 0,
    {
        Resolver { cwd, extension, errors: Vec::new() }
    }

    /// The two files the module at `ident_path` may be in: `a/b/c.ext` and
    /// `a/b/c/mod.ext`, below the top level file's directory.
    pub fn mod_paths(&self, ident_path: &Vec<String>) -> (r: (String, String))
        requires
            ident_path@.len() > 0,
        ensures
            r.0@ == module_file(self.cwd@, string_views(ident_path@), self.extension@),
            r.1@ == module_folder_file(self.cwd@, string_views(ident_path@), self.extension@),
    {
        let ghost idents = string_views(ident_path@);
        let last = ident_path.len() - 1;
        let mut dir = self.cwd.clone();
        let mut i: usize = 0;
        while i < last
            invariant
                last == ident_path@.len() - 1,
                i <= last,
                idents == string_views(ident_path@),
                dir@ == join_all(self.cwd@, idents.take(i as int)),
            decreases last - i,
        {
            assert(idents.take(i + 1).drop_last() =~= idents.take(i as int));
            dir = join(dir.as_str(), ident_path[i].as_str());
            i = i + 1;
        }
        assert(idents.take(i as int) =~= idents.drop_last());
        let file = join(dir.as_str(), extended(ident_path[last].as_str(), self.extension.as_str()).as_str());
        let whole = join(dir.as_str(), ident_path[last].as_str());
        assert(idents.take(idents.len() as int) =~= idents);
        assert(idents.drop_last() =~= idents.take(idents.len() - 1));
        proof {
            reveal_strlit("mod");
        }
        let folder = join(whole.as_str(), extended("mod", self.extension.as_str()).as_str());
        (file, folder)
    }

    /// Takes the file of the module at `ident_path` given which of its two
    /// candidates are files; when both or neither are, reports it and takes
    /// none.
    pub fn choose_file(&mut self, ident_path: &Vec<String>, file_exists: bool, folder_exists: bool) -> (r:
        Option<FoundModule>)
        requires
            ident_path@.len() > 0,
        ensures
            final(self).cwd == old(self).cwd,
            final(self).extension == old(self).extension,
            file_exists && !folder_exists ==> (r matches Some(f) && !f.is_folder && f.path@
                == module_file(old(self).cwd@, string_views(ident_path@), old(self).extension@)),
            !file_exists && folder_exists ==> (r matches Some(f) && f.is_folder && f.path@
                == module_folder_file(old(self).cwd@, string_views(ident_path@), old(self).extension@)),
            r is Some ==> final(self).errors@ == old(self).errors@,
            file_exists == folder_exists ==> r is None && final(self).errors@.len() == old(
                self,
            ).errors@.len() + 1 && final(self).errors@.drop_last() == old(self).errors@,
            file_exists && folder_exists ==> (final(self).errors@.last() matches ResolveError::DuplicateError(e)
                && string_views(e.ident_path@) == string_views(ident_path@) && e.file@ == module_file(
                old(self).cwd@,
                string_views(ident_path@),
                old(self).extension@,
            ) && e.folder@ == module_folder_file(
                old(self).cwd@,
                string_views(ident_path@),
                old(self).extension@,
            )),
            !file_exists && !folder_exists ==> (final(self).errors@.last() matches ResolveError::NotFoundError(e)
                && string_views(e.ident_path@) == string_views(ident_path@) && e.file@ == module_file(
                old(self).cwd@,
                string_views(ident_path@),
                old(self).extension@,
            ) && e.folder@ == module_folder_file(
                old(self).cwd@,
                string_views(ident_path@),
                old(self).extension@,
            )),
    {
        let (file, folder) = self.mod_paths(ident_path);
        if file_exists && !folder_exists {
            Some(FoundModule { path: file, is_folder: false })
        } else if !file_exists && folder_exists {
            Some(FoundModule { path: folder, is_folder: true })
        } else if file_exists {
            self.errors.push(
                ResolveError::DuplicateError(
                    DuplicateError { ident_path: copy_strings(ident_path), file, folder },
                ),
            );
            assert(self.errors@.drop_last() =~= old(self).errors@);
            None
        } else {
            self.errors.push(
                ResolveError::NotFoundError(
                    NotFoundError { ident_path: copy_strings(ident_path), file, folder },
                ),
            );
            assert(self.errors@.drop_last() =~= old(self).errors@);
            None
        }
    }

    /// Records an error met while reading or parsing a file.
    pub fn record(&mut self, error: ResolveError)
        ensures
            final(self).cwd == old(self).cwd,
            final(self).extension == old(self).extension,
            final(self).errors@ == old(self).errors@.push(error),
    {
        self.errors.push(error);
    }
}

} // verus!
