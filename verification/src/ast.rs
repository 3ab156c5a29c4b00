//! The parts of a parsed RHDL file that name resolution reads.
//!
//! A front end fills these plain values from whatever parser it uses; the
//! resolution logic only ever reads them.

use vstd::prelude::*;

verus! {

/// A half-open byte range in a source file.
#[derive(Debug, Clone, Copy, PartialEq, Eq, Structural)]
pub struct Span {
    pub start: usize,
    pub end: usize,
}

/// An identifier as written in the source, with its location.
#[derive(Debug, Clone)]
pub struct Ident {
    pub inner: String,
    pub span: Span,
}

impl Ident {
    pub fn new(inner: String, span: Span) -> (r: Ident)
        ensures
            r.inner == inner,
            r.span == span,
    {
        Ident { inner, span }
    }

    /// A copy of this identifier.
    pub fn duplicate(&self) -> (r: Ident)
        ensures
            r == *self,
    {
        Ident { inner: self.inner.clone(), span: self.span }
    }

    /// Whether the identifier reads exactly `text`.
    pub fn is(&self, text: &str) -> (r: bool)
        ensures
            r == (self.inner@ == text@),
    {
        str_eq(self.inner.as_str(), text)
    }

    /// Whether two identifiers read the same (their locations are ignored).
    pub fn same_text(&self, other: &Ident) -> (r: bool)
        ensures
            r == (self.inner@ == other.inner@),
    {
        self.inner == other.inner
    }
}

/// Character-wise equality of two strings.
pub fn str_eq(a: &str, b: &str) -> (r: bool)
    ensures
        r == (a@ == b@),
{
    let la = a.unicode_len();
    let lb = b.unicode_len();
    if la != lb {
        return false;
    }
    let mut i: usize = 0;
    while i < la
        invariant
            la == a@.len(),
            lb == b@.len(),
            la == lb,
            i <= la,
            forall|j: int| 0 <= j < i ==> a@[j] == b@[j],
        decreases la - i,
    {
        if a.get_char(i) != b.get_char(i) {
            return false;
        }
        i = i + 1;
    }
    assert(a@ =~= b@);
    true
}

/// A path made only of identifiers, like `crate::a::b`, as in `use` items and
/// `pub(in ...)` restrictions.
#[derive(Debug)]
pub struct SimplePath {
    /// The span of a leading `::`, if there is one.
    pub leading_sep: Option<Span>,
    pub segments: Vec<Ident>,
}

/// The tree of a `use` item.
#[derive(Debug)]
pub enum UseTree {
    /// `path::tree`
    Path(SimplePath, Box<UseTree>),
    /// `name`
    Name(Ident),
    /// `name as rename`
    Rename(Ident, Ident),
    /// `*`
    Glob(Span),
    /// `{tree, tree, ...}`
    Group(Vec<UseTree>),
}

/// A visibility qualifier.
#[derive(Debug)]
pub enum Vis {
    /// `pub`
    Pub(Span),
    /// `pub(super)`
    Super(Span),
    /// `pub(crate)`
    Crate(Span),
    /// `priv`
    Priv(Span),
    /// `pub(self)`
    LowerSelf(Span),
    /// `pub(in path)`
    Restricted(Span, SimplePath),
}

/// One segment of a type path, such as `Vec<T>` in `std::vec::Vec<T>`.
#[derive(Debug, Clone)]
pub struct PathSegment {
    pub ident: Ident,
    pub has_generic_args: bool,
}

/// A path naming a type or a trait.
#[derive(Debug, Clone)]
pub struct TypePath {
    pub leading_sep: Option<Span>,
    pub segments: Vec<PathSegment>,
}

/// A generic parameter: a type parameter (with its trait bounds) or a const parameter.
#[derive(Debug, Clone)]
pub struct GenericParam {
    pub ident: Ident,
    pub is_type: bool,
    pub bounds: Vec<TypePath>,
}

/// What a referenced path is expected to name.
#[derive(Debug, Clone, Copy, PartialEq, Eq, Structural)]
pub enum Expectation {
    Trait,
    Type,
}

/// A path that an item refers to, in the order the checker meets it.
#[derive(Debug, Clone)]
pub struct TypeRef {
    pub path: TypePath,
    pub expect: Expectation,
}

} // verus!
