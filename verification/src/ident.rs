//! Which identifiers may be written in raw form (`r#name`).

use vstd::prelude::*;

use crate::ast::Ident;

verus! {

/// `r#super`, `r#self`, `r#Self` and `r#crate`: path segment keywords, which
/// cannot be raw.
pub open spec fn spec_is_path_segment_keyword(text: Seq<char>) -> bool {
    text == "r#super"@ || text == "r#self"@ || text == "r#Self"@ || text == "r#crate"@
}

/// An identifier may be written raw unless it is `r#_`, a bare `r#`, or a
/// path segment keyword.
pub open spec fn spec_can_be_raw(text: Seq<char>) -> bool {
    text != "r#_"@ && text != "r#"@ && !spec_is_path_segment_keyword(text)
}

pub fn is_path_segment_keyword(ident: &Ident) -> (r: bool)
    ensures
        r == spec_is_path_segment_keyword(ident.inner@),
{
    ident.is("r#super") || ident.is("r#self") || ident.is("r#Self") || ident.is("r#crate")
}

pub fn can_be_raw(ident: &Ident) -> (r: bool)
    ensures
        r == spec_can_be_raw(ident.inner@),
{
    !ident.is("r#_") && !ident.is("r#") && !is_path_segment_keyword(ident)
}

} // verus!
