//! Diagnostics: what went wrong, where, and how to fix it.

use vstd::prelude::*;

use crate::ast::{Ident, Span};
use crate::find_file::FileId;

verus! {

/// The kind of duplicate in a multiple-definition error.
#[derive(Debug, Clone, Copy, PartialEq, Eq, Structural)]
pub enum DuplicateHint {
    Variant,
    Name,
    Lifetime,
    TypeParam,
    Field,
    NameBinding,
    Port,
    Param,
}

pub open spec fn duplicate_hint_text(h: DuplicateHint) -> Seq<char> {
    match h {
        DuplicateHint::Variant => "variant"@,
        DuplicateHint::Name => "name"@,
        DuplicateHint::Lifetime => "lifetime"@,
        DuplicateHint::TypeParam => "type parameter"@,
        DuplicateHint::Field => "field"@,
        DuplicateHint::NameBinding => "name"@,
        DuplicateHint::Port => "port"@,
        DuplicateHint::Param => "parameter"@,
    }
}

impl DuplicateHint {
    /// The text this hint is displayed as.
    pub fn to_str(&self) -> (r: &'static str)
        ensures
            r@ == duplicate_hint_text(*self),
    {
        match self {
            DuplicateHint::Variant => "variant",
            DuplicateHint::Name => "name",
            DuplicateHint::Lifetime => "lifetime",
            DuplicateHint::TypeParam => "type parameter",
            DuplicateHint::Field => "field",
            DuplicateHint::NameBinding => "name",
            DuplicateHint::Port => "port",
            DuplicateHint::Param => "parameter",
        }
    }
}

/// What kind of item a diagnostic is about.
#[derive(Debug, Clone, Copy, PartialEq, Eq, Structural)]
pub enum ItemHint {
    /// mod
    InternalNamedChildScope,
    /// root
    InternalNamedRootScope,
    /// crate
    ExternalNamedScope,
    /// mod or crate
    InternalNamedChildOrExternalNamedScope,
    /// any item
    Item,
    /// a trait in particular
    Trait,
    /// any type (alias, struct, enum, or other)
    Type,
    /// any variable (const or static)
    Var,
    /// a method or function
    Fn,
    /// an enum variant
    Variant,
    /// a struct field
    Field,
}

pub open spec fn item_hint_text(h: ItemHint) -> Seq<char> {
    match h {
        ItemHint::InternalNamedChildScope => "mod"@,
        ItemHint::InternalNamedRootScope => "root"@,
        ItemHint::ExternalNamedScope => "crate"@,
        ItemHint::InternalNamedChildOrExternalNamedScope => "crate or mod"@,
        ItemHint::Item => "item"@,
        ItemHint::Trait => "trait"@,
        ItemHint::Type => "type"@,
        ItemHint::Var => "variable"@,
        ItemHint::Fn => "function"@,
        ItemHint::Variant => "variant"@,
        ItemHint::Field => "field"@,
    }
}

impl ItemHint {
    /// The text this hint is displayed as.
    pub fn to_str(&self) -> (r: &'static str)
        ensures
            r@ == item_hint_text(*self),
    {
        match self {
            ItemHint::InternalNamedChildScope => "mod",
            ItemHint::InternalNamedRootScope => "root",
            ItemHint::ExternalNamedScope => "crate",
            ItemHint::InternalNamedChildOrExternalNamedScope => "crate or mod",
            ItemHint::Item => "item",
            ItemHint::Trait => "trait",
            ItemHint::Type => "type",
            ItemHint::Var => "variable",
            ItemHint::Fn => "function",
            ItemHint::Variant => "variant",
            ItemHint::Field => "field",
        }
    }
}

/// Why a name is ambiguous.
#[derive(Debug, Clone, Copy, PartialEq, Eq, Structural)]
pub enum AmbiguitySource {
    Item(ItemHint),
    Glob,
}

pub open spec fn ambiguity_source_text(s: AmbiguitySource) -> Seq<char> {
    match s {
        AmbiguitySource::Item(h) => item_hint_text(h),
        AmbiguitySource::Glob => "glob"@,
    }
}

impl AmbiguitySource {
    /// The text this source is displayed as.
    pub fn to_str(&self) -> (r: &'static str)
        ensures
            r@ == ambiguity_source_text(*self),
    {
        match self {
            AmbiguitySource::Item(h) => h.to_str(),
            AmbiguitySource::Glob => "glob",
        }
    }
}

/// Why a `self` import is misplaced.
#[derive(Debug, Clone, Copy, PartialEq, Eq, Structural)]
pub enum SelfUsageErrorCause {
    NotInGroup,
    InGroupAtRoot,
}

} // verus!

verus! {

/// How serious a diagnostic is.
#[derive(Debug, Clone, Copy, PartialEq, Eq, Structural)]
pub enum Severity {
    Bug,
    Error,
    Warning,
    Note,
    Help,
}

/// Whether a label marks the cause of a diagnostic or something related to it.
#[derive(Debug, Clone, Copy, PartialEq, Eq, Structural)]
pub enum LabelStyle {
    Primary,
    Secondary,
}

/// A marked range of a file, with an optional message.
#[derive(Debug)]
pub struct Label {
    pub style: LabelStyle,
    pub file_id: FileId,
    pub range: Span,
    pub message: String,
}

/// A message about the source, with labelled ranges and notes.
#[derive(Debug)]
pub struct Diagnostic {
    pub severity: Severity,
    pub message: String,
    pub labels: Vec<Label>,
    pub notes: Vec<String>,
}

pub struct LabelView {
    pub style: LabelStyle,
    pub file_id: FileId,
    pub range: Span,
    pub message: Seq<char>,
}

pub struct DiagnosticView {
    pub severity: Severity,
    pub message: Seq<char>,
    pub labels: Seq<LabelView>,
    pub notes: Seq<Seq<char>>,
}

impl View for Label {
    type V = LabelView;

    open spec fn view(&self) -> LabelView {
        LabelView {
            style: self.style,
            file_id: self.file_id,
            range: self.range,
            message: self.message@,
        }
    }
}

impl View for Diagnostic {
    type V = DiagnosticView;

    open spec fn view(&self) -> DiagnosticView {
        DiagnosticView {
            severity: self.severity,
            message: self.message@,
            labels: self.labels@.map_values(|l: Label| l@),
            notes: self.notes@.map_values(|n: String| n@),
        }
    }
}

pub open spec fn label_view(style: LabelStyle, file_id: FileId, range: Span, message: Seq<char>) -> LabelView {
    LabelView { style, file_id, range, message }
}

pub open spec fn error_view(message: Seq<char>, labels: Seq<LabelView>, notes: Seq<Seq<char>>) -> DiagnosticView {
    DiagnosticView { severity: Severity::Error, message, labels, notes }
}

/// A string holding `text`.
pub fn text(s: &str) -> (r: String)
    ensures
        r@ == s@,
{
    String::from_str(s)
}

fn label(style: LabelStyle, file_id: FileId, range: Span, message: String) -> (l: Label)
    ensures
        l@ == label_view(style, file_id, range, message@),
{
    Label { style, file_id, range, message }
}

fn error_diagnostic(message: String, labels: Vec<Label>, notes: Vec<String>) -> (d: Diagnostic)
    ensures
        d@ == error_view(
            message@,
            labels@.map_values(|l: Label| l@),
            notes@.map_values(|n: String| n@),
        ),
{
    Diagnostic { severity: Severity::Error, message, labels, notes }
}

/// `` `ident` `` quoted with backticks.
pub open spec fn quoted(s: Seq<char>) -> Seq<char> {
    "`"@ + s + "`"@
}

fn quote(s: &str) -> (r: String)
    ensures
        r@ == quoted(s@),
{
    let mut r = text("`");
    r.append(s);
    r.append("`");
    r
}

// ---------------------------------------------------------------------------
// too many supers

pub open spec fn too_many_supers_view(file_id: FileId, ident: Seq<char>, span: Span) -> DiagnosticView {
    error_view(
        "there are too many leading "@ + quoted(ident) + " keywords"@,
        seq![label_view(LabelStyle::Primary, file_id, span, "goes beyond the crate root"@)],
        seq!["try removing that "@ + quoted(ident) + " from the path"@],
    )
}

pub fn too_many_supers(file_id: FileId, ident: &Ident) -> (d: Diagnostic)
    ensures
        d@ == too_many_supers_view(file_id, ident.inner@, ident.span),
{
    let mut message = text("there are too many leading ");
    message.append(quote(ident.inner.as_str()).as_str());
    message.append(" keywords");
    let mut note = text("try removing that ");
    note.append(quote(ident.inner.as_str()).as_str());
    note.append(" from the path");
    let labels = vec![label(LabelStyle::Primary, file_id, ident.span, text("goes beyond the crate root"))];
    let notes = vec![note];
    let d = error_diagnostic(message, labels, notes);
    assert(d@.labels =~= seq![label_view(LabelStyle::Primary, file_id, ident.span, "goes beyond the crate root"@)]);
    assert(d@.notes =~= seq!["try removing that "@ + quoted(ident.inner@) + " from the path"@]);
    d
}

} // verus!

verus! {

fn plain_label(style: LabelStyle, file_id: FileId, range: Span) -> (l: Label)
    ensures
        l@ == label_view(style, file_id, range, Seq::empty()),
{
    label(style, file_id, range, String::new())
}

// ---------------------------------------------------------------------------
// special identifiers

pub open spec fn special_ident_not_at_start_of_path_view(file_id: FileId, ident: Seq<char>, span: Span) -> DiagnosticView {
    error_view(
        "special identifier "@ + quoted(ident) + " can only be in the start position of a path"@,
        seq![label_view(LabelStyle::Primary, file_id, span, Seq::empty())],
        Seq::empty(),
    )
}

pub fn special_ident_not_at_start_of_path(file_id: FileId, path_ident: &Ident) -> (d: Diagnostic)
    ensures
        d@ == special_ident_not_at_start_of_path_view(file_id, path_ident.inner@, path_ident.span),
{
    let mut message = text("special identifier ");
    message.append(quote(path_ident.inner.as_str()).as_str());
    message.append(" can only be in the start position of a path");
    let labels = vec![plain_label(LabelStyle::Primary, file_id, path_ident.span)];
    let d = error_diagnostic(message, labels, Vec::new());
    assert(d@.labels =~= seq![label_view(LabelStyle::Primary, file_id, path_ident.span, Seq::empty())]);
    assert(d@.notes =~= Seq::empty());
    d
}

pub open spec fn global_path_cannot_have_special_ident_view(
    file_id: FileId,
    ident: Seq<char>,
    span: Span,
    leading_sep: Span,
) -> DiagnosticView {
    error_view(
        "global paths cannot start with "@ + quoted(ident),
        seq![
            label_view(LabelStyle::Primary, file_id, span, Seq::empty()),
            label_view(LabelStyle::Secondary, file_id, leading_sep, "makes this path global"@),
        ],
        seq![
            "remove the leading path separator to make this path local"@,
            "if this is meant to be global, add the crate name after the leading separator"@,
            quoted(ident) + " is not a valid crate name"@,
        ],
    )
}

pub fn global_path_cannot_have_special_ident(file_id: FileId, path_ident: &Ident, leading_sep: Span) -> (d: Diagnostic)
    ensures
        d@ == global_path_cannot_have_special_ident_view(file_id, path_ident.inner@, path_ident.span, leading_sep),
{
    let mut message = text("global paths cannot start with ");
    message.append(quote(path_ident.inner.as_str()).as_str());
    let mut third = quote(path_ident.inner.as_str());
    third.append(" is not a valid crate name");
    let labels = vec![
        plain_label(LabelStyle::Primary, file_id, path_ident.span),
        label(LabelStyle::Secondary, file_id, leading_sep, text("makes this path global")),
    ];
    let notes = vec![
        text("remove the leading path separator to make this path local"),
        text("if this is meant to be global, add the crate name after the leading separator"),
        third,
    ];
    let d = error_diagnostic(message, labels, notes);
    assert(d@ == global_path_cannot_have_special_ident_view(file_id, path_ident.inner@, path_ident.span, leading_sep)) by {
        assert(d@.labels =~= seq![
            label_view(LabelStyle::Primary, file_id, path_ident.span, Seq::empty()),
            label_view(LabelStyle::Secondary, file_id, leading_sep, "makes this path global"@),
        ]);
        assert(d@.notes =~= seq![
            "remove the leading path separator to make this path local"@,
            "if this is meant to be global, add the crate name after the leading separator"@,
            quoted(path_ident.inner@) + " is not a valid crate name"@,
        ]);
    }
    d
}

// ---------------------------------------------------------------------------
// ambiguity and unresolved items

pub open spec fn disambiguation_needed_view(file_id: FileId, ident: Seq<char>, span: Span, src: AmbiguitySource) -> DiagnosticView {
    let s = ambiguity_source_text(src);
    error_view(
        quoted(ident) + " is ambiguous ("@ + s + " versus other "@ + s + "s found during resolution)"@,
        seq![label_view(LabelStyle::Primary, file_id, span, "ambiguous name"@)],
        seq![
            "rename other "@ + s + "s with the same name"@,
            "if there's an import, you can rename it like use std::path::Path as StdPath;"@,
        ],
    )
}

pub fn disambiguation_needed(file_id: FileId, ident: &Ident, src: AmbiguitySource) -> (d: Diagnostic)
    ensures
        d@ == disambiguation_needed_view(file_id, ident.inner@, ident.span, src),
{
    let s = src.to_str();
    let mut message = quote(ident.inner.as_str());
    message.append(" is ambiguous (");
    message.append(s);
    message.append(" versus other ");
    message.append(s);
    message.append("s found during resolution)");
    let mut first = text("rename other ");
    first.append(s);
    first.append("s with the same name");
    let labels = vec![label(LabelStyle::Primary, file_id, ident.span, text("ambiguous name"))];
    let notes = vec![
        first,
        text("if there's an import, you can rename it like use std::path::Path as StdPath;"),
    ];
    let d = error_diagnostic(message, labels, notes);
    assert(d@ == disambiguation_needed_view(file_id, ident.inner@, ident.span, src)) by {
        assert(d@.labels =~= seq![label_view(LabelStyle::Primary, file_id, ident.span, "ambiguous name"@)]);
        assert(d@.notes =~= seq![
            "rename other "@ + s@ + "s with the same name"@,
            "if there's an import, you can rename it like use std::path::Path as StdPath;"@,
        ]);
    }
    d
}

/// The segments of a path joined by `::`.
pub open spec fn joined_path(path: Seq<Seq<char>>) -> Seq<char>
    decreases path.len(),
{
    if path.len() == 0 {
        Seq::empty()
    } else if path.len() == 1 {
        path[0]
    } else {
        joined_path(path.drop_last()) + "::"@ + path.last()
    }
}

fn join_path(path: &Vec<String>) -> (r: String)
    ensures
        r@ == joined_path(path@.map_values(|s: String| s@)),
{
    let ghost v = path@.map_values(|s: String| s@);
    let mut r = String::new();
    let mut i: usize = 0;
    while i < path.len()
        invariant
            i <= path@.len(),
            v == path@.map_values(|s: String| s@),
            r@ == joined_path(v.take(i as int)),
        decreases path@.len() - i,
    {
        assert(v.take(i + 1).drop_last() =~= v.take(i as int));
        if i != 0 {
            r.append("::");
        }
        r.append(path[i].as_str());
        assert(v.take(i + 1).last() == path@[i as int]@);
        i = i + 1;
    }
    assert(v.take(path@.len() as int) =~= v);
    r
}

pub open spec fn unresolved_reference_text(previous: Option<Seq<char>>, ident: Seq<char>, hint: ItemHint) -> Seq<char> {
    match previous {
        Some(p) => "no "@ + quoted(ident) + " "@ + item_hint_text(hint) + " in "@ + quoted(p),
        None => "no "@ + quoted(ident) + " "@ + item_hint_text(hint),
    }
}

pub open spec fn possibilities_notes(possibilities: Seq<Seq<Seq<char>>>) -> Seq<Seq<char>> {
    if possibilities.len() == 0 {
        Seq::empty()
    } else {
        seq!["Did you mean:"@] + possibilities.map_values(|p: Seq<Seq<char>>| joined_path(p))
    }
}

pub open spec fn unresolved_item_view(
    file_id: FileId,
    previous: Option<Seq<char>>,
    ident: Seq<char>,
    span: Span,
    hint: ItemHint,
    possibilities: Seq<Seq<Seq<char>>>,
) -> DiagnosticView {
    error_view(
        "unresolved "@ + item_hint_text(hint) + " "@ + quoted(ident),
        seq![label_view(LabelStyle::Primary, file_id, span, unresolved_reference_text(previous, ident, hint))],
        possibilities_notes(possibilities),
    )
}

pub open spec fn opt_ident_text(i: Option<&Ident>) -> Option<Seq<char>> {
    match i {
        Some(i) => Some(i.inner@),
        None => None,
    }
}

pub open spec fn paths_view(possibilities: Seq<Vec<String>>) -> Seq<Seq<Seq<char>>> {
    possibilities.map_values(|p: Vec<String>| p@.map_values(|s: String| s@))
}

pub fn unresolved_item(
    file_id: FileId,
    previous_ident: Option<&Ident>,
    unresolved_ident: &Ident,
    hint: ItemHint,
    possibilities: Vec<Vec<String>>,
) -> (d: Diagnostic)
    ensures
        d@ == unresolved_item_view(
            file_id,
            opt_ident_text(previous_ident),
            unresolved_ident.inner@,
            unresolved_ident.span,
            hint,
            paths_view(possibilities@),
        ),
{
    let mut reference_msg = text("no ");
    reference_msg.append(quote(unresolved_ident.inner.as_str()).as_str());
    reference_msg.append(" ");
    reference_msg.append(hint.to_str());
    if let Some(previous_ident) = previous_ident {
        reference_msg.append(" in ");
        reference_msg.append(quote(previous_ident.inner.as_str()).as_str());
    }
    let ghost pv = paths_view(possibilities@);
    let mut notes: Vec<String> = Vec::new();
    if possibilities.len() != 0 {
        notes.push(text("Did you mean:"));
    }
    let ghost base = notes@.map_values(|n: String| n@);
    let mut i: usize = 0;
    while i < possibilities.len()
        invariant
            i <= possibilities@.len(),
            pv == paths_view(possibilities@),
            base.len() == notes@.len() - i,
            notes@.map_values(|n: String| n@) =~= base + pv.take(i as int).map_values(
                |p: Seq<Seq<char>>| joined_path(p),
            ),
        decreases possibilities@.len() - i,
    {
        let joined = join_path(&possibilities[i]);
        let ghost before = notes@;
        notes.push(joined);
        proof {
            assert(pv.take(i + 1) =~= pv.take(i as int).push(pv[i as int]));
            assert(pv[i as int] == possibilities@[i as int]@.map_values(|s: String| s@));
            assert(notes@.map_values(|n: String| n@) =~= before.map_values(|n: String| n@).push(joined@));
            assert(pv.take(i + 1).map_values(|p: Seq<Seq<char>>| joined_path(p)) =~= pv.take(
                i as int,
            ).map_values(|p: Seq<Seq<char>>| joined_path(p)).push(joined_path(pv[i as int])));
        }
        i = i + 1;
    }
    proof {
        assert(pv.take(possibilities@.len() as int) =~= pv);
        if possibilities@.len() == 0 {
            assert(notes@.map_values(|n: String| n@) =~= possibilities_notes(pv));
        } else {
            assert(base =~= seq!["Did you mean:"@]);
        }
    }
    let mut message = text("unresolved ");
    message.append(hint.to_str());
    message.append(" ");
    message.append(quote(unresolved_ident.inner.as_str()).as_str());
    let labels = vec![label(LabelStyle::Primary, file_id, unresolved_ident.span, reference_msg)];
    let d = error_diagnostic(message, labels, notes);
    assert(d@.labels =~= seq![label_view(
        LabelStyle::Primary,
        file_id,
        unresolved_ident.span,
        unresolved_reference_text(opt_ident_text(previous_ident), unresolved_ident.inner@, hint),
    )]);
    d
}

} // verus!

verus! {

// ---------------------------------------------------------------------------
// items of the wrong kind, and private items

pub open spec fn unexpected_item_view(
    file_id: FileId,
    ident: Seq<char>,
    span: Span,
    actual_hint: ItemHint,
    expected_hint: ItemHint,
) -> DiagnosticView {
    error_view(
        "expected "@ + item_hint_text(expected_hint) + ", found "@ + item_hint_text(actual_hint) + " "@
            + quoted(ident),
        seq![label_view(LabelStyle::Primary, file_id, span, "not a "@ + item_hint_text(expected_hint))],
        Seq::empty(),
    )
}

pub fn unexpected_item(file_id: FileId, ident: &Ident, actual_hint: ItemHint, expected_hint: ItemHint) -> (d: Diagnostic)
    ensures
        d@ == unexpected_item_view(file_id, ident.inner@, ident.span, actual_hint, expected_hint),
{
    let mut message = text("expected ");
    message.append(expected_hint.to_str());
    message.append(", found ");
    message.append(actual_hint.to_str());
    message.append(" ");
    message.append(quote(ident.inner.as_str()).as_str());
    let mut label_message = text("not a ");
    label_message.append(expected_hint.to_str());
    let labels = vec![label(LabelStyle::Primary, file_id, ident.span, label_message)];
    let d = error_diagnostic(message, labels, Vec::new());
    assert(d@ == unexpected_item_view(file_id, ident.inner@, ident.span, actual_hint, expected_hint)) by {
        assert(d@.labels =~= seq![label_view(
            LabelStyle::Primary,
            file_id,
            ident.span,
            "not a "@ + item_hint_text(expected_hint),
        )]);
        assert(d@.notes =~= Seq::empty());
    }
    d
}

pub open spec fn self_usage_view(file_id: FileId, ident: Seq<char>, span: Span, cause: SelfUsageErrorCause) -> DiagnosticView {
    error_view(
        match cause {
            SelfUsageErrorCause::InGroupAtRoot => quoted(ident)
                + " imports are only allowed in a braced list with a non-empty prefix"@,
            SelfUsageErrorCause::NotInGroup => quoted(ident) + " imports are only allowed within a braced list"@,
        },
        seq![label_view(
            LabelStyle::Primary,
            file_id,
            span,
            match cause {
                SelfUsageErrorCause::NotInGroup => "surround this with curly braces"@,
                SelfUsageErrorCause::InGroupAtRoot => "this makes no sense"@,
            },
        )],
        Seq::empty(),
    )
}

pub fn self_usage(file_id: FileId, name_ident: &Ident, cause: SelfUsageErrorCause) -> (d: Diagnostic)
    ensures
        d@ == self_usage_view(file_id, name_ident.inner@, name_ident.span, cause),
{
    let mut message = quote(name_ident.inner.as_str());
    let label_message = match cause {
        SelfUsageErrorCause::InGroupAtRoot => {
            message.append(" imports are only allowed in a braced list with a non-empty prefix");
            text("this makes no sense")
        },
        SelfUsageErrorCause::NotInGroup => {
            message.append(" imports are only allowed within a braced list");
            text("surround this with curly braces")
        },
    };
    let labels = vec![label(LabelStyle::Primary, file_id, name_ident.span, label_message)];
    let d = error_diagnostic(message, labels, Vec::new());
    assert(d@ == self_usage_view(file_id, name_ident.inner@, name_ident.span, cause)) by {
        assert(d@.labels =~= self_usage_view(file_id, name_ident.inner@, name_ident.span, cause).labels);
        assert(d@.notes =~= Seq::empty());
    }
    d
}

pub open spec fn item_visibility_view(
    file_id: FileId,
    ident: Seq<char>,
    span: Span,
    declaration_file_id: FileId,
    declaration_span: Span,
    hint: ItemHint,
) -> DiagnosticView {
    error_view(
        item_hint_text(hint) + " "@ + quoted(ident) + " is private"@,
        seq![
            label_view(LabelStyle::Primary, file_id, span, item_hint_text(hint) + " is private"@),
            label_view(LabelStyle::Secondary, declaration_file_id, declaration_span, "declared here"@),
        ],
        seq!["modify the visibility of "@ + quoted(ident) + " if you want to use it"@],
    )
}

pub fn item_visibility(
    file_id: FileId,
    ident: &Ident,
    declaration_file_id: FileId,
    declaration_ident: &Ident,
    hint: ItemHint,
) -> (d: Diagnostic)
    ensures
        d@ == item_visibility_view(file_id, ident.inner@, ident.span, declaration_file_id, declaration_ident.span, hint),
{
    let mut message = text(hint.to_str());
    message.append(" ");
    message.append(quote(ident.inner.as_str()).as_str());
    message.append(" is private");
    let mut primary = text(hint.to_str());
    primary.append(" is private");
    let mut note = text("modify the visibility of ");
    note.append(quote(ident.inner.as_str()).as_str());
    note.append(" if you want to use it");
    let labels = vec![
        label(LabelStyle::Primary, file_id, ident.span, primary),
        label(LabelStyle::Secondary, declaration_file_id, declaration_ident.span, text("declared here")),
    ];
    let notes = vec![note];
    let d = error_diagnostic(message, labels, notes);
    assert(d@ == item_visibility_view(file_id, ident.inner@, ident.span, declaration_file_id, declaration_ident.span, hint)) by {
        assert(d@.labels =~= item_visibility_view(file_id, ident.inner@, ident.span, declaration_file_id, declaration_ident.span, hint).labels);
        assert(d@.notes =~= item_visibility_view(file_id, ident.inner@, ident.span, declaration_file_id, declaration_ident.span, hint).notes);
    }
    d
}

pub open spec fn scope_visibility_view(file_id: FileId, ident: Seq<char>, span: Span, hint: ItemHint) -> DiagnosticView {
    error_view(
        "item is not visible in "@ + item_hint_text(hint) + " "@ + quoted(ident),
        seq![label_view(LabelStyle::Primary, file_id, span, Seq::empty())],
        seq!["modify the visibility of the immediate child module of "@ + quoted(ident)
            + " that is an ancestor of this item"@],
    )
}

pub fn scope_visibility(file_id: FileId, ident: &Ident, hint: ItemHint) -> (d: Diagnostic)
    ensures
        d@ == scope_visibility_view(file_id, ident.inner@, ident.span, hint),
{
    let mut message = text("item is not visible in ");
    message.append(hint.to_str());
    message.append(" ");
    message.append(quote(ident.inner.as_str()).as_str());
    let mut note = text("modify the visibility of the immediate child module of ");
    note.append(quote(ident.inner.as_str()).as_str());
    note.append(" that is an ancestor of this item");
    let labels = vec![plain_label(LabelStyle::Primary, file_id, ident.span)];
    let notes = vec![note];
    let d = error_diagnostic(message, labels, notes);
    assert(d@ == scope_visibility_view(file_id, ident.inner@, ident.span, hint)) by {
        assert(d@.labels =~= scope_visibility_view(file_id, ident.inner@, ident.span, hint).labels);
        assert(d@.notes =~= scope_visibility_view(file_id, ident.inner@, ident.span, hint).notes);
    }
    d
}

pub open spec fn invalid_raw_identifier_view(file_id: FileId, span: Span) -> DiagnosticView {
    error_view(
        "`{}` cannot be a raw identifier"@,
        seq![label_view(LabelStyle::Primary, file_id, span, Seq::empty())],
        Seq::empty(),
    )
}

/// The message is the literal text `` `{}` cannot be a raw identifier ``, placeholder included.
pub fn invalid_raw_identifier(file_id: FileId, ident: &Ident) -> (d: Diagnostic)
    ensures
        d@ == invalid_raw_identifier_view(file_id, ident.span),
{
    let labels = vec![plain_label(LabelStyle::Primary, file_id, ident.span)];
    let d = error_diagnostic(text("`{}` cannot be a raw identifier"), labels, Vec::new());
    assert(d@ == invalid_raw_identifier_view(file_id, ident.span)) by {
        assert(d@.labels =~= invalid_raw_identifier_view(file_id, ident.span).labels);
        assert(d@.notes =~= Seq::empty());
    }
    d
}

pub open spec fn glob_at_entry_label_text(has_leading_sep: bool, previous: Option<Seq<char>>) -> Seq<char> {
    if has_leading_sep {
        "this would import all crates"@
    } else if previous == Some("super"@) {
        "this would re-import all local items"@
    } else {
        "this would re-import all crates and local items"@
    }
}

pub open spec fn glob_at_entry_view(
    file_id: FileId,
    glob: Span,
    has_leading_sep: bool,
    previous: Option<Seq<char>>,
) -> DiagnosticView {
    error_view(
        "cannot glob-import without a scope"@,
        seq![label_view(LabelStyle::Primary, file_id, glob, glob_at_entry_label_text(has_leading_sep, previous))],
        Seq::empty(),
    )
}

pub fn glob_at_entry(
    file_id: FileId,
    glob: Span,
    leading_sep: Option<Span>,
    previous_ident: Option<&Ident>,
) -> (d: Diagnostic)
    ensures
        d@ == glob_at_entry_view(file_id, glob, leading_sep.is_some(), opt_ident_text(previous_ident)),
{
    let previous_is_super = match previous_ident {
        Some(prev) => prev.is("super"),
        None => false,
    };
    let label_message = if leading_sep.is_some() {
        text("this would import all crates")
    } else if previous_is_super {
        text("this would re-import all local items")
    } else {
        text("this would re-import all crates and local items")
    };
    let labels = vec![label(LabelStyle::Primary, file_id, glob, label_message)];
    let d = error_diagnostic(text("cannot glob-import without a scope"), labels, Vec::new());
    assert(d@ == glob_at_entry_view(file_id, glob, leading_sep.is_some(), opt_ident_text(previous_ident))) by {
        assert(d@.labels =~= glob_at_entry_view(file_id, glob, leading_sep.is_some(), opt_ident_text(previous_ident)).labels);
        assert(d@.notes =~= Seq::empty());
    }
    d
}

pub open spec fn incorrect_visibility_restriction_view(file_id: FileId, span: Span) -> DiagnosticView {
    error_view(
        "incorrect visibility restriction"@,
        seq![label_view(LabelStyle::Primary, file_id, span, Seq::empty())],
        seq!["visibility can only be restricted to a local ancestral scope: crate, super, or a path beginning with the former two"@],
    )
}

pub fn incorrect_visibility_restriction(file_id: FileId, span: Span) -> (d: Diagnostic)
    ensures
        d@ == incorrect_visibility_restriction_view(file_id, span),
{
    let labels = vec![plain_label(LabelStyle::Primary, file_id, span)];
    let notes = vec![text(
        "visibility can only be restricted to a local ancestral scope: crate, super, or a path beginning with the former two",
    )];
    let d = error_diagnostic(text("incorrect visibility restriction"), labels, notes);
    assert(d@ == incorrect_visibility_restriction_view(file_id, span)) by {
        assert(d@.labels =~= incorrect_visibility_restriction_view(file_id, span).labels);
        assert(d@.notes =~= incorrect_visibility_restriction_view(file_id, span).notes);
    }
    d
}

pub open spec fn module_with_external_file_in_fn_view(file_id: FileId, span: Span) -> DiagnosticView {
    error_view(
        "a module in a function cannot be loaded from an external file"@,
        seq![label_view(LabelStyle::Primary, file_id, span, "give the module a body"@)],
        seq!["the file path of such a module would be ambiguous"@],
    )
}

/// `span` is that of the module declaration.
pub fn module_with_external_file_in_fn(file_id: FileId, span: Span) -> (d: Diagnostic)
    ensures
        d@ == module_with_external_file_in_fn_view(file_id, span),
{
    let labels = vec![label(LabelStyle::Primary, file_id, span, text("give the module a body"))];
    let notes = vec![text("the file path of such a module would be ambiguous")];
    let d = error_diagnostic(text("a module in a function cannot be loaded from an external file"), labels, notes);
    assert(d@ == module_with_external_file_in_fn_view(file_id, span)) by {
        assert(d@.labels =~= module_with_external_file_in_fn_view(file_id, span).labels);
        assert(d@.notes =~= module_with_external_file_in_fn_view(file_id, span).notes);
    }
    d
}

pub open spec fn non_ancestral_visibility_view(
    file_id: FileId,
    segment: Seq<char>,
    span: Span,
    previous: Option<Seq<char>>,
) -> DiagnosticView {
    error_view(
        quoted(segment) + " is not an ancestor of "@ + match previous {
            Some(p) => quoted(p),
            None => "this scope"@,
        },
        seq![label_view(LabelStyle::Primary, file_id, span, Seq::empty())],
        seq!["visibility can only be restricted to an ancestral path"@],
    )
}

pub fn non_ancestral_visibility(file_id: FileId, segment_ident: &Ident, prev_segment_ident: Option<&Ident>) -> (d: Diagnostic)
    ensures
        d@ == non_ancestral_visibility_view(file_id, segment_ident.inner@, segment_ident.span, opt_ident_text(prev_segment_ident)),
{
    let mut message = quote(segment_ident.inner.as_str());
    message.append(" is not an ancestor of ");
    match prev_segment_ident {
        Some(prev) => message.append(quote(prev.inner.as_str()).as_str()),
        None => message.append("this scope"),
    }
    let labels = vec![plain_label(LabelStyle::Primary, file_id, segment_ident.span)];
    let notes = vec![text("visibility can only be restricted to an ancestral path")];
    let d = error_diagnostic(message, labels, notes);
    assert(d@ == non_ancestral_visibility_view(file_id, segment_ident.inner@, segment_ident.span, opt_ident_text(prev_segment_ident))) by {
        let v = non_ancestral_visibility_view(file_id, segment_ident.inner@, segment_ident.span, opt_ident_text(prev_segment_ident));
        assert(d@.labels =~= v.labels);
        assert(d@.notes =~= v.notes);
    }
    d
}

// ---------------------------------------------------------------------------
// duplicates

pub open spec fn multiple_definition_view(
    file_id: FileId,
    original: Seq<char>,
    original_span: Span,
    duplicate: Seq<char>,
    duplicate_span: Span,
    hint: DuplicateHint,
) -> DiagnosticView {
    let binding = hint == DuplicateHint::NameBinding;
    error_view(
        "the "@ + duplicate_hint_text(hint) + " "@ + quoted(original) + " is "@ + (if binding {
            "bound"@
        } else {
            "defined"@
        }) + " multiple times"@,
        seq![
            label_view(
                LabelStyle::Primary,
                file_id,
                duplicate_span,
                quoted(duplicate) + " "@ + (if binding { "rebound"@ } else { "redefined"@ }) + " here"@,
            ),
            label_view(
                LabelStyle::Secondary,
                file_id,
                original_span,
                "previous "@ + (if binding { "binding"@ } else { "definition"@ }) + " of the "@
                    + duplicate_hint_text(hint) + " "@ + quoted(duplicate) + " here"@,
            ),
        ],
        Seq::empty(),
    )
}

pub fn multiple_definition(file_id: FileId, original: &Ident, duplicate: &Ident, hint: DuplicateHint) -> (d: Diagnostic)
    ensures
        d@ == multiple_definition_view(file_id, original.inner@, original.span, duplicate.inner@, duplicate.span, hint),
{
    let binding = hint == DuplicateHint::NameBinding;
    let mut message = text("the ");
    message.append(hint.to_str());
    message.append(" ");
    message.append(quote(original.inner.as_str()).as_str());
    message.append(" is ");
    message.append(if binding { "bound" } else { "defined" });
    message.append(" multiple times");
    let mut primary = quote(duplicate.inner.as_str());
    primary.append(" ");
    primary.append(if binding { "rebound" } else { "redefined" });
    primary.append(" here");
    let mut secondary = text("previous ");
    secondary.append(if binding { "binding" } else { "definition" });
    secondary.append(" of the ");
    secondary.append(hint.to_str());
    secondary.append(" ");
    secondary.append(quote(duplicate.inner.as_str()).as_str());
    secondary.append(" here");
    let labels = vec![
        label(LabelStyle::Primary, file_id, duplicate.span, primary),
        label(LabelStyle::Secondary, file_id, original.span, secondary),
    ];
    let d = error_diagnostic(message, labels, Vec::new());
    assert(d@ == multiple_definition_view(file_id, original.inner@, original.span, duplicate.inner@, duplicate.span, hint)) by {
        let v = multiple_definition_view(file_id, original.inner@, original.span, duplicate.inner@, duplicate.span, hint);
        assert(d@.labels =~= v.labels);
        assert(d@.notes =~= v.notes);
    }
    d
}

pub open spec fn reimport_view(
    file_id: FileId,
    previous: Seq<char>,
    previous_span: Span,
    ident: Seq<char>,
    span: Span,
    import_file_id: FileId,
    import: Seq<char>,
    import_span: Span,
    hint: Option<ItemHint>,
) -> DiagnosticView {
    let what = match hint {
        Some(h) => item_hint_text(h),
        None => "item"@,
    };
    error_view(
        "the "@ + what + " "@ + quoted(import) + " is imported multiple times"@,
        seq![
            label_view(LabelStyle::Primary, file_id, span, quoted(ident) + " imports it again here"@),
            label_view(LabelStyle::Secondary, file_id, previous_span, quoted(previous) + " first imports it here"@),
            label_view(LabelStyle::Secondary, import_file_id, import_span, "declared here"@),
        ],
        Seq::empty(),
    )
}

/// The same item imported twice into one scope.
pub fn reimport(
    file_id: FileId,
    previous_ident: &Ident,
    ident: &Ident,
    import_file_id: FileId,
    import_ident: &Ident,
    hint: Option<ItemHint>,
) -> (d: Diagnostic)
    ensures
        d@ == reimport_view(
            file_id,
            previous_ident.inner@,
            previous_ident.span,
            ident.inner@,
            ident.span,
            import_file_id,
            import_ident.inner@,
            import_ident.span,
            hint,
        ),
{
    let mut message = text("the ");
    match hint {
        Some(h) => message.append(h.to_str()),
        None => message.append("item"),
    }
    message.append(" ");
    message.append(quote(import_ident.inner.as_str()).as_str());
    message.append(" is imported multiple times");
    let mut again = quote(ident.inner.as_str());
    again.append(" imports it again here");
    let mut first = quote(previous_ident.inner.as_str());
    first.append(" first imports it here");
    let labels = vec![
        label(LabelStyle::Primary, file_id, ident.span, again),
        label(LabelStyle::Secondary, file_id, previous_ident.span, first),
        label(LabelStyle::Secondary, import_file_id, import_ident.span, text("declared here")),
    ];
    let d = error_diagnostic(message, labels, Vec::new());
    assert(d@ == reimport_view(file_id, previous_ident.inner@, previous_ident.span, ident.inner@, ident.span,
        import_file_id, import_ident.inner@, import_ident.span, hint)) by {
        let v = reimport_view(file_id, previous_ident.inner@, previous_ident.span, ident.inner@, ident.span,
            import_file_id, import_ident.inner@, import_ident.span, hint);
        assert(d@.labels =~= v.labels);
        assert(d@.notes =~= v.notes);
    }
    d
}

// ---------------------------------------------------------------------------
// misplaced syntax

pub open spec fn global_path_in_prefixed_use_group_view(file_id: FileId, leading_sep: Span) -> DiagnosticView {
    error_view(
        "a global path cannot follow a prefix in a use group"@,
        seq![label_view(LabelStyle::Primary, file_id, leading_sep, "makes this path global"@)],
        seq!["remove the leading path separator"@],
    )
}

/// `leading_sep` is the span of the `::` that starts the inner path.
pub fn global_path_in_prefixed_use_group(file_id: FileId, leading_sep: Span) -> (d: Diagnostic)
    ensures
        d@ == global_path_in_prefixed_use_group_view(file_id, leading_sep),
{
    let labels = vec![label(LabelStyle::Primary, file_id, leading_sep, text("makes this path global"))];
    let notes = vec![text("remove the leading path separator")];
    let d = error_diagnostic(text("a global path cannot follow a prefix in a use group"), labels, notes);
    assert(d@ == global_path_in_prefixed_use_group_view(file_id, leading_sep)) by {
        assert(d@.labels =~= global_path_in_prefixed_use_group_view(file_id, leading_sep).labels);
        assert(d@.notes =~= global_path_in_prefixed_use_group_view(file_id, leading_sep).notes);
    }
    d
}

pub open spec fn unnecessary_visibility_view(file_id: FileId, span: Span) -> DiagnosticView {
    error_view(
        "unnecessary visibility qualifier"@,
        seq![label_view(LabelStyle::Primary, file_id, span, "visibility is implied by the enclosing item"@)],
        Seq::empty(),
    )
}

/// A visibility written where it is implied, such as on an enum variant.
pub fn unnecessary_visibility(file_id: FileId, span: Span) -> (d: Diagnostic)
    ensures
        d@ == unnecessary_visibility_view(file_id, span),
{
    let labels = vec![label(LabelStyle::Primary, file_id, span, text("visibility is implied by the enclosing item"))];
    let d = error_diagnostic(text("unnecessary visibility qualifier"), labels, Vec::new());
    assert(d@ == unnecessary_visibility_view(file_id, span)) by {
        assert(d@.labels =~= unnecessary_visibility_view(file_id, span).labels);
        assert(d@.notes =~= Seq::empty());
    }
    d
}

// ---------------------------------------------------------------------------
// finding and reading files

/// A failure to read a file, as the operating system reported it.
#[derive(Debug)]
pub struct IoFailure {
    /// The file does not exist.
    pub not_found: bool,
    /// The operating system's description of the failure.
    pub message: String,
}

/// Why a file could not be had: it did not parse, or it could not be read.
#[derive(Debug)]
pub enum FileFindingError {
    Parse(Diagnostic),
    Io(IoFailure),
}

/// Where a module's file was declared: the declaring file and the span of the declaration.
pub open spec fn declared_here(parent: Option<(FileId, Span)>, style: LabelStyle) -> Seq<LabelView> {
    match parent {
        Some((f, span)) => seq![label_view(style, f, span, "declared here"@)],
        None => Seq::empty(),
    }
}

fn declared_here_labels(parent: Option<(FileId, Span)>, style: LabelStyle, labels: &mut Vec<Label>)
    ensures
        final(labels)@.map_values(|l: Label| l@) == old(labels)@.map_values(|l: Label| l@) + declared_here(parent, style),
{
    let ghost before = labels@;
    if let Some((f, span)) = parent {
        labels.push(label(style, f, span, text("declared here")));
    }
    assert(labels@.map_values(|l: Label| l@) =~= before.map_values(|l: Label| l@) + declared_here(parent, style));
}

pub open spec fn io_failure_view(name: Seq<char>, message: Seq<char>, parent: Option<(FileId, Span)>) -> DiagnosticView {
    error_view(
        "couldn't read "@ + name + ": "@ + message,
        declared_here(parent, LabelStyle::Primary),
        Seq::empty(),
    )
}

impl FileFindingError {
    pub fn is_io_not_found(&self) -> (r: bool)
        ensures
            r == (*self matches FileFindingError::Io(f) && f.not_found),
    {
        match self {
            FileFindingError::Io(failure) => failure.not_found,
            FileFindingError::Parse(_) => false,
        }
    }

    /// The diagnostic for the file `name` (declared at `parent`, if it is a module file).
    pub fn diagnostic(self, name: String, parent: Option<(FileId, Span)>) -> (d: Diagnostic)
        ensures
            match self {
                FileFindingError::Parse(p) => d@ == p@,
                FileFindingError::Io(f) => d@ == io_failure_view(name@, f.message@, parent),
            },
    {
        match self {
            FileFindingError::Parse(diag) => diag,
            FileFindingError::Io(failure) => {
                let mut message = text("couldn't read ");
                message.append(name.as_str());
                message.append(": ");
                message.append(failure.message.as_str());
                let mut labels: Vec<Label> = Vec::new();
                declared_here_labels(parent, LabelStyle::Primary, &mut labels);
                assert(labels@.map_values(|l: Label| l@) =~= declared_here(parent, LabelStyle::Primary));
                let d = error_diagnostic(message, labels, Vec::new());
                assert(d@.notes =~= Seq::empty());
                d
            },
        }
    }
}

/// A parser error, with the positions it reports.
#[derive(Debug)]
pub enum ParseError {
    InvalidToken { location: usize },
    UnrecognizedEOF { location: usize, expected: Vec<String> },
    UnrecognizedToken { left: usize, right: usize, expected: Vec<String> },
    ExtraToken { left: usize, right: usize },
    User { error: String },
}

/// What `{:?}` makes of a list of strings.
pub uninterp spec fn debug_strings(items: Seq<Seq<char>>) -> Seq<char>;

/// std's `Debug` formatting of a list of strings (`["a", "b"]`, each string
/// quoted and escaped). The result depends on the strings alone; nothing
/// more of it is claimed.
#[verifier::external_body]
fn format_debug_strings(items: &Vec<String>) -> (r: String)
    ensures
        r@ == debug_strings(items@.map_values(|s: String| s@)),
{
    format!("{:?}", items)
}

pub open spec fn parse_error_text(err: ParseError) -> Seq<char> {
    match err {
        ParseError::UnrecognizedToken { .. } => "unexpected token"@,
        ParseError::UnrecognizedEOF { .. } => "unexpected EOF"@,
        ParseError::InvalidToken { .. } => "invalid token"@,
        ParseError::ExtraToken { .. } => "extra token"@,
        ParseError::User { error } => error@,
    }
}

/// The labels of a parse error, given the formatted list of expected tokens.
pub open spec fn parse_error_labels(file_id: FileId, err: ParseError, expected: Seq<char>) -> Seq<LabelView> {
    match err {
        ParseError::UnrecognizedToken { left, right, .. } => seq![label_view(LabelStyle::Primary, file_id,
            Span { start: left, end: right }, "expected any of "@ + expected)],
        ParseError::UnrecognizedEOF { location, .. } => seq![label_view(LabelStyle::Primary, file_id,
            Span { start: location, end: location }, "expected any of "@ + expected)],
        ParseError::InvalidToken { location } => seq![label_view(LabelStyle::Primary, file_id,
            Span { start: location, end: location }, Seq::empty())],
        ParseError::ExtraToken { left, right } => seq![label_view(LabelStyle::Primary, file_id,
            Span { start: left, end: right }, Seq::empty())],
        ParseError::User { .. } => Seq::empty(),
    }
}

pub open spec fn parse_view(
    name: Seq<char>,
    file_id: FileId,
    parent: Option<(FileId, Span)>,
    err: ParseError,
    expected: Seq<char>,
) -> DiagnosticView {
    error_view(
        "could not parse "@ + name + ": "@ + parse_error_text(err),
        parse_error_labels(file_id, err, expected) + declared_here(parent, LabelStyle::Secondary),
        Seq::empty(),
    )
}

/// The tokens a parse error expected, if it lists any.
pub open spec fn expected_tokens(err: ParseError) -> Seq<Seq<char>> {
    match err {
        ParseError::UnrecognizedToken { expected, .. } => expected@.map_values(|s: String| s@),
        ParseError::UnrecognizedEOF { expected, .. } => expected@.map_values(|s: String| s@),
        _ => Seq::empty(),
    }
}

/// The diagnostic for a file `name` that did not parse, given `expected`, the
/// formatted list of the tokens the parser expected.
pub fn parse_diagnostic(
    name: &str,
    file_id: FileId,
    parent: Option<(FileId, Span)>,
    err: &ParseError,
    expected: &str,
) -> (d: Diagnostic)
    ensures
        d@ == parse_view(name@, file_id, parent, *err, expected@),
{
    let mut message = text("could not parse ");
    message.append(name);
    message.append(": ");
    match err {
        ParseError::UnrecognizedToken { .. } => message.append("unexpected token"),
        ParseError::UnrecognizedEOF { .. } => message.append("unexpected EOF"),
        ParseError::InvalidToken { .. } => message.append("invalid token"),
        ParseError::ExtraToken { .. } => message.append("extra token"),
        ParseError::User { error } => message.append(error.as_str()),
    }
    let mut labels: Vec<Label> = Vec::new();
    match err {
        ParseError::UnrecognizedToken { left, right, .. } => {
            let mut m = text("expected any of ");
            m.append(expected);
            labels.push(label(LabelStyle::Primary, file_id, Span { start: *left, end: *right }, m));
        },
        ParseError::UnrecognizedEOF { location, .. } => {
            let mut m = text("expected any of ");
            m.append(expected);
            labels.push(label(LabelStyle::Primary, file_id, Span { start: *location, end: *location }, m));
        },
        ParseError::InvalidToken { location } => {
            labels.push(label(LabelStyle::Primary, file_id, Span { start: *location, end: *location }, String::new()));
        },
        ParseError::ExtraToken { left, right } => {
            labels.push(label(LabelStyle::Primary, file_id, Span { start: *left, end: *right }, String::new()));
        },
        ParseError::User { .. } => {},
    }
    assert(labels@.map_values(|l: Label| l@) =~= parse_error_labels(file_id, *err, expected@));
    declared_here_labels(parent, LabelStyle::Secondary, &mut labels);
    let d = error_diagnostic(message, labels, Vec::new());
    assert(d@.notes =~= Seq::empty());
    assert(d@.message =~= "could not parse "@ + name@ + ": "@ + parse_error_text(*err));
    d
}

/// The diagnostic for a file `name` that did not parse.
pub fn parse(name: &str, file_id: FileId, parent: Option<(FileId, Span)>, err: &ParseError) -> (d: Diagnostic)
    ensures
        d@ == parse_view(name@, file_id, parent, *err, debug_strings(expected_tokens(*err))),
{
    let empty: Vec<String> = Vec::new();
    let expected = match err {
        ParseError::UnrecognizedToken { expected, .. } => format_debug_strings(expected),
        ParseError::UnrecognizedEOF { expected, .. } => format_debug_strings(expected),
        _ => format_debug_strings(&empty),
    };
    assert(empty@.map_values(|s: String| s@) =~= Seq::<Seq<char>>::empty());
    parse_diagnostic(name, file_id, parent, err, expected.as_str())
}

pub open spec fn conflicting_mod_files_view(
    parent_file_id: Option<FileId>,
    ident: Seq<char>,
    span: Span,
    file_path: Seq<char>,
    folder_path: Seq<char>,
) -> DiagnosticView {
    error_view(
        "conflicting files for module "@ + quoted(ident) + " were found at "@ + file_path + " and "@ + folder_path,
        match parent_file_id {
            Some(f) => seq![label_view(LabelStyle::Primary, f, span, "declared here"@)],
            None => Seq::empty(),
        },
        Seq::empty(),
    )
}

/// Both `name.ext` and `name/mod.ext` exist for a module declared as `ident` at `span`.
pub fn conflicting_mod_files(
    parent_file_id: Option<FileId>,
    ident: &Ident,
    span: Span,
    file_path: &str,
    folder_path: &str,
) -> (d: Diagnostic)
    ensures
        d@ == conflicting_mod_files_view(parent_file_id, ident.inner@, span, file_path@, folder_path@),
{
    let mut message = text("conflicting files for module ");
    message.append(quote(ident.inner.as_str()).as_str());
    message.append(" were found at ");
    message.append(file_path);
    message.append(" and ");
    message.append(folder_path);
    let mut labels: Vec<Label> = Vec::new();
    if let Some(f) = parent_file_id {
        labels.push(label(LabelStyle::Primary, f, span, text("declared here")));
    }
    let d = error_diagnostic(message, labels, Vec::new());
    assert(d@ == conflicting_mod_files_view(parent_file_id, ident.inner@, span, file_path@, folder_path@)) by {
        assert(d@.labels =~= conflicting_mod_files_view(parent_file_id, ident.inner@, span, file_path@,
            folder_path@).labels);
        assert(d@.notes =~= Seq::empty());
    }
    d
}

pub open spec fn working_directory_view(cause: Seq<char>) -> DiagnosticView {
    error_view("couldn't get the current working directory: "@ + cause, Seq::empty(), Seq::empty())
}

/// The working directory could not be had; `cause` is the operating system's description.
pub fn working_directory(cause: &str) -> (d: Diagnostic)
    ensures
        d@ == working_directory_view(cause@),
{
    let mut message = text("couldn't get the current working directory: ");
    message.append(cause);
    let d = error_diagnostic(message, Vec::new(), Vec::new());
    assert(d@.labels =~= Seq::empty());
    assert(d@.notes =~= Seq::empty());
    d
}

} // verus!
