//! Rustc-style rendering of a message about a place in a source file: a
//! header, the file and position, then each referenced line of code with an
//! underline and a note. The output is styled text; a terminal front end
//! turns the styles into colors.

use vstd::prelude::*;

use crate::ast::str_eq;
use crate::error::text;
use crate::text::{
    byte_len, decimal, decimal_text, lemma_decimal_len_monotone, lines, nth_line, repeat_char,
    repeated, space_text, spaces, trim_end, trimmed_end,
};

verus! {

/// How serious a referenced place is.
#[derive(Debug, Clone, Copy, PartialEq, Eq, Structural)]
pub enum Reference {
    Error,
    Warning,
    Info,
}

/// How a piece of rendered text is shown.
#[derive(Debug, Clone, Copy, PartialEq, Eq, Structural)]
pub enum Style {
    Plain,
    Bold,
    RedBold,
    YellowBold,
    BlueBold,
}

/// A piece of rendered text and how it is shown.
#[derive(Debug)]
pub struct Styled {
    pub text: String,
    pub style: Style,
}

pub struct StyledView {
    pub text: Seq<char>,
    pub style: Style,
}

impl View for Styled {
    type V = StyledView;

    open spec fn view(&self) -> StyledView {
        StyledView { text: self.text@, style: self.style }
    }
}

pub open spec fn sv(text: Seq<char>, style: Style) -> StyledView {
    StyledView { text, style }
}

pub open spec fn styled_views(s: Seq<Styled>) -> Seq<StyledView> {
    s.map_values(|x: Styled| x@)
}

/// A position in a source file: a line counted from one and a column
/// counted from zero.
#[derive(Debug, Clone, Copy, PartialEq, Eq, Structural)]
pub struct LineColumn {
    pub line: usize,
    pub column: usize,
}

/// Where a piece of source starts and ends.
#[derive(Debug, Clone, Copy, PartialEq, Eq, Structural)]
pub struct SourceSpan {
    pub start: LineColumn,
    pub end: LineColumn,
}

/// A referenced place in the source: its kind, the note shown under it and
/// where it is.
#[derive(Debug)]
pub struct Mention {
    pub kind: Reference,
    pub message: String,
    pub span: SourceSpan,
}

pub struct MentionView {
    pub kind: Reference,
    pub message: Seq<char>,
    pub span: SourceSpan,
}

impl View for Mention {
    type V = MentionView;

    open spec fn view(&self) -> MentionView {
        MentionView { kind: self.kind, message: self.message@, span: self.span }
    }
}

pub open spec fn mention_views(s: Seq<Mention>) -> Seq<MentionView> {
    s.map_values(|m: Mention| m@)
}

impl Mention {
    /// A copy of this mention.
    pub fn copy(&self) -> (r: Mention)
        ensures
            r@ == self@,
    {
        Mention { kind: self.kind, message: self.message.clone(), span: self.span }
    }
}

/// The parts of a file's path that a message shows.
#[derive(Debug)]
pub struct SourcePath {
    /// The last component of the path.
    pub file_name: Option<String>,
    /// The last component without its extension.
    pub file_stem: Option<String>,
    /// The stem of the directory that holds the file.
    pub parent_stem: Option<String>,
    /// The name of the directory that holds the file.
    pub parent_name: Option<String>,
}

/// Where the code that a message is about was read from.
#[derive(Debug)]
pub enum ResolutionSource {
    File(SourcePath),
    Stdin,
}

/// How a message names its source: the file name, prefixed with its
/// directory's name for a `mod` file, or `<stdin>`.
pub open spec fn display_path(source: ResolutionSource) -> Seq<char> {
    match source {
        ResolutionSource::Stdin => "<stdin>"@,
        ResolutionSource::File(p) => {
            let name = match p.file_name {
                Some(n) => n@,
                None => "???.rhdl"@,
            };
            if p.file_stem matches Some(s) && s@ == "mod"@ {
                let dir = match p.parent_stem {
                    Some(d) => d@,
                    None => "???"@,
                };
                dir + "/"@ + name
            } else {
                name
            }
        },
    }
}

fn source_path_text(source: &ResolutionSource) -> (r: String)
    ensures
        r@ == display_path(*source),
{
    match source {
        ResolutionSource::Stdin => text("<stdin>"),
        ResolutionSource::File(p) => {
            let name = match &p.file_name {
                Some(n) => n.clone(),
                None => text("???.rhdl"),
            };
            let is_mod = match &p.file_stem {
                Some(s) => str_eq(s.as_str(), "mod"),
                None => false,
            };
            if is_mod {
                let mut dir = match &p.parent_stem {
                    Some(d) => d.clone(),
                    None => text("???"),
                };
                dir.append("/");
                dir.append(name.as_str());
                dir
            } else {
                name
            }
        },
    }
}

// ---------------------------------------------------------------------------
// order of the references

pub open spec fn lc_lt(a: LineColumn, b: LineColumn) -> bool {
    a.line < b.line || (a.line == b.line && a.column < b.column)
}

pub open spec fn lc_le(a: LineColumn, b: LineColumn) -> bool {
    !lc_lt(b, a)
}

/// `m` placed into `s` after every element that does not start later.
pub open spec fn insert_by_start(s: Seq<MentionView>, m: MentionView) -> Seq<MentionView>
    decreases s.len(),
{
    if s.len() > 0 && lc_lt(m.span.start, s.last().span.start) {
        insert_by_start(s.drop_last(), m).push(s.last())
    } else {
        s.push(m)
    }
}

/// `s` ordered by where each element starts; elements that start at the same
/// place keep their order.
pub open spec fn sort_by_start(s: Seq<MentionView>) -> Seq<MentionView>
    decreases s.len(),
{
    if s.len() == 0 {
        s
    } else {
        insert_by_start(sort_by_start(s.drop_last()), s.last())
    }
}

/// The elements of `s` that start at or before `p`, in order.
pub open spec fn starting_by(s: Seq<MentionView>, p: LineColumn) -> Seq<MentionView>
    decreases s.len(),
{
    if s.len() == 0 {
        s
    } else if lc_le(s.last().span.start, p) {
        starting_by(s.drop_last(), p).push(s.last())
    } else {
        starting_by(s.drop_last(), p)
    }
}

/// The elements of `s` that start after `p`, in order.
pub open spec fn starting_after(s: Seq<MentionView>, p: LineColumn) -> Seq<MentionView>
    decreases s.len(),
{
    if s.len() == 0 {
        s
    } else if lc_lt(p, s.last().span.start) {
        starting_after(s.drop_last(), p).push(s.last())
    } else {
        starting_after(s.drop_last(), p)
    }
}

/// The order in which a message shows its places: the references that start
/// at or before the main one, the main one, then the rest, each group by
/// position.
pub open spec fn reference_order(main: MentionView, refs: Seq<MentionView>) -> Seq<MentionView> {
    let sorted = sort_by_start(refs);
    starting_by(sorted, main.span.start) + seq![main] + starting_after(sorted, main.span.start)
}

/// Every place in `s` lies on lines up to `b`.
pub open spec fn lines_within(s: Seq<MentionView>, b: nat) -> bool {
    forall|i: int|
        0 <= i < s.len() ==> #[trigger] s[i].span.start.line <= b && s[i].span.end.line <= b
}

proof fn lemma_insert_within(s: Seq<MentionView>, m: MentionView, b: nat)
    requires
        lines_within(s, b),
        m.span.start.line <= b,
        m.span.end.line <= b,
    ensures
        lines_within(insert_by_start(s, m), b),
    decreases s.len(),
{
    if s.len() > 0 && lc_lt(m.span.start, s.last().span.start) {
        lemma_insert_within(s.drop_last(), m, b);
        let r = insert_by_start(s.drop_last(), m);
        assert forall|i: int| 0 <= i < r.push(s.last()).len() implies #[trigger] r.push(
            s.last(),
        )[i].span.start.line <= b && r.push(s.last())[i].span.end.line <= b by {
            if i < r.len() {
                assert(r.push(s.last())[i] == r[i]);
            }
        }
    } else {
        assert forall|i: int| 0 <= i < s.push(m).len() implies #[trigger] s.push(
            m,
        )[i].span.start.line <= b && s.push(m)[i].span.end.line <= b by {
            if i < s.len() {
                assert(s.push(m)[i] == s[i]);
            }
        }
    }
}

proof fn lemma_sort_within(s: Seq<MentionView>, b: nat)
    requires
        lines_within(s, b),
    ensures
        lines_within(sort_by_start(s), b),
    decreases s.len(),
{
    if s.len() > 0 {
        assert(lines_within(s.drop_last(), b)) by {
            assert forall|i: int| 0 <= i < s.drop_last().len() implies #[trigger] s.drop_last()[
                i
            ].span.start.line <= b && s.drop_last()[i].span.end.line <= b by {
                assert(s.drop_last()[i] == s[i]);
            }
        }
        lemma_sort_within(s.drop_last(), b);
        assert(s[s.len() - 1] == s.last());
        lemma_insert_within(sort_by_start(s.drop_last()), s.last(), b);
    }
}

proof fn lemma_split_within(s: Seq<MentionView>, p: LineColumn, b: nat)
    requires
        lines_within(s, b),
    ensures
        lines_within(starting_by(s, p), b),
        lines_within(starting_after(s, p), b),
    decreases s.len(),
{
    if s.len() > 0 {
        assert(lines_within(s.drop_last(), b)) by {
            assert forall|i: int| 0 <= i < s.drop_last().len() implies #[trigger] s.drop_last()[
                i
            ].span.start.line <= b && s.drop_last()[i].span.end.line <= b by {
                assert(s.drop_last()[i] == s[i]);
            }
        }
        lemma_split_within(s.drop_last(), p, b);
        assert(s[s.len() - 1] == s.last());
        let x = starting_by(s.drop_last(), p);
        let y = starting_after(s.drop_last(), p);
        assert forall|i: int| 0 <= i < x.push(s.last()).len() implies #[trigger] x.push(
            s.last(),
        )[i].span.start.line <= b && x.push(s.last())[i].span.end.line <= b by {
            if i < x.len() {
                assert(x.push(s.last())[i] == x[i]);
            }
        }
        assert forall|i: int| 0 <= i < y.push(s.last()).len() implies #[trigger] y.push(
            s.last(),
        )[i].span.start.line <= b && y.push(s.last())[i].span.end.line <= b by {
            if i < y.len() {
                assert(y.push(s.last())[i] == y[i]);
            }
        }
    }
}

proof fn lemma_insert_at(s: Seq<MentionView>, m: MentionView, j: int)
    requires
        0 <= j <= s.len(),
        forall|k: int| j <= k < s.len() ==> lc_lt(m.span.start, #[trigger] s[k].span.start),
        j > 0 ==> !lc_lt(m.span.start, s[j - 1].span.start),
    ensures
        insert_by_start(s, m) =~= s.subrange(0, j).push(m) + s.subrange(j, s.len() as int),
    decreases s.len(),
{
    if j < s.len() {
        assert(s[s.len() - 1] == s.last());
        let d = s.drop_last();
        assert forall|k: int| j <= k < d.len() implies lc_lt(m.span.start, #[trigger] d[k].span.start) by {
            assert(d[k] == s[k]);
        }
        lemma_insert_at(d, m, j);
        assert(d.subrange(0, j) =~= s.subrange(0, j));
        assert(d.subrange(j, d.len() as int).push(s.last()) =~= s.subrange(j, s.len() as int));
    } else {
        if s.len() > 0 {
            assert(s[s.len() - 1] == s.last());
        }
        assert(s.subrange(0, j) =~= s);
    }
}

fn insert_sorted(sorted: &mut Vec<Mention>, m: Mention)
    ensures
        mention_views(final(sorted)@) == insert_by_start(mention_views(old(sorted)@), m@),
{
    let ghost s = mention_views(sorted@);
    let mut j = sorted.len();
    while j > 0 && lc_less(&m.span.start, &sorted[j - 1].span.start)
        invariant
            j <= sorted.len(),
            s == mention_views(sorted@),
            forall|k: int| j <= k < s.len() ==> lc_lt(m.span.start, #[trigger] s[k].span.start),
        decreases j,
    {
        j = j - 1;
    }
    proof {
        lemma_insert_at(s, m@, j as int);
    }
    sorted.insert(j, m);
    assert(mention_views(sorted@) =~= s.subrange(0, j as int).push(m@) + s.subrange(
        j as int,
        s.len() as int,
    ));
}

fn lc_less(a: &LineColumn, b: &LineColumn) -> (r: bool)
    ensures
        r == lc_lt(*a, *b),
{
    a.line < b.line || (a.line == b.line && a.column < b.column)
}

fn sorted_by_start(refs: &Vec<Mention>) -> (r: Vec<Mention>)
    ensures
        mention_views(r@) == sort_by_start(mention_views(refs@)),
{
    let ghost all = mention_views(refs@);
    let mut sorted: Vec<Mention> = Vec::new();
    let mut i: usize = 0;
    while i < refs.len()
        invariant
            i <= refs.len(),
            all == mention_views(refs@),
            mention_views(sorted@) == sort_by_start(all.take(i as int)),
        decreases refs.len() - i,
    {
        let m = refs[i].copy();
        assert(all.take(i + 1).drop_last() =~= all.take(i as int));
        assert(all.take(i + 1).last() == all[i as int]);
        insert_sorted(&mut sorted, m);
        i = i + 1;
    }
    assert(all.take(i as int) =~= all);
    sorted
}

fn split_at_start(sorted: &Vec<Mention>, p: LineColumn) -> (r: (Vec<Mention>, Vec<Mention>))
    ensures
        mention_views(r.0@) == starting_by(mention_views(sorted@), p),
        mention_views(r.1@) == starting_after(mention_views(sorted@), p),
{
    let ghost all = mention_views(sorted@);
    let mut by: Vec<Mention> = Vec::new();
    let mut after: Vec<Mention> = Vec::new();
    let mut i: usize = 0;
    while i < sorted.len()
        invariant
            i <= sorted.len(),
            all == mention_views(sorted@),
            mention_views(by@) == starting_by(all.take(i as int), p),
            mention_views(after@) == starting_after(all.take(i as int), p),
        decreases sorted.len() - i,
    {
        let m = sorted[i].copy();
        assert(all.take(i + 1).drop_last() =~= all.take(i as int));
        assert(all.take(i + 1).last() == all[i as int]);
        if lc_less(&p, &m.span.start) {
            after.push(m);
            assert(mention_views(after@) =~= starting_after(all.take(i as int), p).push(m@));
        } else {
            by.push(m);
            assert(mention_views(by@) =~= starting_by(all.take(i as int), p).push(m@));
        }
        i = i + 1;
    }
    assert(all.take(i as int) =~= all);
    (by, after)
}

// ---------------------------------------------------------------------------
// rendering

/// The word that opens a message of this kind.
pub open spec fn kind_word(k: Reference) -> Seq<char> {
    match k {
        Reference::Error => "error"@,
        Reference::Warning => "warning"@,
        Reference::Info => "info"@,
    }
}

/// How the opening word and the main note of a message of this kind are shown.
pub open spec fn kind_style(k: Reference) -> Style {
    match k {
        Reference::Error => Style::RedBold,
        Reference::Warning => Style::YellowBold,
        Reference::Info => Style::BlueBold,
    }
}

/// How the note under a referenced line is shown.
pub open spec fn note_style(k: Reference) -> Style {
    match k {
        Reference::Error => Style::RedBold,
        Reference::Warning => Style::BlueBold,
        Reference::Info => Style::BlueBold,
    }
}

/// The character that underlines a place of this kind.
pub open spec fn underline_char(k: Reference) -> char {
    match k {
        Reference::Info => '-',
        _ => '^',
    }
}

fn kind_word_text(k: Reference) -> (r: &'static str)
    ensures
        r@ == kind_word(k),
{
    match k {
        Reference::Error => "error",
        Reference::Warning => "warning",
        Reference::Info => "info",
    }
}

fn underline_text(k: Reference) -> (r: &'static str)
    ensures
        r@ == seq![underline_char(k)],
{
    proof {
        reveal_strlit("-");
        reveal_strlit("^");
    }
    match k {
        Reference::Info => "-",
        _ => "^",
    }
}

/// The column where the underline of `r` ends on its first line: the end of
/// that line in bytes when the place runs on to later lines.
pub open spec fn end_column(r: MentionView, line: Seq<char>) -> nat {
    if r.span.end.line > r.span.start.line {
        byte_len(line)
    } else {
        r.span.end.column as nat
    }
}

/// Whether the first line of `r` is in `code`.
pub open spec fn line_exists(r: MentionView, code: Seq<char>) -> bool {
    1 <= r.span.start.line && r.span.start.line - 1 < lines(code).len()
}

/// Whether `r` can be shown: its line is counted from one, and where that
/// line is in `code`, the underline does not end before it starts.
pub open spec fn line_ok(r: MentionView, code: Seq<char>) -> bool {
    &&& 1 <= r.span.start.line
    &&& line_exists(r, code) ==> r.span.start.column <= end_column(
        r,
        lines(code)[r.span.start.line - 1],
    )
}

/// Whether each place in `s` can be shown when all the places before it
/// were found in `code`.
pub open spec fn writable(s: Seq<MentionView>, code: Seq<char>) -> bool {
    forall|i: int|
        #![trigger s[i]]
        0 <= i < s.len() && (forall|j: int| 0 <= j < i ==> line_exists(#[trigger] s[j], code))
            ==> line_ok(s[i], code)
}

/// The two lines that show `r`: its line of code after the line number, and
/// the underline with the note; `None` if the line is not in `code`.
pub open spec fn reference_lines(r: MentionView, width: nat, code: Seq<char>) -> Option<
    Seq<StyledView>,
> {
    if !line_exists(r, code) {
        None
    } else {
        let line = lines(code)[r.span.start.line - 1];
        let label = decimal(r.span.start.line as nat);
        Some(
            seq![
                sv(spaces((width - label.len()) as nat), Style::Plain),
                sv(label, Style::BlueBold),
                sv(" "@, Style::Plain),
                sv("|"@, Style::BlueBold),
                sv(" "@ + trim_end(line) + "\n"@, Style::Plain),
                sv(spaces(width) + " "@, Style::Plain),
                sv("|"@, Style::BlueBold),
                sv(" "@ + spaces(r.span.start.column as nat), Style::Plain),
                sv(
                    repeat_char(
                        underline_char(r.kind),
                        (end_column(r, line) - r.span.start.column) as nat,
                    ),
                    kind_style(r.kind),
                ),
                sv(" "@, Style::Plain),
                sv(r.message, note_style(r.kind)),
                sv("\n"@, Style::Plain),
            ],
        )
    }
}

/// The places of `s` shown one after another; `None` once one of their lines
/// is missing from `code`.
pub open spec fn references_lines(s: Seq<MentionView>, width: nat, code: Seq<char>) -> Option<
    Seq<StyledView>,
>
    decreases s.len(),
{
    if s.len() == 0 {
        Some(Seq::empty())
    } else {
        match references_lines(s.drop_last(), width, code) {
            None => None,
            Some(a) => match reference_lines(s.last(), width, code) {
                None => None,
                Some(b) => Some(a + b),
            },
        }
    }
}

proof fn lemma_references_missing(s: Seq<MentionView>, k: int, width: nat, code: Seq<char>)
    requires
        0 <= k <= s.len(),
        references_lines(s.take(k), width, code) is None,
    ensures
        references_lines(s, width, code) is None,
    decreases s.len() - k,
{
    if k < s.len() {
        assert(s.take(k + 1).drop_last() =~= s.take(k));
        lemma_references_missing(s, k + 1, width, code);
    } else {
        assert(s.take(k) =~= s);
    }
}

proof fn lemma_references_found(s: Seq<MentionView>, width: nat, code: Seq<char>)
    requires
        references_lines(s, width, code) is Some,
    ensures
        forall|j: int| 0 <= j < s.len() ==> line_exists(#[trigger] s[j], code),
    decreases s.len(),
{
    if s.len() > 0 {
        lemma_references_found(s.drop_last(), width, code);
        assert forall|j: int| 0 <= j < s.len() implies line_exists(#[trigger] s[j], code) by {
            if j < s.len() - 1 {
                assert(s.drop_last()[j] == s[j]);
            }
        }
    }
}

/// The largest line number among the places of a message.
pub open spec fn max_line(main: MentionView, refs: Seq<MentionView>) -> nat
    decreases refs.len(),
{
    if refs.len() == 0 {
        vstd::math::max(main.span.start.line as int, main.span.end.line as int) as nat
    } else {
        let r = refs.last();
        vstd::math::max(
            max_line(main, refs.drop_last()) as int,
            vstd::math::max(r.span.start.line as int, r.span.end.line as int),
        ) as nat
    }
}

proof fn lemma_max_line(main: MentionView, refs: Seq<MentionView>)
    ensures
        lines_within(refs, max_line(main, refs)),
        main.span.start.line <= max_line(main, refs),
        main.span.end.line <= max_line(main, refs),
    decreases refs.len(),
{
    if refs.len() > 0 {
        lemma_max_line(main, refs.drop_last());
        let b = max_line(main, refs);
        assert forall|i: int| 0 <= i < refs.len() implies #[trigger] refs[i].span.start.line <= b
            && refs[i].span.end.line <= b by {
            if i < refs.len() - 1 {
                assert(refs.drop_last()[i] == refs[i]);
            }
        }
    }
}

fn max_line_of(main: &Mention, refs: &Vec<Mention>) -> (r: usize)
    ensures
        r == max_line(main@, mention_views(refs@)),
{
    let mut m = if main.span.start.line >= main.span.end.line {
        main.span.start.line
    } else {
        main.span.end.line
    };
    let mut i: usize = 0;
    while i < refs.len()
        invariant
            i <= refs.len(),
            m == max_line(main@, mention_views(refs@).take(i as int)),
        decreases refs.len() - i,
    {
        let ghost t = mention_views(refs@).take(i + 1);
        assert(t.drop_last() =~= mention_views(refs@).take(i as int));
        assert(t.last() == refs@[i as int]@);
        let r = &refs[i];
        let here = if r.span.start.line >= r.span.end.line {
            r.span.start.line
        } else {
            r.span.end.line
        };
        if here > m {
            m = here;
        }
        i = i + 1;
    }
    assert(mention_views(refs@).take(i as int) =~= mention_views(refs@));
    m
}

/// A message about `main`, with the other places `refs` and the code they
/// are in: the header, the file and position, then the places in order of
/// position, the main one among them. When `main` starts where it ends, the
/// message names the file and shows the main note alone. `None` when a line
/// that should be shown is missing from `code`.
pub open spec fn location_lines(
    cause: Seq<char>,
    main: MentionView,
    refs: Seq<MentionView>,
    source: ResolutionSource,
    code: Seq<char>,
) -> Option<Seq<StyledView>> {
    let width = decimal(max_line(main, refs)).len();
    let indent = spaces(width);
    let head = seq![
        sv(kind_word(main.kind), kind_style(main.kind)),
        sv(": "@ + cause, Style::Bold),
        sv("\n"@, Style::Plain),
        sv(indent, Style::Plain),
        sv("-->"@, Style::BlueBold),
        sv(" "@ + display_path(source), Style::Plain),
    ];
    let start = main.span.start;
    if start == main.span.end {
        Some(
            head + seq![
                sv("\n"@, Style::Plain),
                sv(indent + " "@, Style::Plain),
                sv("|"@, Style::BlueBold),
                sv(" "@, Style::Plain),
                sv(main.message, kind_style(main.kind)),
                sv("\n"@, Style::Plain),
            ],
        )
    } else {
        match references_lines(reference_order(main, refs), width, code) {
            None => None,
            Some(body) => Some(
                head + seq![
                    sv(
                        ":"@ + decimal(start.line as nat) + ":"@ + decimal(start.column as nat)
                            + "\n"@,
                        Style::Plain,
                    ),
                    sv(indent + " "@, Style::Plain),
                    sv("|"@, Style::BlueBold),
                    sv("\n"@, Style::Plain),
                ] + body,
            ),
        }
    }
}

/// Whether the places of a message can be shown (see `writable`).
pub open spec fn location_ok(main: MentionView, refs: Seq<MentionView>, code: Seq<char>) -> bool {
    main.span.start != main.span.end ==> writable(reference_order(main, refs), code)
}

pub fn emit(out: &mut Vec<Styled>, text: String, style: Style)
    ensures
        styled_views(final(out)@) == styled_views(old(out)@).push(sv(text@, style)),
{
    out.push(Styled { text, style });
    assert(styled_views(out@) =~= styled_views(old(out)@).push(sv(text@, style)));
}

pub fn emit_str(out: &mut Vec<Styled>, s: &str, style: Style)
    ensures
        styled_views(final(out)@) == styled_views(old(out)@).push(sv(s@, style)),
{
    emit(out, text(s), style);
}

/// The lines that show the place `r` (see `reference_lines`).
fn write_ref(r: &Mention, width: usize, code: &str) -> (res: Option<Vec<Styled>>)
    requires
        line_ok(r@, code@),
        line_exists(r@, code@) ==> decimal(r.span.start.line as nat).len() <= width,
    ensures
        match res {
            Some(v) => reference_lines(r@, width as nat, code@) == Some(styled_views(v@)),
            None => reference_lines(r@, width as nat, code@) is None,
        },
{
    let line = match nth_line(code, r.span.start.line - 1) {
        Some(l) => l,
        None => {
            return None;
        },
    };
    let end_col = if r.span.end.line > r.span.start.line {
        line.as_str().as_bytes().len()
    } else {
        r.span.end.column
    };
    let label = decimal_text(r.span.start.line);
    let mut out: Vec<Styled> = Vec::new();
    emit(&mut out, space_text(width - label.as_str().unicode_len()), Style::Plain);
    emit(&mut out, label, Style::BlueBold);
    emit_str(&mut out, " ", Style::Plain);
    emit_str(&mut out, "|", Style::BlueBold);
    let mut code_part = text(" ");
    code_part.append(trimmed_end(line.as_str()).as_str());
    code_part.append("\n");
    emit(&mut out, code_part, Style::Plain);
    let mut indent = space_text(width);
    indent.append(" ");
    emit(&mut out, indent, Style::Plain);
    emit_str(&mut out, "|", Style::BlueBold);
    let mut offset = text(" ");
    offset.append(space_text(r.span.start.column).as_str());
    emit(&mut out, offset, Style::Plain);
    emit(
        &mut out,
        repeated(underline_text(r.kind), end_col - r.span.start.column),
        kind_style_of(r.kind),
    );
    emit_str(&mut out, " ", Style::Plain);
    emit(&mut out, r.message.clone(), note_style_of(r.kind));
    emit_str(&mut out, "\n", Style::Plain);
    assert(styled_views(out@) =~= reference_lines(r@, width as nat, code@).unwrap());
    Some(out)
}

fn kind_style_of(k: Reference) -> (s: Style)
    ensures
        s == kind_style(k),
{
    match k {
        Reference::Error => Style::RedBold,
        Reference::Warning => Style::YellowBold,
        Reference::Info => Style::BlueBold,
    }
}

fn note_style_of(k: Reference) -> (s: Style)
    ensures
        s == note_style(k),
{
    match k {
        Reference::Error => Style::RedBold,
        _ => Style::BlueBold,
    }
}


/// Renders a message about `main`, with the other places `references`, in
/// the code read from `source` (see `location_lines`).
pub fn render_location(
    cause: &str,
    main: &Mention,
    references: Vec<Mention>,
    source: &ResolutionSource,
    code: &str,
) -> (r: Option<Vec<Styled>>)
    requires
        location_ok(main@, mention_views(references@), code@),
    ensures
        match r {
            Some(v) => location_lines(cause@, main@, mention_views(references@), *source, code@)
                == Some(styled_views(v@)),
            None => location_lines(
                cause@,
                main@,
                mention_views(references@),
                *source,
                code@,
            ) is None,
        },
{
    let ghost refs = mention_views(references@);
    let max = max_line_of(main, &references);
    let width = decimal_text(max).as_str().unicode_len();
    let ghost spec = location_lines(cause@, main@, refs, *source, code@);
    let mut out: Vec<Styled> = Vec::new();
    emit_str(&mut out, kind_word_text(main.kind), kind_style_of(main.kind));
    let mut header = text(": ");
    header.append(cause);
    emit(&mut out, header, Style::Bold);
    emit_str(&mut out, "\n", Style::Plain);
    emit(&mut out, space_text(width), Style::Plain);
    emit_str(&mut out, "-->", Style::BlueBold);
    let mut path = text(" ");
    path.append(source_path_text(source).as_str());
    emit(&mut out, path, Style::Plain);
    let start = main.span.start;
    let end = main.span.end;
    if start.line == end.line && start.column == end.column {
        emit_str(&mut out, "\n", Style::Plain);
        let mut pad = space_text(width);
        pad.append(" ");
        emit(&mut out, pad, Style::Plain);
        emit_str(&mut out, "|", Style::BlueBold);
        emit_str(&mut out, " ", Style::Plain);
        emit(&mut out, main.message.clone(), kind_style_of(main.kind));
        emit_str(&mut out, "\n", Style::Plain);
        assert(styled_views(out@) =~= spec.unwrap());
        return Some(out);
    }
    let mut position = text(":");
    position.append(decimal_text(start.line).as_str());
    position.append(":");
    position.append(decimal_text(start.column).as_str());
    position.append("\n");
    emit(&mut out, position, Style::Plain);
    let mut pad = space_text(width);
    pad.append(" ");
    emit(&mut out, pad, Style::Plain);
    emit_str(&mut out, "|", Style::BlueBold);
    emit_str(&mut out, "\n", Style::Plain);
    let ghost head = styled_views(out@);

    let sorted = sorted_by_start(&references);
    let (by, mut after) = split_at_start(&sorted, start);
    let mut order = by;
    order.push(main.copy());
    order.append(&mut after);
    let ghost ov = mention_views(order@);
    assert(ov =~= reference_order(main@, refs));
    proof {
        lemma_max_line(main@, refs);
        lemma_sort_within(refs, max as nat);
        lemma_split_within(sort_by_start(refs), start, max as nat);
        let x = starting_by(sort_by_start(refs), start);
        let y = starting_after(sort_by_start(refs), start);
        assert forall|k: int| 0 <= k < ov.len() implies #[trigger] ov[k].span.start.line <= max
            && ov[k].span.end.line <= max by {
            if k < x.len() {
                assert(ov[k] == x[k]);
            } else if k > x.len() {
                assert(ov[k] == y[k - x.len() - 1]);
            }
        }
    }
    let mut body: Vec<Styled> = Vec::new();
    let mut i: usize = 0;
    while i < order.len()
        invariant
            i <= order.len(),
            ov == mention_views(order@),
            ov == reference_order(main@, refs),
            refs == mention_views(references@),
            main.span.start != main.span.end,
            max == max_line(main@, refs),
            spec == location_lines(cause@, main@, refs, *source, code@),
            writable(ov, code@),
            lines_within(ov, max as nat),
            width == decimal(max as nat).len(),
            references_lines(ov.take(i as int), width as nat, code@) == Some(styled_views(body@)),
        decreases order.len() - i,
    {
        proof {
            lemma_references_found(ov.take(i as int), width as nat, code@);
            assert forall|j: int| 0 <= j < i implies line_exists(#[trigger] ov[j], code@) by {
                assert(ov.take(i as int)[j] == ov[j]);
            }
            assert(ov[i as int] == order@[i as int]@);
            assert(line_ok(ov[i as int], code@));
            lemma_decimal_len_monotone(ov[i as int].span.start.line as nat, max as nat);
            assert(ov.take(i + 1).drop_last() =~= ov.take(i as int));
            assert(ov.take(i + 1).last() == ov[i as int]);
        }
        match write_ref(&order[i], width, code) {
            None => {
                proof {
                    lemma_references_missing(ov, i + 1, width as nat, code@);
                    assert(spec is None);
                }
                return None;
            },
            Some(mut lines) => {
                let ghost before = styled_views(body@);
                let ghost added = styled_views(lines@);
                body.append(&mut lines);
                assert(styled_views(body@) =~= before + added);
            },
        }
        i = i + 1;
    }
    assert(ov.take(i as int) =~= ov);
    let ghost b = styled_views(body@);
    out.append(&mut body);
    assert(styled_views(out@) =~= head + b);
    assert(styled_views(out@) =~= spec.unwrap());
    Some(out)
}

} // verus!
