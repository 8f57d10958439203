//! Text as the views show it: lines of spans, each span with the role
//! that decides its style.

use vstd::prelude::*;

verus! {

/// How a span of text is shown.
#[derive(Clone, Copy, Debug, PartialEq, Eq, Structural)]
pub enum Role {
    /// A section title
    Header,
    /// Labels and separators
    Dim,
    /// Plain values
    Text,
    /// A revision number
    Revision,
    /// An author or branch name
    Author,
    /// The working copy is behind HEAD
    Behind,
    /// Up to date / clean
    UpToDate,
    /// HEAD could not be read
    Error,
    /// A count of entries with this status char
    Status(char),
    /// The number of staged paths
    Staged,
    /// Unstyled
    Plain,
    /// A commit message
    Message,
    /// The action letter of a changed path
    Action(char),
    /// The mark of a marked revision
    Marker,
    /// A char the fuzzy query matched
    Matched,
    /// Activity and information
    Info,
    /// The current search match
    Current,
    /// A line number of the diff gutter, and the gutter's rule
    LineNumber,
    /// An `Index:` / `====` / `Property changes on:` line of a diff
    DiffHeader,
    /// A `---` / `+++` file header of a diff
    DiffFileHeader,
    /// A hunk header of a diff
    DiffHunk,
    /// A notice line of a diff
    DiffNote,
    /// An added line
    Added,
    /// A removed line
    Removed,
    /// A blame revision, with the index of its colour among twelve
    BlameRev(u8),
}

/// A span of text and its role.
#[derive(Clone, Debug)]
pub struct InfoSpan {
    pub text: String,
    pub role: Role,
}

/// A span by value.
pub open spec fn span_view(s: InfoSpan) -> (Seq<char>, Role) {
    (s.text@, s.role)
}

/// The lines of spans by value.
pub open spec fn lines_view(v: Seq<Vec<InfoSpan>>) -> Seq<Seq<(Seq<char>, Role)>> {
    v.map_values(|l: Vec<InfoSpan>| l@.map_values(|s: InfoSpan| span_view(s)))
}

/// The span of `text` with `role`.
pub fn span(text: String, role: Role) -> (s: InfoSpan)
    ensures
        span_view(s) == (text@, role),
{
    InfoSpan { text, role }
}

/// A copy of the span `s`.
pub fn copy_span(s: &InfoSpan) -> (r: InfoSpan)
    ensures
        span_view(r) == span_view(*s),
{
    InfoSpan { text: s.text.clone(), role: s.role }
}

/// The span of `text` with `role`.
pub fn text_span(text: &str, role: Role) -> (s: InfoSpan)
    ensures
        span_view(s) == (text@, role),
{
    InfoSpan { text: text.to_owned(), role }
}

/// Append the line `l` to `out`.
pub fn push_line(out: &mut Vec<Vec<InfoSpan>>, l: Vec<InfoSpan>)
    ensures
        lines_view(final(out)@) == lines_view(old(out)@).push(l@.map_values(|s: InfoSpan| span_view(s))),
{
    let ghost before = lines_view(out@);
    out.push(l);
    assert(lines_view(out@) =~= before.push(l@.map_values(|s: InfoSpan| span_view(s))));
}

} // verus!
