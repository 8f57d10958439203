//! Data models for the entities the svn client reports: working-copy info,
//! status entries, log entries, blame lines, diff lines and file-tree items.

use vstd::prelude::*;
use crate::text::{chars_of, line_spans, line_spans_of, lines_of, rskip_ws, string_of, trim_end};

verus! {

/// Working copy info from `svn info`.
#[derive(Clone, Debug, PartialEq, Eq)]
pub struct SvnInfo {
    /// Full URL of the working copy root
    pub url: String,
    /// Branch path relative to the repository root (e.g. "trunk",
    /// "branches/feature-x"); empty when svn reports no Relative URL
    pub branch: String,
    /// Current working copy revision
    pub revision: u64,
    /// Local path of the working copy root ("Working Copy Root Path:")
    pub wc_root: String,
    /// Repository root URL ("Repository Root:")
    pub repo_root: String,
    /// Repository UUID ("Repository UUID:")
    pub uuid: String,
    /// Author of the last change ("Last Changed Author:")
    pub last_author: String,
    /// Revision of the last change ("Last Changed Rev:")
    pub last_rev: u64,
    /// Date of the last change ("Last Changed Date:")
    pub last_date: String,
}

impl SvnInfo {
    /// The label `branch_label` returns: the branch, or the URL when svn
    /// reported no branch.
    pub open spec fn spec_branch_label(&self) -> Seq<char> {
        if self.branch@.len() == 0 {
            self.url@
        } else {
            self.branch@
        }
    }

    /// Short label for the status bar / confirm dialogs.
    pub fn branch_label(&self) -> (r: &str)
        ensures
            r@ == self.spec_branch_label(),
    {
        if self.branch.as_str().is_empty() {
            self.url.as_str()
        } else {
            self.branch.as_str()
        }
    }
}

/// A single entry from `svn status`.
#[derive(Clone, Debug, PartialEq, Eq)]
pub struct StatusEntry {
    /// Text status (first column), e.g. 'M', 'A', 'D', '?', 'C', '!', 'I'
    pub status: char,
    /// Props status (second column)
    pub props_status: char,
    /// Tree conflict marker (seventh column), 'C' when present
    pub tree_conflict: char,
    /// Path relative to the working copy root (as reported by svn)
    pub path: String,
    /// Whether the path is a directory on disk
    pub is_dir: bool,
}

impl StatusEntry {
    /// The entry is in conflict: a text, property or tree conflict.
    pub open spec fn spec_is_conflicted(&self) -> bool {
        self.status == 'C' || self.props_status == 'C' || self.tree_conflict == 'C'
    }

    pub fn is_conflicted(&self) -> (b: bool)
        ensures
            b == self.spec_is_conflicted(),
    {
        self.status == 'C' || self.props_status == 'C' || self.tree_conflict == 'C'
    }
}

/// A single log entry from `svn log -v`.
#[derive(Clone, Debug, PartialEq, Eq)]
pub struct LogEntry {
    pub revision: u64,
    pub author: String,
    pub date: String,
    /// Number of lines of the message
    pub line_count: u64,
    /// Changed paths: (action char, path)
    pub changed: Vec<(char, String)>,
    /// Full commit message
    pub message: String,
}

/// The mathematical value of a log entry.
pub struct SpecLogEntry {
    pub revision: u64,
    pub author: Seq<char>,
    pub date: Seq<char>,
    pub line_count: u64,
    pub changed: Seq<(char, Seq<char>)>,
    pub message: Seq<char>,
}

impl View for LogEntry {
    type V = SpecLogEntry;

    open spec fn view(&self) -> SpecLogEntry {
        SpecLogEntry {
            revision: self.revision,
            author: self.author@,
            date: self.date@,
            line_count: self.line_count,
            changed: self.changed@.map_values(|p: (char, String)| (p.0, p.1@)),
            message: self.message@,
        }
    }
}

/// The first non-empty sequence of `ls`, or the empty sequence.
pub open spec fn first_nonempty(ls: Seq<Seq<char>>) -> Seq<char>
    decreases ls.len(),
{
    if ls.len() == 0 {
        Seq::empty()
    } else if ls[0].len() > 0 {
        ls[0]
    } else {
        first_nonempty(ls.drop_first())
    }
}

/// The summary of a message: its first line that is not blank once its
/// trailing whitespace is removed (that line without the trailing
/// whitespace), or the empty text.
pub open spec fn message_summary(m: Seq<char>) -> Seq<char> {
    first_nonempty(lines_of(m).map_values(|l: Seq<char>| trim_end(l)))
}

impl LogEntry {
    /// First non-empty line of the message (for the summary list).
    pub fn summary(&self) -> (r: String)
        ensures
            r@ == message_summary(self.message@),
    {
        let v = chars_of(self.message.as_str());
        let spans = line_spans(&v);
        let ghost ls = lines_of(v@).map_values(|l: Seq<char>| trim_end(l));
        let mut k: usize = 0;
        assert(ls.skip(0) =~= ls);
        while k < spans.len()
            invariant
                v@ == self.message@,
                ls == lines_of(v@).map_values(|l: Seq<char>| trim_end(l)),
                line_spans_of(v@, spans@),
                k <= spans@.len(),
                first_nonempty(ls) == first_nonempty(ls.skip(k as int)),
            decreases spans.len() - k,
        {
            let (s, e) = spans[k];
            let e2 = rskip_ws(&v, s, e);
            assert(lines_of(v@)[k as int] == v@.subrange(s as int, e as int));
            assert(ls.skip(k as int)[0] == trim_end(lines_of(v@)[k as int]));
            if e2 > s {
                return string_of(&v, s, e2);
            }
            assert(ls.skip(k as int).drop_first() =~= ls.skip(k + 1));
            k = k + 1;
        }
        assert(ls.skip(k as int) =~= Seq::<Seq<char>>::empty());
        String::new()
    }
}

/// A single line of `svn blame` output.
#[derive(Clone, Debug, PartialEq, Eq)]
pub struct BlameLine {
    /// Revision number, or None for uncommitted lines ('-').
    pub revision: Option<u64>,
    pub author: String,
    pub content: String,
}

/// The mathematical value of a blame line.
pub struct SpecBlameLine {
    pub revision: Option<u64>,
    pub author: Seq<char>,
    pub content: Seq<char>,
}

impl View for BlameLine {
    type V = SpecBlameLine;

    open spec fn view(&self) -> SpecBlameLine {
        SpecBlameLine { revision: self.revision, author: self.author@, content: self.content@ }
    }
}

/// Kind of a diff line, used for colorization.
#[derive(Clone, Copy, Debug, PartialEq, Eq, Structural)]
pub enum DiffLineKind {
    /// `Index:` / `====` / `Property changes on:` lines
    Header,
    /// `---` / `+++` file headers
    FileHeader,
    /// `@@ -a,b +c,d @@` and `## ... ##` hunk headers
    Hunk,
    /// plain context line
    Context,
    /// `+` line
    Added,
    /// `-` line
    Removed,
    /// `\ No newline...` and other notices
    Note,
}

/// A rendered diff line.
#[derive(Clone, Debug)]
pub struct DiffLine {
    /// Optional left (old) line number
    pub old: Option<u64>,
    /// Optional right (new) line number
    pub new: Option<u64>,
    /// Kind used for colorization
    pub kind: DiffLineKind,
    /// Raw content (without the leading + / - / space)
    pub content: String,
}

/// The mathematical value of a diff line.
pub struct SpecDiffLine {
    pub old: Option<u64>,
    pub new: Option<u64>,
    pub kind: DiffLineKind,
    pub content: Seq<char>,
}

impl View for DiffLine {
    type V = SpecDiffLine;

    open spec fn view(&self) -> SpecDiffLine {
        SpecDiffLine { old: self.old, new: self.new, kind: self.kind, content: self.content@ }
    }
}

/// Diff content plus parsed hunk info for rendering with line numbers.
#[derive(Clone, Debug)]
pub struct ParsedDiff {
    /// One entry per line of the diff.
    pub lines: Vec<DiffLine>,
}

impl ParsedDiff {
    /// The lines, as values.
    pub open spec fn spec_lines(&self) -> Seq<SpecDiffLine> {
        self.lines@.map_values(|l: DiffLine| l@)
    }

    /// An empty diff.
    pub fn empty() -> (d: ParsedDiff)
        ensures
            d.spec_lines() == Seq::<SpecDiffLine>::empty(),
    {
        let d = ParsedDiff { lines: Vec::new() };
        assert(d.spec_lines() =~= Seq::<SpecDiffLine>::empty());
        d
    }
}

/// Kind of item in the file tree.
#[derive(Clone, Debug, PartialEq, Eq, Structural)]
pub enum TreeItemKind {
    Dir {
        expanded: bool,
    },
    File {
        /// Index into the raw status entry list
        entry: usize,
    },
}

/// A visible item of the file tree (flattened for rendering).
#[derive(Clone, Debug)]
pub struct TreeItem {
    pub depth: usize,
    pub path: String,
    pub name: String,
    pub kind: TreeItemKind,
}

/// The mathematical value of a tree item.
pub struct SpecTreeItem {
    pub depth: usize,
    pub path: Seq<char>,
    pub name: Seq<char>,
    pub kind: TreeItemKind,
}

impl View for TreeItem {
    type V = SpecTreeItem;

    open spec fn view(&self) -> SpecTreeItem {
        SpecTreeItem { depth: self.depth, path: self.path@, name: self.name@, kind: self.kind }
    }
}

} // verus!
