//! The state of a scrollable diff view, shared between the status tab's
//! diff pane and the fullscreen diff popup: what is shown (a parsed diff,
//! plain file content, a hint), the fixed commit header above it, the
//! line-number gutter, and scrolling and search.

use vstd::prelude::*;
use crate::components::EventState;
use crate::keys::Event;
use crate::models::{DiffLine, DiffLineKind, LogEntry, ParsedDiff, SpecDiffLine, SpecLogEntry};
use crate::parser::{parse_diff, parse_new_file_content, spec_new_file_content, spec_parse_diff};
use crate::text::{
    chars_of, decimal, digit_count, is_ws_char, line_spans, line_spans_of, lines_of, push_char, push_decimal,
    push_str, skip_ws, starts_with, starts_with_at, string_of, texts, trim, trim_range, trim_start,
};
use crate::text_search::{idle_state, lines_bytes, SearchView};
use crate::text_view::{search_step, SearchOutcome, TextView};
use vstd::utf8::encode_utf8;

verus! {

/// Max lines the fixed commit-info header above a diff may occupy, so
/// huge (merge) commit messages cannot eat the whole screen.
pub const DIFF_HEADER_MAX: usize = 5;

/// `out` with the lines of `message` appended, as many as fit below
/// `DIFF_HEADER_MAX` lines in all; when some had to be left out, the last
/// line gets a ` …` marker.
pub open spec fn capped(out: Seq<Seq<char>>, message: Seq<char>) -> Seq<Seq<char>> {
    let room: int = if out.len() >= DIFF_HEADER_MAX {
        0
    } else {
        DIFF_HEADER_MAX - out.len()
    };
    let ls = lines_of(message);
    let shown: int = if ls.len() < room {
        ls.len() as int
    } else {
        room
    };
    let res = out + ls.take(shown);
    if ls.len() > shown && res.len() > 0 {
        res.update(res.len() - 1, res.last() + seq![' ', '…'])
    } else {
        res
    }
}

/// Append message lines to `out` without exceeding `DIFF_HEADER_MAX`
/// total lines; the last line gets a `…` marker when truncated.
fn push_capped(out: &mut Vec<String>, message: &str)
    ensures
        texts(final(out)@) == capped(texts(old(out)@), message@),
{
    let room: usize = if out.len() >= DIFF_HEADER_MAX {
        0
    } else {
        DIFF_HEADER_MAX - out.len()
    };
    let v = chars_of(message);
    let spans = line_spans(&v);
    let ghost ls = lines_of(message@);
    let shown = if spans.len() < room {
        spans.len()
    } else {
        room
    };
    let ghost start = texts(out@);
    let mut k: usize = 0;
    while k < shown
        invariant
            v@ == message@,
            ls == lines_of(v@),
            line_spans_of(v@, spans@),
            shown <= spans@.len(),
            k <= shown,
            texts(out@) == start + ls.take(k as int),
        decreases shown - k,
    {
        let (s, e) = spans[k];
        assert(v@.subrange(s as int, e as int) == lines_of(v@)[k as int]);
        assert(k < ls.len());
        let line = string_of(&v, s, e);
        let ghost prev = texts(out@);
        out.push(line);
        assert(texts(out@) =~= prev.push(ls[k as int]));
        assert(ls.take(k + 1) =~= ls.take(k as int).push(ls[k as int]));
        assert(texts(out@) =~= start + ls.take(k + 1));
        k = k + 1;
    }
    if spans.len() > shown && out.len() > 0 {
        let ghost before = texts(out@);
        let ghost raw = out@;
        let mut last = out.pop().unwrap();
        assert(last@ == before.last());
        push_char(&mut last, ' ');
        push_char(&mut last, '…');
        assert(last@ =~= before.last() + seq![' ', '…']);
        out.push(last);
        assert(out@ =~= raw.drop_last().push(last));
        assert(texts(out@) =~= before.update(before.len() - 1, before.last() + seq![' ', '…']));
    }
}

/// The first header line of a revision: `r<N> | author | date`.
pub open spec fn revision_line(e: SpecLogEntry) -> Seq<char> {
    seq!['r'] + decimal(e.revision as nat) + seq![' ', '|', ' '] + e.author + seq![' ', '|', ' ']
        + e.date
}

/// Header lines for a single-revision diff: `r<N> | author | date` plus
/// message lines, capped at `DIFF_HEADER_MAX`. When the message is
/// longer, the last shown line ends with `…`.
pub fn revision_header(e: &LogEntry) -> (r: Vec<String>)
    ensures
        texts(r@) == capped(seq![revision_line(e@)], e.message@),
{
    let mut first = String::new();
    push_char(&mut first, 'r');
    push_decimal(&mut first, e.revision);
    push_char(&mut first, ' ');
    push_char(&mut first, '|');
    push_char(&mut first, ' ');
    push_str(&mut first, e.author.as_str());
    push_char(&mut first, ' ');
    push_char(&mut first, '|');
    push_char(&mut first, ' ');
    push_str(&mut first, e.date.as_str());
    assert(first@ =~= revision_line(e@));
    let mut out: Vec<String> = Vec::new();
    out.push(first);
    assert(texts(out@) =~= seq![revision_line(e@)]);
    push_capped(&mut out, e.message.as_str());
    out
}

/// `rev` lies in the revision range `from..=to`.
pub open spec fn in_range(rev: u64, from: u64, to: u64) -> bool {
    from <= rev && rev <= to
}

/// How many of `es` lie in the revision range `from..=to`.
pub open spec fn count_in_range(es: Seq<LogEntry>, from: u64, to: u64) -> nat
    decreases es.len(),
{
    if es.len() == 0 {
        0
    } else {
        (if in_range(es[0].revision, from, to) {
            1nat
        } else {
            0nat
        }) + count_in_range(es.drop_first(), from, to)
    }
}

/// The index of the first of `es` in the revision range `from..=to`.
pub open spec fn first_in_range(es: Seq<LogEntry>, from: u64, to: u64) -> Option<int>
    decreases es.len(),
{
    if es.len() == 0 {
        None
    } else if in_range(es[0].revision, from, to) {
        Some(0)
    } else {
        match first_in_range(es.drop_first(), from, to) {
            Some(i) => Some(i + 1),
            None => None,
        }
    }
}

/// The first header line of a range diff: `r<from>..r<to>`, followed by
/// ` (n commits)` when `n` loaded entries fall into the range.
pub open spec fn range_line(from: u64, to: u64, n: nat) -> Seq<char> {
    let base = seq!['r'] + decimal(from as nat) + seq!['.', '.', 'r'] + decimal(to as nat);
    if n == 0 {
        base
    } else {
        base + seq![' ', '('] + decimal(n) + " commits)"@
    }
}

/// Header lines for a combined range diff: `r<from>..r<to> (n commits)`
/// plus the message of the newest revision in the range (when it fits).
/// `entries` are the loaded log entries (newest first); when none of
/// them fall into the range the count is omitted.
pub fn range_header(from: u64, to: u64, entries: &[LogEntry]) -> (r: Vec<String>)
    ensures
        ({
            let n = count_in_range(entries@, from, to);
            let first = seq![range_line(from, to, n)];
            texts(r@) == match first_in_range(entries@, from, to) {
                Some(i) => capped(first, entries@[i].message@),
                None => first,
            }
        }),
{
    let mut count: usize = 0;
    let mut newest: Option<usize> = None;
    let mut k: usize = 0;
    assert(entries@.skip(0) =~= entries@);
    while k < entries.len()
        invariant
            k <= entries@.len(),
            count <= k,
            count_in_range(entries@, from, to) == count + count_in_range(
                entries@.skip(k as int),
                from,
                to,
            ),
            first_in_range(entries@, from, to) == match newest {
                Some(i) => Some(i as int),
                None => match first_in_range(entries@.skip(k as int), from, to) {
                    Some(j) => Some(j + k),
                    None => None,
                },
            },
            newest matches Some(i) ==> i < k,
        decreases entries.len() - k,
    {
        let ghost rest = entries@.skip(k as int);
        assert(rest.drop_first() =~= entries@.skip(k + 1));
        assert(rest[0] == entries@[k as int]);
        let rev = entries[k].revision;
        if from <= rev && rev <= to {
            count = count + 1;
            if newest.is_none() {
                newest = Some(k);
            }
        }
        k = k + 1;
    }
    let mut first = String::new();
    push_char(&mut first, 'r');
    push_decimal(&mut first, from);
    push_char(&mut first, '.');
    push_char(&mut first, '.');
    push_char(&mut first, 'r');
    push_decimal(&mut first, to);
    if count > 0 {
        push_char(&mut first, ' ');
        push_char(&mut first, '(');
        push_decimal(&mut first, count as u64);
        push_str(&mut first, " commits)");
    }
    assert(first@ =~= range_line(from, to, count as nat));
    let mut out: Vec<String> = Vec::new();
    out.push(first);
    assert(texts(out@) =~= seq![range_line(from, to, count as nat)]);
    match newest {
        Some(i) => {
            push_capped(&mut out, entries[i].message.as_str());
        },
        None => {},
    }
    out
}

/// The largest line number of `l` (0 for a line without numbers).
pub open spec fn line_number(l: SpecDiffLine) -> nat {
    let a: nat = match l.old {
        Some(n) => n as nat,
        None => 0,
    };
    let b: nat = match l.new {
        Some(n) => n as nat,
        None => 0,
    };
    if a >= b {
        a
    } else {
        b
    }
}

/// The largest line number in `ls`, 0 when there is none.
pub open spec fn max_line_number(ls: Seq<SpecDiffLine>) -> nat
    decreases ls.len(),
{
    if ls.len() == 0 {
        0
    } else {
        let rest = max_line_number(ls.drop_last());
        let here = line_number(ls.last());
        if here >= rest {
            here
        } else {
            rest
        }
    }
}

/// Column width of one line-number field of a diff with lines `ls`: the
/// number of digits of its largest line number, at least 3.
pub open spec fn spec_line_number_width(ls: Seq<SpecDiffLine>) -> nat {
    let d = decimal(max_line_number(ls)).len();
    if d >= 3 {
        d
    } else {
        3
    }
}

/// Column width of one line-number field: at least 3, widened to fit the
/// largest line number in the diff so 4+-digit numbers stay aligned.
pub fn line_number_width(parsed: &ParsedDiff) -> (w: usize)
    ensures
        w == spec_line_number_width(parsed.spec_lines()),
        3 <= w <= 20,
{
    let ghost ls = parsed.spec_lines();
    let mut max_n: u64 = 0;
    let mut k: usize = 0;
    while k < parsed.lines.len()
        invariant
            ls == parsed.spec_lines(),
            k <= ls.len(),
            max_n as nat == max_line_number(ls.take(k as int)),
        decreases parsed.lines.len() - k,
    {
        let dl = &parsed.lines[k];
        let a: u64 = match dl.old {
            Some(n) => n,
            None => 0,
        };
        let b: u64 = match dl.new {
            Some(n) => n,
            None => 0,
        };
        let here = if a >= b {
            a
        } else {
            b
        };
        assert(ls.take(k + 1).drop_last() =~= ls.take(k as int));
        assert(ls.take(k + 1).last() == dl@);
        if here > max_n {
            max_n = here;
        }
        k = k + 1;
    }
    assert(ls.take(ls.len() as int) =~= ls);
    let digits = digit_count(max_n);
    if digits >= 3 {
        digits
    } else {
        3
    }
}

/// The patterns that mark the start of a diff.
pub open spec fn looks_like_diff_text(content: Seq<char>) -> bool {
    let ls = lines_of(trim_start(content));
    ls.len() > 0 && {
        let first = ls[0];
        ||| starts_with(first, "Index: "@)
        ||| starts_with(first, "Property changes on:"@)
        ||| starts_with(first, "diff --git "@)
        ||| (starts_with(first, "--- "@) && ls.len() > 1 && starts_with(ls[1], "+++ "@))
    }
}

/// Decide whether raw content is a unified diff (vs. plain text, e.g. an
/// unversioned file shown as all-added lines). Only the *start* of the
/// content counts: every file section of real `svn diff` output begins
/// with "Index: ", property-only diffs with "Property changes on:", and
/// patch files (previewed through the diff popup) may be git-format
/// ("diff --git ") or plain `diff -u` output (a "--- "/"+++ " header
/// pair). A hunk header ("@@ ...") mid-file is just text.
pub fn looks_like_diff(content: &str) -> (b: bool)
    ensures
        b == looks_like_diff_text(content@),
{
    let v = chars_of(content);
    let st = skip_ws(&v, 0, v.len());
    assert(v@.subrange(0, v@.len() as int) =~= v@);
    let trimmed = string_of(&v, st, v.len());
    let t = chars_of(trimmed.as_str());
    let spans = line_spans(&t);
    if spans.len() == 0 {
        return false;
    }
    let (s0, e0) = spans[0];
    assert(t@.subrange(s0 as int, e0 as int) == lines_of(t@)[0]);
    let index = chars_of("Index: ");
    let props = chars_of("Property changes on:");
    let git = chars_of("diff --git ");
    let minus = chars_of("--- ");
    let plus = chars_of("+++ ");
    if starts_with_at(&t, s0, e0, &index) || starts_with_at(&t, s0, e0, &props) || starts_with_at(
        &t,
        s0,
        e0,
        &git,
    ) {
        return true;
    }
    if starts_with_at(&t, s0, e0, &minus) && spans.len() > 1 {
        let (s1, e1) = spans[1];
        assert(t@.subrange(s1 as int, e1 as int) == lines_of(t@)[1]);
        return starts_with_at(&t, s1, e1, &plus);
    }
    false
}

/// What a diff view does with its content: the placeholder reason (or
/// none) and the lines to show. Blank content has no textual diff; content
/// that starts like a diff is parsed as one; anything else is shown as a
/// new file, every line added.
pub open spec fn content_lines(content: Seq<char>) -> (Option<Seq<char>>, Seq<SpecDiffLine>) {
    if trim(content).len() == 0 {
        (Some("No textual diff"@), Seq::empty())
    } else if looks_like_diff_text(content) {
        (None, spec_parse_diff(content))
    } else {
        (None, spec_new_file_content(content))
    }
}

/// What `UnicodeWidthStr::width` gives for the text `s`: its display width
/// in terminal columns.
pub uninterp spec fn display_width(s: Seq<char>) -> usize;

/// `unicode_width::UnicodeWidthStr::width`: the display width of `s`,
/// named [`display_width`]; the width tables themselves are not restated.
#[verifier::external_body]
pub(crate) fn str_display_width(s: &str) -> (w: usize)
    ensures
        w == display_width(s@),
{
    unicode_width::UnicodeWidthStr::width(s)
}

/// A line of `kind` is drawn with the line-number gutter.
pub open spec fn numbered(kind: DiffLineKind) -> bool {
    kind == DiffLineKind::Context || kind == DiffLineKind::Added || kind == DiffLineKind::Removed
}

/// The columns one line takes: its display width `w`, plus the gutter for
/// numbered lines (saturating at `usize::MAX`).
pub open spec fn line_columns(kind: DiffLineKind, w: int, gutter: int) -> int {
    if numbered(kind) {
        if w + gutter > usize::MAX {
            usize::MAX as int
        } else {
            w + gutter
        }
    } else {
        w
    }
}

/// The widest of the lines `ls`, whose display widths are `ws`, with a
/// gutter of `gutter` columns; 0 for no lines.
pub open spec fn widest(ls: Seq<SpecDiffLine>, ws: Seq<usize>, gutter: int) -> int
    decreases ls.len(),
{
    if ls.len() == 0 {
        0
    } else {
        let rest = widest(ls.drop_last(), ws.take(ls.len() - 1), gutter);
        let here = line_columns(ls.last().kind, ws[ls.len() - 1] as int, gutter);
        if here >= rest {
            here
        } else {
            rest
        }
    }
}

/// Display width of the widest rendered line of `lines`, given the display
/// width `widths[i]` of each line's content: numbered lines (context,
/// added, removed) also take the line-number gutter, two fields of
/// `num_w` columns and three separator columns.
pub fn widest_line(lines: &[DiffLine], widths: &[usize], num_w: usize) -> (r: usize)
    requires
        widths@.len() == lines@.len(),
        num_w <= 20,
    ensures
        r == widest(lines@.map_values(|l: DiffLine| l@), widths@, 2 * num_w + 3),
{
    let gutter = 2 * num_w + 3;
    let ghost ls = lines@.map_values(|l: DiffLine| l@);
    let mut best: usize = 0;
    let mut k: usize = 0;
    while k < lines.len()
        invariant
            ls == lines@.map_values(|l: DiffLine| l@),
            widths@.len() == lines@.len(),
            gutter == 2 * num_w + 3,
            k <= lines@.len(),
            best == widest(ls.take(k as int), widths@.take(k as int), gutter as int),
        decreases lines.len() - k,
    {
        let w = widths[k];
        let kind = lines[k].kind;
        let cols = match kind {
            DiffLineKind::Context | DiffLineKind::Added | DiffLineKind::Removed => {
                if w > usize::MAX - gutter {
                    usize::MAX
                } else {
                    w + gutter
                }
            },
            _ => w,
        };
        assert(ls.take(k + 1).drop_last() =~= ls.take(k as int));
        assert(widths@.take(k + 1).take(k as int) =~= widths@.take(k as int));
        assert(ls.take(k + 1).last() == lines@[k as int]@);
        if cols > best {
            best = cols;
        }
        k = k + 1;
    }
    assert(ls.take(ls.len() as int) =~= ls);
    assert(widths@.take(widths@.len() as int) =~= widths@);
    best
}

/// The display widths of the contents of `ls`.
pub open spec fn content_widths(ls: Seq<SpecDiffLine>) -> Seq<usize> {
    ls.map_values(|l: SpecDiffLine| display_width(l.content))
}

/// A scrollable view of a parsed diff.
pub struct DiffView {
    pub title: String,
    pub parsed: ParsedDiff,
    /// Scroll offsets + incremental search (shared text-view plumbing)
    pub tv: TextView,
    pub pending: bool,
    /// Set when there is nothing to show
    pub empty_reason: Option<String>,
    pub focused: bool,
    /// Fixed commit-info lines above the diff (revision/range diffs);
    /// never scrolled, capped at `DIFF_HEADER_MAX`
    pub header: Vec<String>,
    /// Search is only consulted when `search_enabled` is set (fullscreen
    /// popup); the status-tab diff pane leaves search off.
    pub search_enabled: bool,
    /// Column width of one line-number field (at least 3), sized to the
    /// largest line number in the diff. Rendering and the h-scroll clamp
    /// both derive the gutter width from this, so they can never disagree.
    pub num_w: usize,
}

/// The text of an optional string.
pub open spec fn opt_text(s: Option<String>) -> Option<Seq<char>> {
    match s {
        Some(t) => Some(t@),
        None => None,
    }
}

impl DiffView {
    /// The fixed header lines.
    pub open spec fn header_lines(&self) -> Seq<Seq<char>> {
        texts(self.header@)
    }

    /// The column width of one line-number field.
    pub open spec fn number_width(&self) -> usize {
        self.num_w
    }

    pub fn new(title: &str) -> (d: DiffView)
        ensures
            d.title@ == title@,
            d.parsed.spec_lines() == Seq::<SpecDiffLine>::empty(),
            d.tv.scroll == 0 && d.tv.hscroll == 0 && d.tv.max_width == 0,
            d.tv.search@ == idle_state(),
            d.pending,
            d.empty_reason is None,
            d.focused,
            d.header_lines() == Seq::<Seq<char>>::empty(),
            !d.search_enabled,
            d.number_width() == 3,
    {
        let d = DiffView {
            title: title.to_owned(),
            parsed: ParsedDiff::empty(),
            tv: TextView::new(),
            pending: true,
            empty_reason: None,
            focused: true,
            header: Vec::new(),
            search_enabled: false,
            num_w: 3,
        };
        assert(d.header_lines() =~= Seq::<Seq<char>>::empty());
        d
    }

    /// Set the fixed commit-info header (capped at `DIFF_HEADER_MAX`).
    pub fn set_header(&mut self, header: Vec<String>)
        ensures
            final(self).header_lines() == texts(header@).take(
                if header@.len() <= DIFF_HEADER_MAX {
                    header@.len() as int
                } else {
                    DIFF_HEADER_MAX as int
                },
            ),
            final(self).title == old(self).title,
            final(self).parsed == old(self).parsed,
            final(self).tv == old(self).tv,
            final(self).pending == old(self).pending,
            final(self).empty_reason == old(self).empty_reason,
            final(self).focused == old(self).focused,
            final(self).search_enabled == old(self).search_enabled,
            final(self).number_width() == old(self).number_width(),
    {
        let mut header = header;
        let n = if header.len() <= DIFF_HEADER_MAX {
            header.len()
        } else {
            DIFF_HEADER_MAX
        };
        let ghost full = header@;
        header.truncate(n);
        assert(texts(header@) =~= texts(full).take(n as int));
        self.header = header;
    }

    /// The fixed commit-info header lines, if any.
    pub fn header(&self) -> (h: &[String])
        ensures
            texts(h@) == self.header_lines(),
    {
        self.header.as_slice()
    }

    /// Show the loading state under a new title.
    pub fn set_loading(&mut self, title: String)
        ensures
            final(self).title == title,
            final(self).pending,
            final(self).empty_reason is None,
            final(self).tv.scroll == 0 && final(self).tv.hscroll == 0 && final(self).tv.max_width
                == 0,
            final(self).tv.search@ == idle_state(),
            final(self).parsed == old(self).parsed,
            final(self).header_lines() == old(self).header_lines(),
            final(self).focused == old(self).focused,
            final(self).search_enabled == old(self).search_enabled,
            final(self).number_width() == old(self).number_width(),
    {
        self.title = title;
        self.pending = true;
        self.empty_reason = None;
        self.tv.reset();
    }

    /// Show a placeholder message instead of a diff (e.g. "select a file").
    pub fn set_hint(&mut self, title: String, reason: String)
        ensures
            final(self).title == title,
            !final(self).pending,
            final(self).empty_reason == Some(reason),
            final(self).parsed.spec_lines() == Seq::<SpecDiffLine>::empty(),
            final(self).number_width() == 3,
            final(self).tv.scroll == 0 && final(self).tv.hscroll == 0 && final(self).tv.max_width
                == 0,
            final(self).tv.search@ == idle_state(),
            final(self).header_lines() == old(self).header_lines(),
            final(self).focused == old(self).focused,
            final(self).search_enabled == old(self).search_enabled,
    {
        self.title = title;
        self.pending = false;
        self.empty_reason = Some(reason);
        self.parsed = ParsedDiff::empty();
        self.num_w = 3;
        self.tv.reset();
    }

    /// Set raw diff text (or raw file content for unversioned files):
    /// see [`content_lines`]. Both scroll offsets and the search are reset,
    /// the gutter is sized to the largest line number and the widest line
    /// is measured for the horizontal scroll bound.
    pub fn set_content(&mut self, title: String, content: &str)
        ensures
            final(self).title == title,
            !final(self).pending,
            opt_text(final(self).empty_reason) == content_lines(content@).0,
            final(self).parsed.spec_lines() == content_lines(content@).1,
            final(self).number_width() == spec_line_number_width(content_lines(content@).1),
            final(self).tv.max_width == widest(
                content_lines(content@).1,
                content_widths(content_lines(content@).1),
                2 * final(self).number_width() + 3,
            ),
            final(self).tv.scroll == 0 && final(self).tv.hscroll == 0,
            final(self).tv.search@ == idle_state(),
            final(self).header_lines() == old(self).header_lines(),
            final(self).focused == old(self).focused,
            final(self).search_enabled == old(self).search_enabled,
    {
        self.title = title;
        self.pending = false;
        self.tv.reset();
        let v = chars_of(content);
        let (a, b) = trim_range(&v, 0, v.len());
        assert(v@.subrange(0, v@.len() as int) =~= v@);
        if a == b {
            self.empty_reason = Some("No textual diff".to_owned());
            self.parsed = ParsedDiff::empty();
        } else if looks_like_diff(content) {
            self.parsed = parse_diff(content);
            self.empty_reason = None;
        } else {
            self.parsed = parse_new_file_content(content);
            self.empty_reason = None;
        }
        self.num_w = line_number_width(&self.parsed);
        let w = self.compute_max_width();
        self.tv.max_width = w;
    }

    /// Display width of the widest rendered line, including the
    /// line-number gutter (" 12  34 │ ", 2*num_w + 3 columns) for
    /// numbered lines.
    fn compute_max_width(&self) -> (w: usize)
        requires
            self.num_w <= 20,
        ensures
            w == widest(
                self.parsed.spec_lines(),
                content_widths(self.parsed.spec_lines()),
                2 * self.num_w + 3,
            ),
    {
        let mut widths: Vec<usize> = Vec::new();
        let mut k: usize = 0;
        while k < self.parsed.lines.len()
            invariant
                k <= self.parsed.lines@.len(),
                widths@ == content_widths(self.parsed.spec_lines()).take(k as int),
            decreases self.parsed.lines.len() - k,
        {
            let w = str_display_width(self.parsed.lines[k].content.as_str());
            widths.push(w);
            assert(widths@ =~= content_widths(self.parsed.spec_lines()).take(k + 1));
            k = k + 1;
        }
        assert(widths@ =~= content_widths(self.parsed.spec_lines()));
        assert(self.parsed.lines@.map_values(|l: DiffLine| l@) =~= self.parsed.spec_lines());
        widest_line(self.parsed.lines.as_slice(), widths.as_slice(), self.num_w)
    }

    /// Scrolling keys over the diff's lines (see `TextView::scroll_event`).
    pub fn event(&mut self, ev: &Event) -> (e: EventState)
        ensures
            final(self).tv.max_width == old(self).tv.max_width,
            final(self).tv.search@ == old(self).tv.search@,
            match ev {
                Event::Key(k) => match crate::text_view::scroll_key(
                    *k,
                    old(self).tv.scroll as int,
                    old(self).tv.hscroll as int,
                    old(self).parsed.lines@.len() as int,
                ) {
                    Some((s, h)) => e.consumed && final(self).tv.scroll == s && final(self).tv.hscroll
                        == h,
                    None => !e.consumed && final(self).tv.scroll == old(self).tv.scroll
                        && final(self).tv.hscroll == old(self).tv.hscroll,
                },
                _ => !e.consumed && final(self).tv.scroll == old(self).tv.scroll
                    && final(self).tv.hscroll == old(self).tv.hscroll,
            },
            final(self).parsed == old(self).parsed,
            final(self).search_enabled == old(self).search_enabled,
            final(self).focused == old(self).focused,
            final(self).title == old(self).title,
            final(self).header == old(self).header,
    {
        let len = self.parsed.lines.len();
        self.tv.scroll_event(ev, len)
    }

    /// Handle search-related input (`/`, live typing, `n`/`N`).
    ///
    /// Only active when `search_enabled` (fullscreen popup); returns
    /// `Some(consumed)` when the event was search business, `None` so the
    /// caller can fall back to scrolling/closing. A jump to a match scrolls
    /// its line to the top. Esc is *not* handled here: it interacts with
    /// closing the popup, which the view cannot do.
    pub fn search_event(&mut self, ev: &Event) -> (r: Option<EventState>)
        ensures
            final(self).parsed == old(self).parsed,
            final(self).search_enabled == old(self).search_enabled,
            final(self).focused == old(self).focused,
            final(self).title == old(self).title,
            final(self).header == old(self).header,
            final(self).tv.hscroll == old(self).tv.hscroll,
            final(self).tv.max_width == old(self).tv.max_width,
            !old(self).search_enabled ==> r is None && final(self).tv.scroll == old(self).tv.scroll
                && final(self).tv.search@ == old(self).tv.search@,
            old(self).search_enabled ==> {
                let (v, o) = search_step(
                    old(self).tv.search@,
                    *ev,
                    contents_bytes(old(self).parsed.lines@),
                    old(self).tv.scroll as int,
                );
                &&& final(self).tv.search@ == v
                &&& match o {
                    SearchOutcome::Ignored => r is None && final(self).tv.scroll == old(self).tv.scroll,
                    SearchOutcome::Consumed => r == Some(EventState { consumed: true })
                        && final(self).tv.scroll == old(self).tv.scroll,
                    SearchOutcome::Reveal(line) => r == Some(EventState { consumed: true })
                        && final(self).tv.scroll == line,
                }
            },
    {
        if !self.search_enabled {
            return None;
        }
        let mut lines: Vec<&str> = Vec::new();
        let mut k: usize = 0;
        while k < self.parsed.lines.len()
            invariant
                k <= self.parsed.lines@.len(),
                lines@.len() == k,
                forall|i: int| 0 <= i < k ==> (#[trigger] lines@[i])@ == self.parsed.lines@[i].content@,
            decreases self.parsed.lines.len() - k,
        {
            lines.push(self.parsed.lines[k].content.as_str());
            k = k + 1;
        }
        assert(lines_bytes(lines@) =~= contents_bytes(self.parsed.lines@));
        let from = self.tv.scroll;
        match self.tv.search_event(ev, lines.as_slice(), from) {
            SearchOutcome::Ignored => None,
            SearchOutcome::Consumed => Some(EventState::consumed()),
            SearchOutcome::Reveal(line) => {
                self.tv.scroll = line;
                Some(EventState::consumed())
            },
        }
    }
}

/// The bytes of the contents of diff lines, as the search sees them.
pub open spec fn contents_bytes(ls: Seq<DiffLine>) -> Seq<Seq<u8>> {
    ls.map_values(|l: DiffLine| encode_utf8(l.content@))
}

} // verus!
