//! Parsers for the output of `svn status`, `svn log`, `svn blame`,
//! `svn diff`, `svn info` and `svn --version`.
//!
//! Each parser is specified by a spec function over the chars of its
//! input: most outputs are line-oriented, so the specs are folds over
//! `crlf_lines(text)` with a small per-line step.

use vstd::prelude::*;
use crate::text::{
    bytes_equal_at, bytes_start_with_at, utf8_to_string,
    replace_all, replace_chars, split_char, split_str, utf8_lossy, utf8_lossy_string,
    chars_of, equals_at, find, find_at, is_ws, is_ws_char, crlf_line_spans, crlf_spans_of, crlf_lines,
    crlf_byte_line_spans, crlf_byte_spans_of, crlf_byte_lines,
    parse_unsigned, parse_unsigned_at, push_char, rfind, rfind_at, skip_char, skip_ws, starts_with,
    starts_with_at, string_of, trim, trim_end, trim_range, trim_start, trim_start_char, lemma_trim_idempotent,
    lemma_trim_start_char_first,
};
use crate::models::{
    BlameLine, DiffLine, DiffLineKind, LogEntry, ParsedDiff, SpecBlameLine, SpecDiffLine, SpecLogEntry,
    StatusEntry, SvnInfo,
};
use vstd::utf8::{decode_utf8, valid_utf8};
use vstd::string::StringSliceAdditionalSpecFns;
use vstd::slice::slice_subrange;

verus! {

// =====================================================================
// Words and hunk headers
// =====================================================================

/// Length of the run of non-whitespace chars that starts `s`.
pub open spec fn word_len(s: Seq<char>) -> nat
    decreases s.len(),
{
    if s.len() == 0 || is_ws(s[0]) {
        0
    } else {
        1 + word_len(s.drop_first())
    }
}

pub proof fn lemma_word_len(s: Seq<char>)
    ensures
        word_len(s) <= s.len(),
        s.len() > 0 && !is_ws(s[0]) ==> word_len(s) >= 1,
    decreases s.len(),
{
    if s.len() > 0 && !is_ws(s[0]) {
        lemma_word_len(s.drop_first());
    }
}

pub proof fn lemma_trim_start_len(s: Seq<char>)
    ensures
        trim_start(s).len() <= s.len(),
        trim_start(s).len() > 0 ==> !is_ws(trim_start(s)[0]),
    decreases s.len(),
{
    if s.len() > 0 && is_ws(s[0]) {
        lemma_trim_start_len(s.drop_first());
    }
}

/// The whitespace-separated words of `s` (`str::split_whitespace`).
pub open spec fn words(s: Seq<char>) -> Seq<Seq<char>>
    decreases s.len(),
{
    let t = trim_start(s);
    if t.len() == 0 {
        Seq::empty()
    } else {
        proof {
            lemma_trim_start_len(s);
            lemma_word_len(t);
        }
        seq![t.take(word_len(t) as int)] + words(t.skip(word_len(t) as int))
    }
}

/// End of the word starting at `s` in `v[s..e]`: `v[s..r]` has
/// `word_len(v[s..e])` chars.
fn word_end(v: &Vec<char>, s: usize, e: usize) -> (r: usize)
    requires
        s <= e <= v@.len(),
    ensures
        s <= r <= e,
        r - s == word_len(v@.subrange(s as int, e as int)),
{
    let mut j = s;
    while j < e && !is_ws_char(v[j])
        invariant
            s <= j <= e <= v@.len(),
            word_len(v@.subrange(s as int, e as int)) == (j - s) + word_len(v@.subrange(j as int, e as int)),
        decreases e - j,
    {
        assert(v@.subrange(j as int, e as int).drop_first() =~= v@.subrange(j + 1, e as int));
        j = j + 1;
    }
    j
}

/// The next word of `v[s..e]`: `None` when only whitespace is left,
/// otherwise its bounds `(a, b)`, with `words(v[s..e])` being
/// `v[a..b]` followed by `words(v[b..e])`.
fn next_word(v: &Vec<char>, s: usize, e: usize) -> (r: Option<(usize, usize)>)
    requires
        s <= e <= v@.len(),
    ensures
        match r {
            None => words(v@.subrange(s as int, e as int)) == Seq::<Seq<char>>::empty(),
            Some((a, b)) => s <= a < b <= e && words(v@.subrange(s as int, e as int)) == seq![
                v@.subrange(a as int, b as int),
            ] + words(v@.subrange(b as int, e as int)),
        },
{
    let a = skip_ws(v, s, e);
    if a == e {
        assert(v@.subrange(a as int, e as int).len() == 0);
        return None;
    }
    let b = word_end(v, a, e);
    proof {
        let t = v@.subrange(a as int, e as int);
        assert(t[0] == v@[a as int]);
        lemma_trim_start_len(v@.subrange(s as int, e as int));
        lemma_word_len(t);
        assert(t.take(word_len(t) as int) =~= v@.subrange(a as int, b as int));
        assert(t.skip(word_len(t) as int) =~= v@.subrange(b as int, e as int));
    }
    Some((a, b))
}

/// `s` up to (excluding) its first `c` (the first piece of `str::split(c)`).
pub open spec fn prefix_until(s: Seq<char>, c: char) -> Seq<char>
    decreases s.len(),
{
    if s.len() == 0 {
        s
    } else if s[0] == c {
        Seq::empty()
    } else {
        seq![s[0]] + prefix_until(s.drop_first(), c)
    }
}

/// `parse_unsigned` into a `u64`.
pub open spec fn parse_u64(s: Seq<char>) -> Option<u64> {
    match parse_unsigned(s, u64::MAX as nat) {
        Some(n) => Some(n as u64),
        None => None,
    }
}

/// One word of a hunk header: `-a[,b]` sets the old start, `+c[,d]` the
/// new start (an unparsable number clears it); other words change nothing.
pub open spec fn hunk_word(st: (Option<u64>, Option<u64>), w: Seq<char>) -> (Option<u64>, Option<u64>) {
    if w.len() > 0 && w[0] == '-' {
        (parse_u64(prefix_until(w.drop_first(), ',')), st.1)
    } else if w.len() > 0 && w[0] == '+' {
        (st.0, parse_u64(prefix_until(w.drop_first(), ',')))
    } else {
        st
    }
}

/// Fold `hunk_word` over the words `ws`, starting from `st`.
pub open spec fn hunk_fold(st: (Option<u64>, Option<u64>), ws: Seq<Seq<char>>) -> (Option<u64>, Option<u64>)
    decreases ws.len(),
{
    if ws.len() == 0 {
        st
    } else {
        hunk_fold(hunk_word(st, ws[0]), ws.drop_first())
    }
}

/// The part of a hunk header's text after its leading `@@` that holds
/// the ranges: everything before the closing `@@` (the enclosing-function
/// context after it is no range).
pub open spec fn hunk_ranges(rest: Seq<char>) -> Seq<char> {
    match find(rest, "@@"@) {
        Some(i) => rest.take(i),
        None => rest,
    }
}

/// What `parse_hunk` returns for the text after a leading `@@`: the
/// numbers of the last `-` and `+` words before the closing `@@`.
pub open spec fn spec_parse_hunk(rest: Seq<char>) -> (Option<u64>, Option<u64>) {
    hunk_fold((None, None), words(hunk_ranges(rest)))
}

/// Bounds of `prefix_until(v[s..e], c)`: it is `v[s..r]`.
fn prefix_until_at(v: &Vec<char>, s: usize, e: usize, c: char) -> (r: usize)
    requires
        s <= e <= v@.len(),
    ensures
        s <= r <= e,
        v@.subrange(s as int, r as int) == prefix_until(v@.subrange(s as int, e as int), c),
{
    let mut j = s;
    while j < e && v[j] != c
        invariant
            s <= j <= e <= v@.len(),
            prefix_until(v@.subrange(s as int, e as int), c) == v@.subrange(s as int, j as int)
                + prefix_until(v@.subrange(j as int, e as int), c),
        decreases e - j,
    {
        let ghost rest = v@.subrange(j as int, e as int);
        assert(rest.drop_first() =~= v@.subrange(j + 1, e as int));
        assert(v@.subrange(s as int, j as int) + seq![v@[j as int]] =~= v@.subrange(s as int, j + 1));
        assert(v@.subrange(s as int, j as int) + (seq![v@[j as int]] + prefix_until(rest.drop_first(), c))
            =~= v@.subrange(s as int, j + 1) + prefix_until(rest.drop_first(), c));
        j = j + 1;
    }
    assert(v@.subrange(s as int, j as int) + Seq::<char>::empty() =~= v@.subrange(s as int, j as int));
    j
}

/// `hunk_word(st, v[s..e])`.
fn hunk_word_at(v: &Vec<char>, s: usize, e: usize, st: (Option<u64>, Option<u64>)) -> (r: (Option<u64>, Option<u64>))
    requires
        s <= e <= v@.len(),
    ensures
        r == hunk_word(st, v@.subrange(s as int, e as int)),
{
    let ghost w = v@.subrange(s as int, e as int);
    if s < e && (v[s] == '-' || v[s] == '+') {
        assert(w[0] == v@[s as int]);
        assert(w.drop_first() =~= v@.subrange(s + 1, e as int));
        let p = prefix_until_at(v, s + 1, e, ',');
        let n = parse_unsigned_at(v, s + 1, p, u64::MAX);
        if v[s] == '-' {
            (n, st.1)
        } else {
            (st.0, n)
        }
    } else {
        st
    }
}

/// Parse "@@ -a,b +c,d @@" hunk header (the text after `@@`) →
/// (old_start, new_start).
pub fn parse_hunk(rest: &str) -> (r: (Option<u64>, Option<u64>))
    ensures
        r == spec_parse_hunk(rest@),
{
    let v = chars_of(rest);
    assert(v@.subrange(0, v@.len() as int) =~= v@);
    parse_hunk_at(&v, 0, v.len())
}

/// `spec_parse_hunk(v[s..e])`.
pub fn parse_hunk_at(v: &Vec<char>, s: usize, e: usize) -> (r: (Option<u64>, Option<u64>))
    requires
        s <= e <= v@.len(),
    ensures
        r == spec_parse_hunk(v@.subrange(s as int, e as int)),
{
    let close = chars_of("@@");
    let ghost t = v@.subrange(s as int, e as int);
    let cut = match find_at(v, s, e, &close) {
        Some(x) => x,
        None => e,
    };
    proof {
        match find(t, "@@"@) {
            Some(i) => {
                assert(v@.subrange(s as int, cut as int) =~= t.take(i));
            },
            None => {},
        }
    }
    hunk_words_at(v, s, cut)
}

/// `hunk_fold((None, None), words(v[s..e]))`.
fn hunk_words_at(v: &Vec<char>, s: usize, e: usize) -> (r: (Option<u64>, Option<u64>))
    requires
        s <= e <= v@.len(),
    ensures
        r == hunk_fold((None, None), words(v@.subrange(s as int, e as int))),
{
    let mut st: (Option<u64>, Option<u64>) = (None, None);
    let mut i: usize = s;
    loop
        invariant
            s <= i <= e <= v@.len(),
            hunk_fold((None, None), words(v@.subrange(s as int, e as int))) == hunk_fold(st, words(v@.subrange(i as int, e as int))),
        decreases e - i,
    {
        match next_word(v, i, e) {
            None => {
                return st;
            },
            Some((a, b)) => {
                let ghost ws = words(v@.subrange(i as int, e as int));
                assert(ws.drop_first() =~= words(v@.subrange(b as int, e as int)));
                st = hunk_word_at(v, a, b, st);
                i = b;
            },
        }
    }
}

// =====================================================================
// svn diff
// =====================================================================

/// Line-number state while walking a diff: the next old/new line
/// numbers, and the kind of the line produced last.
pub struct DiffState {
    pub old: Option<u64>,
    pub new: Option<u64>,
    pub last: Option<DiffLineKind>,
}

/// Advance a line number (wrapping past `u64::MAX`).
pub open spec fn bump(n: Option<u64>) -> Option<u64> {
    match n {
        Some(x) => Some(if x < u64::MAX { (x + 1) as u64 } else { 0 }),
        None => None,
    }
}

pub open spec fn dline(old: Option<u64>, new: Option<u64>, kind: DiffLineKind, content: Seq<char>) -> SpecDiffLine {
    SpecDiffLine { old, new, kind, content }
}

/// The output line and next state for one line of `svn diff` output.
pub open spec fn diff_step(st: DiffState, line: Seq<char>) -> (DiffState, SpecDiffLine) {
    let after_header = st.last == Some(DiffLineKind::Header) || st.last == Some(DiffLineKind::FileHeader);
    if starts_with(line, "Index:"@) || starts_with(line, "==="@) {
        (DiffState { old: None, new: None, last: Some(DiffLineKind::Header) },
         dline(None, None, DiffLineKind::Header, line))
    } else if after_header && (starts_with(line, "--- "@) || starts_with(line, "+++ "@)) {
        (DiffState { old: st.old, new: st.new, last: Some(DiffLineKind::FileHeader) },
         dline(None, None, DiffLineKind::FileHeader, line))
    } else if starts_with(line, "@@"@) {
        let h = spec_parse_hunk(line.skip(2));
        (DiffState { old: h.0, new: h.1, last: Some(DiffLineKind::Hunk) },
         dline(None, None, DiffLineKind::Hunk, line))
    } else if starts_with(line, "Property changes on:"@) {
        (DiffState { old: None, new: None, last: Some(DiffLineKind::Header) },
         dline(None, None, DiffLineKind::Header, line))
    } else if starts_with(line, "## "@) {
        (DiffState { old: None, new: None, last: Some(DiffLineKind::Hunk) },
         dline(None, None, DiffLineKind::Hunk, line))
    } else if line.len() > 0 && line[0] == '\\' {
        (DiffState { old: st.old, new: st.new, last: Some(DiffLineKind::Note) },
         dline(None, None, DiffLineKind::Note, line))
    } else if line.len() > 0 && line[0] == '+' {
        (DiffState { old: st.old, new: bump(st.new), last: Some(DiffLineKind::Added) },
         dline(None, st.new, DiffLineKind::Added, line.drop_first()))
    } else if line.len() > 0 && line[0] == '-' {
        (DiffState { old: bump(st.old), new: st.new, last: Some(DiffLineKind::Removed) },
         dline(st.old, None, DiffLineKind::Removed, line.drop_first()))
    } else {
        let rest = if line.len() > 0 && line[0] == ' ' { line.drop_first() } else { line };
        (DiffState { old: bump(st.old), new: bump(st.new), last: Some(DiffLineKind::Context) },
         dline(st.old, st.new, DiffLineKind::Context, rest))
    }
}

/// The state after walking the lines `ls`.
pub open spec fn diff_state_after(ls: Seq<Seq<char>>) -> DiffState
    decreases ls.len(),
{
    if ls.len() == 0 {
        DiffState { old: None, new: None, last: None }
    } else {
        diff_step(diff_state_after(ls.drop_last()), ls.last()).0
    }
}

/// What `parse_diff` returns: one line per input line, the `i`-th being
/// the step output for line `i` in the state the earlier lines left.
pub open spec fn spec_parse_diff(text: Seq<char>) -> Seq<SpecDiffLine> {
    let ls = crlf_lines(text);
    Seq::new(ls.len(), |i: int| diff_step(diff_state_after(ls.take(i)), ls[i]).1)
}

/// The patterns the diff parser tests lines against.
struct DiffPatterns {
    index: Vec<char>,
    eqs: Vec<char>,
    minus3: Vec<char>,
    plus3: Vec<char>,
    at2: Vec<char>,
    prop: Vec<char>,
    hash2: Vec<char>,
}

impl DiffPatterns {
    spec fn wf(&self) -> bool {
        &&& self.index@ == "Index:"@
        &&& self.eqs@ == "==="@
        &&& self.minus3@ == "--- "@
        &&& self.plus3@ == "+++ "@
        &&& self.at2@ == "@@"@
        &&& self.prop@ == "Property changes on:"@
        &&& self.hash2@ == "## "@
    }

    fn new() -> (p: Self)
        ensures
            p.wf(),
    {
        DiffPatterns {
            index: chars_of("Index:"),
            eqs: chars_of("==="),
            minus3: chars_of("--- "),
            plus3: chars_of("+++ "),
            at2: chars_of("@@"),
            prop: chars_of("Property changes on:"),
            hash2: chars_of("## "),
        }
    }
}

fn bump_exec(n: Option<u64>) -> (r: Option<u64>)
    ensures
        r == bump(n),
{
    match n {
        Some(x) => Some(if x < u64::MAX { x + 1 } else { 0 }),
        None => None,
    }
}

/// One step of the diff walk on the line `v[s..e]`.
fn diff_step_exec(
    v: &Vec<char>,
    s: usize,
    e: usize,
    pats: &DiffPatterns,
    old: Option<u64>,
    new: Option<u64>,
    last: Option<DiffLineKind>,
) -> (r: (Option<u64>, Option<u64>, DiffLine))
    requires
        s <= e <= v@.len(),
        pats.wf(),
    ensures
        ({
            let (st, dl) = diff_step(DiffState { old, new, last }, v@.subrange(s as int, e as int));
            r.0 == st.old && r.1 == st.new && r.2@ == dl && Some(r.2.kind) == st.last
        }),
{
    let ghost line = v@.subrange(s as int, e as int);
    assert(line.len() > 0 ==> line[0] == v@[s as int]);
    assert(line.len() > 0 ==> line.drop_first() =~= v@.subrange(s + 1, e as int));
    let after_header = match last {
        Some(DiffLineKind::Header) => true,
        Some(DiffLineKind::FileHeader) => true,
        _ => false,
    };
    if starts_with_at(v, s, e, &pats.index) || starts_with_at(v, s, e, &pats.eqs) {
        return (None, None, DiffLine { old: None, new: None, kind: DiffLineKind::Header, content: string_of(v, s, e) });
    }
    if after_header && (starts_with_at(v, s, e, &pats.minus3) || starts_with_at(v, s, e, &pats.plus3)) {
        return (old, new, DiffLine { old: None, new: None, kind: DiffLineKind::FileHeader, content: string_of(v, s, e) });
    }
    if starts_with_at(v, s, e, &pats.at2) {
        proof {
            reveal_strlit("@@");
        }
        assert(line.skip(2) =~= v@.subrange(s + 2, e as int));
        let h = parse_hunk_at(v, s + 2, e);
        return (h.0, h.1, DiffLine { old: None, new: None, kind: DiffLineKind::Hunk, content: string_of(v, s, e) });
    }
    if starts_with_at(v, s, e, &pats.prop) {
        return (None, None, DiffLine { old: None, new: None, kind: DiffLineKind::Header, content: string_of(v, s, e) });
    }
    if starts_with_at(v, s, e, &pats.hash2) {
        return (None, None, DiffLine { old: None, new: None, kind: DiffLineKind::Hunk, content: string_of(v, s, e) });
    }
    if s < e && v[s] == '\\' {
        return (old, new, DiffLine { old: None, new: None, kind: DiffLineKind::Note, content: string_of(v, s, e) });
    }
    if s < e && v[s] == '+' {
        return (old, bump_exec(new), DiffLine { old: None, new: new, kind: DiffLineKind::Added, content: string_of(v, s + 1, e) });
    }
    if s < e && v[s] == '-' {
        return (bump_exec(old), new, DiffLine { old: old, new: None, kind: DiffLineKind::Removed, content: string_of(v, s + 1, e) });
    }
    let cs = if s < e && v[s] == ' ' { s + 1 } else { s };
    (bump_exec(old), bump_exec(new), DiffLine { old: old, new: new, kind: DiffLineKind::Context, content: string_of(v, cs, e) })
}

/// Parse `svn diff` output into line-numbered, colorizable lines.
pub fn parse_diff(output: &str) -> (d: ParsedDiff)
    ensures
        d.spec_lines() == spec_parse_diff(output@),
{
    let v = chars_of(output);
    let spans = crlf_line_spans(&v);
    let pats = DiffPatterns::new();
    let ghost ls = crlf_lines(v@);
    let mut lines: Vec<DiffLine> = Vec::new();
    let mut old: Option<u64> = None;
    let mut new: Option<u64> = None;
    let mut last: Option<DiffLineKind> = None;
    let mut k: usize = 0;
    while k < spans.len()
        invariant
            pats.wf(),
            ls == crlf_lines(v@),
            crlf_spans_of(v@, spans@),
            k <= spans@.len(),
            lines@.len() == k,
            (DiffState { old, new, last }) == diff_state_after(ls.take(k as int)),
            forall|j: int|
                0 <= j < k ==> (#[trigger] lines@[j])@ == diff_step(diff_state_after(ls.take(j)), ls[j]).1,
        decreases spans.len() - k,
    {
        let (s, e) = spans[k];
        assert(v@.subrange(s as int, e as int) == crlf_lines(v@)[k as int]);
        assert(ls.take(k + 1).drop_last() =~= ls.take(k as int));
        assert(ls.take(k + 1).last() == ls[k as int]);
        let r = diff_step_exec(&v, s, e, &pats, old, new, last);
        old = r.0;
        new = r.1;
        last = Some(r.2.kind);
        lines.push(r.2);
        k = k + 1;
    }
    let d = ParsedDiff { lines };
    assert(d.spec_lines() =~= spec_parse_diff(output@));
    d
}

/// What `parse_new_file_content` returns: every line numbered from 1 as
/// an added line.
pub open spec fn spec_new_file_content(content: Seq<char>) -> Seq<SpecDiffLine> {
    let ls = crlf_lines(content);
    Seq::new(ls.len(), |i: int| dline(None, Some((i + 1) as u64), DiffLineKind::Added, ls[i]))
}

/// Build a simple line-numbered content view (for unversioned/new files).
pub fn parse_new_file_content(content: &str) -> (d: ParsedDiff)
    ensures
        d.spec_lines() == spec_new_file_content(content@),
{
    let v = chars_of(content);
    let spans = crlf_line_spans(&v);
    let ghost ls = crlf_lines(v@);
    let mut lines: Vec<DiffLine> = Vec::new();
    let mut k: usize = 0;
    while k < spans.len()
        invariant
            ls == crlf_lines(v@),
            crlf_spans_of(v@, spans@),
            k <= spans@.len(),
            lines@.len() == k,
            forall|j: int|
                0 <= j < k ==> (#[trigger] lines@[j])@ == dline(None, Some((j + 1) as u64), DiffLineKind::Added, ls[j]),
        decreases spans.len() - k,
    {
        let (s, e) = spans[k];
        assert(v@.subrange(s as int, e as int) == crlf_lines(v@)[k as int]);
        let n: u64 = (k as u64) + 1;
        lines.push(DiffLine { old: None, new: Some(n), kind: DiffLineKind::Added, content: string_of(&v, s, e) });
        k = k + 1;
    }
    let d = ParsedDiff { lines };
    assert(d.spec_lines() =~= spec_new_file_content(content@));
    d
}

} // verus!

verus! {

// =====================================================================
// svn log
// =====================================================================

/// Lines joined with `'\n'` (`[&str]::join("\n")`).
pub open spec fn join_lines(ls: Seq<Seq<char>>) -> Seq<char>
    decreases ls.len(),
{
    if ls.len() == 0 {
        Seq::empty()
    } else if ls.len() == 1 {
        ls[0]
    } else {
        join_lines(ls.drop_last()) + seq!['\n'] + ls.last()
    }
}

/// A fresh log entry with no changed paths and no message yet.
pub open spec fn log_header_entry(revision: u64, author: Seq<char>, date: Seq<char>, line_count: u64) -> SpecLogEntry {
    SpecLogEntry { revision, author, date, line_count, changed: Seq::empty(), message: Seq::empty() }
}

/// What `parse_log_header` returns for a line: the revision is anchored
/// at the left (`r<N> | `), the line count and the date at the right
/// (` | date | N lines`); what remains in the middle is the author.
pub open spec fn spec_parse_log_header(line: Seq<char>) -> Option<SpecLogEntry> {
    let sep = " | "@;
    if line.len() > 0 && line[0] == 'r' {
        let rest = line.drop_first();
        match find(rest, sep) {
            None => None,
            Some(i) => match parse_u64(trim(rest.take(i))) {
                None => None,
                Some(revision) => {
                    let rest2 = rest.skip(i + sep.len());
                    match rfind(rest2, sep) {
                        None => None,
                        Some(j) => {
                            let middle = rest2.take(j);
                            let count = rest2.skip(j + sep.len());
                            match rfind(middle, sep) {
                                None => None,
                                Some(a) => {
                                    let ws = words(count);
                                    if ws.len() == 0 {
                                        None
                                    } else {
                                        let line_count = match parse_u64(ws[0]) {
                                            Some(n) => n,
                                            None => 0,
                                        };
                                        Some(log_header_entry(
                                            revision,
                                            trim(middle.take(a)),
                                            trim(middle.skip(a + sep.len())),
                                            line_count,
                                        ))
                                    }
                                },
                            }
                        },
                    }
                },
            },
        }
    } else {
        None
    }
}

/// Where a log entry is: in its changed-paths block, in its message body
/// with the given number of lines left, or done (waiting for the
/// separator).
#[derive(Clone, Copy)]
pub enum LogPhase {
    Paths,
    Message(u64),
    Done,
}

/// State of the log walk.
pub struct LogState {
    pub entries: Seq<SpecLogEntry>,
    pub current: Option<SpecLogEntry>,
    pub msg: Seq<Seq<char>>,
    pub phase: LogPhase,
}

/// The actions a changed-path line may carry.
pub open spec fn is_path_action(c: char) -> bool {
    c == 'M' || c == 'A' || c == 'D' || c == 'R' || c == 'I' || c == 'X' || c == 'C' || c == '?'
}

/// A changed-path line: `   M /trunk/foo.txt` (three spaces, then the
/// action, a space and an absolute path) → (action, path without the
/// leading slashes).
pub open spec fn spec_changed_path(line: Seq<char>) -> Option<(char, Seq<char>)> {
    if starts_with(line, "   "@) {
        let t = trim_start(line);
        if t.len() > 2 && t[1] == ' ' && is_path_action(t[0]) && t[2] == '/' {
            Some((t[0], trim_start_char(trim(t.skip(2)), '/')))
        } else {
            None
        }
    } else {
        None
    }
}

/// The entry `e` completed with the message made of `msg`.
pub open spec fn with_message(e: SpecLogEntry, msg: Seq<Seq<char>>) -> SpecLogEntry {
    SpecLogEntry { message: trim(join_lines(msg)), ..e }
}

/// The entries once the current one, if any, is completed.
pub open spec fn log_flush(st: LogState) -> Seq<SpecLogEntry> {
    match st.current {
        Some(e) => st.entries.push(with_message(e, st.msg)),
        None => st.entries,
    }
}

/// The phase after a message line, with `rem` lines (including this one)
/// left in the message.
pub open spec fn after_message_line(rem: u64) -> LogPhase {
    if rem > 1 {
        LogPhase::Message((rem - 1) as u64)
    } else {
        LogPhase::Done
    }
}

/// One line of `svn log -v` output.
pub open spec fn log_step(st: LogState, line: Seq<char>) -> LogState {
    let sep72 = Seq::new(72, |i: int| '-');
    if line == sep72 && !(st.phase is Message) {
        LogState { entries: log_flush(st), current: None, msg: Seq::empty(), phase: LogPhase::Paths }
    } else {
        match st.current {
            None => match spec_parse_log_header(line) {
                Some(e) => LogState { current: Some(e), ..st },
                None => st,
            },
            Some(e) => match st.phase {
                LogPhase::Message(rem) => LogState { msg: st.msg.push(line), phase: after_message_line(rem), ..st },
                LogPhase::Done => st,
                LogPhase::Paths => {
                    if line.len() == 0 {
                        LogState {
                            phase: if e.line_count > 0 { LogPhase::Message(e.line_count) } else { LogPhase::Done },
                            ..st
                        }
                    } else if line == "Changed paths:"@ {
                        st
                    } else {
                        match spec_changed_path(line) {
                            Some(cp) => LogState { current: Some(SpecLogEntry { changed: e.changed.push(cp), ..e }), ..st },
                            None => LogState { msg: st.msg.push(line), phase: after_message_line(e.line_count), ..st },
                        }
                    }
                },
            },
        }
    }
}

/// The state after walking the lines `ls`.
pub open spec fn log_state_after(ls: Seq<Seq<char>>) -> LogState
    decreases ls.len(),
{
    if ls.len() == 0 {
        LogState { entries: Seq::empty(), current: None, msg: Seq::empty(), phase: LogPhase::Paths }
    } else {
        log_step(log_state_after(ls.drop_last()), ls.last())
    }
}

/// What `parse_log` returns.
pub open spec fn spec_parse_log(text: Seq<char>) -> Seq<SpecLogEntry> {
    log_flush(log_state_after(crlf_lines(text)))
}

/// The number of lines among `ls` that are log entry headers
/// (`r<N> | author | date | N lines`).
pub open spec fn header_lines(ls: Seq<Seq<char>>) -> nat
    decreases ls.len(),
{
    if ls.len() == 0 {
        0
    } else {
        header_lines(ls.drop_last()) + if spec_parse_log_header(ls.last()) is Some {
            1nat
        } else {
            0nat
        }
    }
}

/// A log entry's changed paths each carry a known action and a path
/// without a leading slash.
pub open spec fn paths_shaped(e: SpecLogEntry) -> bool {
    forall|k: int|
        0 <= k < e.changed.len() ==> is_path_action((#[trigger] e.changed[k]).0) && !(e.changed[k].1.len() > 0
            && e.changed[k].1[0] == '/')
}

/// A finished log entry: shaped paths and a trimmed message.
pub open spec fn entry_shaped(e: SpecLogEntry) -> bool {
    paths_shaped(e) && e.message == trim(e.message)
}

/// What holds of the walk after the lines `ls`.
pub open spec fn log_walk_ok(st: LogState, ls: Seq<Seq<char>>) -> bool {
    &&& st.entries.len() + (if st.current is Some { 1int } else { 0 }) <= header_lines(ls)
    &&& forall|k: int| 0 <= k < st.entries.len() ==> entry_shaped(#[trigger] st.entries[k])
    &&& st.current matches Some(e) ==> paths_shaped(e)
}

proof fn lemma_flush_ok(st: LogState, ls: Seq<Seq<char>>)
    requires
        log_walk_ok(st, ls),
    ensures
        log_flush(st).len() <= header_lines(ls),
        forall|k: int| 0 <= k < log_flush(st).len() ==> entry_shaped(#[trigger] log_flush(st)[k]),
{
    match st.current {
        Some(e) => {
            let f = with_message(e, st.msg);
            lemma_trim_idempotent(join_lines(st.msg));
            assert(entry_shaped(f));
            assert forall|k: int| 0 <= k < log_flush(st).len() implies entry_shaped(#[trigger] log_flush(st)[k]) by {
                if k < st.entries.len() {
                    assert(log_flush(st)[k] == st.entries[k]);
                }
            }
        },
        None => {},
    }
}

proof fn lemma_log_walk(ls: Seq<Seq<char>>)
    ensures
        log_walk_ok(log_state_after(ls), ls),
    decreases ls.len(),
{
    if ls.len() > 0 {
        let init = ls.drop_last();
        lemma_log_walk(init);
        let st = log_state_after(init);
        let line = ls.last();
        lemma_flush_ok(st, init);
        let st2 = log_step(st, line);
        assert(log_state_after(ls) == st2);
        match st.current {
            Some(e) => {
                match spec_changed_path(line) {
                    Some(cp) => {
                        let t = trim_start(line);
                        lemma_trim_start_char_first(trim(t.skip(2)), '/');
                        let e2 = SpecLogEntry { changed: e.changed.push(cp), ..e };
                        assert forall|k: int| 0 <= k < e2.changed.len() implies is_path_action((#[trigger] e2.changed[k]).0)
                            && !(e2.changed[k].1.len() > 0 && e2.changed[k].1[0] == '/') by {
                            if k < e.changed.len() {
                                assert(e2.changed[k] == e.changed[k]);
                            }
                        }
                    },
                    None => {},
                }
            },
            None => {},
        }
    }
}

/// A changed path keeps its whole text: for a changed-path line (three
/// spaces, a known action, a space, then a path `/t`) whose path text `t`
/// has no surrounding whitespace, the path recorded is `t` itself, spaces
/// inside it and all.
pub proof fn lemma_changed_path_whole(a: char, t: Seq<char>)
    requires
        is_path_action(a),
        t.len() > 0,
        !is_ws(t[0]),
        !is_ws(t.last()),
        t[0] != '/',
    ensures
        spec_changed_path(seq![' ', ' ', ' ', a, ' ', '/'] + t) == Some((a, t)),
{
    let line = seq![' ', ' ', ' ', a, ' ', '/'] + t;
    reveal_strlit("   ");
    assert(line.take(3) =~= "   "@);
    let r = seq![a, ' ', '/'] + t;
    assert(line.drop_first().drop_first().drop_first() =~= r);
    assert(trim_start(r) == r);
    assert(line.drop_first().drop_first() =~= seq![' '] + r);
    assert((seq![' '] + r).drop_first() =~= r);
    assert(trim_start(seq![' '] + r) == trim_start(r));
    assert(line.drop_first() =~= seq![' ', ' '] + r);
    assert((seq![' ', ' '] + r).drop_first() =~= seq![' '] + r);
    assert(trim_start(seq![' ', ' '] + r) == trim_start(seq![' '] + r));
    assert(trim_start(line) == trim_start(line.drop_first()));
    assert(trim_start(line) == r);
    let u = r.skip(2);
    assert(u =~= seq!['/'] + t);
    assert(trim_start(u) == u);
    assert(u.last() == t.last());
    assert(trim_end(u) == u);
    assert(trim(u) == u);
    assert(u.drop_first() =~= t);
    assert(trim_start_char(u, '/') == trim_start_char(t, '/'));
    assert(trim_start_char(t, '/') == t);
}

/// The log records a changed path whole: in an entry's changed-path
/// block, a line `   <a> /<t>` adds `(a, t)` to the entry's changed paths,
/// however many spaces `t` holds.
pub proof fn lemma_log_records_whole_path(st: LogState, a: char, t: Seq<char>)
    requires
        st.current is Some,
        st.phase is Paths,
        is_path_action(a),
        t.len() > 0,
        !is_ws(t[0]),
        !is_ws(t.last()),
        t[0] != '/',
    ensures
        log_step(st, seq![' ', ' ', ' ', a, ' ', '/'] + t).current == Some(
            SpecLogEntry { changed: st.current.unwrap().changed.push((a, t)), ..st.current.unwrap() },
        ),
{
    let line = seq![' ', ' ', ' ', a, ' ', '/'] + t;
    lemma_changed_path_whole(a, t);
    let sep72 = Seq::new(72, |i: int| '-');
    assert(line[0] != sep72[0]);
    reveal_strlit("Changed paths:");
    assert(line[0] != "Changed paths:"@[0]);
    assert(line.len() > 0);
}

/// The shape of the log: no more entries than header lines, each with
/// its changed paths under known actions and without leading slashes,
/// and a trimmed message.
pub proof fn lemma_log_shape(text: Seq<char>)
    ensures
        spec_parse_log(text).len() <= header_lines(crlf_lines(text)),
        forall|k: int| 0 <= k < spec_parse_log(text).len() ==> entry_shaped(#[trigger] spec_parse_log(text)[k]),
{
    let ls = crlf_lines(text);
    lemma_log_walk(ls);
    lemma_flush_ok(log_state_after(ls), ls);
}

/// The `LogEntry` values of `es`.
pub open spec fn log_views(es: Seq<LogEntry>) -> Seq<SpecLogEntry> {
    es.map_values(|e: LogEntry| e@)
}

/// The value of an optional entry.
pub open spec fn opt_log_view(o: Option<LogEntry>) -> Option<SpecLogEntry> {
    match o {
        Some(e) => Some(e@),
        None => None,
    }
}

/// `spec_parse_log_header(v[s..e])`; `sep` is `" | "`.
#[verifier::spinoff_prover]
#[verifier::rlimit(40)]
fn parse_log_header_at(v: &Vec<char>, s: usize, e: usize, sep: &Vec<char>) -> (r: Option<LogEntry>)
    requires
        s <= e <= v@.len(),
        sep@ == " | "@,
    ensures
        opt_log_view(r) == spec_parse_log_header(v@.subrange(s as int, e as int)),
{
    proof {
        reveal_strlit(" | ");
    }
    let ghost line = v@.subrange(s as int, e as int);
    if !(s < e && v[s] == 'r') {
        assert(line.len() > 0 ==> line[0] == v@[s as int]);
        return None;
    }
    assert(line[0] == v@[s as int]);
    let rs = s + 1;
    let ghost rest = line.drop_first();
    assert(rest =~= v@.subrange(rs as int, e as int));
    let ia = match find_at(v, rs, e, sep) {
        None => return None,
        Some(ia) => ia,
    };
    let ghost i = ia - rs;
    assert(rest.take(i) =~= v@.subrange(rs as int, ia as int));
    let (ts, te) = trim_range(v, rs, ia);
    assert(find(rest, " | "@) == Some(i));
    assert(v@.subrange(ts as int, te as int) == trim(rest.take(i)));
    let revision = match parse_unsigned_at(v, ts, te, u64::MAX) {
        None => {
            assert(parse_u64(trim(rest.take(i))) is None);
            assert(spec_parse_log_header(line) is None);
            return None;
        },
        Some(n) => n,
    };
    let r2 = ia + 3;
    let ghost rest2 = rest.skip(i + 3);
    assert(rest2 =~= v@.subrange(r2 as int, e as int));
    assert(parse_u64(trim(rest.take(i))) == Some(revision));
    let ja = match rfind_at(v, r2, e, sep) {
        None => {
            assert(rfind(rest2, " | "@) is None);
            return None;
        },
        Some(ja) => ja,
    };
    let ghost j = ja - r2;
    let ghost middle = rest2.take(j);
    let ghost count = rest2.skip(j + 3);
    assert(middle =~= v@.subrange(r2 as int, ja as int));
    assert(count =~= v@.subrange(ja + 3, e as int));
    let aa = match rfind_at(v, r2, ja, sep) {
        None => return None,
        Some(aa) => aa,
    };
    let ghost a = aa - r2;
    assert(middle.take(a) =~= v@.subrange(r2 as int, aa as int));
    assert(middle.skip(a + 3) =~= v@.subrange(aa + 3, ja as int));
    let (wa, wb) = match next_word(v, ja + 3, e) {
        None => return None,
        Some(w) => w,
    };
    let line_count = match parse_unsigned_at(v, wa, wb, u64::MAX) {
        Some(n) => n,
        None => 0,
    };
    let (aus, aue) = trim_range(v, r2, aa);
    let (ds, de) = trim_range(v, aa + 3, ja);
    let entry = LogEntry {
        revision,
        author: string_of(v, aus, aue),
        date: string_of(v, ds, de),
        line_count,
        changed: Vec::new(),
        message: String::new(),
    };
    assert(entry.changed@.map_values(|p: (char, String)| (p.0, p.1@)) =~= Seq::<(char, Seq<char>)>::empty());
    Some(entry)
}

/// Parse one `svn log` header line:
/// "r123 | author | 2026-08-26 21:41:52 +0800 (Wed, 26 Aug 2026) | 3 lines".
pub fn parse_log_header(line: &str) -> (r: Option<LogEntry>)
    ensures
        opt_log_view(r) == spec_parse_log_header(line@),
{
    let v = chars_of(line);
    let sep = chars_of(" | ");
    assert(v@.subrange(0, v@.len() as int) =~= v@);
    parse_log_header_at(&v, 0, v.len(), &sep)
}

/// `spec_changed_path(v[s..e])`; `pre` is three spaces.
fn changed_path_at(v: &Vec<char>, s: usize, e: usize, pre: &Vec<char>) -> (r: Option<(char, String)>)
    requires
        s <= e <= v@.len(),
        pre@ == "   "@,
    ensures
        match spec_changed_path(v@.subrange(s as int, e as int)) {
            Some(cp) => match r {
                Some(x) => x.0 == cp.0 && x.1@ == cp.1,
                None => false,
            },
            None => r is None,
        },
{
    if !starts_with_at(v, s, e, pre) {
        return None;
    }
    let ts = skip_ws(v, s, e);
    let ghost t = v@.subrange(ts as int, e as int);
    if !(e - ts > 2 && v[ts + 1] == ' ' && is_path_action_exec(v[ts]) && v[ts + 2] == '/') {
        assert(t.len() > 2 ==> t[0] == v@[ts as int] && t[1] == v@[ts + 1] && t[2] == v@[ts + 2]);
        return None;
    }
    assert(t[0] == v@[ts as int] && t[1] == v@[ts + 1] && t[2] == v@[ts + 2]);
    assert(t.skip(2) =~= v@.subrange(ts + 2, e as int));
    let (a, b) = trim_range(v, ts + 2, e);
    let c = skip_char(v, a, b, '/');
    Some((v[ts], string_of(v, c, b)))
}

fn is_path_action_exec(c: char) -> (b: bool)
    ensures
        b == is_path_action(c),
{
    c == 'M' || c == 'A' || c == 'D' || c == 'R' || c == 'I' || c == 'X' || c == 'C' || c == '?'
}

/// Append `v[s..e]` as one more line to the joined message `msg`, which
/// holds `n` lines so far.
fn append_line(msg: &mut Vec<char>, n: usize, v: &Vec<char>, s: usize, e: usize, Ghost(ls): Ghost<Seq<Seq<char>>>)
    requires
        s <= e <= v@.len(),
        old(msg)@ == join_lines(ls),
        ls.len() == n,
    ensures
        final(msg)@ == join_lines(ls.push(v@.subrange(s as int, e as int))),
{
    let ghost l = v@.subrange(s as int, e as int);
    assert(ls.push(l).drop_last() =~= ls);
    let ghost base = if n > 0 { old(msg)@ + seq!['\n'] } else { old(msg)@ };
    if n > 0 {
        msg.push('\n');
    }
    assert(msg@ == base);
    let mut i = s;
    while i < e
        invariant
            s <= i <= e <= v@.len(),
            msg@ == base + v@.subrange(s as int, i as int),
        decreases e - i,
    {
        msg.push(v[i]);
        assert(base + v@.subrange(s as int, i + 1) =~= (base + v@.subrange(s as int, i as int)).push(v@[i as int]));
        i = i + 1;
    }
    proof {
        if n == 0 {
            assert(ls =~= Seq::<Seq<char>>::empty());
            assert(join_lines(ls.push(l)) == l);
            assert(base + l =~= l);
        }
    }
}

/// Complete `e` with the trimmed message `msg`.
fn finish_entry(e: LogEntry, msg: &Vec<char>, Ghost(ls): Ghost<Seq<Seq<char>>>) -> (r: LogEntry)
    requires
        msg@ == join_lines(ls),
    ensures
        r@ == with_message(e@, ls),
{
    let (a, b) = trim_range(msg, 0, msg.len());
    assert(msg@.subrange(0, msg@.len() as int) =~= msg@);
    let mut e = e;
    e.message = string_of(msg, a, b);
    e
}

/// Parse `svn log -v` output.
///
/// The header's line count — not the separator — bounds the message
/// body: a message line of exactly 72 dashes, or one that looks like a
/// header ("r99 | fake | ..."), is content. The entry still ends at an
/// exact 72-dash separator line after the message has been consumed.
#[verifier::rlimit(50)]
pub fn parse_log(output: &str) -> (r: Vec<LogEntry>)
    ensures
        log_views(r@) == spec_parse_log(output@),
{
    let v = chars_of(output);
    let spans = crlf_line_spans(&v);
    let ghost ls = crlf_lines(v@);
    let mut sep72: Vec<char> = Vec::new();
    while sep72.len() < 72
        invariant
            sep72@.len() <= 72,
            forall|i: int| 0 <= i < sep72@.len() ==> sep72@[i] == '-',
        decreases 72 - sep72.len(),
    {
        sep72.push('-');
    }
    assert(sep72@ =~= Seq::new(72, |i: int| '-'));
    let bar = chars_of(" | ");
    let pre = chars_of("   ");
    let changed_hdr = chars_of("Changed paths:");
    let mut entries: Vec<LogEntry> = Vec::new();
    let mut current: Option<LogEntry> = None;
    let mut msg: Vec<char> = Vec::new();
    let mut nmsg: usize = 0;
    let ghost mut msg_lines: Seq<Seq<char>> = Seq::empty();
    let mut phase = LogPhase::Paths;
    let mut k: usize = 0;
    assert(log_views(entries@) =~= Seq::<SpecLogEntry>::empty());
    while k < spans.len()
        invariant
            ls == crlf_lines(v@),
            crlf_spans_of(v@, spans@),
            sep72@ == Seq::new(72, |i: int| '-'),
            bar@ == " | "@,
            pre@ == "   "@,
            changed_hdr@ == "Changed paths:"@,
            k <= spans@.len(),
            msg@ == join_lines(msg_lines),
            nmsg == msg_lines.len(),
            nmsg <= k,
            ({
                let st = log_state_after(ls.take(k as int));
                &&& log_views(entries@) == st.entries
                &&& opt_log_view(current) == st.current
                &&& msg_lines == st.msg
                &&& phase == st.phase
            }),
        decreases spans.len() - k,
    {
        let (s, e) = spans[k];
        assert(v@.subrange(s as int, e as int) == crlf_lines(v@)[k as int]);
        assert(ls.take(k + 1).drop_last() =~= ls.take(k as int));
        assert(ls.take(k + 1).last() == ls[k as int]);
        let ghost line = ls[k as int];
        let ghost st0 = log_state_after(ls.take(k as int));
        let is_msg = match phase {
            LogPhase::Message(_) => true,
            _ => false,
        };
        if !is_msg && equals_at(&v, s, e, &sep72) {
            match current.take() {
                Some(cur) => {
                    let done = finish_entry(cur, &msg, Ghost(msg_lines));
                    entries.push(done);
                    assert(log_views(entries@) =~= st0.entries.push(with_message(st0.current->0, st0.msg)));
                },
                None => {},
            }
            msg = Vec::new();
            nmsg = 0;
            proof {
                msg_lines = Seq::empty();
            }
            phase = LogPhase::Paths;
        } else {
            match current.take() {
                None => {
                    current = parse_log_header_at(&v, s, e, &bar);
                },
                Some(cur) => {
                    let mut cur = cur;
                    match phase {
                        LogPhase::Message(rem) => {
                            append_line(&mut msg, nmsg, &v, s, e, Ghost(msg_lines));
                            nmsg = nmsg + 1;
                            proof {
                                msg_lines = msg_lines.push(line);
                            }
                            phase = if rem > 1 { LogPhase::Message(rem - 1) } else { LogPhase::Done };
                        },
                        LogPhase::Done => {},
                        LogPhase::Paths => {
                            if s == e {
                                phase = if cur.line_count > 0 { LogPhase::Message(cur.line_count) } else { LogPhase::Done };
                            } else if equals_at(&v, s, e, &changed_hdr) {
                            } else {
                                match changed_path_at(&v, s, e, &pre) {
                                    Some(cp) => {
                                        let ghost old_changed = cur.changed@;
                                        cur.changed.push(cp);
                                        assert(cur.changed@.map_values(|p: (char, String)| (p.0, p.1@))
                                            =~= old_changed.map_values(|p: (char, String)| (p.0, p.1@)).push(
                                            spec_changed_path(line)->0));
                                    },
                                    None => {
                                        append_line(&mut msg, nmsg, &v, s, e, Ghost(msg_lines));
                                        nmsg = nmsg + 1;
                                        proof {
                                            msg_lines = msg_lines.push(line);
                                        }
                                        phase = if cur.line_count > 1 {
                                            LogPhase::Message(cur.line_count - 1)
                                        } else {
                                            LogPhase::Done
                                        };
                                    },
                                }
                            }
                        },
                    }
                    current = Some(cur);
                },
            }
        }
        k = k + 1;
    }
    assert(ls.take(spans.len() as int) =~= ls);
    match current.take() {
        Some(cur) => {
            let ghost st = log_state_after(ls);
            let done = finish_entry(cur, &msg, Ghost(msg_lines));
            entries.push(done);
            assert(log_views(entries@) =~= st.entries.push(with_message(st.current->0, st.msg)));
        },
        None => {},
    }
    entries
}

} // verus!

verus! {

// =====================================================================
// svn status
// =====================================================================

/// The mathematical value of a status entry.
pub struct SpecStatusEntry {
    pub status: char,
    pub props_status: char,
    pub tree_conflict: char,
    pub path: Seq<char>,
    pub is_dir: bool,
}

/// The value of a status entry.
pub open spec fn status_view(e: StatusEntry) -> SpecStatusEntry {
    SpecStatusEntry {
        status: e.status,
        props_status: e.props_status,
        tree_conflict: e.tree_conflict,
        path: e.path@,
        is_dir: e.is_dir,
    }
}

/// The values of status entries.
pub open spec fn status_views(es: Seq<StatusEntry>) -> Seq<SpecStatusEntry> {
    es.map_values(|e: StatusEntry| status_view(e))
}

/// The entry a status line (its bytes) yields, if any: seven one-byte
/// columns (text, props, locked, copied, switched, unused, tree conflict),
/// one separating byte, then the path from byte 8 on — which must start
/// on a char boundary and not be empty. Lines with all of the text,
/// props and tree-conflict columns blank carry nothing. `is_dir` is left
/// false: whether a path is a directory is a question for the disk.
pub open spec fn status_line_entry(line: Seq<u8>) -> Option<SpecStatusEntry> {
    if line.len() >= 8 && valid_utf8(line.skip(8)) && line.len() > 8 {
        let text = line[0] as char;
        let props = line[1] as char;
        let tree = line[6] as char;
        if text == ' ' && props == ' ' && tree == ' ' {
            None
        } else {
            Some(SpecStatusEntry {
                status: text,
                props_status: props,
                tree_conflict: tree,
                path: decode_utf8(line.skip(8)),
                is_dir: false,
            })
        }
    } else {
        None
    }
}

/// One line of `svn status` output; the state is (entries so far,
/// inside the "Summary of conflicts:" trailer).
pub open spec fn status_step(st: (Seq<SpecStatusEntry>, bool), line: Seq<u8>) -> (Seq<SpecStatusEntry>, bool) {
    if line.len() == 0 {
        st
    } else if line == "Summary of conflicts:".spec_bytes() {
        (st.0, true)
    } else if st.1 && starts_with(line, "  ".spec_bytes()) {
        st
    } else if starts_with(line, "      >".spec_bytes()) {
        (st.0, false)
    } else {
        match status_line_entry(line) {
            Some(e) => (st.0.push(e), false),
            None => (st.0, false),
        }
    }
}

/// The state after the lines `ls`.
pub open spec fn status_after(ls: Seq<Seq<u8>>) -> (Seq<SpecStatusEntry>, bool)
    decreases ls.len(),
{
    if ls.len() == 0 {
        (Seq::empty(), false)
    } else {
        status_step(status_after(ls.drop_last()), ls.last())
    }
}

/// What `parse_status` returns for the bytes of `svn status` output.
pub open spec fn spec_parse_status(bytes: Seq<u8>) -> Seq<SpecStatusEntry> {
    status_after(crlf_byte_lines(bytes)).0
}

/// `status_line_entry(v[s..e])`.
fn status_line_entry_at(v: &[u8], s: usize, e: usize) -> (r: Option<StatusEntry>)
    requires
        s <= e <= v@.len(),
    ensures
        match status_line_entry(v@.subrange(s as int, e as int)) {
            Some(x) => r is Some && status_view(r->0) == x,
            None => r is None,
        },
{
    let ghost line = v@.subrange(s as int, e as int);
    if e - s <= 8 {
        return None;
    }
    assert(line.skip(8) =~= v@.subrange(s + 8, e as int));
    assert(line[0] == v@[s as int] && line[1] == v@[s + 1] && line[6] == v@[s + 6]);
    let path = match utf8_to_string(slice_subrange(v, s + 8, e)) {
        None => return None,
        Some(p) => p,
    };
    let text = v[s] as char;
    let props = v[s + 1] as char;
    let tree = v[s + 6] as char;
    if text == ' ' && props == ' ' && tree == ' ' {
        return None;
    }
    Some(StatusEntry { status: text, props_status: props, tree_conflict: tree, path, is_dir: false })
}

/// Parse the plain-text output of `svn status`.
///
/// Layout (verified against svn 1.14): seven single-character columns
/// (text, props, locked, copied+add, switched, unused, tree-conflict),
/// one separating space, then the path starting at byte 8 — the path may
/// itself begin with spaces, so no extra spaces may be skipped.
/// The conflict trailer ("Summary of conflicts:" and its indented detail
/// lines) and tree-conflict continuation lines (six spaces and `>`) are
/// skipped. Every entry has `is_dir` false; callers that know the working
/// copy root set it from the disk.
pub fn parse_status(output: &str) -> (r: Vec<StatusEntry>)
    ensures
        status_views(r@) == spec_parse_status(output.spec_bytes()),
{
    let v = output.as_bytes();
    let spans = crlf_byte_line_spans(v);
    let ghost ls = crlf_byte_lines(v@);
    let summary = "Summary of conflicts:".as_bytes();
    let two = "  ".as_bytes();
    let cont = "      >".as_bytes();
    let mut entries: Vec<StatusEntry> = Vec::new();
    let mut in_summary = false;
    let mut k: usize = 0;
    assert(status_views(entries@) =~= Seq::<SpecStatusEntry>::empty());
    while k < spans.len()
        invariant
            ls == crlf_byte_lines(v@),
            crlf_byte_spans_of(v@, spans@),
            summary@ == "Summary of conflicts:".spec_bytes(),
            two@ == "  ".spec_bytes(),
            cont@ == "      >".spec_bytes(),
            k <= spans@.len(),
            (status_views(entries@), in_summary) == status_after(ls.take(k as int)),
        decreases spans.len() - k,
    {
        let (s, e) = spans[k];
        assert(v@.subrange(s as int, e as int) == crlf_byte_lines(v@)[k as int]);
        assert(ls.take(k + 1).drop_last() =~= ls.take(k as int));
        assert(ls.take(k + 1).last() == ls[k as int]);
        if s == e {
        } else if bytes_equal_at(v, s, e, summary) {
            in_summary = true;
        } else if in_summary && bytes_start_with_at(v, s, e, two) {
        } else if bytes_start_with_at(v, s, e, cont) {
            in_summary = false;
        } else {
            in_summary = false;
            match status_line_entry_at(v, s, e) {
                Some(en) => {
                    let ghost old_entries = entries@;
                    entries.push(en);
                    assert(status_views(entries@) =~= status_views(old_entries).push(status_view(en)));
                },
                None => {},
            }
        }
        k = k + 1;
    }
    assert(ls.take(spans.len() as int) =~= ls);
    entries
}

/// The entries `es` with the directory flags `dirs` that the disk gave,
/// one per entry in order: entry `i` is a directory exactly when
/// `dirs[i]`; an entry past the end of `dirs` keeps its flag.
pub open spec fn with_dirs(es: Seq<SpecStatusEntry>, dirs: Seq<bool>) -> Seq<SpecStatusEntry> {
    Seq::new(es.len(), |i: int| if i < dirs.len() { SpecStatusEntry { is_dir: dirs[i], ..es[i] } } else { es[i] })
}

/// Set the directory flags of status entries (see [`with_dirs`]); the
/// flags come from the disk, each path taken relative to the working
/// copy's root.
pub fn set_dir_flags(es: Vec<StatusEntry>, dirs: &[bool]) -> (r: Vec<StatusEntry>)
    ensures
        status_views(r@) == with_dirs(status_views(es@), dirs@),
{
    let mut r: Vec<StatusEntry> = Vec::new();
    let mut i: usize = 0;
    while i < es.len()
        invariant
            i <= es@.len(),
            r@.len() == i,
            forall|j: int| 0 <= j < i ==> status_view(#[trigger] r@[j]) == with_dirs(status_views(es@), dirs@)[j],
        decreases es.len() - i,
    {
        let e = &es[i];
        let d = if i < dirs.len() { dirs[i] } else { e.is_dir };
        r.push(StatusEntry {
            status: e.status,
            props_status: e.props_status,
            tree_conflict: e.tree_conflict,
            path: e.path.clone(),
            is_dir: d,
        });
        i = i + 1;
    }
    assert(status_views(r@) =~= with_dirs(status_views(es@), dirs@));
    r
}

} // verus!

verus! {

// =====================================================================
// svn --version, svn info
// =====================================================================

/// The separators `parse_version` splits on.
pub open spec fn is_version_sep(c: char) -> bool {
    c == '.' || c == ' ' || c == '('
}

/// Length of the run of non-separator chars that starts `s`.
pub open spec fn version_piece_len(s: Seq<char>) -> nat
    decreases s.len(),
{
    if s.len() == 0 || is_version_sep(s[0]) {
        0
    } else {
        1 + version_piece_len(s.drop_first())
    }
}

/// The pieces of `s` between separator chars (`str::split(['.', ' ', '('])`).
pub open spec fn version_pieces(s: Seq<char>) -> Seq<Seq<char>>
    decreases s.len(),
{
    let n = version_piece_len(s);
    if n >= s.len() {
        seq![s]
    } else {
        seq![s.take(n as int)] + version_pieces(s.skip(n + 1int))
    }
}

/// `parse_unsigned` into a `u32`.
pub open spec fn parse_u32(s: Seq<char>) -> Option<u32> {
    match parse_unsigned(s, u32::MAX as nat) {
        Some(n) => Some(n as u32),
        None => None,
    }
}

/// What `parse_version` returns: the trimmed text split on '.', ' ' and
/// '('; the first two pieces must be numbers, the third is the patch
/// level when it is a number (0 otherwise, or when absent).
pub open spec fn spec_parse_version(text: Seq<char>) -> Option<(u32, u32, u32)> {
    let p = version_pieces(trim(text));
    if p.len() < 2 {
        None
    } else {
        match (parse_u32(trim(p[0])), parse_u32(trim(p[1]))) {
            (Some(major), Some(minor)) => {
                let patch = if p.len() >= 3 {
                    match parse_u32(trim(p[2])) {
                        Some(x) => x,
                        None => 0,
                    }
                } else {
                    0
                };
                Some((major, minor, patch))
            },
            _ => None,
        }
    }
}

/// The next piece of `v[s..e]`: it is `v[s..r.0]`, and `r.1` says whether a
/// separator follows it (at `r.0`).
fn next_version_piece(v: &Vec<char>, s: usize, e: usize) -> (r: (usize, bool))
    requires
        s <= e <= v@.len(),
    ensures
        s <= r.0 <= e,
        r.0 - s == version_piece_len(v@.subrange(s as int, e as int)),
        r.1 == (r.0 < e),
        version_pieces(v@.subrange(s as int, e as int)) == if r.1 {
            seq![v@.subrange(s as int, r.0 as int)] + version_pieces(v@.subrange(r.0 + 1, e as int))
        } else {
            seq![v@.subrange(s as int, e as int)]
        },
{
    let mut j = s;
    while j < e && !(v[j] == '.' || v[j] == ' ' || v[j] == '(')
        invariant
            s <= j <= e <= v@.len(),
            version_piece_len(v@.subrange(s as int, e as int)) == (j - s) + version_piece_len(
                v@.subrange(j as int, e as int),
            ),
        decreases e - j,
    {
        assert(v@.subrange(j as int, e as int).drop_first() =~= v@.subrange(j + 1, e as int));
        j = j + 1;
    }
    let ghost t = v@.subrange(s as int, e as int);
    assert(t.take(j - s) =~= v@.subrange(s as int, j as int));
    if j < e {
        assert(t.skip(j - s + 1) =~= v@.subrange(j + 1, e as int));
    }
    (j, j < e)
}

/// `parse_u32` of `trim(v[s..e])`.
fn parse_u32_trimmed(v: &Vec<char>, s: usize, e: usize) -> (r: Option<u32>)
    requires
        s <= e <= v@.len(),
    ensures
        r == parse_u32(trim(v@.subrange(s as int, e as int))),
{
    let (a, b) = trim_range(v, s, e);
    match parse_unsigned_at(v, a, b, u32::MAX as u64) {
        Some(n) => Some(n as u32),
        None => None,
    }
}

/// Parse `svn --version --quiet` output ("1.14.5" or "1.14.5 (r1876290)")
/// into (major, minor, patch).
pub fn parse_version(text: &str) -> (r: Option<(u32, u32, u32)>)
    ensures
        r == spec_parse_version(text@),
{
    let v = chars_of(text);
    let (s, e) = trim_range(&v, 0, v.len());
    assert(v@.subrange(0, v@.len() as int) =~= v@);
    let (e0, more0) = next_version_piece(&v, s, e);
    if !more0 {
        return None;
    }
    let (e1, more1) = next_version_piece(&v, e0 + 1, e);
    let major = match parse_u32_trimmed(&v, s, e0) {
        Some(x) => x,
        None => return None,
    };
    let minor = match parse_u32_trimmed(&v, e0 + 1, e1) {
        Some(x) => x,
        None => return None,
    };
    let patch = if more1 {
        let (e2, _) = next_version_piece(&v, e1 + 1, e);
        match parse_u32_trimmed(&v, e1 + 1, e2) {
            Some(x) => x,
            None => 0,
        }
    } else {
        0
    };
    Some((major, minor, patch))
}

/// Minimum supported svn client version. Determined by the youngest
/// features used: `svn log --search` (1.8) and `svn patch` (1.7).
pub const MIN_SVN_VERSION: (u32, u32, u32) = (1, 8, 0);

/// `v` is at least `min` in lexicographic order.
pub open spec fn version_ge(v: (u32, u32, u32), min: (u32, u32, u32)) -> bool {
    v.0 > min.0 || (v.0 == min.0 && (v.1 > min.1 || (v.1 == min.1 && v.2 >= min.2)))
}

/// Lexicographic version comparison: is `v` at least `min`?
pub fn version_at_least(v: (u32, u32, u32), min: (u32, u32, u32)) -> (b: bool)
    ensures
        b == version_ge(v, min),
{
    v.0 > min.0 || (v.0 == min.0 && (v.1 > min.1 || (v.1 == min.1 && v.2 >= min.2)))
}

/// The mathematical value of working-copy info.
pub struct SpecSvnInfo {
    pub url: Seq<char>,
    pub branch: Seq<char>,
    pub revision: u64,
    pub wc_root: Seq<char>,
    pub repo_root: Seq<char>,
    pub uuid: Seq<char>,
    pub last_author: Seq<char>,
    pub last_rev: u64,
    pub last_date: Seq<char>,
}

/// The value of working-copy info.
pub open spec fn info_view(i: SvnInfo) -> SpecSvnInfo {
    SpecSvnInfo {
        url: i.url@,
        branch: i.branch@,
        revision: i.revision,
        wc_root: i.wc_root@,
        repo_root: i.repo_root@,
        uuid: i.uuid@,
        last_author: i.last_author@,
        last_rev: i.last_rev,
        last_date: i.last_date@,
    }
}

/// A number field: the trimmed value parsed, or 0.
pub open spec fn number_or_zero(s: Seq<char>) -> u64 {
    match parse_u64(trim(s)) {
        Some(n) => n,
        None => 0,
    }
}

/// One line of `svn info` output: the first of the known `Key:` prefixes
/// that starts the line sets its field (later lines win).
pub open spec fn info_step(st: SpecSvnInfo, line: Seq<char>) -> SpecSvnInfo {
    if starts_with(line, "URL:"@) {
        SpecSvnInfo { url: trim(line.skip("URL:"@.len() as int)), ..st }
    } else if starts_with(line, "Relative URL:"@) {
        SpecSvnInfo {
            branch: trim_start_char(trim_start_char(trim(line.skip("Relative URL:"@.len() as int)), '^'), '/'),
            ..st
        }
    } else if starts_with(line, "Revision:"@) {
        SpecSvnInfo { revision: number_or_zero(line.skip("Revision:"@.len() as int)), ..st }
    } else if starts_with(line, "Working Copy Root Path:"@) {
        SpecSvnInfo { wc_root: trim(line.skip("Working Copy Root Path:"@.len() as int)), ..st }
    } else if starts_with(line, "Repository Root:"@) {
        SpecSvnInfo { repo_root: trim(line.skip("Repository Root:"@.len() as int)), ..st }
    } else if starts_with(line, "Repository UUID:"@) {
        SpecSvnInfo { uuid: trim(line.skip("Repository UUID:"@.len() as int)), ..st }
    } else if starts_with(line, "Last Changed Author:"@) {
        SpecSvnInfo { last_author: trim(line.skip("Last Changed Author:"@.len() as int)), ..st }
    } else if starts_with(line, "Last Changed Rev:"@) {
        SpecSvnInfo { last_rev: number_or_zero(line.skip("Last Changed Rev:"@.len() as int)), ..st }
    } else if starts_with(line, "Last Changed Date:"@) {
        SpecSvnInfo { last_date: trim(line.skip("Last Changed Date:"@.len() as int)), ..st }
    } else {
        st
    }
}

/// The info after the lines `ls`, starting from all-empty fields.
pub open spec fn info_after(ls: Seq<Seq<char>>) -> SpecSvnInfo
    decreases ls.len(),
{
    if ls.len() == 0 {
        SpecSvnInfo {
            url: Seq::empty(),
            branch: Seq::empty(),
            revision: 0,
            wc_root: Seq::empty(),
            repo_root: Seq::empty(),
            uuid: Seq::empty(),
            last_author: Seq::empty(),
            last_rev: 0,
            last_date: Seq::empty(),
        }
    } else {
        info_step(info_after(ls.drop_last()), ls.last())
    }
}

/// What `parse_info` returns.
pub open spec fn spec_parse_info(text: Seq<char>) -> SpecSvnInfo {
    info_after(crlf_lines(text))
}

struct InfoPatterns {
    url: Vec<char>,
    rel: Vec<char>,
    rev: Vec<char>,
    root: Vec<char>,
    repo: Vec<char>,
    uuid: Vec<char>,
    author: Vec<char>,
    lrev: Vec<char>,
    date: Vec<char>,
}

impl InfoPatterns {
    spec fn wf(&self) -> bool {
        &&& self.url@ == "URL:"@
        &&& self.rel@ == "Relative URL:"@
        &&& self.rev@ == "Revision:"@
        &&& self.root@ == "Working Copy Root Path:"@
        &&& self.repo@ == "Repository Root:"@
        &&& self.uuid@ == "Repository UUID:"@
        &&& self.author@ == "Last Changed Author:"@
        &&& self.lrev@ == "Last Changed Rev:"@
        &&& self.date@ == "Last Changed Date:"@
    }

    fn new() -> (p: Self)
        ensures
            p.wf(),
    {
        InfoPatterns {
            url: chars_of("URL:"),
            rel: chars_of("Relative URL:"),
            rev: chars_of("Revision:"),
            root: chars_of("Working Copy Root Path:"),
            repo: chars_of("Repository Root:"),
            uuid: chars_of("Repository UUID:"),
            author: chars_of("Last Changed Author:"),
            lrev: chars_of("Last Changed Rev:"),
            date: chars_of("Last Changed Date:"),
        }
    }
}

/// `trim(v[s + p.len()..e])` as a `String`, where `v[s..e]` starts with `p`.
fn value_after(v: &Vec<char>, s: usize, e: usize, p: &Vec<char>) -> (r: String)
    requires
        s <= e <= v@.len(),
        starts_with(v@.subrange(s as int, e as int), p@),
    ensures
        r@ == trim(v@.subrange(s as int, e as int).skip(p@.len() as int)),
{
    assert(v@.subrange(s as int, e as int).skip(p@.len() as int) =~= v@.subrange(s + p@.len(), e as int));
    let (a, b) = trim_range(v, s + p.len(), e);
    string_of(v, a, b)
}

/// `number_or_zero(v[s + p.len()..e])`, where `v[s..e]` starts with `p`.
fn number_after(v: &Vec<char>, s: usize, e: usize, p: &Vec<char>) -> (r: u64)
    requires
        s <= e <= v@.len(),
        starts_with(v@.subrange(s as int, e as int), p@),
    ensures
        r == number_or_zero(v@.subrange(s as int, e as int).skip(p@.len() as int)),
{
    assert(v@.subrange(s as int, e as int).skip(p@.len() as int) =~= v@.subrange(s + p@.len(), e as int));
    let (a, b) = trim_range(v, s + p.len(), e);
    match parse_unsigned_at(v, a, b, u64::MAX) {
        Some(n) => n,
        None => 0,
    }
}

/// Parse the plain-text output of `svn info`.
///
/// `URL`, `Relative URL` (`^/trunk`, `^/branches/x`, ... — missing on very
/// old svn versions), `Revision`, `Working Copy Root Path`, `Repository
/// Root`, `Repository UUID` and the `Last Changed *` triple are extracted.
/// `Repository URL:` must not be mistaken for `URL:`.
pub fn parse_info(output: &str) -> (r: SvnInfo)
    ensures
        info_view(r) == spec_parse_info(output@),
{
    let v = chars_of(output);
    let spans = crlf_line_spans(&v);
    let pats = InfoPatterns::new();
    let ghost ls = crlf_lines(v@);
    let mut info = SvnInfo {
        url: String::new(),
        branch: String::new(),
        revision: 0,
        wc_root: String::new(),
        repo_root: String::new(),
        uuid: String::new(),
        last_author: String::new(),
        last_rev: 0,
        last_date: String::new(),
    };
    let mut k: usize = 0;
    while k < spans.len()
        invariant
            ls == crlf_lines(v@),
            crlf_spans_of(v@, spans@),
            pats.wf(),
            k <= spans@.len(),
            info_view(info) == info_after(ls.take(k as int)),
        decreases spans.len() - k,
    {
        let (s, e) = spans[k];
        assert(v@.subrange(s as int, e as int) == crlf_lines(v@)[k as int]);
        assert(ls.take(k + 1).drop_last() =~= ls.take(k as int));
        assert(ls.take(k + 1).last() == ls[k as int]);
        if starts_with_at(&v, s, e, &pats.url) {
            info.url = value_after(&v, s, e, &pats.url);
        } else if starts_with_at(&v, s, e, &pats.rel) {
            assert(v@.subrange(s as int, e as int).skip(pats.rel@.len() as int) =~= v@.subrange(s + pats.rel@.len(), e as int));
            let (a, b) = trim_range(&v, s + pats.rel.len(), e);
            let c = skip_char(&v, a, b, '^');
            let d = skip_char(&v, c, b, '/');
            info.branch = string_of(&v, d, b);
        } else if starts_with_at(&v, s, e, &pats.rev) {
            info.revision = number_after(&v, s, e, &pats.rev);
        } else if starts_with_at(&v, s, e, &pats.root) {
            info.wc_root = value_after(&v, s, e, &pats.root);
        } else if starts_with_at(&v, s, e, &pats.repo) {
            info.repo_root = value_after(&v, s, e, &pats.repo);
        } else if starts_with_at(&v, s, e, &pats.uuid) {
            info.uuid = value_after(&v, s, e, &pats.uuid);
        } else if starts_with_at(&v, s, e, &pats.author) {
            info.last_author = value_after(&v, s, e, &pats.author);
        } else if starts_with_at(&v, s, e, &pats.lrev) {
            info.last_rev = number_after(&v, s, e, &pats.lrev);
        } else if starts_with_at(&v, s, e, &pats.date) {
            info.last_date = value_after(&v, s, e, &pats.date);
        }
        k = k + 1;
    }
    assert(ls.take(spans.len() as int) =~= ls);
    info
}

} // verus!

verus! {

// =====================================================================
// svn blame
// =====================================================================

/// `l` without one trailing carriage return (`strip_suffix(b"\r")`).
pub open spec fn strip_one_cr(l: Seq<u8>) -> Seq<u8> {
    if l.len() > 0 && l.last() == 13u8 {
        l.drop_last()
    } else {
        l
    }
}

/// Index of the first non-space byte of `l` at or after `i`, if any.
pub open spec fn first_non_space_from(l: Seq<u8>, i: int) -> Option<int>
    decreases l.len() - i,
{
    if i < 0 || i >= l.len() {
        None
    } else if l[i] != 32u8 {
        Some(i)
    } else {
        first_non_space_from(l, i + 1)
    }
}

/// Index of the first space of `l` at or after `i`, or `l.len()`.
pub open spec fn space_or_end_from(l: Seq<u8>, i: int) -> int
    decreases l.len() - i,
{
    if i < 0 || i >= l.len() {
        l.len() as int
    } else if l[i] == 32u8 {
        i
    } else {
        space_or_end_from(l, i + 1)
    }
}

/// `l[a..b]` when that range lies in `l`, the empty string otherwise
/// (`slice::get(a..b).unwrap_or(&[])`).
pub open spec fn get_or_empty(l: Seq<u8>, a: int, b: int) -> Seq<u8> {
    if 0 <= a <= b <= l.len() {
        l.subrange(a, b)
    } else {
        Seq::empty()
    }
}

/// The revision of a blame line: `-` for an uncommitted line, otherwise
/// the token parsed as a number (when it is valid UTF-8 and a number).
pub open spec fn blame_revision(tok: Seq<u8>) -> Option<u64> {
    if tok == seq![45u8] {
        None
    } else if valid_utf8(tok) {
        parse_u64(decode_utf8(tok))
    } else {
        None
    }
}

/// The blame line that one piece of `svn blame` output yields, if any:
/// the revision token after the leading padding, then (after one space)
/// exactly 10 bytes of author, then (after one more space) the content.
pub open spec fn blame_line(piece: Seq<u8>) -> Option<SpecBlameLine> {
    let l = strip_one_cr(piece);
    match first_non_space_from(l, 0) {
        None => None,
        Some(start) => {
            let end = space_or_end_from(l, start);
            Some(SpecBlameLine {
                revision: blame_revision(l.subrange(start, end)),
                author: trim(utf8_lossy(get_or_empty(l, end + 1, end + 11))),
                content: utf8_lossy(if end + 12 <= l.len() { l.skip(end + 12) } else { Seq::empty() }),
            })
        },
    }
}

/// The blame lines of the pieces `ps`, in order.
pub open spec fn blame_fold(ps: Seq<Seq<u8>>) -> Seq<SpecBlameLine>
    decreases ps.len(),
{
    if ps.len() == 0 {
        Seq::empty()
    } else {
        let prev = blame_fold(ps.drop_last());
        match blame_line(ps.last()) {
            Some(b) => prev.push(b),
            None => prev,
        }
    }
}

/// What `parse_blame` returns: one line per newline-separated piece that
/// has a revision token.
pub open spec fn spec_parse_blame(output: Seq<u8>) -> Seq<SpecBlameLine> {
    blame_fold(split_char(output, 10u8))
}

/// The values of blame lines.
pub open spec fn blame_views(ls: Seq<BlameLine>) -> Seq<SpecBlameLine> {
    ls.map_values(|b: BlameLine| b@)
}

/// `blame_line(v[s..e])`.
#[verifier::spinoff_prover]
fn blame_line_at(v: &[u8], s: usize, e: usize) -> (r: Option<BlameLine>)
    requires
        s <= e <= v@.len(),
    ensures
        match blame_line(v@.subrange(s as int, e as int)) {
            Some(b) => r is Some && r->0@ == b,
            None => r is None,
        },
{
    let ghost piece = v@.subrange(s as int, e as int);
    let le = if e > s && v[e - 1] == 13u8 { e - 1 } else { e };
    let ghost l = strip_one_cr(piece);
    assert(l =~= v@.subrange(s as int, le as int));
    let mut start = s;
    while start < le && v[start] == 32u8
        invariant
            s <= start <= le <= e <= v@.len(),
            l == v@.subrange(s as int, le as int),
            first_non_space_from(l, 0) == first_non_space_from(l, start - s),
        decreases le - start,
    {
        start = start + 1;
    }
    if start == le {
        return None;
    }
    let mut end = start;
    while end < le && v[end] != 32u8
        invariant
            s <= start <= end <= le <= v@.len(),
            l == v@.subrange(s as int, le as int),
            space_or_end_from(l, start - s) == space_or_end_from(l, end - s),
        decreases le - end,
    {
        end = end + 1;
    }
    let ghost st = start - s;
    let ghost en = end - s;
    assert(l.subrange(st, en) =~= v@.subrange(start as int, end as int));
    let revision = if end - start == 1 && v[start] == 45u8 {
        assert(v@.subrange(start as int, end as int) =~= seq![45u8]);
        None
    } else {
        assert(v@.subrange(start as int, end as int) != seq![45u8]) by {
            if end - start == 1 {
                assert(v@.subrange(start as int, end as int)[0] == v@[start as int]);
            }
        }
        match utf8_to_string(slice_subrange(v, start, end)) {
            None => None,
            Some(tok) => {
                let cs = chars_of(tok.as_str());
                assert(cs@.subrange(0, cs@.len() as int) =~= cs@);
                parse_unsigned_at(&cs, 0, cs.len(), u64::MAX)
            },
        }
    };
    let author_bytes = if le - end >= 11 {
        assert(0 <= en + 1 <= en + 11 <= l.len());
        assert(l.subrange(en + 1, en + 11) =~= v@.subrange(end + 1, end + 11));
        assert(get_or_empty(l, en + 1, en + 11) =~= v@.subrange(end + 1, end + 11));
        slice_subrange(v, end + 1, end + 11)
    } else {
        assert(get_or_empty(l, en + 1, en + 11) =~= Seq::<u8>::empty());
        let z = slice_subrange(v, 0, 0);
        assert(z@ =~= Seq::<u8>::empty());
        z
    };
    let author_raw = utf8_lossy_string(author_bytes);
    let ac = chars_of(author_raw.as_str());
    let (aa, ab) = trim_range(&ac, 0, ac.len());
    assert(ac@.subrange(0, ac@.len() as int) =~= ac@);
    let content_bytes = if le - end >= 12 {
        assert(l.skip(en + 12) =~= v@.subrange(end + 12, le as int));
        slice_subrange(v, end + 12, le)
    } else {
        let z = slice_subrange(v, 0, 0);
        assert(z@ =~= Seq::<u8>::empty());
        z
    };
    let content = utf8_lossy_string(content_bytes);
    Some(BlameLine { revision, author: string_of(&ac, aa, ab), content })
}

/// Parse `svn blame` plain-text output (raw bytes).
///
/// Format (verified against svn 1.14): `%6s %10s %s` — revision
/// right-justified in *min* 6 bytes (7-digit revisions overflow), one
/// space, author right-justified in *exactly* 10 bytes (longer names are
/// byte-truncated, possibly mid-CJK-char), one space, then the content.
/// Fields are lossy-decoded individually so a mid-char truncation garbles
/// only the author, never the content.
pub fn parse_blame(output: &[u8]) -> (r: Vec<BlameLine>)
    ensures
        blame_views(r@) == spec_parse_blame(output@),
{
    let n = output.len();
    let mut lines: Vec<BlameLine> = Vec::new();
    let ghost mut done: Seq<Seq<u8>> = Seq::empty();
    let mut st: usize = 0;
    let mut i: usize = 0;
    assert(output@.take(0) =~= Seq::<u8>::empty());
    assert(blame_views(lines@) =~= Seq::<SpecBlameLine>::empty());
    while i < n
        invariant
            n == output@.len(),
            st <= i <= n,
            split_char(output@.take(i as int), 10u8) == done.push(output@.subrange(st as int, i as int)),
            blame_views(lines@) == blame_fold(done),
        decreases n - i,
    {
        assert(output@.take(i + 1).drop_last() =~= output@.take(i as int));
        assert(output@.take(i + 1).last() == output@[i as int]);
        if output[i] == 10u8 {
            let ghost old_done = done;
            let ghost old_lines = lines@;
            match blame_line_at(output, st, i) {
                Some(b) => {
                    lines.push(b);
                    assert(blame_views(lines@) =~= blame_views(old_lines).push(b@));
                },
                None => {},
            }
            proof {
                done = done.push(output@.subrange(st as int, i as int));
                assert(done.drop_last() =~= old_done);
                assert(output@.subrange((i + 1) as int, (i + 1) as int) =~= Seq::<u8>::empty());
            }
            st = i + 1;
        } else {
            proof {
                assert(output@.subrange(st as int, i as int).push(output@[i as int]) =~= output@.subrange(
                    st as int,
                    i + 1,
                ));
            }
        }
        i = i + 1;
    }
    assert(output@.take(n as int) =~= output@);
    let ghost old_done = done;
    let ghost old_lines = lines@;
    match blame_line_at(output, st, n) {
        Some(b) => {
            lines.push(b);
            assert(blame_views(lines@) =~= blame_views(old_lines).push(b@));
        },
        None => {},
    }
    proof {
        done = done.push(output@.subrange(st as int, n as int));
        assert(done.drop_last() =~= old_done);
    }
    lines
}

} // verus!

verus! {

/// The five predefined XML entities replaced by their characters, `&amp;`
/// first (it introduces the other entities' `&`).
pub open spec fn spec_xml_unescape(s: Seq<char>) -> Seq<char> {
    let a = replace_all(s, "&amp;"@, "&"@);
    let b = replace_all(a, "&lt;"@, "<"@);
    let c = replace_all(b, "&gt;"@, ">"@);
    let d = replace_all(c, "&quot;"@, "\""@);
    replace_all(d, "&apos;"@, "'"@)
}

/// Replace the five predefined XML entities.
pub fn xml_unescape(s: &str) -> (r: String)
    ensures
        r@ == spec_xml_unescape(s@),
{
    let v = chars_of(s);
    proof {
        reveal_strlit("&amp;");
        reveal_strlit("&lt;");
        reveal_strlit("&gt;");
        reveal_strlit("&quot;");
        reveal_strlit("&apos;");
    }
    let a = replace_chars(&v, &chars_of("&amp;"), &chars_of("&"));
    let b = replace_chars(&a, &chars_of("&lt;"), &chars_of("<"));
    let c = replace_chars(&b, &chars_of("&gt;"), &chars_of(">"));
    let d = replace_chars(&c, &chars_of("&quot;"), &chars_of("\""));
    let e = replace_chars(&d, &chars_of("&apos;"), &chars_of("'"));
    string_of(&e, 0, e.len())
}

/// The line number and author of one `<entry` chunk of `svn blame --xml`
/// output: the `line-number="N"` attribute (0 when missing or not a
/// number), and the unescaped text of `<author>...</author>` (none for an
/// uncommitted line, which has no `<commit>` block).
pub open spec fn xml_entry(chunk: Seq<char>) -> (u64, Option<Seq<char>>) {
    let ln_key = "line-number=\""@;
    let line_number = match find(chunk, ln_key) {
        Some(i) => {
            let rest = chunk.skip(i + ln_key.len());
            match find(rest, "\""@) {
                Some(j) => match parse_u64(rest.take(j)) {
                    Some(n) => n,
                    None => 0,
                },
                None => 0,
            }
        },
        None => 0,
    };
    let open = "<author>"@;
    let author = match find(chunk, open) {
        Some(i) => {
            let rest = chunk.skip(i + open.len());
            match find(rest, "</author>"@) {
                Some(j) => Some(spec_xml_unescape(rest.take(j))),
                None => None,
            }
        },
        None => None,
    };
    (line_number, author)
}

/// What `parse_blame_xml` returns: one pair per text following an
/// `<entry` occurrence.
pub open spec fn spec_parse_blame_xml(xml: Seq<char>) -> Seq<(u64, Option<Seq<char>>)> {
    split_str(xml, "<entry"@).skip(1).map_values(|c: Seq<char>| xml_entry(c))
}

/// The values of the parsed pairs.
pub open spec fn author_views(es: Seq<(u64, Option<String>)>) -> Seq<(u64, Option<Seq<char>>)> {
    es.map_values(|e: (u64, Option<String>)| (e.0, match e.1 {
        Some(a) => Some(a@),
        None => None,
    }))
}

struct XmlPatterns {
    entry: Vec<char>,
    ln_key: Vec<char>,
    quote: Vec<char>,
    open: Vec<char>,
    close: Vec<char>,
}

impl XmlPatterns {
    spec fn wf(&self) -> bool {
        &&& self.entry@ == "<entry"@
        &&& self.ln_key@ == "line-number=\""@
        &&& self.quote@ == "\""@
        &&& self.open@ == "<author>"@
        &&& self.close@ == "</author>"@
    }
}

/// `xml_entry(v[s..e])`.
fn xml_entry_at(v: &Vec<char>, s: usize, e: usize, pats: &XmlPatterns) -> (r: (u64, Option<String>))
    requires
        s <= e <= v@.len(),
        pats.wf(),
    ensures
        author_views(seq![r]) == seq![xml_entry(v@.subrange(s as int, e as int))],
{
    let ghost chunk = v@.subrange(s as int, e as int);
    let line_number: u64 = match find_at(v, s, e, &pats.ln_key) {
        Some(i) => {
            let rs = i + pats.ln_key.len();
            assert(chunk.skip(i - s + pats.ln_key@.len()) =~= v@.subrange(rs as int, e as int));
            match find_at(v, rs, e, &pats.quote) {
                Some(j) => {
                    assert(v@.subrange(rs as int, e as int).take(j - rs) =~= v@.subrange(rs as int, j as int));
                    match parse_unsigned_at(v, rs, j, u64::MAX) {
                        Some(n) => n,
                        None => 0,
                    }
                },
                None => 0,
            }
        },
        None => 0,
    };
    let author: Option<String> = match find_at(v, s, e, &pats.open) {
        Some(i) => {
            let rs = i + pats.open.len();
            assert(chunk.skip(i - s + pats.open@.len()) =~= v@.subrange(rs as int, e as int));
            match find_at(v, rs, e, &pats.close) {
                Some(j) => {
                    assert(v@.subrange(rs as int, e as int).take(j - rs) =~= v@.subrange(rs as int, j as int));
                    let raw = string_of(v, rs, j);
                    Some(xml_unescape(raw.as_str()))
                },
                None => None,
            }
        },
        None => None,
    };
    let r = (line_number, author);
    assert(author_views(seq![r]) =~= seq![xml_entry(chunk)]);
    r
}

/// Parse `svn blame --xml` output into (line number, author) pairs (None
/// author for uncommitted lines, which have no `<commit>` block). The XML
/// is the only blame output where authors survive intact: the plain
/// format truncates the author field to 10 bytes and cannot express names
/// containing spaces. Only the flat, fixed structure is parsed — no XML
/// library.
pub fn parse_blame_xml(xml: &str) -> (r: Vec<(u64, Option<String>)>)
    ensures
        author_views(r@) == spec_parse_blame_xml(xml@),
{
    let v = chars_of(xml);
    let n = v.len();
    let pats = XmlPatterns {
        entry: chars_of("<entry"),
        ln_key: chars_of("line-number=\""),
        quote: chars_of("\""),
        open: chars_of("<author>"),
        close: chars_of("</author>"),
    };
    proof {
        reveal_strlit("<entry");
    }
    let mut out: Vec<(u64, Option<String>)> = Vec::new();
    assert(v@.subrange(0, n as int) =~= v@);
    let first = match find_at(&v, 0, n, &pats.entry) {
        None => {
            assert(split_str(v@, "<entry"@).skip(1) =~= Seq::<Seq<char>>::empty());
            assert(author_views(out@) =~= Seq::<(u64, Option<Seq<char>>)>::empty());
            return out;
        },
        Some(i) => i,
    };
    let mut pos = first + pats.entry.len();
    assert(split_str(v@, "<entry"@).skip(1) =~= split_str(v@.subrange(pos as int, n as int), "<entry"@)) by {
        assert(v@.skip(first + 6) =~= v@.subrange(pos as int, n as int));
    }
    assert(author_views(out@) =~= Seq::<(u64, Option<Seq<char>>)>::empty());
    loop
        invariant
            n == v@.len(),
            v@ == xml@,
            pos <= n,
            pats.wf(),
            "<entry"@.len() == 6,
            spec_parse_blame_xml(v@) == author_views(out@) + split_str(v@.subrange(pos as int, n as int), "<entry"@).map_values(|c: Seq<char>| xml_entry(c)),
        decreases n - pos,
    {
        let ghost t = v@.subrange(pos as int, n as int);
        let ghost old_out = out@;
        match find_at(&v, pos, n, &pats.entry) {
            None => {
                let r = xml_entry_at(&v, pos, n, &pats);
                out.push(r);
                assert(split_str(t, "<entry"@) =~= seq![t]);
                assert(author_views(out@) =~= author_views(old_out) + author_views(seq![r]));
                assert(author_views(out@) + Seq::<(u64, Option<Seq<char>>)>::empty() =~= author_views(out@));
                assert(author_views(old_out) + split_str(t, "<entry"@).map_values(|c: Seq<char>| xml_entry(c)) =~= author_views(out@));
                return out;
            },
            Some(j) => {
                let r = xml_entry_at(&v, pos, j, &pats);
                out.push(r);
                let ghost rest = v@.subrange(j + 6, n as int);
                assert(t.take(j - pos) =~= v@.subrange(pos as int, j as int));
                assert(t.skip(j - pos + 6) =~= rest);
                assert(split_str(t, "<entry"@) == seq![v@.subrange(pos as int, j as int)] + split_str(rest, "<entry"@));
                assert(author_views(out@) =~= author_views(old_out) + author_views(seq![r]));
                assert(split_str(t, "<entry"@).map_values(|c: Seq<char>| xml_entry(c)) =~= seq![xml_entry(v@.subrange(pos as int, j as int))] + split_str(rest, "<entry"@).map_values(|c: Seq<char>| xml_entry(c)));
                assert(author_views(old_out) + split_str(t, "<entry"@).map_values(|c: Seq<char>| xml_entry(c)) =~= author_views(out@) + split_str(rest, "<entry"@).map_values(|c: Seq<char>| xml_entry(c)));
                pos = j + pats.entry.len();
            },
        }
    }
}

// =====================================================================
// Merging exact authors into text-parsed blame lines
// =====================================================================

/// `ls` with the authors of `authors` overlaid, applied in order: an
/// entry `(n, Some(a))` sets the author of line `n` (1-based).
pub open spec fn merge_fold(ls: Seq<SpecBlameLine>, authors: Seq<(u64, Option<Seq<char>>)>) -> Seq<SpecBlameLine>
    decreases authors.len(),
{
    if authors.len() == 0 {
        ls
    } else {
        let m = merge_fold(ls, authors.drop_last());
        let (n, a) = authors.last();
        match a {
            Some(name) => m.update(n - 1, SpecBlameLine { author: name, ..m[n - 1] }),
            None => m,
        }
    }
}

/// The two blame runs agree: as many entries as lines, and every line
/// number in range.
pub open spec fn authors_aligned(len: nat, authors: Seq<(u64, Option<Seq<char>>)>) -> bool {
    authors.len() == len && forall|k: int| 0 <= k < authors.len() ==> 1 <= #[trigger] authors[k].0 <= len
}

/// The author line `n` (1-based) gets from `authors`: the name of the
/// last entry for `n` that has one, else `default`.
pub open spec fn merged_author(authors: Seq<(u64, Option<Seq<char>>)>, n: int, default: Seq<char>) -> Seq<char>
    decreases authors.len(),
{
    if authors.len() == 0 {
        default
    } else if authors.last().0 == n && authors.last().1 is Some {
        authors.last().1.unwrap()
    } else {
        merged_author(authors.drop_last(), n, default)
    }
}

proof fn lemma_merge_fold(ls: Seq<SpecBlameLine>, authors: Seq<(u64, Option<Seq<char>>)>)
    requires
        forall|k: int| 0 <= k < authors.len() ==> 1 <= #[trigger] authors[k].0 <= ls.len(),
    ensures
        merge_fold(ls, authors).len() == ls.len(),
        forall|i: int| 0 <= i < ls.len() ==> {
            let m = #[trigger] merge_fold(ls, authors)[i];
            &&& m.revision == ls[i].revision
            &&& m.content == ls[i].content
            &&& m.author == merged_author(authors, i + 1, ls[i].author)
        },
    decreases authors.len(),
{
    if authors.len() > 0 {
        let init = authors.drop_last();
        assert forall|k: int| 0 <= k < init.len() implies 1 <= #[trigger] init[k].0 <= ls.len() by {
            assert(init[k] == authors[k]);
        }
        lemma_merge_fold(ls, init);
        assert(authors[authors.len() - 1] == authors.last());
    }
}

/// Merging exact authors goes by line number: when the two blame runs
/// agree (as many entries as lines, each line number in range) line `i`
/// gets the name of the last entry for line `i + 1` that has one and keeps
/// its author otherwise; when they disagree every line keeps its author.
/// Revisions, contents and the number of lines never change.
pub proof fn lemma_merge_by_line_number(ls: Seq<SpecBlameLine>, authors: Seq<(u64, Option<Seq<char>>)>)
    ensures
        spec_merge_blame_authors(ls, authors).len() == ls.len(),
        forall|i: int| 0 <= i < ls.len() ==> {
            let m = #[trigger] spec_merge_blame_authors(ls, authors)[i];
            &&& m.revision == ls[i].revision
            &&& m.content == ls[i].content
            &&& m.author == if authors_aligned(ls.len(), authors) {
                merged_author(authors, i + 1, ls[i].author)
            } else {
                ls[i].author
            }
        },
{
    if authors_aligned(ls.len(), authors) {
        lemma_merge_fold(ls, authors);
    }
}

/// What `merge_blame_authors` leaves in the lines.
pub open spec fn spec_merge_blame_authors(ls: Seq<SpecBlameLine>, authors: Seq<(u64, Option<Seq<char>>)>) -> Seq<SpecBlameLine> {
    if authors_aligned(ls.len(), authors) {
        merge_fold(ls, authors)
    } else {
        ls
    }
}

/// Overlay exact authors from `parse_blame_xml` onto text-parsed blame
/// lines, matched by line number (the text side's position + 1). A None
/// entry (uncommitted line) keeps the text-side author ("-"). When the
/// two sides disagree — different line counts, or a line number outside
/// the text output — the merge is abandoned and the text-parsed authors
/// are kept.
pub fn merge_blame_authors(lines: &mut Vec<BlameLine>, authors: &[(u64, Option<String>)])
    ensures
        blame_views(final(lines)@) == spec_merge_blame_authors(blame_views(old(lines)@), author_views(authors@)),
{
    let ghost av = author_views(authors@);
    let n = lines.len();
    if authors.len() != n {
        return;
    }
    let mut k: usize = 0;
    while k < authors.len()
        invariant
            n == lines@.len() == authors@.len(),
            av == author_views(authors@),
            k <= authors@.len(),
            forall|j: int| 0 <= j < k ==> 1 <= #[trigger] av[j].0 <= n,
        decreases authors.len() - k,
    {
        let ln = authors[k].0;
        if ln == 0 || ln > n as u64 {
            assert(!authors_aligned(n as nat, av)) by {
                assert(av[k as int].0 == ln);
            }
            return;
        }
        k = k + 1;
    }
    assert(authors_aligned(n as nat, av));
    let ghost orig = blame_views(lines@);
    let mut k: usize = 0;
    assert(av.take(0) =~= Seq::<(u64, Option<Seq<char>>)>::empty());
    while k < authors.len()
        invariant
            n == lines@.len() == authors@.len(),
            av == author_views(authors@),
            authors_aligned(n as nat, av),
            k <= authors@.len(),
            blame_views(lines@) == merge_fold(orig, av.take(k as int)),
            merge_fold(orig, av.take(k as int)).len() == n,
        decreases authors.len() - k,
    {
        let ghost prev = lines@;
        assert(av.take(k + 1).drop_last() =~= av.take(k as int));
        assert(av.take(k + 1).last() == av[k as int]);
        assert(1 <= av[k as int].0 <= n);
        match &authors[k].1 {
            Some(a) => {
                let idx = (authors[k].0 - 1) as usize;
                let old_line = &lines[idx];
                let updated = BlameLine {
                    revision: old_line.revision,
                    author: a.clone(),
                    content: old_line.content.clone(),
                };
                lines.set(idx, updated);
                assert(blame_views(lines@) =~= blame_views(prev).update(idx as int, updated@));
            },
            None => {},
        }
        k = k + 1;
    }
    assert(av.take(n as int) =~= av);
}

} // verus!
