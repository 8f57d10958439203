//! Vim-like incremental search state shared by scrollable text views
//! (fullscreen diff, blame). The state is view-agnostic: a view feeds it
//! its plain text lines, gets back match positions, scrolls to the current
//! match itself and renders the highlights and the footer line.
//!
//! Key semantics:
//! - `/` enters input mode with a *fresh* pattern (the previous pattern is
//!   not reused); typing/paste/backspace updates the pattern live and the
//!   view scrolls to the first match at or after the current scroll offset.
//! - `Enter` leaves input mode but keeps the highlights; `n`/`N` then cycle
//!   the current match (wrapping) and update the `[x/y]` counter.
//! - the Esc three-state lives in [`TextSearch::esc`]: cancel the input,
//!   clear confirmed highlights, or, with no search state, signal the
//!   view to close (the view owns the close action).

use vstd::prelude::*;
use crate::keys::{Event, KeyCode};
use crate::text::{
    bytes_start_with_at, decimal, pop_char, push_char, push_decimal, push_str, starts_with,
};
use vstd::utf8::encode_utf8;

verus! {

/// One match: the `start..end` byte range within `line`.
#[derive(Clone, Copy, Debug, PartialEq, Eq, Structural)]
pub struct Match {
    pub line: usize,
    pub start: usize,
    pub end: usize,
}

/// Result of feeding one event to [`TextSearch::input_event`].
#[derive(Clone, Copy, Debug, PartialEq, Eq, Structural)]
pub enum InputOutcome {
    /// The pattern changed; the caller should recompute matches.
    Changed,
    /// Enter: leave input mode, keep pattern and highlights.
    Confirmed,
    /// Esc: leave input mode, pattern and highlights cleared.
    Cancelled,
    /// Event ignored (e.g. cursor keys); input mode continues.
    Ignored,
}

/// What an Esc keypress did, given the search state (the three-state Esc
/// shared by the fullscreen diff view and the blame view).
#[derive(Clone, Copy, Debug, PartialEq, Eq, Structural)]
pub enum EscAction {
    /// In input mode: the input was cancelled (pattern + highlights dropped).
    CancelInput,
    /// Confirmed highlights were showing and are now cleared.
    ClearHighlights,
    /// No search state at all: the caller should close the view.
    ClosePopup,
}

// ---------------------------------------------------------------------
// The mathematics of matching
// ---------------------------------------------------------------------

/// The start offsets of the occurrences of `p` in `h` at or after `i`,
/// found left to right without overlap (as `str::match_indices` reports
/// them for a non-empty pattern).
pub open spec fn occurrences(h: Seq<u8>, p: Seq<u8>, i: int) -> Seq<int>
    decreases h.len() - i,
{
    if p.len() == 0 || i < 0 || i + p.len() > h.len() {
        Seq::empty()
    } else if starts_with(h.subrange(i, h.len() as int), p) {
        seq![i] + occurrences(h, p, i + p.len())
    } else {
        occurrences(h, p, i + 1)
    }
}

/// The match record of an occurrence of a pattern of `plen` bytes at byte
/// `start` of line `line`.
pub open spec fn match_at(line: int, start: int, plen: int) -> Match {
    Match { line: line as usize, start: start as usize, end: (start + plen) as usize }
}

/// The matches of pattern `p` in line number `line`, whose bytes are `h`.
pub open spec fn line_matches(line: int, h: Seq<u8>, p: Seq<u8>) -> Seq<Match> {
    occurrences(h, p, 0).map_values(|s: int| match_at(line, s, p.len() as int))
}

/// The matches of `p` in all of `lines` (each given by its bytes), line
/// by line, left to right within a line.
pub open spec fn all_matches(lines: Seq<Seq<u8>>, p: Seq<u8>) -> Seq<Match>
    decreases lines.len(),
{
    if lines.len() == 0 {
        Seq::empty()
    } else {
        all_matches(lines.drop_last(), p) + line_matches(
            lines.len() - 1,
            lines.last(),
            p,
        )
    }
}

/// The length of the longest prefix of `ms` whose matches lie above line
/// `line` (the index of the first match at or below it, if any).
pub open spec fn before_line(ms: Seq<Match>, line: int) -> nat
    decreases ms.len(),
{
    if ms.len() == 0 || ms[0].line >= line {
        0
    } else {
        1 + before_line(ms.drop_first(), line)
    }
}

/// The length of the longest prefix of `ms` whose matches are on `line`.
pub open spec fn run_on_line(ms: Seq<Match>, line: int) -> nat
    decreases ms.len(),
{
    if ms.len() == 0 || ms[0].line != line {
        0
    } else {
        1 + run_on_line(ms.drop_first(), line)
    }
}

/// The matches are ordered by line.
pub open spec fn sorted_by_line(ms: Seq<Match>) -> bool {
    forall|i: int, j: int| 0 <= i <= j < ms.len() ==> ms[i].line <= ms[j].line
}

/// The current match that a fresh search starting from `from_line` picks:
/// the first match at or after that line, else the first match at all.
pub open spec fn pick_current(ms: Seq<Match>, from_line: int) -> Option<usize> {
    if ms.len() == 0 {
        None
    } else if before_line(ms, from_line) < ms.len() {
        Some(before_line(ms, from_line) as usize)
    } else {
        Some(0)
    }
}

proof fn lemma_before_line_bounds(ms: Seq<Match>, line: int)
    ensures
        before_line(ms, line) <= ms.len(),
        forall|k: int| 0 <= k < before_line(ms, line) ==> ms[k].line < line,
        before_line(ms, line) < ms.len() ==> ms[before_line(ms, line) as int].line >= line,
    decreases ms.len(),
{
    if ms.len() > 0 && ms[0].line < line {
        lemma_before_line_bounds(ms.drop_first(), line);
        assert forall|k: int| 0 <= k < before_line(ms, line) implies ms[k].line < line by {
            if k > 0 {
                assert(ms[k] == ms.drop_first()[k - 1]);
            }
        }
    }
}

proof fn lemma_run_on_line_bounds(ms: Seq<Match>, line: int)
    ensures
        run_on_line(ms, line) <= ms.len(),
        forall|k: int| 0 <= k < run_on_line(ms, line) ==> ms[k].line == line,
        run_on_line(ms, line) < ms.len() ==> ms[run_on_line(ms, line) as int].line != line,
    decreases ms.len(),
{
    if ms.len() > 0 && ms[0].line == line {
        lemma_run_on_line_bounds(ms.drop_first(), line);
        assert forall|k: int| 0 <= k < run_on_line(ms, line) implies ms[k].line == line by {
            if k > 0 {
                assert(ms[k] == ms.drop_first()[k - 1]);
            }
        }
    }
}

/// On matches ordered by line, the run that starts at the first match at
/// or below `line` holds exactly the matches on `line`.
pub proof fn lemma_line_run_is_exact(ms: Seq<Match>, line: int)
    requires
        sorted_by_line(ms),
    ensures
        ({
            let f = before_line(ms, line) as int;
            let c = run_on_line(ms.skip(f), line) as int;
            &&& f + c <= ms.len()
            &&& forall|k: int| 0 <= k < ms.len() ==> (f <= k < f + c <==> ms[k].line == line)
        }),
{
    let f = before_line(ms, line) as int;
    lemma_before_line_bounds(ms, line);
    let rest = ms.skip(f);
    lemma_run_on_line_bounds(rest, line);
    let c = run_on_line(rest, line) as int;
    assert forall|k: int| 0 <= k < ms.len() implies (f <= k < f + c <==> ms[k].line == line) by {
        if f <= k < f + c {
            assert(ms[k] == rest[k - f]);
        } else if k < f {
        } else {
            assert(ms[f + c] == rest[c]);
            assert(ms[f].line >= line);
            if c == 0 {
                assert(ms[f].line != line);
                assert(ms[f].line <= ms[k].line);
            } else {
                assert(ms[f + c - 1] == rest[c - 1]);
                assert(ms[f + c].line != line);
                assert(ms[f + c - 1].line <= ms[f + c].line);
                assert(ms[f + c].line <= ms[k].line);
            }
        }
    }
}

proof fn lemma_occurrences_bounds(h: Seq<u8>, p: Seq<u8>, i: int)
    ensures
        forall|k: int|
            0 <= k < occurrences(h, p, i).len() ==> i <= #[trigger] occurrences(h, p, i)[k]
                && occurrences(h, p, i)[k] + p.len() <= h.len(),
        forall|a: int, b: int|
            0 <= a < b < occurrences(h, p, i).len() ==> occurrences(h, p, i)[a] + p.len()
                <= occurrences(h, p, i)[b],
    decreases h.len() - i,
{
    if p.len() == 0 || i < 0 || i + p.len() > h.len() {
    } else if starts_with(h.subrange(i, h.len() as int), p) {
        lemma_occurrences_bounds(h, p, i + p.len());
        let o = occurrences(h, p, i);
        let r = occurrences(h, p, i + p.len());
        assert(o == seq![i] + r);
        assert forall|k: int| 0 <= k < o.len() implies i <= #[trigger] o[k] && o[k] + p.len()
            <= h.len() by {
            if k > 0 {
                assert(o[k] == r[k - 1]);
            }
        }
        assert forall|a: int, b: int| 0 <= a < b < o.len() implies o[a] + p.len() <= o[b] by {
            assert(o[b] == r[b - 1]);
            if a > 0 {
                assert(o[a] == r[a - 1]);
            }
        }
    } else {
        lemma_occurrences_bounds(h, p, i + 1);
        assert(occurrences(h, p, i) == occurrences(h, p, i + 1));
    }
}

/// Every match lies within its line, on the line it names; matches on one
/// line do not overlap and come left to right; and the matches are ordered
/// by line.
pub proof fn lemma_all_matches_well_placed(lines: Seq<Seq<u8>>, p: Seq<u8>)
    requires
        lines.len() <= usize::MAX,
        forall|i: int| 0 <= i < lines.len() ==> (#[trigger] lines[i]).len() <= usize::MAX,
    ensures
        sorted_by_line(all_matches(lines, p)),
        forall|k: int|
            0 <= k < all_matches(lines, p).len() ==> {
                let m = #[trigger] all_matches(lines, p)[k];
                &&& m.line < lines.len()
                &&& m.start + p.len() == m.end
                &&& m.end <= lines[m.line as int].len()
            },
    decreases lines.len(),
{
    if lines.len() > 0 {
        let prev = lines.drop_last();
        assert forall|i: int| 0 <= i < prev.len() implies (#[trigger] prev[i]).len() <= usize::MAX by {
            assert(prev[i] == lines[i]);
        }
        lemma_all_matches_well_placed(prev, p);
        let a = all_matches(prev, p);
        let l = lines.len() - 1;
        let h = lines.last();
        let o = occurrences(h, p, 0);
        lemma_occurrences_bounds(h, p, 0);
        let b = line_matches(l, h, p);
        let ms = all_matches(lines, p);
        assert(ms == a + b);
        assert forall|k: int| 0 <= k < b.len() implies (#[trigger] b[k]).line == l && b[k].start
            + p.len() == b[k].end && b[k].end <= h.len() by {
            assert(b[k] == match_at(l, o[k], p.len() as int));
            assert(0 <= o[k]);
        }
        assert forall|k: int| 0 <= k < ms.len() implies {
            let m = #[trigger] ms[k];
            &&& m.line < lines.len()
            &&& m.start + p.len() == m.end
            &&& m.end <= lines[m.line as int].len()
        } by {
            if k < a.len() {
                assert(ms[k] == a[k]);
                assert(lines[a[k].line as int] == prev[a[k].line as int]);
            } else {
                assert(ms[k] == b[k - a.len()]);
            }
        }
        assert forall|i: int, j: int| 0 <= i <= j < ms.len() implies ms[i].line <= ms[j].line by {
            if j < a.len() {
                assert(ms[i] == a[i]);
                assert(ms[j] == a[j]);
            } else if i < a.len() {
                assert(ms[i] == a[i]);
                assert(ms[j] == b[j - a.len()]);
            } else {
                assert(ms[i] == b[i - a.len()]);
                assert(ms[j] == b[j - a.len()]);
            }
        }
    }
}

/// The matches of the first `n` lines come first among all the matches,
/// and every later match is on line `n` or below.
proof fn lemma_all_matches_prefix(lines: Seq<Seq<u8>>, p: Seq<u8>, n: int)
    requires
        0 <= n <= lines.len(),
        lines.len() <= usize::MAX,
    ensures
        all_matches(lines.take(n), p).len() <= all_matches(lines, p).len(),
        all_matches(lines, p).take(all_matches(lines.take(n), p).len() as int) == all_matches(lines.take(n), p),
        forall|k: int|
            all_matches(lines.take(n), p).len() <= k < all_matches(lines, p).len() ==> n <= (
            #[trigger] all_matches(lines, p)[k]).line,
    decreases lines.len() - n,
{
    if n == lines.len() {
        assert(lines.take(n) =~= lines);
    } else {
        lemma_all_matches_prefix(lines, p, n + 1);
        let t1 = lines.take(n + 1);
        assert(t1.drop_last() =~= lines.take(n));
        let a = all_matches(lines.take(n), p);
        let b = line_matches(n, lines[n], p);
        assert(all_matches(t1, p) == a + b);
        let o = occurrences(lines[n], p, 0);
        assert forall|k: int| 0 <= k < b.len() implies (#[trigger] b[k]).line == n by {
            assert(b[k] == match_at(n, o[k], p.len() as int));
        }
        let m = all_matches(lines, p);
        assert(m.take(a.len() as int) =~= a) by {
            assert forall|k: int| 0 <= k < a.len() implies m[k] == a[k] by {
                assert(m.take((a + b).len() as int)[k] == (a + b)[k]);
            }
        }
        assert forall|k: int| a.len() <= k < m.len() implies n <= (#[trigger] m[k]).line by {
            if k < a.len() + b.len() {
                assert(m.take((a + b).len() as int)[k] == (a + b)[k]);
                assert((a + b)[k] == b[k - a.len()]);
            }
        }
    }
}

/// A match of the lines up to `n` lies above line `n`.
proof fn lemma_all_matches_above(lines: Seq<Seq<u8>>, p: Seq<u8>)
    requires
        lines.len() <= usize::MAX,
    ensures
        forall|k: int| 0 <= k < all_matches(lines, p).len() ==> (#[trigger] all_matches(lines, p)[k]).line < lines.len(),
    decreases lines.len(),
{
    if lines.len() > 0 {
        let prev = lines.drop_last();
        lemma_all_matches_above(prev, p);
        let a = all_matches(prev, p);
        let l = lines.len() - 1;
        let b = line_matches(l, lines.last(), p);
        let o = occurrences(lines.last(), p, 0);
        assert forall|k: int| 0 <= k < all_matches(lines, p).len() implies (#[trigger] all_matches(lines, p)[k]).line
            < lines.len() by {
            if k < a.len() {
                assert(all_matches(lines, p)[k] == a[k]);
            } else {
                assert(all_matches(lines, p)[k] == b[k - a.len()]);
                assert(b[k - a.len()] == match_at(l, o[k - a.len()], p.len() as int));
            }
        }
    }
}

/// The search ranges of a line are what `str::match_indices` finds there:
/// after a search over lines `hs` (as bytes), the ranges reported for line
/// `l` are the non-overlapping occurrences of the pattern in that line,
/// left to right, each as its start and end byte.
pub proof fn lemma_ranges_are_match_indices(v: SearchView, hs: Seq<Seq<u8>>, from_line: int, l: int)
    requires
        0 <= l < hs.len(),
        hs.len() <= usize::MAX,
        forall|i: int| 0 <= i < hs.len() ==> (#[trigger] hs[i]).len() <= usize::MAX,
    ensures
        ranges_on_line(recomputed(v, hs, from_line), l) == occurrences(hs[l], encode_utf8(v.pattern), 0).map_values(
            |s: int| (s as usize, (s + encode_utf8(v.pattern).len()) as usize),
        ),
{
    let p = encode_utf8(v.pattern);
    let ms = all_matches(hs, p);
    lemma_all_matches_well_placed(hs, p);
    lemma_line_run_is_exact(ms, l);
    lemma_all_matches_prefix(hs, p, l);
    lemma_all_matches_prefix(hs, p, l + 1);
    let a = all_matches(hs.take(l), p);
    lemma_all_matches_above(hs.take(l), p);
    let t1 = hs.take(l + 1);
    assert(t1.drop_last() =~= hs.take(l));
    assert(t1.last() == hs[l]);
    let b = line_matches(l, hs[l], p);
    let q = all_matches(t1, p);
    assert(q == a + b);
    let o = occurrences(hs[l], p, 0);
    assert forall|k: int| 0 <= k < b.len() implies (#[trigger] b[k]) == match_at(l, o[k], p.len() as int) by {}
    let f = before_line(ms, l) as int;
    let c = run_on_line(ms.skip(f), l) as int;
    // the indices of the matches on line `l` are exactly a.len() .. a.len() + b.len()
    assert forall|k: int| 0 <= k < ms.len() implies (ms[k].line == l <==> a.len() <= k < a.len() + b.len()) by {
        if k < a.len() {
            assert(ms[k] == ms.take(a.len() as int)[k]);
            assert(ms.take(a.len() as int)[k] == a[k]);
        } else if k < a.len() + b.len() {
            assert(ms[k] == ms.take(q.len() as int)[k]);
            assert((a + b)[k] == b[k - a.len()]);
        }
    }
    let want = o.map_values(|s: int| (s as usize, (s + p.len()) as usize));
    let got = ms.subrange(f, f + c).map_values(|m: Match| (m.start, m.end));
    if b.len() > 0 {
        assert(ms[a.len() as int].line == l);
        assert(f == a.len()) by {
            if f < a.len() {
                if c > 0 {
                    assert(ms[f].line == l);
                }
            }
        }
        assert(c == b.len()) by {
            if c < b.len() {
                assert(ms[f + c].line == l);
            }
            if c > b.len() {
                assert(ms[(a.len() + b.len()) as int].line == l);
            }
        }
        assert forall|k: int| 0 <= k < b.len() implies got[k] == want[k] by {
            assert(ms[f + k] == ms.take(q.len() as int)[f + k]);
            assert((a + b)[f + k] == b[k]);
        }
        assert(got =~= want);
    } else {
        assert(c == 0) by {
            if c > 0 {
                assert(ms[f].line == l);
            }
        }
        assert(got =~= want);
    }
}

/// An empty pattern matches nothing.
proof fn lemma_all_matches_empty_pattern(lines: Seq<Seq<u8>>, p: Seq<u8>)
    requires
        p.len() == 0,
    ensures
        all_matches(lines, p) == Seq::<Match>::empty(),
    decreases lines.len(),
{
    if lines.len() > 0 {
        lemma_all_matches_empty_pattern(lines.drop_last(), p);
        assert(line_matches(lines.len() - 1, lines.last(), p) =~= Seq::<Match>::empty());
        assert(all_matches(lines, p) =~= Seq::<Match>::empty());
    }
}

// ---------------------------------------------------------------------
// The search state
// ---------------------------------------------------------------------

/// The value of a search: the pattern, whether it is being typed, the
/// matches and the index of the current match.
pub struct SearchView {
    pub pattern: Seq<char>,
    pub input_mode: bool,
    pub matches: Seq<Match>,
    pub current: Option<usize>,
}

/// Incremental-search state: pattern, matches and the current-match cursor.
pub struct TextSearch {
    pattern: String,
    input_mode: bool,
    /// All matches, sorted by (line, start)
    matches: Vec<Match>,
    /// Index into `matches` of the current match
    current: Option<usize>,
}

impl View for TextSearch {
    type V = SearchView;

    closed spec fn view(&self) -> SearchView {
        SearchView {
            pattern: self.pattern@,
            input_mode: self.input_mode,
            matches: self.matches@,
            current: self.current,
        }
    }
}

/// The footer text of a search in state `v`.
pub open spec fn spec_status_text(v: SearchView) -> Seq<char> {
    if v.pattern.len() == 0 {
        seq!['/']
    } else {
        let counter = if v.matches.len() == 0 {
            "[no match]"@
        } else {
            let shown: nat = match v.current {
                Some(i) => (i + 1) as nat,
                None => 0,
            };
            seq!['['] + decimal(shown) + seq!['/'] + decimal(v.matches.len()) + seq![']']
        };
        seq!['/'] + v.pattern + seq![' ', ' '] + counter
    }
}

/// The next current-match index when stepping `forward` (or back) from
/// `cur` among `n` matches, wrapping around.
pub open spec fn step_index(cur: int, n: int, forward: bool) -> int {
    if forward {
        if cur + 1 >= n {
            0
        } else {
            cur + 1
        }
    } else if cur == 0 {
        n - 1
    } else {
        cur - 1
    }
}

/// The state with no search at all (after `new`, `clear`, `cancel`).
pub open spec fn idle_state() -> SearchView {
    SearchView {
        pattern: Seq::empty(),
        input_mode: false,
        matches: Seq::empty(),
        current: None,
    }
}

/// The state right after `/`: typing a fresh, empty pattern.
pub open spec fn typing_state() -> SearchView {
    SearchView { input_mode: true, ..idle_state() }
}

/// `v` with its pattern replaced.
pub open spec fn with_pattern(v: SearchView, pattern: Seq<char>) -> SearchView {
    SearchView { pattern, ..v }
}

/// What one input event does to the search `v`, and the outcome it
/// reports: outside input mode nothing; in input mode a paste or a plain
/// char (no Control/Alt) extends the pattern, Backspace drops its last
/// char, Enter leaves input mode keeping the highlights, Esc drops
/// everything; any other event is ignored.
pub open spec fn after_input(v: SearchView, ev: Event) -> (SearchView, InputOutcome) {
    if !v.input_mode {
        (v, InputOutcome::Ignored)
    } else {
        match ev {
            Event::Paste(t) => (with_pattern(v, v.pattern + t@), InputOutcome::Changed),
            Event::Key(k) => match k.code {
                KeyCode::Enter => (SearchView { input_mode: false, ..v }, InputOutcome::Confirmed),
                KeyCode::Esc => (idle_state(), InputOutcome::Cancelled),
                KeyCode::Backspace => (
                    with_pattern(
                        v,
                        if v.pattern.len() == 0 {
                            v.pattern
                        } else {
                            v.pattern.drop_last()
                        },
                    ),
                    InputOutcome::Changed,
                ),
                KeyCode::Char(c) => if !k.ctrl && !k.alt {
                    (with_pattern(v, v.pattern.push(c)), InputOutcome::Changed)
                } else {
                    (v, InputOutcome::Ignored)
                },
                _ => (v, InputOutcome::Ignored),
            },
            Event::Mouse | Event::Other => (v, InputOutcome::Ignored),
        }
    }
}

/// The byte strings of `lines`.
pub open spec fn lines_bytes(lines: Seq<&str>) -> Seq<Seq<u8>> {
    lines.map_values(|l: &str| encode_utf8(l@))
}

/// The search `v` with its matches recomputed against the lines `hs`
/// (given by their bytes), the current match picked from `from_line` on.
pub open spec fn recomputed(v: SearchView, hs: Seq<Seq<u8>>, from_line: int) -> SearchView {
    let ms = all_matches(hs, encode_utf8(v.pattern));
    SearchView { matches: ms, current: pick_current(ms, from_line), ..v }
}

/// Stepping to the next (`forward`) or previous match of `v`, wrapping:
/// the new state and the line of the new current match; with no matches,
/// nothing changes and there is no line.
pub open spec fn stepped(v: SearchView, forward: bool) -> (SearchView, Option<usize>) {
    if v.matches.len() == 0 {
        (v, None)
    } else {
        let cur = match v.current {
            Some(i) => i as int,
            None => 0,
        };
        let c = step_index(cur, v.matches.len() as int, forward);
        (SearchView { current: Some(c as usize), ..v }, Some(v.matches[c].line))
    }
}

/// The byte ranges of the matches of `v` on `line`, in order.
pub open spec fn ranges_on_line(v: SearchView, line: int) -> Seq<(usize, usize)> {
    let ms = v.matches;
    let f = before_line(ms, line) as int;
    let c = run_on_line(ms.skip(f), line) as int;
    ms.subrange(f, f + c).map_values(|m: Match| (m.start, m.end))
}

/// The index among [`ranges_on_line`] of the current match of `v`, if it
/// is on `line`.
pub open spec fn current_on_line(v: SearchView, line: int) -> Option<usize> {
    let ms = v.matches;
    let f = before_line(ms, line) as int;
    let c = run_on_line(ms.skip(f), line) as int;
    match v.current {
        Some(x) => if f <= x < f + c {
            Some((x - f) as usize)
        } else {
            None
        },
        None => None,
    }
}

/// Stepping to the next match and then to the previous one (or the other
/// way round) comes back to the match one started on.
pub proof fn lemma_step_round_trip(v: SearchView, forward: bool)
    requires
        v.current matches Some(i) && i < v.matches.len(),
        v.matches.len() <= usize::MAX,
    ensures
        stepped(stepped(v, forward).0, !forward).0 == v,
        stepped(stepped(v, forward).0, !forward).1 == current_line(v),
{
    let i = v.current.unwrap();
    let n = v.matches.len() as int;
    let c = step_index(i as int, n, forward);
    assert(0 <= c < n);
    let w = stepped(v, forward).0;
    assert(w == SearchView { current: Some(c as usize), ..v });
    let c2 = step_index(c, n, !forward);
    assert(c2 == i as int);
    assert(stepped(w, !forward).0 == SearchView { current: Some(c2 as usize), ..w });
    assert(stepped(w, !forward).0 == v);
}

/// The search after `n` steps in one direction.
pub open spec fn stepped_n(v: SearchView, forward: bool, n: nat) -> SearchView
    decreases n,
{
    if n == 0 {
        v
    } else {
        stepped(stepped_n(v, forward, (n - 1) as nat), forward).0
    }
}

proof fn lemma_stepped_n(v: SearchView, forward: bool, n: nat)
    requires
        v.current matches Some(i) && i < v.matches.len(),
        v.matches.len() <= usize::MAX,
        n <= v.matches.len(),
    ensures
        stepped_n(v, forward, n) == (SearchView {
            current: Some(
                (if forward {
                    if v.current.unwrap() + n < v.matches.len() {
                        v.current.unwrap() + n
                    } else {
                        v.current.unwrap() + n - v.matches.len()
                    }
                } else {
                    if v.current.unwrap() >= n {
                        v.current.unwrap() - n
                    } else {
                        v.current.unwrap() + v.matches.len() - n
                    }
                }) as usize,
            ),
            ..v
        }),
    decreases n,
{
    if n > 0 {
        lemma_stepped_n(v, forward, (n - 1) as nat);
    }
}

/// Stepping through the matches goes round the whole cycle: after as
/// many steps as there are matches, in either direction, the search is
/// back on the match it started on, having been on every other one once.
pub proof fn lemma_step_cycle(v: SearchView, forward: bool)
    requires
        v.current matches Some(i) && i < v.matches.len(),
        v.matches.len() <= usize::MAX,
    ensures
        stepped_n(v, forward, v.matches.len()) == v,
        forall|k: nat, l: nat|
            0 < k < l <= v.matches.len() ==> #[trigger] stepped_n(v, forward, k).current != #[trigger] stepped_n(
                v,
                forward,
                l,
            ).current,
{
    lemma_stepped_n(v, forward, v.matches.len());
    assert forall|k: nat, l: nat|
        0 < k < l <= v.matches.len() implies #[trigger] stepped_n(v, forward, k).current != #[trigger] stepped_n(
            v,
            forward,
            l,
        ).current by {
        lemma_stepped_n(v, forward, k);
        lemma_stepped_n(v, forward, l);
    }
}

/// The line of the current match of `v`, if any.
pub open spec fn current_line(v: SearchView) -> Option<usize> {
    match v.current {
        Some(i) => Some(v.matches[i as int].line),
        None => None,
    }
}

impl TextSearch {
    #[verifier::type_invariant]
    spec fn inv(self) -> bool {
        &&& (self.current matches Some(c) ==> c < self.matches@.len())
        &&& sorted_by_line(self.matches@)
    }

    pub fn new() -> (s: TextSearch)
        ensures
            s@ == idle_state(),
    {
        TextSearch { pattern: String::new(), input_mode: false, matches: Vec::new(), current: None }
    }

    /// True while the user is typing the pattern.
    pub fn is_input_mode(&self) -> (b: bool)
        ensures
            b == self@.input_mode,
    {
        self.input_mode
    }

    /// True while the footer should be shown (typing or highlights active).
    pub fn is_active(&self) -> (b: bool)
        ensures
            b == (self@.input_mode || self@.pattern.len() > 0),
    {
        self.input_mode || !self.pattern.as_str().is_empty()
    }

    pub fn pattern(&self) -> (r: &str)
        ensures
            r@ == self@.pattern,
    {
        self.pattern.as_str()
    }

    pub fn match_count(&self) -> (n: usize)
        ensures
            n == self@.matches.len(),
    {
        self.matches.len()
    }

    /// Start a fresh search: enter input mode with an empty pattern.
    pub fn start_input(&mut self)
        ensures
            final(self)@ == typing_state(),
    {
        *self = TextSearch {
            pattern: String::new(),
            input_mode: true,
            matches: Vec::new(),
            current: None,
        };
    }

    /// Cancel the search: leave input mode, drop pattern and highlights.
    pub fn cancel(&mut self)
        ensures
            final(self)@ == idle_state(),
    {
        self.clear();
    }

    /// The Esc three-state shared by the scrollable text views: cancel an
    /// in-progress input, clear confirmed highlights, or, with no search
    /// state at all, signal that the view itself should close.
    pub fn esc(&mut self) -> (a: EscAction)
        ensures
            a == (if old(self)@.input_mode {
                EscAction::CancelInput
            } else if old(self)@.pattern.len() > 0 {
                EscAction::ClearHighlights
            } else {
                EscAction::ClosePopup
            }),
            final(self)@ == (if a == EscAction::ClosePopup {
                old(self)@
            } else {
                idle_state()
            }),
    {
        if self.is_input_mode() {
            self.cancel();
            EscAction::CancelInput
        } else if self.is_active() {
            self.clear();
            EscAction::ClearHighlights
        } else {
            EscAction::ClosePopup
        }
    }

    /// Drop pattern, matches and input mode.
    pub fn clear(&mut self)
        ensures
            final(self)@ == idle_state(),
    {
        *self = TextSearch {
            pattern: String::new(),
            input_mode: false,
            matches: Vec::new(),
            current: None,
        };
    }

    /// Handle one event while in input mode (no-op otherwise): a paste or
    /// a plain char (no Control/Alt) extends the pattern, Backspace drops
    /// its last char, Enter confirms, Esc cancels; anything else is
    /// ignored.
    pub fn input_event(&mut self, ev: &Event) -> (o: InputOutcome)
        ensures
            (final(self)@, o) == after_input(old(self)@, *ev),
    {
        proof {
            use_type_invariant(&*self);
        }
        if !self.input_mode {
            return InputOutcome::Ignored;
        }
        match ev {
            Event::Paste(text) => {
                let mut pat = self.pattern.clone();
                push_str(&mut pat, text.as_str());
                self.pattern = pat;
                InputOutcome::Changed
            },
            Event::Key(k) => match k.code {
                KeyCode::Enter => {
                    self.input_mode = false;
                    InputOutcome::Confirmed
                },
                KeyCode::Esc => {
                    self.cancel();
                    InputOutcome::Cancelled
                },
                KeyCode::Backspace => {
                    let mut pat = self.pattern.clone();
                    pop_char(&mut pat);
                    self.pattern = pat;
                    InputOutcome::Changed
                },
                // no ctrl/alt combos: macOS Option+letter produces chars
                // like ´ that must not pollute the pattern
                KeyCode::Char(c) => {
                    if !k.ctrl && !k.alt {
                        let mut pat = self.pattern.clone();
                        push_char(&mut pat, c);
                        self.pattern = pat;
                        InputOutcome::Changed
                    } else {
                        InputOutcome::Ignored
                    }
                },
                _ => InputOutcome::Ignored,
            },
            Event::Mouse | Event::Other => InputOutcome::Ignored,
        }
    }

    /// Recompute all matches of the pattern against `lines` (byte ranges,
    /// non-overlapping, left to right). The current match becomes the
    /// first one at or after `from_line` (wrapping to the very first
    /// match), so live typing scrolls to the nearest match below the scroll
    /// offset. An empty pattern matches nothing.
    pub fn recompute(&mut self, lines: &[&str], from_line: usize)
        ensures
            final(self)@ == recomputed(old(self)@, lines_bytes(lines@), from_line as int),
    {
        proof {
            use_type_invariant(&*self);
        }
        self.current = None;
        let ghost hs = lines@.map_values(|l: &str| encode_utf8(l@));
        let pb = self.pattern.as_str().as_bytes();
        let ghost p = pb@;
        let plen = pb.len();
        let mut ms: Vec<Match> = Vec::new();
        if plen > 0 {
            let mut li: usize = 0;
            while li < lines.len()
                invariant
                    li <= lines@.len(),
                    hs == lines@.map_values(|l: &str| encode_utf8(l@)),
                    p == pb@,
                    plen == p.len(),
                    plen > 0,
                    ms@ == all_matches(hs.take(li as int), p),
                    forall|j: int| 0 <= j < li ==> (#[trigger] hs[j]).len() <= usize::MAX,
                decreases lines.len() - li,
            {
                let hb = lines[li].as_bytes();
                let ghost h = hb@;
                let mut pos: usize = 0;
                let ghost mut acc: Seq<int> = Seq::empty();
                let ghost base = ms@;
                assert(h == hs[li as int]);
                while pos <= hb.len() && hb.len() - pos >= plen
                    invariant
                        li < lines@.len(),
                        h == hb@,
                        p == pb@,
                        plen == p.len(),
                        plen > 0,
                        pos <= h.len(),
                        acc + occurrences(h, p, pos as int) == occurrences(h, p, 0),
                        ms@ == base + acc.map_values(|s: int| match_at(li as int, s, plen as int)),
                    decreases h.len() - pos,
                {
                    let ghost before = occurrences(h, p, pos as int);
                    if bytes_start_with_at(hb, pos, hb.len(), pb) {
                        ms.push(Match { line: li, start: pos, end: pos + plen });
                        proof {
                            assert(before == seq![pos as int] + occurrences(h, p, pos + plen));
                            assert(acc.push(pos as int) + occurrences(h, p, pos + plen) =~= acc
                                + before);
                            assert(acc.push(pos as int).map_values(
                                |s: int| match_at(li as int, s, plen as int),
                            ) =~= acc.map_values(|s: int| match_at(li as int, s, plen as int)).push(
                                match_at(li as int, pos as int, plen as int),
                            ));
                            acc = acc.push(pos as int);
                        }
                        pos = pos + plen;
                    } else {
                        pos = pos + 1;
                    }
                }
                proof {
                    assert(occurrences(h, p, pos as int) =~= Seq::<int>::empty());
                    assert(acc =~= occurrences(h, p, 0));
                    let t = hs.take(li + 1);
                    assert(t.drop_last() =~= hs.take(li as int));
                    assert(t.last() == h);
                }
                li = li + 1;
            }
            assert(hs.take(lines@.len() as int) =~= hs);
            proof {
                lemma_all_matches_well_placed(hs, p);
            }
        } else {
            proof {
                lemma_all_matches_empty_pattern(hs, p);
            }
        }
        self.matches = ms;
        assert(self.matches@.skip(0) =~= self.matches@);
        let mut k: usize = 0;
        while k < self.matches.len() && self.matches[k].line < from_line
            invariant
                k <= self.matches@.len(),
                before_line(self.matches@, from_line as int) == k + before_line(
                    self.matches@.skip(k as int),
                    from_line as int,
                ),
            decreases self.matches.len() - k,
        {
            assert(self.matches@.skip(k as int).drop_first() =~= self.matches@.skip(k + 1));
            k = k + 1;
        }
        if self.matches.len() > 0 {
            if k < self.matches.len() {
                self.current = Some(k);
            } else {
                self.current = Some(0);
            }
        }
    }

    /// Advance to the next match (wrapping); returns its line.
    pub fn next_match(&mut self) -> (r: Option<usize>)
        ensures
            (final(self)@, r) == stepped(old(self)@, true),
    {
        self.step(1)
    }

    /// Retreat to the previous match (wrapping); returns its line.
    pub fn prev_match(&mut self) -> (r: Option<usize>)
        ensures
            (final(self)@, r) == stepped(old(self)@, false),
    {
        self.step(-1)
    }

    fn step(&mut self, dir: isize) -> (r: Option<usize>)
        requires
            dir == 1 || dir == -1,
        ensures
            (final(self)@, r) == stepped(old(self)@, dir == 1),
    {
        proof {
            use_type_invariant(&*self);
        }
        if self.matches.len() == 0 {
            return None;
        }
        let n = self.matches.len();
        let cur = match self.current {
            Some(i) => i,
            None => 0,
        };
        let next = if dir == 1 {
            if cur + 1 >= n {
                0
            } else {
                cur + 1
            }
        } else if cur == 0 {
            n - 1
        } else {
            cur - 1
        };
        self.current = Some(next);
        Some(self.matches[next].line)
    }

    /// Line of the current match, if any.
    pub fn current_match_line(&self) -> (r: Option<usize>)
        ensures
            r == current_line(self@),
    {
        proof {
            use_type_invariant(self);
        }
        match self.current {
            Some(i) => Some(self.matches[i].line),
            None => None,
        }
    }

    /// Byte ranges of all matches on `line`, in order, plus the index
    /// within that list of the current match (if it is on this line) for
    /// distinct styling.
    #[verifier::spinoff_prover]
    pub fn line_ranges(&self, line: usize) -> (r: (Vec<(usize, usize)>, Option<usize>))
        ensures
            ({
                let ms = self@.matches;
                let f = before_line(ms, line as int) as int;
                let c = run_on_line(ms.skip(f), line as int) as int;
                &&& f + c <= ms.len()
                &&& forall|k: int| 0 <= k < ms.len() ==> (f <= k < f + c <==> ms[k].line == line)
                &&& r.0@ == ms.subrange(f, f + c).map_values(|m: Match| (m.start, m.end))
                &&& r.1 == match self@.current {
                    Some(x) => if f <= x < f + c {
                        Some((x - f) as usize)
                    } else {
                        None
                    },
                    None => None,
                }
            }),
            r.0@ == ranges_on_line(self@, line as int),
            r.1 == current_on_line(self@, line as int),
    {
        proof {
            use_type_invariant(self);
            lemma_line_run_is_exact(self.matches@, line as int);
        }
        let ghost ms = self.matches@;
        assert(ms.skip(0) =~= ms);
        let mut first: usize = 0;
        while first < self.matches.len() && self.matches[first].line < line
            invariant
                ms == self.matches@,
                first <= ms.len(),
                before_line(ms, line as int) == first + before_line(ms.skip(first as int), line as int),
            decreases self.matches.len() - first,
        {
            assert(ms.skip(first as int).drop_first() =~= ms.skip(first + 1));
            first = first + 1;
        }
        assert(before_line(ms.skip(first as int), line as int) == 0);
        let ghost rest = ms.skip(first as int);
        let mut end = first;
        let mut ranges: Vec<(usize, usize)> = Vec::new();
        while end < self.matches.len() && self.matches[end].line == line
            invariant
                ms == self.matches@,
                first <= end <= ms.len(),
                rest == ms.skip(first as int),
                run_on_line(rest, line as int) == (end - first) + run_on_line(
                    ms.skip(end as int),
                    line as int,
                ),
                ranges@ == ms.subrange(first as int, end as int).map_values(
                    |m: Match| (m.start, m.end),
                ),
            decreases self.matches.len() - end,
        {
            assert(ms.skip(end as int).drop_first() =~= ms.skip(end + 1));
            let m = self.matches[end];
            ranges.push((m.start, m.end));
            assert(ms.subrange(first as int, end + 1) =~= ms.subrange(first as int, end as int).push(
                m,
            ));
            end = end + 1;
        }
        assert(run_on_line(ms.skip(end as int), line as int) == 0);
        let current = match self.current {
            Some(c) => if first <= c && c < end {
                Some(c - first)
            } else {
                None
            },
            None => None,
        };
        (ranges, current)
    }

    /// Footer text: `/pattern  [x/y]`, or `[no match]` when the pattern
    /// matches nothing; just `/` while the pattern is empty.
    pub fn status_text(&self) -> (s: String)
        ensures
            s@ == spec_status_text(self@),
    {
        proof {
            use_type_invariant(self);
        }
        let mut s = String::new();
        push_char(&mut s, '/');
        if self.pattern.as_str().is_empty() {
            return s;
        }
        push_str(&mut s, self.pattern.as_str());
        push_char(&mut s, ' ');
        push_char(&mut s, ' ');
        if self.matches.len() == 0 {
            push_str(&mut s, "[no match]");
        } else {
            push_char(&mut s, '[');
            let shown: u64 = match self.current {
                Some(i) => (i + 1) as u64,
                None => 0,
            };
            push_decimal(&mut s, shown);
            push_char(&mut s, '/');
            push_decimal(&mut s, self.matches.len() as u64);
            push_char(&mut s, ']');
        }
        s
    }
}

} // verus!
