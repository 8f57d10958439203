//! Fuzzy file finder popup (fzf-style): type a keyword, pick a versioned
//! file, Enter opens its history, Ctrl+b opens blame.
//!
//! The file list comes from `svn list -R` (loaded async: the popup shows
//! "Loading..." until `update` delivers it). Matching is the
//! `fuzzy-matcher` crate's skim matcher: subsequence matching with
//! scoring (consecutive/word-boundary bonuses, smart case) and the matched
//! character positions, which the result rows highlight. A bare letter is
//! always query text, so blame needs the Ctrl modifier here.

use vstd::prelude::*;
use crate::components::EventState;
use crate::keys::{binds, key_match, Event, KeyAction, KeyCode, KeyEvent};
use crate::order::{key_views, lemma_permutation_distinct, lex_le, range_seq, sort_by_keys};
use crate::queue::{InternalEvent, Queue};
use crate::query_popups::edited;
use crate::spans::{span, span_view, InfoSpan, Role};
use crate::text::{chars_of, decimal, push_char, push_decimal, push_str, texts};
use fuzzy_matcher::FuzzyMatcher;

verus! {

/// The rendered result list is capped; filtering itself is not.
pub const MAX_RESULTS: usize = 200;

/// A fuzzy match: the score and the matched char positions.
pub type FuzzyMatch = (i64, Vec<usize>);

/// What the skim matcher (default configuration: smart case) gives for
/// `choice` and `pattern`: the score and the matched char positions, or
/// `None` when `pattern` is no subsequence of `choice`.
pub uninterp spec fn skim_match(choice: Seq<char>, pattern: Seq<char>) -> Option<(i64, Seq<usize>)>;

/// `fuzzy_matcher::skim::SkimMatcherV2::fuzzy_indices` with the default
/// matcher: the result is named [`skim_match`]; of the scoring only what
/// the source shows plainly is stated: an empty pattern matches with
/// score 0 and no positions.
#[verifier::external_body]
fn fuzzy_indices(choice: &str, pattern: &str) -> (r: Option<FuzzyMatch>)
    ensures
        r is None <==> skim_match(choice@, pattern@) is None,
        r matches Some(m) ==> skim_match(choice@, pattern@) == Some((m.0, m.1@)),
        pattern@.len() == 0 ==> r is Some && r.unwrap().0 == 0 && r.unwrap().1@.len() == 0,
{
    fuzzy_matcher::skim::SkimMatcherV2::default().fuzzy_indices(choice, pattern)
}

/// The score of file `i` for the query, if it matches.
pub open spec fn score_of(files: Seq<Seq<char>>, q: Seq<char>, i: int) -> Option<i64> {
    match skim_match(files[i], q) {
        Some((s, _)) => Some(s),
        None => None,
    }
}

/// File `i` ranks before file `j`: a better score, or the same score and
/// an earlier place in the list.
pub open spec fn ranks_before(files: Seq<Seq<char>>, q: Seq<char>, i: int, j: int) -> bool {
    match (score_of(files, q, i), score_of(files, q, j)) {
        (Some(a), Some(b)) => a > b || (a == b && i < j),
        _ => false,
    }
}

/// `r` lists every file that matches the query once, best first (see
/// [`ranks_before`]).
pub open spec fn ranked(files: Seq<Seq<char>>, q: Seq<char>, r: Seq<int>) -> bool {
    &&& forall|k: int| 0 <= k < r.len() ==> 0 <= #[trigger] r[k] < files.len() && score_of(files, q, r[k]) is Some
    &&& forall|i: int| 0 <= i < files.len() && score_of(files, q, i) is Some ==> r.contains(i)
    &&& forall|k: int, l: int| 0 <= k < l < r.len() ==> ranks_before(files, q, #[trigger] r[k], #[trigger] r[l])
}

/// The result rows: the first [`MAX_RESULTS`] of a ranking `r`, each with
/// its matched positions.
pub open spec fn results_of(files: Seq<Seq<char>>, q: Seq<char>, r: Seq<int>) -> Seq<(int, Seq<usize>)> {
    let n = if r.len() < MAX_RESULTS { r.len() } else { MAX_RESULTS as nat };
    Seq::new(
        n,
        |k: int|
            (
                r[k],
                match skim_match(files[r[k]], q) {
                    Some((_, v)) => v,
                    None => Seq::empty(),
                },
            ),
    )
}

/// The results of the popup by value.
pub open spec fn result_views(v: Seq<(usize, Vec<usize>)>) -> Seq<(int, Seq<usize>)> {
    v.map_values(|x: (usize, Vec<usize>)| (x.0 as int, x.1@))
}

/// The sort key of a score: higher scores first.
pub open spec fn score_rank(s: i64) -> int {
    0xffff_ffff_ffff_ffff - (s as int + 0x8000_0000_0000_0000)
}

/// A number below 2^64 as two 32-bit digits.
pub open spec fn digits(x: int) -> Seq<u32> {
    seq![(x / 0x1_0000_0000) as u32, (x % 0x1_0000_0000) as u32]
}

/// The sort key of file `i` with score `s`.
pub open spec fn finder_key(s: i64, i: int) -> Seq<u32> {
    digits(score_rank(s)) + digits(i)
}

proof fn lemma_digits(x: int, y: int)
    requires
        0 <= x < 0x1_0000_0000_0000_0000,
        0 <= y < 0x1_0000_0000_0000_0000,
    ensures
        lex_le(digits(x), digits(y)) ==> x <= y,
        digits(x) == digits(y) ==> x == y,
{
    let xh = x / 0x1_0000_0000;
    let xl = x % 0x1_0000_0000;
    let yh = y / 0x1_0000_0000;
    let yl = y % 0x1_0000_0000;
    assert(x == 0x1_0000_0000 * xh + xl);
    assert(y == 0x1_0000_0000 * yh + yl);
    assert(0 <= xh < 0x1_0000_0000);
    assert(0 <= yh < 0x1_0000_0000);
    assert(digits(x)[0] == xh && digits(x)[1] == xl);
    assert(digits(y)[0] == yh && digits(y)[1] == yl);
    if xh < yh {
        assert(0x1_0000_0000 * xh + 0x1_0000_0000 <= 0x1_0000_0000 * yh) by (nonlinear_arith)
            requires
                xh < yh,
        ;
    }
    if xh > yh {
        assert(0x1_0000_0000 * yh + 0x1_0000_0000 <= 0x1_0000_0000 * xh) by (nonlinear_arith)
            requires
                yh < xh,
        ;
        assert(!lex_le(digits(x), digits(y)));
    }
    if xh == yh && xl > yl {
        assert(digits(x).drop_first() =~= seq![xl as u32]);
        assert(digits(y).drop_first() =~= seq![yl as u32]);
        assert(seq![xl as u32][0] > seq![yl as u32][0]);
        assert(!lex_le(seq![xl as u32], seq![yl as u32]));
        assert(!lex_le(digits(x), digits(y)));
    }
}

proof fn lemma_finder_key(s1: i64, i1: int, s2: i64, i2: int)
    requires
        0 <= i1 < 0x1_0000_0000_0000_0000,
        0 <= i2 < 0x1_0000_0000_0000_0000,
        i1 != i2,
        lex_le(finder_key(s1, i1), finder_key(s2, i2)),
    ensures
        s1 > s2 || (s1 == s2 && i1 < i2),
{
    let a = digits(score_rank(s1));
    let b = digits(score_rank(s2));
    lemma_digits(score_rank(s1), score_rank(s2));
    lemma_digits(i1, i2);
    if a == b {
        assert(finder_key(s1, i1).skip(2) =~= digits(i1));
        assert(finder_key(s2, i2).skip(2) =~= digits(i2));
        assert(finder_key(s1, i1).drop_first().drop_first() =~= digits(i1));
        assert(finder_key(s2, i2).drop_first().drop_first() =~= digits(i2));
        assert(finder_key(s1, i1)[0] == finder_key(s2, i2)[0]);
        assert(finder_key(s1, i1)[1] == finder_key(s2, i2)[1]);
        assert(lex_le(finder_key(s1, i1).drop_first(), finder_key(s2, i2).drop_first()));
        assert(lex_le(digits(i1), digits(i2)));
    } else {
        lemma_lex_prefix(a, b, digits(i1), digits(i2));
    }
}

/// Keys with different prefixes of length two are ordered by them.
proof fn lemma_lex_prefix(a: Seq<u32>, b: Seq<u32>, c: Seq<u32>, d: Seq<u32>)
    requires
        a.len() == 2,
        b.len() == 2,
        a != b,
        lex_le(a + c, b + d),
    ensures
        lex_le(a, b),
{
    assert((a + c)[0] == a[0] && (b + d)[0] == b[0]);
    assert((a + c)[1] == a[1] && (b + d)[1] == b[1]);
    if a[0] == b[0] {
        assert((a + c).drop_first()[0] == a[1]);
        assert((b + d).drop_first()[0] == b[1]);
        assert(a[1] != b[1]) by {
            if a[1] == b[1] {
                assert(a =~= b);
            }
        }
        let ac = (a + c).drop_first();
        let bd = (b + d).drop_first();
        assert(lex_le(ac, bd));
        assert(ac.len() > 0 && bd.len() > 0);
        assert(a[1] < b[1]);
        assert(a.drop_first() =~= seq![a[1]]);
        assert(b.drop_first() =~= seq![b[1]]);
        assert(lex_le(seq![a[1]], seq![b[1]]));
    }
}

/// The sort key of a score, computed.
fn key_of_match(s: i64, i: usize) -> (k: Vec<u32>)
    ensures
        k@ == finder_key(s, i as int),
{
    let v: u64 = if s < 0 {
        (s + 9223372036854775807 + 1) as u64
    } else {
        (s as u64) + 9223372036854775808
    };
    let d: u64 = 18446744073709551615 - v;
    assert(d as int == score_rank(s));
    let iu = i as u64;
    let k = vec![(d / 4294967296) as u32, (d % 4294967296) as u32, (iu / 4294967296) as u32, (iu % 4294967296) as u32];
    assert(k@ =~= finder_key(s, i as int));
    k
}

/// A result row: one span per char of the path, the chars at the matched
/// positions in the match style.
pub open spec fn result_row(path: Seq<char>, matched: Seq<usize>) -> Seq<(Seq<char>, Role)> {
    Seq::new(
        path.len(),
        |i: int|
            (
                seq![path[i]],
                if matched.contains(i as usize) {
                    Role::Matched
                } else {
                    Role::Text
                },
            ),
    )
}

/// A result row: the path with the fuzzy-matched chars highlighted.
pub fn result_line(path: &str, matched: &[usize]) -> (v: Vec<InfoSpan>)
    ensures
        v@.map_values(|s: InfoSpan| span_view(s)) == result_row(path@, matched@),
{
    let cs = chars_of(path);
    let mut v: Vec<InfoSpan> = Vec::new();
    let mut i: usize = 0;
    while i < cs.len()
        invariant
            i <= cs@.len(),
            cs@ == path@,
            v@.len() == i,
            forall|k: int| 0 <= k < i ==> span_view(#[trigger] v@[k]) == result_row(path@, matched@)[k],
        decreases cs.len() - i,
    {
        let mut hit = false;
        let mut m: usize = 0;
        while m < matched.len()
            invariant
                m <= matched@.len(),
                hit <==> exists|j: int| 0 <= j < m && matched@[j] == i,
            decreases matched.len() - m,
        {
            if matched[m] == i {
                hit = true;
            }
            m = m + 1;
        }
        assert(hit == matched@.contains(i));
        let mut t = String::new();
        push_char(&mut t, cs[i]);
        assert(t@ =~= seq![cs@[i as int]]);
        let role = if hit {
            Role::Matched
        } else {
            Role::Text
        };
        v.push(span(t, role));
        i = i + 1;
    }
    assert(v@.map_values(|s: InfoSpan| span_view(s)) =~= result_row(path@, matched@));
    v
}

/// A request the popup queues for the app, by value.
pub enum FinderRequest {
    Close,
    History(Seq<char>),
    Blame(Seq<char>),
}

/// The queued event `ev` is the request `r`.
pub open spec fn is_finder_request(ev: InternalEvent, r: FinderRequest) -> bool {
    match r {
        FinderRequest::Close => ev is ClosePopup,
        FinderRequest::History(p) => ev matches InternalEvent::OpenFileHistory(s) && s@ == p,
        FinderRequest::Blame(p) => ev matches InternalEvent::RequestBlame(s) && s@ == p,
    }
}

/// The value of the finder.
pub struct FinderState {
    pub files: Seq<Seq<char>>,
    pub pending: bool,
    pub query: Seq<char>,
    pub results: Seq<(int, Seq<usize>)>,
    pub selection: int,
    pub scroll: int,
    pub queue: Seq<InternalEvent>,
}

/// The path of the selected result, if any.
pub open spec fn finder_selected(s: FinderState) -> Option<Seq<char>> {
    if 0 <= s.selection < s.results.len() && 0 <= s.results[s.selection].0 < s.files.len() {
        Some(s.files[s.results[s.selection].0])
    } else {
        None
    }
}

/// The finder after the query changed to `q`: results for it, selection
/// and scroll back at the top.
pub open spec fn refiltered(s: FinderState, q: Seq<char>, r: Seq<int>) -> FinderState {
    FinderState { query: q, results: results_of(s.files, q, r), selection: 0, scroll: 0, ..s }
}

/// The selection moved by `delta`, kept on a result.
pub open spec fn finder_moved(s: FinderState, delta: int) -> FinderState {
    let len = s.results.len() as int;
    if len == 0 {
        s
    } else {
        let t = if s.selection + delta < 0 {
            0
        } else {
            s.selection + delta
        };
        FinderState { selection: if t < len { t } else { len - 1 }, ..s }
    }
}

/// `new_q` is `old_q` followed by the requests `reqs`, in order.
pub open spec fn finder_requested(old_q: Seq<InternalEvent>, new_q: Seq<InternalEvent>, reqs: Seq<FinderRequest>) -> bool {
    &&& new_q.len() == old_q.len() + reqs.len()
    &&& new_q.take(old_q.len() as int) == old_q
    &&& forall|i: int| 0 <= i < reqs.len() ==> is_finder_request(#[trigger] new_q[old_q.len() + i], reqs[i])
}

/// What an input event does to the finder.
pub enum FinderAction {
    /// The query changes to this (the results follow)
    Edit(Seq<char>),
    /// The selection moves by this many rows
    Move(int),
    /// These requests are queued
    Request(Seq<FinderRequest>),
    /// The event is not the finder's
    Ignore,
}

/// What the finder does with `ev`: Ctrl+b blames the selected file and
/// keeps the finder open, Esc closes, Enter closes and opens the selected
/// file's history (nothing without a selection), the arrows and page keys
/// move, and typing, Backspace and a paste edit the query (see
/// [`edited`]).
pub open spec fn finder_action(s: FinderState, ev: Event) -> FinderAction {
    match ev {
        Event::Key(k) => if binds(k, KeyAction::BlameFileFinder) {
            FinderAction::Request(
                match finder_selected(s) {
                    Some(p) => seq![FinderRequest::Blame(p)],
                    None => Seq::empty(),
                },
            )
        } else if k.code == KeyCode::Esc {
            FinderAction::Request(seq![FinderRequest::Close])
        } else if k.code == KeyCode::Enter {
            FinderAction::Request(
                match finder_selected(s) {
                    Some(p) => seq![FinderRequest::Close, FinderRequest::History(p)],
                    None => Seq::empty(),
                },
            )
        } else if k.code == KeyCode::Up {
            FinderAction::Move(-1)
        } else if k.code == KeyCode::Down {
            FinderAction::Move(1)
        } else if k.code == KeyCode::PageUp {
            FinderAction::Move(-20)
        } else if k.code == KeyCode::PageDown {
            FinderAction::Move(20)
        } else {
            match edited(s.query, ev) {
                Some(q) => FinderAction::Edit(q),
                None => FinderAction::Ignore,
            }
        },
        _ => match edited(s.query, ev) {
            Some(q) => FinderAction::Edit(q),
            None => FinderAction::Ignore,
        },
    }
}

/// `new_s` is `old_s` with the query `q` and its results.
pub open spec fn requeried(old_s: FinderState, new_s: FinderState, q: Seq<char>) -> bool {
    exists|r: Seq<int>| ranked(old_s.files, q, r) && new_s == refiltered(old_s, q, r)
}

/// The finder after `ev`, with the ranking `r` of the new query where the
/// query changed.
pub open spec fn finder_after(old_s: FinderState, new_s: FinderState, ev: Event) -> bool {
    match finder_action(old_s, ev) {
        FinderAction::Edit(q) => requeried(old_s, new_s, q),
        FinderAction::Move(d) => new_s == finder_moved(old_s, d),
        FinderAction::Request(reqs) => finder_requested(old_s.queue, new_s.queue, reqs) && new_s == (FinderState {
            queue: new_s.queue,
            ..old_s
        }),
        FinderAction::Ignore => new_s == old_s,
    }
}

proof fn lemma_finder_one(q: Seq<InternalEvent>, ev: InternalEvent, r: FinderRequest)
    requires
        is_finder_request(ev, r),
    ensures
        finder_requested(q, q.push(ev), seq![r]),
{
    assert(q.push(ev).take(q.len() as int) =~= q);
    assert(q.push(ev)[q.len() as int] == ev);
}

proof fn lemma_finder_none(q: Seq<InternalEvent>)
    ensures
        finder_requested(q, q, Seq::empty()),
{
    assert(q.take(q.len() as int) =~= q);
}

/// Fuzzy file finder popup.
pub struct FileFinderPopup {
    files: Vec<String>,
    pending: bool,
    query: String,
    /// `(index into files, matched char positions)`, best match first
    filtered: Vec<(usize, Vec<usize>)>,
    selection: usize,
    scroll: usize,
    queue: Queue,
}

impl View for FileFinderPopup {
    type V = FinderState;

    closed spec fn view(&self) -> FinderState {
        FinderState {
            files: texts(self.files@),
            pending: self.pending,
            query: self.query@,
            results: result_views(self.filtered@),
            selection: self.selection as int,
            scroll: self.scroll as int,
            queue: self.queue@,
        }
    }
}

impl FileFinderPopup {
    /// A finder still waiting for the file list.
    pub fn new() -> (p: FileFinderPopup)
        ensures
            p@ == (FinderState {
                files: Seq::empty(),
                pending: true,
                query: Seq::empty(),
                results: Seq::empty(),
                selection: 0,
                scroll: 0,
                queue: Seq::empty(),
            }),
    {
        let p = FileFinderPopup {
            files: Vec::new(),
            pending: true,
            query: String::new(),
            filtered: Vec::new(),
            selection: 0,
            scroll: 0,
            queue: Queue::new(),
        };
        assert(texts(p.files@) =~= Seq::<Seq<char>>::empty());
        assert(result_views(p.filtered@) =~= Seq::<(int, Seq<usize>)>::empty());
        p
    }

    /// The versioned files.
    pub fn files(&self) -> (v: &[String])
        ensures
            texts(v@) == self@.files,
    {
        self.files.as_slice()
    }

    /// The popup's title: its name and the number of versioned files.
    pub fn title(&self) -> (r: String)
        ensures
            r@ == "Find file ("@ + decimal(self@.files.len()) + " files)"@,
    {
        let mut t = "Find file (".to_owned();
        push_decimal(&mut t, self.files.len() as u64);
        push_str(&mut t, " files)");
        t
    }

    /// Whether the file list is still loading.
    pub fn pending(&self) -> (b: bool)
        ensures
            b == self@.pending,
    {
        self.pending
    }

    /// Loading ended without a result.
    pub fn set_pending(&mut self, pending: bool)
        ensures
            final(self)@ == (FinderState { pending, ..old(self)@ }),
    {
        self.pending = pending;
    }

    /// The query typed so far.
    pub fn query(&self) -> (q: &str)
        ensures
            q@ == self@.query,
    {
        self.query.as_str()
    }

    /// The result rows: file index and matched positions, best first.
    pub fn results(&self) -> (v: &[(usize, Vec<usize>)])
        ensures
            result_views(v@) == self@.results,
    {
        self.filtered.as_slice()
    }

    /// The selected result row.
    pub fn selection(&self) -> (i: usize)
        ensures
            i == self@.selection,
    {
        self.selection
    }

    /// The first result row shown.
    pub fn scroll(&self) -> (n: usize)
        ensures
            n == self@.scroll,
    {
        self.scroll
    }

    /// Remember the first result row shown.
    pub fn set_scroll(&mut self, n: usize)
        ensures
            final(self)@ == (FinderState { scroll: n as int, ..old(self)@ }),
    {
        self.scroll = n;
    }

    /// Take the queued requests, oldest first.
    pub fn take_events(&mut self) -> (v: Vec<InternalEvent>)
        ensures
            v@ == old(self)@.queue,
            final(self)@ == (FinderState { queue: Seq::empty(), ..old(self)@ }),
    {
        self.queue.drain()
    }

    /// Recompute the results for the current query.
    fn refilter(&mut self)
        ensures
            exists|r: Seq<int>|
                ranked(old(self)@.files, old(self)@.query, r) && final(self)@ == refiltered(
                    old(self)@,
                    old(self)@.query,
                    r,
                ),
    {
        let ghost fs = texts(self.files@);
        let ghost q = self.query@;
        // the matching files, in list order
        let mut keys: Vec<Vec<u32>> = Vec::new();
        let mut which: Vec<usize> = Vec::new();
        let mut found: Vec<Vec<usize>> = Vec::new();
        let mut i: usize = 0;
        while i < self.files.len()
            invariant
                i <= self.files@.len(),
                fs == texts(self.files@),
                q == self.query@,
                keys@.len() == which@.len() && which@.len() == found@.len(),
                forall|k: int| 0 <= k < which@.len() ==> #[trigger] which@[k] < i,
                forall|k: int, l: int| 0 <= k < l < which@.len() ==> which@[k] < which@[l],
                forall|k: int|
                    0 <= k < which@.len() ==> {
                        let w = #[trigger] which@[k] as int;
                        &&& skim_match(fs[w], q) matches Some((s, v)) && keys@[k]@ == finder_key(s, w)
                            && found@[k]@ == v
                    },
                forall|j: int| 0 <= j < i && skim_match(fs[j], q) is Some ==> which@.contains(j as usize),
            decreases self.files.len() - i,
        {
            match fuzzy_indices(self.files[i].as_str(), self.query.as_str()) {
                Some((s, v)) => {
                    let ghost prev = which@;
                    keys.push(key_of_match(s, i));
                    which.push(i);
                    found.push(v);
                    proof {
                        assert(which@ == prev.push(i));
                        assert forall|j: int| 0 <= j < i + 1 && skim_match(fs[j], q) is Some implies which@.contains(j as usize) by {
                            if j == i {
                                assert(which@[prev.len() as int] == j as usize);
                            } else {
                                assert(prev.contains(j as usize));
                                let k = choose|k: int| 0 <= k < prev.len() && prev[k] == j as usize;
                                assert(which@[k] == j as usize);
                            }
                        }
                    }
                },
                None => {},
            }
            i = i + 1;
        }
        let n = which.len();
        let mut idx: Vec<usize> = Vec::new();
        let mut j: usize = 0;
        while j < n
            invariant
                j <= n,
                n == which@.len(),
                idx@ == range_seq(j as nat),
            decreases n - j,
        {
            idx.push(j);
            assert(idx@ =~= range_seq((j + 1) as nat));
            j = j + 1;
        }
        proof {
            assert forall|k: int| 0 <= k < idx@.len() implies #[trigger] idx@[k] < key_views(keys@).len() by {}
        }
        let order = sort_by_keys(&keys, idx);
        proof {
            lemma_permutation_distinct(order@, n as nat);
        }
        let mut out: Vec<(usize, Vec<usize>)> = Vec::new();
        let mut t: usize = 0;
        while t < order.len() && t < MAX_RESULTS
            invariant
                t <= order@.len(),
                order@.len() == n,
                n == which@.len(),
                which@.len() == found@.len(),
                forall|k: int| 0 <= k < order@.len() ==> #[trigger] order@[k] < n,
                out@.len() == t,
                t <= MAX_RESULTS,
                forall|k: int| 0 <= k < t ==> (#[trigger] out@[k]).0 == which@[order@[k] as int] && out@[k].1@
                    == found@[order@[k] as int]@,
            decreases order.len() - t,
        {
            let o = order[t];
            let w = which[o];
            let mut v: Vec<usize> = Vec::new();
            let mut m: usize = 0;
            while m < found[o].len()
                invariant
                    m <= found@[o as int]@.len(),
                    o < found@.len(),
                    v@ == found@[o as int]@.take(m as int),
                decreases found@[o as int]@.len() - m,
            {
                v.push(found[o][m]);
                assert(found@[o as int]@.take(m + 1) =~= found@[o as int]@.take(m as int).push(found@[o as int]@[m as int]));
                m = m + 1;
            }
            assert(found@[o as int]@.take(m as int) =~= found@[o as int]@);
            out.push((w, v));
            t = t + 1;
        }
        let ghost r = order@.map_values(|u: usize| which@[u as int] as int);
        proof {
            assert forall|k: int| 0 <= k < r.len() implies 0 <= #[trigger] r[k] < fs.len() && score_of(fs, q, r[k]) is Some by {
                let u = order@[k] as int;
                assert(which@[u] < i);
            }
            assert forall|x: int| 0 <= x < fs.len() && score_of(fs, q, x) is Some implies r.contains(x) by {
                assert(which@.contains(x as usize));
                let k = choose|k: int| 0 <= k < which@.len() && which@[k] == x as usize;
                crate::order::lemma_permutation_covers(order@, n as nat, k as usize);
                let p = choose|p: int| 0 <= p < order@.len() && order@[p] == k as usize;
                assert(r[p] == x);
            }
            assert forall|k: int, l: int| 0 <= k < l < r.len() implies ranks_before(fs, q, #[trigger] r[k], #[trigger] r[l]) by {
                let a = order@[k] as int;
                let b = order@[l] as int;
                assert(a != b);
                assert(lex_le(key_views(keys@)[a], key_views(keys@)[b]));
                let wa = which@[a] as int;
                let wb = which@[b] as int;
                assert(wa != wb) by {
                    if a < b {
                        assert(which@[a] < which@[b]);
                    } else {
                        assert(which@[b] < which@[a]);
                    }
                }
                match (skim_match(fs[wa], q), skim_match(fs[wb], q)) {
                    (Some((sa, _)), Some((sb, _))) => {
                        lemma_finder_key(sa, wa, sb, wb);
                    },
                    _ => {},
                }
            }
            let rs = results_of(fs, q, r);
            assert(rs.len() == out@.len());
            assert forall|k: int| 0 <= k < out@.len() implies #[trigger] result_views(out@)[k] == rs[k] by {
                let u = order@[k] as int;
                assert(0 <= u < which@.len());
                let w = which@[u] as int;
                assert(r[k] == w);
                assert(skim_match(fs[w], q) matches Some((_, v)) && found@[u]@ == v);
            }
            assert(result_views(out@) =~= rs);
        }
        self.filtered = out;
        self.selection = 0;
        self.scroll = 0;
        proof {
            assert(ranked(fs, q, r));
            assert(self@ == refiltered(old(self)@, q, r));
            assert(ranked(old(self)@.files, old(self)@.query, r) && self@ == refiltered(
                old(self)@,
                old(self)@.query,
                r,
            ));
        }
    }

    /// The file list arrived: show the files matching the query.
    pub fn update(&mut self, files: Vec<String>)
        ensures
            exists|r: Seq<int>|
                ranked(texts(files@), old(self)@.query, r) && final(self)@ == refiltered(
                    FinderState { files: texts(files@), pending: false, ..old(self)@ },
                    old(self)@.query,
                    r,
                ),
    {
        let ghost fv = texts(files@);
        self.pending = false;
        self.files = files;
        let ghost mid = self@;
        self.refilter();
        proof {
            let r = choose|r: Seq<int>| ranked(mid.files, mid.query, r) && self@ == refiltered(mid, mid.query, r);
            assert(mid == (FinderState { files: fv, pending: false, ..old(self)@ }));
            assert(ranked(fv, old(self)@.query, r) && self@ == refiltered(
                FinderState { files: fv, pending: false, ..old(self)@ },
                old(self)@.query,
                r,
            ));
        }
    }

    /// The path of the selected result.
    pub fn selected_path(&self) -> (r: Option<String>)
        ensures
            r is None <==> finder_selected(self@) is None,
            r matches Some(p) ==> finder_selected(self@) == Some(p@),
    {
        if self.selection < self.filtered.len() {
            let i = self.filtered[self.selection].0;
            if i < self.files.len() {
                return Some(self.files[i].clone());
            }
        }
        None
    }

    /// Move the selection by `delta` rows, kept on a result.
    pub fn move_selection(&mut self, delta: isize)
        ensures
            final(self)@ == finder_moved(old(self)@, delta as int),
    {
        let len = self.filtered.len();
        if len == 0 {
            return;
        }
        let sel = self.selection;
        let target: usize = if delta < 0 {
            let d: usize = ((-(delta + 1)) as usize) + 1;
            if sel >= d {
                sel - d
            } else {
                0
            }
        } else {
            let d: usize = delta as usize;
            if sel >= len || d >= len - sel {
                len
            } else {
                sel + d
            }
        };
        self.selection = if target < len {
            target
        } else {
            len - 1
        };
    }

    /// Handle an input event (see [`finder_action`]).
    pub fn event(&mut self, ev: &Event) -> (r: Result<EventState, String>)
        ensures
            finder_after(old(self)@, final(self)@, *ev),
            r == Ok::<EventState, String>(EventState { consumed: !(finder_action(old(self)@, *ev) is Ignore) }),
    {
        let ghost q0 = self.queue@;
        if let Event::Key(k) = ev {
            if key_match(k, KeyAction::BlameFileFinder) {
                match self.selected_path() {
                    Some(path) => {
                        let e = InternalEvent::RequestBlame(path);
                        self.queue.push(e);
                        proof {
                            lemma_finder_one(q0, e, FinderRequest::Blame(path@));
                        }
                    },
                    None => {
                        proof {
                            lemma_finder_none(q0);
                        }
                    },
                }
                return Ok(EventState::consumed());
            }
            match k.code {
                KeyCode::Esc => {
                    self.queue.push(InternalEvent::ClosePopup);
                    proof {
                        lemma_finder_one(q0, InternalEvent::ClosePopup, FinderRequest::Close);
                    }
                    return Ok(EventState::consumed());
                },
                KeyCode::Enter => {
                    match self.selected_path() {
                        Some(path) => {
                            let e = InternalEvent::OpenFileHistory(path);
                            self.queue.push(InternalEvent::ClosePopup);
                            self.queue.push(e);
                            proof {
                                let q1 = q0.push(InternalEvent::ClosePopup).push(e);
                                assert(q1.take(q0.len() as int) =~= q0);
                                assert(q1[q0.len() as int] == InternalEvent::ClosePopup);
                                assert(q1[q0.len() + 1int] == e);
                                assert(is_finder_request(e, FinderRequest::History(path@)));
                            }
                        },
                        None => {
                            proof {
                                lemma_finder_none(q0);
                            }
                        },
                    }
                    return Ok(EventState::consumed());
                },
                KeyCode::Up => {
                    self.move_selection(-1);
                    return Ok(EventState::consumed());
                },
                KeyCode::Down => {
                    self.move_selection(1);
                    return Ok(EventState::consumed());
                },
                KeyCode::PageUp => {
                    self.move_selection(-20);
                    return Ok(EventState::consumed());
                },
                KeyCode::PageDown => {
                    self.move_selection(20);
                    return Ok(EventState::consumed());
                },
                _ => {},
            }
        }
        if crate::query_popups::edit(&mut self.query, ev) {
            let ghost mid = self@;
            self.refilter();
            proof {
                let r = choose|r: Seq<int>| ranked(mid.files, mid.query, r) && self@ == refiltered(mid, mid.query, r);
                assert(ranked(old(self)@.files, mid.query, r) && self@ == refiltered(old(self)@, mid.query, r));
                assert(requeried(old(self)@, self@, mid.query));
                assert(finder_action(old(self)@, *ev) == FinderAction::Edit(mid.query));
            }
            Ok(EventState::consumed())
        } else {
            Ok(EventState::not_consumed())
        }
    }
}

} // verus!
