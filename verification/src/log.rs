//! Log tab: the revision list (filter, full-history search results,
//! marks for a combined diff, paging of older revisions) and the key
//! handling around it.

use vstd::prelude::*;
use crate::components::EventState;
use crate::keys::{binds, key_match, Event, KeyAction, KeyEvent};
use crate::models::LogEntry;
use crate::queue::{ConfirmAction, InternalEvent, NeedsUpdate, Queue, Tab};
use crate::status_tree::{lowercase, to_lower};
use crate::text::{chars_of, decimal, find, find_at, line_spans, line_spans_of, lines_of, push_char, push_decimal, push_str, string_of};
use crate::models::message_summary;
use crate::repo_info::rev_text;
use crate::spans::{lines_view, push_line, span, span_view, text_span, InfoSpan, Role};
use crate::ui::{spec_truncate, truncate};

verus! {

/// The value of the log list.
pub struct LogState {
    pub entries: Seq<LogEntry>,
    /// Row in the visible (filtered) list
    pub selection: int,
    pub scroll: int,
    pub detail_scroll: int,
    pub pending: bool,
    pub focused: bool,
    /// Keyword filter over revision/author/message
    pub filter: Seq<char>,
    /// The full-history search pattern whose results are shown, if any
    pub search: Option<Seq<char>>,
    /// Marked revisions for a combined diff
    pub marks: Set<u64>,
    /// A request for older revisions is in flight
    pub loading_more: bool,
    pub queue: Seq<InternalEvent>,
}

/// The entry matches the keyword `f`, ignoring case: in its message, its
/// author or its revision number.
pub open spec fn log_matches(e: LogEntry, f: Seq<char>) -> bool {
    let lf = lowercase(f);
    ||| find(lowercase(e.message@), lf) is Some
    ||| find(lowercase(e.author@), lf) is Some
    ||| find(decimal(e.revision as nat), lf) is Some
}

/// The positions of the entries that match `f`, in order.
pub open spec fn matching(es: Seq<LogEntry>, f: Seq<char>) -> Seq<int>
    decreases es.len(),
{
    if es.len() == 0 {
        Seq::empty()
    } else {
        let r = matching(es.drop_last(), f);
        if log_matches(es.last(), f) {
            r.push(es.len() - 1)
        } else {
            r
        }
    }
}

/// The entries `a` and `b` differ at most in the letter case of their
/// messages and authors.
pub open spec fn entries_same_but_case(a: Seq<LogEntry>, b: Seq<LogEntry>) -> bool {
    &&& a.len() == b.len()
    &&& forall|i: int|
        0 <= i < a.len() ==> (#[trigger] a[i]).revision == b[i].revision && lowercase(a[i].message@) == lowercase(
            b[i].message@,
        ) && lowercase(a[i].author@) == lowercase(b[i].author@)
}

/// The log filter ignores letter case: entries whose messages and authors
/// differ only in case match the same keywords, and keywords that differ
/// only in case match the same entries.
pub proof fn lemma_log_filter_ignores_case(a: Seq<LogEntry>, b: Seq<LogEntry>, f: Seq<char>, g: Seq<char>)
    requires
        entries_same_but_case(a, b),
        lowercase(f) == lowercase(g),
    ensures
        matching(a, f) == matching(b, g),
    decreases a.len(),
{
    if a.len() > 0 {
        let a0 = a.drop_last();
        let b0 = b.drop_last();
        assert(entries_same_but_case(a0, b0)) by {
            assert forall|i: int| 0 <= i < a0.len() implies (#[trigger] a0[i]).revision == b0[i].revision && lowercase(
                a0[i].message@,
            ) == lowercase(b0[i].message@) && lowercase(a0[i].author@) == lowercase(b0[i].author@) by {
                assert(a0[i] == a[i]);
                assert(b0[i] == b[i]);
            }
        }
        lemma_log_filter_ignores_case(a0, b0, f, g);
        assert(a.last() == a[a.len() - 1]);
        assert(b.last() == b[b.len() - 1]);
    }
}

/// The positions `matching` gives are entries that match, in range.
proof fn lemma_matching_members(es: Seq<LogEntry>, f: Seq<char>)
    ensures
        forall|k: int|
            0 <= k < matching(es, f).len() ==> 0 <= #[trigger] matching(es, f)[k] < es.len() && log_matches(
                es[matching(es, f)[k]],
                f,
            ),
    decreases es.len(),
{
    if es.len() > 0 {
        let init = es.drop_last();
        lemma_matching_members(init, f);
        let r = matching(init, f);
        assert forall|k: int| 0 <= k < matching(es, f).len() implies 0 <= #[trigger] matching(es, f)[k] < es.len()
            && log_matches(es[matching(es, f)[k]], f) by {
            if k < r.len() {
                assert(matching(es, f)[k] == r[k]);
                assert(es[r[k]] == init[r[k]]);
            } else {
                assert(es[es.len() - 1] == es.last());
            }
        }
    }
}

/// The positions of the entries the list shows: all of them while no
/// filter is set or full-history search results are shown (they are
/// filtered by the server already), else those matching the filter.
pub open spec fn visible(s: LogState) -> Seq<int> {
    if s.filter.len() == 0 || s.search is Some {
        Seq::new(s.entries.len(), |i: int| i)
    } else {
        matching(s.entries, s.filter)
    }
}

/// The entry of the selected row, if any.
pub open spec fn selected(s: LogState) -> Option<LogEntry> {
    let v = visible(s);
    if 0 <= s.selection < v.len() {
        Some(s.entries[v[s.selection]])
    } else {
        None
    }
}

/// `v` is increasing: each revision once, in order.
pub open spec fn increasing(v: Seq<u64>) -> bool {
    forall|i: int, j: int| 0 <= i < j < v.len() ==> v[i] < v[j]
}

/// A request the log list queues for the app, by value.
pub enum LogRequest {
    /// Diff of the range spanned by these marked revisions
    RangeDiff(Set<u64>),
    /// Diff of this revision
    RevisionDiff(u64),
    /// Open the search popup
    OpenSearch,
    /// Ask before updating the working copy to this revision
    ConfirmUpdateTo(u64),
    /// Reload the log
    Refresh,
    /// Show the key help
    Help,
    /// Switch to this tab
    Switch(Tab),
    /// Load older revisions
    LoadMore,
}

/// The queued event `ev` is the request `r`.
pub open spec fn is_log_request(ev: InternalEvent, r: LogRequest) -> bool {
    match r {
        LogRequest::RangeDiff(ms) => ev matches InternalEvent::RequestRangeDiff(v) && increasing(v@)
            && v@.to_set() == ms,
        LogRequest::RevisionDiff(rev) => ev matches InternalEvent::RequestRevisionDiff(r) && r == rev,
        LogRequest::OpenSearch => ev is OpenLogSearch,
        LogRequest::ConfirmUpdateTo(rev) => ev matches InternalEvent::Confirm(ConfirmAction::UpdateToRevision(r))
            && r == rev,
        LogRequest::Refresh => ev matches InternalEvent::Update(n) && n.0 == 0b0100,
        LogRequest::Help => ev is OpenHelp,
        LogRequest::Switch(t) => ev matches InternalEvent::SwitchTab(u) && u == t,
        LogRequest::LoadMore => ev is LogLoadMore,
    }
}

/// `new_q` is `old_q` followed by the requests `reqs`, in order.
pub open spec fn log_requested(old_q: Seq<InternalEvent>, new_q: Seq<InternalEvent>, reqs: Seq<LogRequest>) -> bool {
    &&& new_q.len() == old_q.len() + reqs.len()
    &&& new_q.take(old_q.len() as int) == old_q
    &&& forall|i: int| 0 <= i < reqs.len() ==> is_log_request(#[trigger] new_q[old_q.len() + i], reqs[i])
}

/// The selection moved by `delta` rows, kept on a row, and the detail
/// pane back at its top; nothing changes without rows.
pub open spec fn moved(s: LogState, delta: int) -> LogState {
    let len = visible(s).len();
    if len == 0 {
        s
    } else {
        let t = if s.selection + delta < 0 {
            0
        } else {
            s.selection + delta
        };
        LogState { selection: if t < len { t } else { len - 1 }, detail_scroll: 0, ..s }
    }
}

/// The revision of the oldest loaded entry (1 without entries).
pub open spec fn oldest(s: LogState) -> int {
    if s.entries.len() == 0 {
        1
    } else {
        s.entries.last().revision as int
    }
}

/// Near the bottom of the list, ask once for older revisions (not for
/// search results, which hold the full history).
pub open spec fn load_more(s: LogState) -> (LogState, Seq<LogRequest>) {
    let len = visible(s).len();
    if !s.loading_more && s.search is None && len > 0 && oldest(s) > 1 && s.selection + 10 >= len {
        (LogState { loading_more: true, ..s }, seq![LogRequest::LoadMore])
    } else {
        (s, Seq::empty())
    }
}

/// What a key press does in the log list.
#[derive(Clone, Copy, Debug)]
pub enum LogAction {
    Up,
    Down,
    PageUp,
    PageDown,
    Home,
    End,
    Mark,
    Diff,
    Search,
    UpdateTo,
    Refresh,
    Help,
    Escape,
    TabStatus,
    TabLog,
    Blame,
}

/// The action of the key press `k` in the log list: the first binding
/// that matches, in this order.
pub open spec fn log_action(k: KeyEvent) -> Option<LogAction> {
    if binds(k, KeyAction::MoveUp) {
        Some(LogAction::Up)
    } else if binds(k, KeyAction::MoveDown) {
        Some(LogAction::Down)
    } else if binds(k, KeyAction::PageUp) {
        Some(LogAction::PageUp)
    } else if binds(k, KeyAction::PageDown) {
        Some(LogAction::PageDown)
    } else if binds(k, KeyAction::Home) {
        Some(LogAction::Home)
    } else if binds(k, KeyAction::End) {
        Some(LogAction::End)
    } else if binds(k, KeyAction::ToggleMark) {
        Some(LogAction::Mark)
    } else if binds(k, KeyAction::OpenRevisionDiff) {
        Some(LogAction::Diff)
    } else if binds(k, KeyAction::Filter) {
        Some(LogAction::Search)
    } else if binds(k, KeyAction::UpdateToRevision) {
        Some(LogAction::UpdateTo)
    } else if binds(k, KeyAction::Refresh) {
        Some(LogAction::Refresh)
    } else if binds(k, KeyAction::Help) {
        Some(LogAction::Help)
    } else if binds(k, KeyAction::Escape) {
        Some(LogAction::Escape)
    } else if binds(k, KeyAction::SwitchTabStatus) {
        Some(LogAction::TabStatus)
    } else if binds(k, KeyAction::SwitchTabLog) {
        Some(LogAction::TabLog)
    } else if binds(k, KeyAction::Blame) {
        Some(LogAction::Blame)
    } else {
        None
    }
}

/// What the key action `a` does to the list `s` before paging: the new
/// list (its queue aside) and the requests queued.
pub open spec fn log_step(s: LogState, a: LogAction) -> (LogState, Seq<LogRequest>) {
    match a {
        LogAction::Up => (moved(s, -1), Seq::empty()),
        LogAction::Down => (moved(s, 1), Seq::empty()),
        LogAction::PageUp => (moved(s, -20), Seq::empty()),
        LogAction::PageDown => (moved(s, 20), Seq::empty()),
        LogAction::Home => (LogState { selection: 0, ..s }, Seq::empty()),
        LogAction::End => (
            LogState {
                selection: if visible(s).len() == 0 {
                    0
                } else {
                    visible(s).len() - 1
                },
                ..s
            },
            Seq::empty(),
        ),
        LogAction::Mark => match selected(s) {
            Some(e) => (
                LogState {
                    marks: if s.marks.contains(e.revision) {
                        s.marks.remove(e.revision)
                    } else {
                        s.marks.insert(e.revision)
                    },
                    ..s
                },
                Seq::empty(),
            ),
            None => (s, Seq::empty()),
        },
        LogAction::Diff => if s.marks.len() >= 2 {
            (s, seq![LogRequest::RangeDiff(s.marks)])
        } else {
            match selected(s) {
                Some(e) => (s, seq![LogRequest::RevisionDiff(e.revision)]),
                None => (s, Seq::empty()),
            }
        },
        LogAction::Search => (s, seq![LogRequest::OpenSearch]),
        LogAction::UpdateTo => match selected(s) {
            Some(e) => (s, seq![LogRequest::ConfirmUpdateTo(e.revision)]),
            None => (s, Seq::empty()),
        },
        LogAction::Refresh => (s, seq![LogRequest::Refresh]),
        LogAction::Help => (s, seq![LogRequest::Help]),
        LogAction::Escape => if s.filter.len() > 0 {
            (
                LogState { filter: Seq::empty(), selection: 0, search: None, ..s },
                if s.search is Some {
                    seq![LogRequest::Refresh]
                } else {
                    Seq::empty()
                },
            )
        } else {
            (s, seq![LogRequest::Switch(Tab::Status)])
        },
        LogAction::TabStatus => (s, seq![LogRequest::Switch(Tab::Status)]),
        LogAction::TabLog => (s, seq![LogRequest::Switch(Tab::Log)]),
        LogAction::Blame => (s, Seq::empty()),
    }
}

/// What the input event `ev` does to the list `s`: the new list (its
/// queue aside), the requests queued and whether the event was used.
pub open spec fn log_event(s: LogState, ev: Event) -> (LogState, Seq<LogRequest>, bool) {
    match ev {
        Event::Key(k) => match log_action(k) {
            Some(a) => {
                let (s1, r1) = log_step(s, a);
                let (s2, r2) = load_more(s1);
                (s2, r1 + r2, true)
            },
            None => (s, Seq::empty(), false),
        },
        _ => (s, Seq::empty(), false),
    }
}


proof fn lemma_log_requested_none(q: Seq<InternalEvent>)
    ensures
        log_requested(q, q, Seq::empty()),
{
    assert(q.take(q.len() as int) =~= q);
}

proof fn lemma_log_requested_one(q: Seq<InternalEvent>, ev: InternalEvent, r: LogRequest)
    requires
        is_log_request(ev, r),
    ensures
        log_requested(q, q.push(ev), seq![r]),
{
    assert(q.push(ev).take(q.len() as int) =~= q);
    assert(q.push(ev)[q.len() as int] == ev);
}

proof fn lemma_log_requested_append(
    q0: Seq<InternalEvent>,
    q1: Seq<InternalEvent>,
    q2: Seq<InternalEvent>,
    r1: Seq<LogRequest>,
    r2: Seq<LogRequest>,
)
    requires
        log_requested(q0, q1, r1),
        log_requested(q1, q2, r2),
    ensures
        log_requested(q0, q2, r1 + r2),
{
    assert(q2.take(q0.len() as int) =~= q1.take(q0.len() as int));
    assert forall|i: int| 0 <= i < (r1 + r2).len() implies is_log_request(#[trigger] q2[q0.len() + i], (r1 + r2)[i]) by {
        if i < r1.len() {
            assert(q2[q0.len() + i] == q2.take(q1.len() as int)[q0.len() + i]);
            assert(q1[q0.len() + i] == q2[q0.len() + i]);
        } else {
            assert(q2[q0.len() + i] == q2[q1.len() + (i - r1.len())]);
        }
    }
}

/// The action of the key press `k` (see [`log_action`]).
fn log_action_of(k: &KeyEvent) -> (a: Option<LogAction>)
    ensures
        a == log_action(*k),
{
    if key_match(k, KeyAction::MoveUp) {
        Some(LogAction::Up)
    } else if key_match(k, KeyAction::MoveDown) {
        Some(LogAction::Down)
    } else if key_match(k, KeyAction::PageUp) {
        Some(LogAction::PageUp)
    } else if key_match(k, KeyAction::PageDown) {
        Some(LogAction::PageDown)
    } else if key_match(k, KeyAction::Home) {
        Some(LogAction::Home)
    } else if key_match(k, KeyAction::End) {
        Some(LogAction::End)
    } else if key_match(k, KeyAction::ToggleMark) {
        Some(LogAction::Mark)
    } else if key_match(k, KeyAction::OpenRevisionDiff) {
        Some(LogAction::Diff)
    } else if key_match(k, KeyAction::Filter) {
        Some(LogAction::Search)
    } else if key_match(k, KeyAction::UpdateToRevision) {
        Some(LogAction::UpdateTo)
    } else if key_match(k, KeyAction::Refresh) {
        Some(LogAction::Refresh)
    } else if key_match(k, KeyAction::Help) {
        Some(LogAction::Help)
    } else if key_match(k, KeyAction::Escape) {
        Some(LogAction::Escape)
    } else if key_match(k, KeyAction::SwitchTabStatus) {
        Some(LogAction::TabStatus)
    } else if key_match(k, KeyAction::SwitchTabLog) {
        Some(LogAction::TabLog)
    } else if key_match(k, KeyAction::Blame) {
        Some(LogAction::Blame)
    } else {
        None
    }
}

/// Whether `text` contains `f` (both as chars).
fn has(text: &Vec<char>, f: &Vec<char>) -> (b: bool)
    ensures
        b == (find(text@, f@) is Some),
{
    assert(text@.subrange(0, text@.len() as int) =~= text@);
    find_at(text, 0, text.len(), f).is_some()
}

/// Whether the entry matches the lowercased keyword `lf`.
fn entry_matches(e: &LogEntry, lf: &Vec<char>, Ghost(f): Ghost<Seq<char>>) -> (b: bool)
    requires
        lf@ == lowercase(f),
    ensures
        b == log_matches(*e, f),
{
    let m = chars_of(to_lower(e.message.as_str()).as_str());
    if has(&m, lf) {
        return true;
    }
    let a = chars_of(to_lower(e.author.as_str()).as_str());
    if has(&a, lf) {
        return true;
    }
    let mut r = String::new();
    push_decimal(&mut r, e.revision);
    let rv = chars_of(r.as_str());
    has(&rv, lf)
}

/// The log list with its requests for the app.
pub struct LogComponent {
    entries: Vec<LogEntry>,
    /// Row in the visible (filtered) list
    selection: usize,
    scroll: usize,
    detail_scroll: usize,
    pending: bool,
    focused: bool,
    filter: String,
    search: Option<String>,
    /// Marked revisions, increasing
    marks: Vec<u64>,
    loading_more: bool,
    queue: Queue,
}

/// The list after freshly loaded `entries`: the selection stays put,
/// kept on a row.
pub open spec fn log_updated(s: LogState, entries: Seq<LogEntry>) -> LogState {
    let s1 = LogState { pending: false, loading_more: false, entries, ..s };
    let len = visible(s1).len();
    LogState {
        selection: if s.selection < len {
            s.selection
        } else if len == 0 {
            0
        } else {
            len - 1
        },
        ..s1
    }
}

/// The key hints of the log tab.
pub fn hints() -> (r: &'static str)
    ensures
        r@ == "enter/d diff  space mark  v info  o update-to  / search"@,
{
    "enter/d diff  space mark  v info  o update-to  / search"
}

impl View for LogComponent {
    type V = LogState;

    closed spec fn view(&self) -> LogState {
        LogState {
            entries: self.entries@,
            selection: self.selection as int,
            scroll: self.scroll as int,
            detail_scroll: self.detail_scroll as int,
            pending: self.pending,
            focused: self.focused,
            filter: self.filter@,
            search: match self.search {
                Some(p) => Some(p@),
                None => None,
            },
            marks: self.marks@.to_set(),
            loading_more: self.loading_more,
            queue: self.queue@,
        }
    }
}

impl LogComponent {
    /// The marks are kept in increasing order.
    pub closed spec fn wf(&self) -> bool {
        increasing(self.marks@)
    }

    pub fn new() -> (c: LogComponent)
        ensures
            c.wf(),
            c@.entries == Seq::<LogEntry>::empty(),
            c@.selection == 0,
            c@.scroll == 0,
            c@.detail_scroll == 0,
            c@.pending,
            c@.focused,
            c@.filter == Seq::<char>::empty(),
            c@.search is None,
            c@.marks == Set::<u64>::empty(),
            !c@.loading_more,
            c@.queue == Seq::<InternalEvent>::empty(),
    {
        let c = LogComponent {
            entries: Vec::new(),
            selection: 0,
            scroll: 0,
            detail_scroll: 0,
            pending: true,
            focused: true,
            filter: String::new(),
            search: None,
            marks: Vec::new(),
            loading_more: false,
            queue: Queue::new(),
        };
        assert(c.marks@.to_set() =~= Set::<u64>::empty());
        c
    }

    /// The loaded entries, newest first.
    pub fn entries(&self) -> (v: &[LogEntry])
        ensures
            v@ == self@.entries,
    {
        self.entries.as_slice()
    }

    /// The marked revisions, in increasing order.
    pub fn marks(&self) -> (v: &[u64])
        requires
            self.wf(),
        ensures
            v@.to_set() == self@.marks,
            increasing(v@),
    {
        self.marks.as_slice()
    }

    /// The selected row.
    pub fn selection(&self) -> (i: usize)
        ensures
            i == self@.selection,
    {
        self.selection
    }

    /// Whether the log is still loading.
    pub fn pending(&self) -> (b: bool)
        ensures
            b == self@.pending,
    {
        self.pending
    }

    /// Whether the list has the focus.
    pub fn focused(&self) -> (b: bool)
        ensures
            b == self@.focused,
    {
        self.focused
    }

    /// Give or take the focus.
    pub fn set_focused(&mut self, focused: bool)
        requires
            old(self).wf(),
        ensures
            final(self).wf(),
            final(self)@ == (LogState { focused, ..old(self)@ }),
    {
        self.focused = focused;
    }

    /// The first row shown.
    pub fn scroll(&self) -> (n: usize)
        ensures
            n == self@.scroll,
    {
        self.scroll
    }

    /// Remember the first row shown.
    pub fn set_scroll(&mut self, n: usize)
        requires
            old(self).wf(),
        ensures
            final(self).wf(),
            final(self)@ == (LogState { scroll: n as int, ..old(self)@ }),
    {
        self.scroll = n;
    }

    /// The first line of the details shown.
    pub fn detail_scroll(&self) -> (n: usize)
        ensures
            n == self@.detail_scroll,
    {
        self.detail_scroll
    }

    /// Remember the first line of the details shown.
    pub fn set_detail_scroll(&mut self, n: usize)
        requires
            old(self).wf(),
        ensures
            final(self).wf(),
            final(self)@ == (LogState { detail_scroll: n as int, ..old(self)@ }),
    {
        self.detail_scroll = n;
    }

    /// Take the requests the list queued for the app, oldest first.
    pub fn take_events(&mut self) -> (v: Vec<InternalEvent>)
        requires
            old(self).wf(),
        ensures
            final(self).wf(),
            v@ == old(self)@.queue,
            final(self)@ == (LogState { queue: Seq::empty(), ..old(self)@ }),
    {
        self.queue.drain()
    }

    /// Show freshly loaded entries; the selection stays put, kept on a
    /// row.
    pub fn update(&mut self, entries: Vec<LogEntry>)
        requires
            old(self).wf(),
        ensures
            final(self).wf(),
            final(self)@ == log_updated(old(self)@, entries@),
    {
        self.pending = false;
        self.loading_more = false;
        self.entries = entries;
        let len = self.visible_indices().len();
        if self.selection >= len {
            self.selection = if len == 0 {
                0
            } else {
                len - 1
            };
        }
    }

    /// Append older revisions (pagination result).
    pub fn append(&mut self, entries: Vec<LogEntry>)
        requires
            old(self).wf(),
        ensures
            final(self).wf(),
            final(self)@ == (LogState { loading_more: false, entries: old(self)@.entries + entries@, ..old(self)@ }),
    {
        self.loading_more = false;
        let mut more = entries;
        self.entries.append(&mut more);
    }

    /// A pagination request failed; allow retrying on the next scroll.
    pub fn append_failed(&mut self)
        requires
            old(self).wf(),
        ensures
            final(self).wf(),
            final(self)@ == (LogState { loading_more: false, ..old(self)@ }),
    {
        self.loading_more = false;
    }

    /// Back to the normal latest-revisions view (called when a plain
    /// `svn log` result arrives).
    pub fn clear_search(&mut self)
        requires
            old(self).wf(),
        ensures
            final(self).wf(),
            final(self)@ == (LogState { search: None, ..old(self)@ }),
    {
        self.search = None;
    }

    /// The active full-history search pattern, if any.
    pub fn search_pattern(&self) -> (r: Option<&str>)
        ensures
            match r {
                Some(p) => self@.search == Some(p@),
                None => self@.search is None,
            },
    {
        match &self.search {
            Some(p) => Some(p.as_str()),
            None => None,
        }
    }

    /// Indices into the entries that the list shows (see [`visible`]).
    pub fn visible_indices(&self) -> (r: Vec<usize>)
        ensures
            r@.map_values(|i: usize| i as int) == visible(self@),
    {
        let mut out: Vec<usize> = Vec::new();
        let mut i: usize = 0;
        if self.filter.as_str().is_empty() || self.search.is_some() {
            while i < self.entries.len()
                invariant
                    i <= self.entries@.len(),
                    out@.map_values(|k: usize| k as int) == Seq::new(i as nat, |k: int| k),
                decreases self.entries.len() - i,
            {
                let ghost before = out@.map_values(|k: usize| k as int);
                out.push(i);
                assert(out@.map_values(|k: usize| k as int) =~= before.push(i as int));
                assert(out@.map_values(|k: usize| k as int) =~= Seq::new((i + 1) as nat, |k: int| k));
                i = i + 1;
            }
            return out;
        }
        let lf = chars_of(to_lower(self.filter.as_str()).as_str());
        while i < self.entries.len()
            invariant
                i <= self.entries@.len(),
                lf@ == lowercase(self.filter@),
                out@.map_values(|k: usize| k as int) == matching(self.entries@.take(i as int), self.filter@),
            decreases self.entries.len() - i,
        {
            assert(self.entries@.take(i + 1).drop_last() =~= self.entries@.take(i as int));
            assert(self.entries@.take(i + 1).last() == self.entries@[i as int]);
            if entry_matches(&self.entries[i], &lf, Ghost(self.filter@)) {
                let ghost before = out@.map_values(|k: usize| k as int);
                out.push(i);
                assert(out@.map_values(|k: usize| k as int) =~= before.push(i as int));
            }
            i = i + 1;
        }
        assert(self.entries@.take(i as int) =~= self.entries@);
        out
    }

    /// The entry of the selected row.
    pub fn selection_entry(&self) -> (r: Option<&LogEntry>)
        ensures
            match selected(self@) {
                Some(e) => r == Some(&e),
                None => r is None,
            },
    {
        let rows = self.visible_indices();
        if self.selection < rows.len() {
            let idx = rows[self.selection];
            assert(idx as int == visible(self@)[self.selection as int]);
            if idx < self.entries.len() {
                return Some(&self.entries[idx]);
            }
            proof {
                if self.filter@.len() != 0 && self.search is None {
                    lemma_matching_in_range(self.entries@, self.filter@);
                }
            }
        }
        None
    }

    /// The revision of the selected row.
    pub fn selection_revision(&self) -> (r: Option<u64>)
        ensures
            match selected(self@) {
                Some(e) => r == Some(e.revision),
                None => r is None,
            },
    {
        match self.selection_entry() {
            Some(e) => Some(e.revision),
            None => None,
        }
    }

    /// Move the selection by `delta` rows, staying on a row; the detail
    /// pane shows the newly selected revision from the top.
    pub fn move_selection(&mut self, delta: isize)
        requires
            old(self).wf(),
        ensures
            final(self).wf(),
            final(self)@ == moved(old(self)@, delta as int),
    {
        let len = self.visible_indices().len();
        if len == 0 {
            return;
        }
        let sel = self.selection;
        let target: usize = if delta < 0 {
            let d: usize = ((-(delta + 1)) as usize) + 1;
            if sel >= d {
                sel - d
            } else {
                0
            }
        } else {
            let d: usize = delta as usize;
            if sel >= len || d >= len - sel {
                len
            } else {
                sel + d
            }
        };
        self.selection = crate::ui::clamp_index(target, len);
        self.detail_scroll = 0;
    }

    /// Current filter text (used to pre-fill the search popup).
    pub fn filter(&self) -> (f: &str)
        ensures
            f@ == self@.filter,
    {
        self.filter.as_str()
    }

    /// Set the keyword filter (from the search popup, live while typing);
    /// the selection goes back to the first row.
    pub fn set_filter(&mut self, filter: String)
        requires
            old(self).wf(),
        ensures
            final(self).wf(),
            final(self)@ == (LogState { filter: filter@, selection: 0, ..old(self)@ }),
    {
        self.filter = filter;
        self.selection = 0;
    }

    /// Mark the list as showing full-history search results.
    pub fn set_search_active(&mut self, pattern: String)
        requires
            old(self).wf(),
        ensures
            final(self).wf(),
            final(self)@ == (LogState { search: Some(pattern@), ..old(self)@ }),
    {
        self.search = Some(pattern);
    }
}

/// Matching positions are positions of entries.
proof fn lemma_matching_in_range(es: Seq<LogEntry>, f: Seq<char>)
    ensures
        forall|i: int| 0 <= i < matching(es, f).len() ==> 0 <= #[trigger] matching(es, f)[i] < es.len(),
    decreases es.len(),
{
    if es.len() > 0 {
        lemma_matching_in_range(es.drop_last(), f);
        let r = matching(es.drop_last(), f);
        assert forall|i: int| 0 <= i < matching(es, f).len() implies 0 <= #[trigger] matching(es, f)[i] < es.len() by {
            if i < r.len() {
                assert(matching(es, f)[i] == r[i]);
            }
        }
    }
}


impl LogComponent {
    /// Mark `rev`, or unmark it when marked.
    fn toggle_rev(&mut self, rev: u64)
        requires
            old(self).wf(),
        ensures
            final(self).wf(),
            final(self)@ == (LogState {
                marks: if old(self)@.marks.contains(rev) {
                    old(self)@.marks.remove(rev)
                } else {
                    old(self)@.marks.insert(rev)
                },
                ..old(self)@
            }),
    {
        let ghost m = self.marks@;
        let mut pos: usize = 0;
        while pos < self.marks.len() && self.marks[pos] < rev
            invariant
                pos <= self.marks@.len(),
                m == self.marks@,
                increasing(m),
                forall|i: int| 0 <= i < pos ==> m[i] < rev,
            decreases self.marks.len() - pos,
        {
            pos = pos + 1;
        }
        if pos < self.marks.len() && self.marks[pos] == rev {
            self.marks.remove(pos);
            proof {
                let n = m.remove(pos as int);
                assert(self.marks@ =~= n);
                assert forall|x: u64| #[trigger] n.contains(x) <==> m.contains(x) && x != rev by {
                    if n.contains(x) {
                        let k = choose|k: int| 0 <= k < n.len() && n[k] == x;
                        if k < pos {
                            assert(m[k] == x);
                        } else {
                            assert(m[k + 1] == x);
                        }
                    }
                    if m.contains(x) && x != rev {
                        let k = choose|k: int| 0 <= k < m.len() && m[k] == x;
                        if k < pos {
                            assert(n[k] == x);
                        } else {
                            assert(k != pos);
                            assert(n[k - 1] == x);
                        }
                    }
                }
                assert(m.to_set().contains(rev));
                assert(self.marks@.to_set() =~= m.to_set().remove(rev));
            }
        } else {
            self.marks.insert(pos, rev);
            proof {
                let n = m.insert(pos as int, rev);
                assert(self.marks@ =~= n);
                assert forall|i: int, j: int| 0 <= i < j < n.len() implies n[i] < n[j] by {
                    if j < pos {
                        assert(n[i] == m[i] && n[j] == m[j]);
                    } else if j == pos {
                        assert(n[i] == m[i]);
                    } else if i > pos {
                        assert(n[i] == m[i - 1] && n[j] == m[j - 1]);
                    } else if i == pos {
                        assert(n[j] == m[j - 1]);
                        assert(m[pos as int] > rev);
                    } else {
                        assert(n[i] == m[i] && n[j] == m[j - 1]);
                    }
                }
                assert forall|x: u64| #[trigger] n.contains(x) <==> m.contains(x) || x == rev by {
                    if n.contains(x) {
                        let k = choose|k: int| 0 <= k < n.len() && n[k] == x;
                        if k < pos {
                            assert(m[k] == x);
                        } else if k > pos {
                            assert(m[k - 1] == x);
                        }
                    }
                    if m.contains(x) {
                        let k = choose|k: int| 0 <= k < m.len() && m[k] == x;
                        if k < pos {
                            assert(n[k] == x);
                        } else {
                            assert(n[k + 1] == x);
                        }
                    }
                    if x == rev {
                        assert(n[pos as int] == x);
                    }
                }
                if m.contains(rev) {
                    let k = choose|k: int| 0 <= k < m.len() && m[k] == rev;
                    if k < pos {
                    } else if k > pos {
                        assert(m[pos as int] < m[k]);
                    }
                }
                assert(self.marks@.to_set() =~= m.to_set().insert(rev));
            }
        }
    }

    /// Queue `ev`, which is the request `r`.
    fn request(&mut self, ev: InternalEvent, Ghost(r): Ghost<LogRequest>)
        requires
            old(self).wf(),
            is_log_request(ev, r),
        ensures
            final(self).wf(),
            final(self)@ == (LogState { queue: final(self)@.queue, ..old(self)@ }),
            log_requested(old(self)@.queue, final(self)@.queue, seq![r]),
    {
        let ghost q0 = self@.queue;
        self.queue.push(ev);
        proof {
            lemma_log_requested_one(q0, ev, r);
        }
    }

    /// Near the bottom of the list, request the next page of older
    /// revisions (once per in-flight request; see [`load_more`]).
    fn maybe_load_more(&mut self)
        requires
            old(self).wf(),
        ensures
            final(self).wf(),
            ({
                let (s2, reqs) = load_more(old(self)@);
                &&& final(self)@ == (LogState { queue: final(self)@.queue, ..s2 })
                &&& log_requested(old(self)@.queue, final(self)@.queue, reqs)
            }),
    {
        proof {
            lemma_log_requested_none(self@.queue);
        }
        if self.loading_more || self.search.is_some() {
            return;
        }
        let len = self.visible_indices().len();
        let oldest: u64 = if self.entries.len() == 0 {
            1
        } else {
            self.entries[self.entries.len() - 1].revision
        };
        if len > 0 && oldest > 1 && (len < 10 || self.selection >= len - 10) {
            self.loading_more = true;
            self.request(InternalEvent::LogLoadMore, Ghost(LogRequest::LoadMore));
        }
    }

    /// Carry out the key action `a` (see [`log_step`]).
    #[verifier::spinoff_prover]
    fn act(&mut self, a: LogAction)
        requires
            old(self).wf(),
        ensures
            final(self).wf(),
            ({
                let (s2, reqs) = log_step(old(self)@, a);
                &&& final(self)@ == (LogState { queue: final(self)@.queue, ..s2 })
                &&& log_requested(old(self)@.queue, final(self)@.queue, reqs)
            }),
    {
        proof {
            lemma_log_requested_none(self@.queue);
        }
        match a {
            LogAction::Up => self.move_selection(-1),
            LogAction::Down => self.move_selection(1),
            LogAction::PageUp => self.move_selection(-20),
            LogAction::PageDown => self.move_selection(20),
            LogAction::Home => {
                self.selection = 0;
            },
            LogAction::End => {
                let len = self.visible_indices().len();
                self.selection = if len == 0 {
                    0
                } else {
                    len - 1
                };
            },
            LogAction::Mark => {
                match self.selection_revision() {
                    Some(rev) => self.toggle_rev(rev),
                    None => {},
                }
            },
            LogAction::Diff => {
                proof {
                    assert(self.marks@.no_duplicates());
                    self.marks@.unique_seq_to_set();
                }
                if self.marks.len() >= 2 {
                    let mut revs: Vec<u64> = Vec::new();
                    let mut i: usize = 0;
                    while i < self.marks.len()
                        invariant
                            i <= self.marks@.len(),
                            revs@ == self.marks@.take(i as int),
                        decreases self.marks.len() - i,
                    {
                        revs.push(self.marks[i]);
                        assert(self.marks@.take(i + 1) =~= self.marks@.take(i as int).push(self.marks@[i as int]));
                        i = i + 1;
                    }
                    assert(self.marks@.take(i as int) =~= self.marks@);
                    let ghost ms = self@.marks;
                    self.request(InternalEvent::RequestRangeDiff(revs), Ghost(LogRequest::RangeDiff(ms)));
                } else {
                    match self.selection_revision() {
                        Some(rev) => self.request(InternalEvent::RequestRevisionDiff(rev), Ghost(LogRequest::RevisionDiff(rev))),
                        None => {},
                    }
                }
            },
            LogAction::Search => self.request(InternalEvent::OpenLogSearch, Ghost(LogRequest::OpenSearch)),
            LogAction::UpdateTo => {
                match self.selection_revision() {
                    Some(rev) => self.request(
                        InternalEvent::Confirm(ConfirmAction::UpdateToRevision(rev)),
                        Ghost(LogRequest::ConfirmUpdateTo(rev)),
                    ),
                    None => {},
                }
            },
            LogAction::Refresh => self.request(InternalEvent::Update(NeedsUpdate::log()), Ghost(LogRequest::Refresh)),
            LogAction::Help => self.request(InternalEvent::OpenHelp, Ghost(LogRequest::Help)),
            LogAction::Escape => {
                if !self.filter.as_str().is_empty() {
                    self.filter = String::new();
                    self.selection = 0;
                    let had = self.search.is_some();
                    self.search = None;
                    if had {
                        self.request(InternalEvent::Update(NeedsUpdate::log()), Ghost(LogRequest::Refresh));
                    }
                } else {
                    self.request(InternalEvent::SwitchTab(Tab::Status), Ghost(LogRequest::Switch(Tab::Status)));
                }
            },
            LogAction::TabStatus => self.request(InternalEvent::SwitchTab(Tab::Status), Ghost(LogRequest::Switch(Tab::Status))),
            LogAction::TabLog => self.request(InternalEvent::SwitchTab(Tab::Log), Ghost(LogRequest::Switch(Tab::Log))),
            LogAction::Blame => {},
        }
    }

    /// Handle an input event (see [`log_event`]); keys the list has no
    /// use for are left unconsumed (`q` quits the app).
    pub fn event(&mut self, ev: &Event) -> (r: Result<EventState, String>)
        requires
            old(self).wf(),
        ensures
            final(self).wf(),
            ({
                let (s2, reqs, used) = log_event(old(self)@, *ev);
                &&& final(self)@ == (LogState { queue: final(self)@.queue, ..s2 })
                &&& log_requested(old(self)@.queue, final(self)@.queue, reqs)
                &&& (r matches Ok(st) && st.consumed == used)
            }),
    {
        proof {
            lemma_log_requested_none(self@.queue);
        }
        let k = match ev {
            Event::Key(k) => k,
            _ => return Ok(EventState::not_consumed()),
        };
        match log_action_of(k) {
            Some(a) => {
                let ghost q0 = self@.queue;
                self.act(a);
                let ghost q1 = self@.queue;
                let ghost r1 = log_step(old(self)@, a).1;
                self.maybe_load_more();
                proof {
                    let r2 = load_more(log_step(old(self)@, a).0).1;
                    lemma_log_requested_append(q0, q1, self@.queue, r1, r2);
                }
                Ok(EventState::consumed())
            },
            None => Ok(EventState::not_consumed()),
        }
    }
}


// ---------------------------------------------------------------------
// What the list and the details show
// ---------------------------------------------------------------------

/// The list row of entry `e`: mark, revision, author and the summary of
/// its message (at most 120 chars).
pub open spec fn list_line(e: LogEntry, marked: bool) -> Seq<(Seq<char>, Role)> {
    seq![
        (if marked { "● "@ } else { "  "@ }, Role::Marker),
        (rev_text(e.revision as nat), Role::Revision),
        (" "@, Role::Plain),
        (e.author@, Role::Author),
        ("  "@, Role::Plain),
        (spec_truncate(message_summary(e.message@), 120), Role::Message),
    ]
}

/// The detail line of a changed path.
pub open spec fn changed_path_line(c: (char, String)) -> Seq<(Seq<char>, Role)> {
    seq![(seq![' ', c.0, ' '], Role::Action(c.0)), (c.1@, Role::Message)]
}

/// The details of entry `e`: the revision line, the changed paths (if
/// any) and the message, line by line.
pub open spec fn detail(e: LogEntry) -> Seq<Seq<(Seq<char>, Role)>> {
    seq![
        seq![(rev_text(e.revision as nat) + " | "@ + e.author@ + " | "@ + e.date@, Role::Revision)],
        Seq::empty(),
    ] + (if e.changed@.len() > 0 {
        seq![seq![("Changed paths:"@, Role::Dim)]] + e.changed@.map_values(|c: (char, String)| changed_path_line(c))
            + seq![Seq::empty()]
    } else {
        Seq::empty()
    }) + message_block(e.message@)
}

/// The list row of entry `e` (see [`list_line`]).
pub fn log_list_line(e: &LogEntry, marked: bool) -> (r: Vec<InfoSpan>)
    ensures
        r@.map_values(|s: InfoSpan| span_view(s)) == list_line(*e, marked),
{
    let mut rev = "r".to_owned();
    push_decimal(&mut rev, e.revision);
    let summary = e.summary();
    let r = vec![
        text_span(if marked { "● " } else { "  " }, Role::Marker),
        span(rev, Role::Revision),
        text_span(" ", Role::Plain),
        span(e.author.clone(), Role::Author),
        text_span("  ", Role::Plain),
        span(truncate(summary.as_str(), 120), Role::Message),
    ];
    assert(r@.map_values(|s: InfoSpan| span_view(s)) =~= list_line(*e, marked));
    r
}

/// The details of entry `e` (see [`detail`]).
pub fn detail_lines(e: &LogEntry) -> (r: Vec<Vec<InfoSpan>>)
    ensures
        lines_view(r@) == detail(*e),
{
    let mut out: Vec<Vec<InfoSpan>> = Vec::new();
    let mut head = "r".to_owned();
    push_decimal(&mut head, e.revision);
    push_str(&mut head, " | ");
    push_str(&mut head, e.author.as_str());
    push_str(&mut head, " | ");
    push_str(&mut head, e.date.as_str());
    push_line(&mut out, vec![span(head, Role::Revision)]);
    push_line(&mut out, Vec::new());
    let ghost top = lines_view(out@);
    assert(top =~~= seq![
        seq![(rev_text(e.revision as nat) + " | "@ + e.author@ + " | "@ + e.date@, Role::Revision)],
        Seq::empty(),
    ]);
    if e.changed.len() > 0 {
        push_line(&mut out, vec![text_span("Changed paths:", Role::Dim)]);
        let ghost start = lines_view(out@);
        let mut i: usize = 0;
        while i < e.changed.len()
            invariant
                i <= e.changed@.len(),
                lines_view(out@) == start + e.changed@.take(i as int).map_values(|c: (char, String)| changed_path_line(c)),
            decreases e.changed.len() - i,
        {
            let (c, ref p) = e.changed[i];
            let mut a = String::new();
            push_char(&mut a, ' ');
            push_char(&mut a, c);
            push_char(&mut a, ' ');
            let l = vec![span(a, Role::Action(c)), span(p.clone(), Role::Message)];
            assert(l@.map_values(|s: InfoSpan| span_view(s)) =~~= changed_path_line(e.changed@[i as int]));
            push_line(&mut out, l);
            assert(e.changed@.take(i + 1) =~= e.changed@.take(i as int).push(e.changed@[i as int]));
            assert(lines_view(out@) =~~= start + e.changed@.take(i + 1).map_values(|c: (char, String)| changed_path_line(c)));
            i = i + 1;
        }
        assert(e.changed@.take(i as int) =~= e.changed@);
        push_line(&mut out, Vec::new());
    }
    push_message(&mut out, &e.message);
    assert(lines_view(out@) =~~= detail(*e));
    out
}

/// The lines of a message under its label.
pub open spec fn message_block(msg: Seq<char>) -> Seq<Seq<(Seq<char>, Role)>> {
    seq![seq![("Message:"@, Role::Dim)]] + lines_of(msg).map_values(|l: Seq<char>| seq![(l, Role::Message)])
}

/// Append the lines of `msg` under its label (see [`message_block`]).
fn push_message(out: &mut Vec<Vec<InfoSpan>>, msg: &String)
    ensures
        lines_view(final(out)@) == lines_view(old(out)@) + message_block(msg@),
{
    push_line(out, vec![text_span("Message:", Role::Dim)]);
    let v = chars_of(msg.as_str());
    let spans = line_spans(&v);
    let ghost ls = lines_of(v@);
    let ghost start = lines_view(out@);
    let mut k: usize = 0;
    while k < spans.len()
        invariant
            v@ == msg@,
            ls == lines_of(v@),
            line_spans_of(v@, spans@),
            k <= spans@.len(),
            lines_view(out@) == start + ls.take(k as int).map_values(|l: Seq<char>| seq![(l, Role::Message)]),
        decreases spans.len() - k,
    {
        let (s, t) = spans[k];
        assert(ls[k as int] == v@.subrange(s as int, t as int));
        let l = vec![span(string_of(&v, s, t), Role::Message)];
        assert(l@.map_values(|x: InfoSpan| span_view(x)) =~~= seq![(ls[k as int], Role::Message)]);
        push_line(out, l);
        assert(ls.take(k + 1) =~= ls.take(k as int).push(ls[k as int]));
        assert(lines_view(out@) =~~= start + ls.take(k + 1).map_values(|l: Seq<char>| seq![(l, Role::Message)]));
        k = k + 1;
    }
    assert(ls.take(k as int) =~= ls);
    assert(lines_view(out@) =~~= lines_view(old(out)@) + message_block(msg@));
}

/// A changed path of a commit as its info popup shows it: the action
/// char, two spaces, the path.
pub open spec fn info_path_line(c: (char, String)) -> Seq<(Seq<char>, Role)> {
    seq![(seq![c.0], Role::Action(c.0)), ("  "@, Role::Plain), (c.1@, Role::Message)]
}

/// The commit info of entry `e`: revision, author and date each in its
/// own span, the changed paths (if any) and the message.
pub open spec fn commit_info(e: LogEntry) -> Seq<Seq<(Seq<char>, Role)>> {
    seq![
        seq![
            (rev_text(e.revision as nat), Role::Revision),
            (" | "@, Role::Dim),
            (e.author@, Role::Author),
            (" | "@, Role::Dim),
            (e.date@, Role::Dim),
        ],
        Seq::empty(),
    ] + (if e.changed@.len() > 0 {
        seq![seq![("Changed paths:"@, Role::Dim)]] + e.changed@.map_values(|c: (char, String)| info_path_line(c))
            + seq![Seq::empty()]
    } else {
        Seq::empty()
    }) + message_block(e.message@)
}

/// The commit info of entry `e` (see [`commit_info`]).
pub fn log_entry_lines(e: &LogEntry) -> (r: Vec<Vec<InfoSpan>>)
    ensures
        lines_view(r@) == commit_info(*e),
{
    let mut out: Vec<Vec<InfoSpan>> = Vec::new();
    let mut rev = "r".to_owned();
    push_decimal(&mut rev, e.revision);
    let head = vec![
        span(rev, Role::Revision),
        text_span(" | ", Role::Dim),
        span(e.author.clone(), Role::Author),
        text_span(" | ", Role::Dim),
        span(e.date.clone(), Role::Dim),
    ];
    push_line(&mut out, head);
    push_line(&mut out, Vec::new());
    assert(lines_view(out@) =~~= seq![
        seq![
            (rev_text(e.revision as nat), Role::Revision),
            (" | "@, Role::Dim),
            (e.author@, Role::Author),
            (" | "@, Role::Dim),
            (e.date@, Role::Dim),
        ],
        Seq::empty(),
    ]);
    if e.changed.len() > 0 {
        push_line(&mut out, vec![text_span("Changed paths:", Role::Dim)]);
        let ghost start = lines_view(out@);
        let mut i: usize = 0;
        while i < e.changed.len()
            invariant
                i <= e.changed@.len(),
                lines_view(out@) == start + e.changed@.take(i as int).map_values(|c: (char, String)| info_path_line(c)),
            decreases e.changed.len() - i,
        {
            let (c, ref p) = e.changed[i];
            let mut a = String::new();
            push_char(&mut a, c);
            let l = vec![span(a, Role::Action(c)), text_span("  ", Role::Plain), span(p.clone(), Role::Message)];
            assert(l@.map_values(|s: InfoSpan| span_view(s)) =~~= info_path_line(e.changed@[i as int]));
            push_line(&mut out, l);
            assert(e.changed@.take(i + 1) =~= e.changed@.take(i as int).push(e.changed@[i as int]));
            assert(lines_view(out@) =~~= start + e.changed@.take(i + 1).map_values(|c: (char, String)| info_path_line(c)));
            i = i + 1;
        }
        assert(e.changed@.take(i as int) =~= e.changed@);
        push_line(&mut out, Vec::new());
    }
    push_message(&mut out, &e.message);
    assert(lines_view(out@) =~~= commit_info(*e));
    out
}


/// Enter (or `d`) with fewer than two marks asks for the diff of the
/// selected row: the revision of the entry that row shows, one that
/// matches the filter when one is set; with no row selected it asks for
/// nothing. The list itself does not change.
pub proof fn lemma_diff_of_selected_row(s: LogState)
    requires
        s.marks.len() < 2,
    ensures
        log_step(s, LogAction::Diff).0 == s,
        0 <= s.selection < visible(s).len() ==> {
            let i = visible(s)[s.selection];
            &&& 0 <= i < s.entries.len()
            &&& log_step(s, LogAction::Diff).1 == seq![LogRequest::RevisionDiff(s.entries[i].revision)]
            &&& (s.filter.len() > 0 && s.search is None) ==> log_matches(s.entries[i], s.filter)
        },
        !(0 <= s.selection < visible(s).len()) ==> log_step(s, LogAction::Diff).1 == Seq::<LogRequest>::empty(),
{
    lemma_matching_members(s.entries, s.filter);
}

/// The title of the log list: the tab's name, the keyword (labelled as a
/// full-history search when its results are shown, else as a filter),
/// and the number of marked revisions when there are any.
pub open spec fn list_title(s: LogState) -> Seq<char> {
    "Log (svn log)"@ + (if s.filter.len() > 0 {
        "  "@ + (if s.search is Some { "search (all history)"@ } else { "filter"@ }) + ": \""@ + s.filter + "\""@
    } else {
        Seq::empty()
    }) + (if s.marks.len() > 0 {
        "  ("@ + decimal(s.marks.len()) + " marked)"@
    } else {
        Seq::empty()
    })
}

impl LogComponent {
    /// The title of the list (see [`list_title`]).
    pub fn list_title(&self) -> (r: String)
        requires
            self.wf(),
        ensures
            r@ == list_title(self@),
    {
        proof {
            assert(self.marks@.no_duplicates()) by {
                assert forall|i: int, j: int| 0 <= i < self.marks@.len() && 0 <= j < self.marks@.len() && i != j
                    implies self.marks@[i] != self.marks@[j] by {
                    if i < j {
                        assert(self.marks@[i] < self.marks@[j]);
                    } else {
                        assert(self.marks@[j] < self.marks@[i]);
                    }
                }
            }
            self.marks@.unique_seq_to_set();
        }
        let mut t = "Log (svn log)".to_owned();
        let ghost t0 = t@;
        if !self.filter.as_str().is_empty() {
            push_str(&mut t, "  ");
            if self.search.is_some() {
                push_str(&mut t, "search (all history)");
            } else {
                push_str(&mut t, "filter");
            }
            push_str(&mut t, ": \"");
            push_str(&mut t, self.filter.as_str());
            push_str(&mut t, "\"");
        }
        let ghost t1 = t@;
        if self.marks.len() > 0 {
            push_str(&mut t, "  (");
            push_decimal(&mut t, self.marks.len() as u64);
            push_str(&mut t, " marked)");
        }
        assert(t@ =~= list_title(self@));
        t
    }
}

} // verus!
