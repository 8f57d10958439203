//! File history popup: `svn log -v -- <path>` for a single file.
//!
//! Opened from the status tab (`t`) or from the file finder. Shows the
//! revisions that touched the file; Enter/`d` asks for the fullscreen diff
//! of the selected revision, `b` for the blame of the file.

use vstd::prelude::*;
use crate::components::EventState;
use crate::keys::{binds, key_match, Event, KeyAction, KeyEvent};
use crate::models::{message_summary, LogEntry};
use crate::queue::{InternalEvent, Queue};
use crate::repo_info::{padded_label, spaces};
use crate::spans::{lines_view, push_line, span, span_view, text_span, InfoSpan, Role};
use crate::text::{chars_of, decimal, line_spans, line_spans_of, lines_of, push_char, push_decimal, string_of};
use crate::ui::{spec_truncate, truncate};

verus! {

/// The value of the file history popup.
pub struct FileLogState {
    pub path: Seq<char>,
    pub entries: Seq<LogEntry>,
    pub pending: bool,
    pub selection: int,
    pub scroll: int,
    pub detail_scroll: int,
    pub queue: Seq<InternalEvent>,
}

/// A request the popup queues for the app, by value.
pub enum FileLogRequest {
    Close,
    RevisionDiff(u64),
    Blame(Seq<char>),
    Help,
}

/// The queued event `ev` is the request `r`.
pub open spec fn is_file_log_request(ev: InternalEvent, r: FileLogRequest) -> bool {
    match r {
        FileLogRequest::Close => ev is ClosePopup,
        FileLogRequest::RevisionDiff(rev) => ev matches InternalEvent::RequestRevisionDiff(x) && x == rev,
        FileLogRequest::Blame(p) => ev matches InternalEvent::RequestBlame(s) && s@ == p,
        FileLogRequest::Help => ev is OpenHelp,
    }
}

/// The number of lines of the selected message the detail pane can
/// scroll through (at least one with a selection, none without).
pub open spec fn detail_len(s: FileLogState) -> int {
    if 0 <= s.selection < s.entries.len() {
        let n = lines_of(s.entries[s.selection].message@).len() as int;
        if n < 1 {
            1
        } else {
            n
        }
    } else {
        0
    }
}

/// The selection moved by `delta`, kept on an entry, and the detail pane
/// back at its top; nothing changes without entries.
pub open spec fn file_log_moved(s: FileLogState, delta: int) -> FileLogState {
    let len = s.entries.len() as int;
    if len == 0 {
        s
    } else {
        let t = if s.selection + delta < 0 {
            0
        } else {
            s.selection + delta
        };
        FileLogState { selection: if t < len { t } else { len - 1 }, detail_scroll: 0, ..s }
    }
}

/// The detail pane scrolled by `delta` lines, kept within the message.
pub open spec fn detail_scrolled(s: FileLogState, delta: int) -> FileLogState {
    let hi = if detail_len(s) < 1 {
        0
    } else {
        detail_len(s) - 1
    };
    let t = s.detail_scroll + delta;
    FileLogState {
        detail_scroll: if t < 0 {
            0
        } else if t > hi {
            hi
        } else {
            t
        },
        ..s
    }
}

/// What the key press `k` does: the new popup (its queue aside), the
/// requests queued, and whether the key was used.
pub open spec fn file_log_key(s: FileLogState, k: KeyEvent) -> (FileLogState, Seq<FileLogRequest>, bool) {
    let sel = if 0 <= s.selection < s.entries.len() {
        Some(s.entries[s.selection].revision)
    } else {
        None
    };
    if binds(k, KeyAction::ClosePopup) || binds(k, KeyAction::Quit) {
        (s, seq![FileLogRequest::Close], true)
    } else if binds(k, KeyAction::MoveDown) {
        (file_log_moved(s, 1), Seq::empty(), true)
    } else if binds(k, KeyAction::MoveUp) {
        (file_log_moved(s, -1), Seq::empty(), true)
    } else if binds(k, KeyAction::PageDown) {
        (file_log_moved(s, 20), Seq::empty(), true)
    } else if binds(k, KeyAction::PageUp) {
        (file_log_moved(s, -20), Seq::empty(), true)
    } else if binds(k, KeyAction::Home) {
        (FileLogState { selection: 0, detail_scroll: 0, ..s }, Seq::empty(), true)
    } else if binds(k, KeyAction::End) {
        (
            FileLogState {
                selection: if s.entries.len() == 0 {
                    0
                } else {
                    s.entries.len() - 1
                },
                detail_scroll: 0,
                ..s
            },
            Seq::empty(),
            true,
        )
    } else if binds(k, KeyAction::DetailScrollDown) {
        (detail_scrolled(s, 10), Seq::empty(), true)
    } else if binds(k, KeyAction::DetailScrollUp) {
        (detail_scrolled(s, -10), Seq::empty(), true)
    } else if binds(k, KeyAction::OpenRevisionDiff) {
        (
            s,
            match sel {
                Some(rev) => seq![FileLogRequest::RevisionDiff(rev)],
                None => Seq::empty(),
            },
            true,
        )
    } else if binds(k, KeyAction::Blame) {
        (s, seq![FileLogRequest::Blame(s.path)], true)
    } else if binds(k, KeyAction::Help) {
        (s, seq![FileLogRequest::Help], true)
    } else {
        (s, Seq::empty(), false)
    }
}

/// The list row of entry `e`: the revision padded to 8, the author cut
/// and padded to 10, and the summary of the message (at most 60 chars).
pub open spec fn file_log_line(e: LogEntry) -> Seq<(Seq<char>, Role)> {
    seq![
        (pad_to(seq!['r'] + decimal(e.revision as nat), 8), Role::Revision),
        (pad_to(spec_truncate(e.author@, 10), 10), Role::Author),
        (" "@, Role::Plain),
        (spec_truncate(message_summary(e.message@), 60), Role::Message),
    ]
}

/// `s` padded with spaces to `w` chars.
pub open spec fn pad_to(s: Seq<char>, w: nat) -> Seq<char> {
    if s.len() < w {
        s + spaces((w - s.len()) as nat)
    } else {
        s
    }
}

/// The message pane of entry `e`: its lines, or a dim note without any.
pub open spec fn message_pane(e: LogEntry) -> Seq<Seq<(Seq<char>, Role)>> {
    let ls = lines_of(e.message@);
    if ls.len() == 0 {
        seq![seq![("(no message)"@, Role::Dim)]]
    } else {
        ls.map_values(|l: Seq<char>| seq![(l, Role::Message)])
    }
}

/// Pad `s` with spaces to `w` chars.
fn pad_string(s: &mut String, w: usize)
    ensures
        final(s)@ == pad_to(old(s)@, w as nat),
{
    let n = chars_of(s.as_str()).len();
    let ghost s0 = s@;
    let mut k = n;
    while k < w
        invariant
            n == s0.len(),
            n <= k <= w || (n > w && k == n),
            s@ == s0 + spaces((k - n) as nat),
        decreases w - k,
    {
        push_char(s, ' ');
        assert(spaces((k + 1 - n) as nat) =~= spaces((k - n) as nat).push(' '));
        k = k + 1;
    }
    assert(n >= w ==> spaces((k - n) as nat) =~= Seq::<char>::empty());
    assert(s@ =~= pad_to(s0, w as nat));
}

/// The list row of entry `e` (see [`file_log_line`]).
pub fn revision_line(e: &LogEntry) -> (r: Vec<InfoSpan>)
    ensures
        r@.map_values(|x: InfoSpan| span_view(x)) == file_log_line(*e),
{
    let mut rev = String::new();
    push_char(&mut rev, 'r');
    push_decimal(&mut rev, e.revision);
    assert(rev@ =~= seq!['r'] + decimal(e.revision as nat));
    pad_string(&mut rev, 8);
    let mut author = truncate(e.author.as_str(), 10);
    pad_string(&mut author, 10);
    let summary = e.summary();
    let r = vec![
        span(rev, Role::Revision),
        span(author, Role::Author),
        text_span(" ", Role::Plain),
        span(truncate(summary.as_str(), 60), Role::Message),
    ];
    assert(r@.map_values(|x: InfoSpan| span_view(x)) =~= file_log_line(*e));
    r
}

/// The message pane of entry `e` (see [`message_pane`]).
pub fn message_lines(e: &LogEntry) -> (r: Vec<Vec<InfoSpan>>)
    ensures
        lines_view(r@) == message_pane(*e),
{
    let v = chars_of(e.message.as_str());
    let spans = line_spans(&v);
    let ghost ls = lines_of(v@);
    let mut out: Vec<Vec<InfoSpan>> = Vec::new();
    let mut k: usize = 0;
    while k < spans.len()
        invariant
            v@ == e.message@,
            ls == lines_of(v@),
            line_spans_of(v@, spans@),
            k <= spans@.len(),
            lines_view(out@) == ls.take(k as int).map_values(|l: Seq<char>| seq![(l, Role::Message)]),
        decreases spans.len() - k,
    {
        let (s, t) = spans[k];
        assert(ls[k as int] == v@.subrange(s as int, t as int));
        let l = vec![span(string_of(&v, s, t), Role::Message)];
        assert(l@.map_values(|x: InfoSpan| span_view(x)) =~~= seq![(ls[k as int], Role::Message)]);
        push_line(&mut out, l);
        assert(ls.take(k + 1) =~= ls.take(k as int).push(ls[k as int]));
        assert(lines_view(out@) =~~= ls.take(k + 1).map_values(|l: Seq<char>| seq![(l, Role::Message)]));
        k = k + 1;
    }
    assert(ls.take(k as int) =~= ls);
    if out.len() == 0 {
        push_line(&mut out, vec![text_span("(no message)", Role::Dim)]);
        assert(lines_view(out@) =~~= message_pane(*e));
    }
    out
}

/// File history popup.
pub struct FileLogPopup {
    path: String,
    entries: Vec<LogEntry>,
    pending: bool,
    selection: usize,
    scroll: usize,
    detail_scroll: usize,
    queue: Queue,
}

impl View for FileLogPopup {
    type V = FileLogState;

    closed spec fn view(&self) -> FileLogState {
        FileLogState {
            path: self.path@,
            entries: self.entries@,
            pending: self.pending,
            selection: self.selection as int,
            scroll: self.scroll as int,
            detail_scroll: self.detail_scroll as int,
            queue: self.queue@,
        }
    }
}

impl FileLogPopup {
    /// The history of `path`, still loading.
    pub fn new(path: &str) -> (p: FileLogPopup)
        ensures
            p@ == (FileLogState {
                path: path@,
                entries: Seq::empty(),
                pending: true,
                selection: 0,
                scroll: 0,
                detail_scroll: 0,
                queue: Seq::empty(),
            }),
    {
        FileLogPopup {
            path: path.to_owned(),
            entries: Vec::new(),
            pending: true,
            selection: 0,
            scroll: 0,
            detail_scroll: 0,
            queue: Queue::new(),
        }
    }

    /// The file.
    pub fn path(&self) -> (p: &str)
        ensures
            p@ == self@.path,
    {
        self.path.as_str()
    }

    /// The revisions that touched the file, newest first.
    pub fn entries(&self) -> (v: &[LogEntry])
        ensures
            v@ == self@.entries,
    {
        self.entries.as_slice()
    }

    /// Whether the history is still loading.
    pub fn pending(&self) -> (b: bool)
        ensures
            b == self@.pending,
    {
        self.pending
    }

    /// Loading ended without a result.
    pub fn set_pending(&mut self, pending: bool)
        ensures
            final(self)@ == (FileLogState { pending, ..old(self)@ }),
    {
        self.pending = pending;
    }

    /// The selected entry's position.
    pub fn selection(&self) -> (i: usize)
        ensures
            i == self@.selection,
    {
        self.selection
    }

    /// The first row shown.
    pub fn scroll(&self) -> (n: usize)
        ensures
            n == self@.scroll,
    {
        self.scroll
    }

    /// Remember the first row shown.
    pub fn set_scroll(&mut self, n: usize)
        ensures
            final(self)@ == (FileLogState { scroll: n as int, ..old(self)@ }),
    {
        self.scroll = n;
    }

    /// The first message line shown.
    pub fn detail_scroll(&self) -> (n: usize)
        ensures
            n == self@.detail_scroll,
    {
        self.detail_scroll
    }

    /// Remember the first message line shown.
    pub fn set_detail_scroll(&mut self, n: usize)
        ensures
            final(self)@ == (FileLogState { detail_scroll: n as int, ..old(self)@ }),
    {
        self.detail_scroll = n;
    }

    /// Take the queued requests, oldest first.
    pub fn take_events(&mut self) -> (v: Vec<InternalEvent>)
        ensures
            v@ == old(self)@.queue,
            final(self)@ == (FileLogState { queue: Seq::empty(), ..old(self)@ }),
    {
        self.queue.drain()
    }

    /// Show the loaded history; the selection stays put, kept on an
    /// entry.
    pub fn update(&mut self, entries: Vec<LogEntry>)
        ensures
            final(self)@ == (FileLogState {
                pending: false,
                entries: entries@,
                selection: if old(self)@.selection < entries@.len() {
                    old(self)@.selection
                } else if entries@.len() == 0 {
                    0
                } else {
                    entries@.len() - 1
                },
                ..old(self)@
            }),
    {
        self.pending = false;
        self.entries = entries;
        if self.selection >= self.entries.len() {
            self.selection = if self.entries.len() == 0 {
                0
            } else {
                self.entries.len() - 1
            };
        }
    }

    /// The revision of the selected entry.
    pub fn selection_revision(&self) -> (r: Option<u64>)
        ensures
            r == (if 0 <= self@.selection < self@.entries.len() {
                Some(self@.entries[self@.selection].revision)
            } else {
                None
            }),
    {
        if self.selection < self.entries.len() {
            Some(self.entries[self.selection].revision)
        } else {
            None
        }
    }

    fn move_selection(&mut self, delta: isize)
        ensures
            final(self)@ == file_log_moved(old(self)@, delta as int),
    {
        let len = self.entries.len();
        if len == 0 {
            return;
        }
        let sel = self.selection;
        let target: usize = if delta < 0 {
            let d: usize = ((-(delta + 1)) as usize) + 1;
            if sel >= d {
                sel - d
            } else {
                0
            }
        } else {
            let d: usize = delta as usize;
            if sel >= len || d >= len - sel {
                len
            } else {
                sel + d
            }
        };
        self.selection = crate::ui::clamp_index(target, len);
        self.detail_scroll = 0;
    }

    fn scroll_detail(&mut self, down: bool)
        ensures
            final(self)@ == detail_scrolled(old(self)@, if down { 10 } else { -10 }),
    {
        let len: usize = if self.selection < self.entries.len() {
            let v = chars_of(self.entries[self.selection].message.as_str());
            let n = line_spans(&v).len();
            if n < 1 {
                1
            } else {
                n
            }
        } else {
            0
        };
        let hi = if len < 1 {
            0
        } else {
            len - 1
        };
        let cur = self.detail_scroll;
        self.detail_scroll = if down {
            if cur >= hi || hi - cur <= 10 {
                hi
            } else {
                cur + 10
            }
        } else {
            if cur < 10 {
                0
            } else if cur - 10 > hi {
                hi
            } else {
                cur - 10
            }
        };
    }

    /// Handle an input event (see [`file_log_key`]); anything but a key
    /// press is left alone.
    pub fn event(&mut self, ev: &Event) -> (r: Result<EventState, String>)
        ensures
            match ev {
                Event::Key(k) => {
                    let (s2, reqs, used) = file_log_key(old(self)@, *k);
                    &&& final(self)@ == (FileLogState { queue: final(self)@.queue, ..s2 })
                    &&& final(self)@.queue.len() == old(self)@.queue.len() + reqs.len()
                    &&& final(self)@.queue.take(old(self)@.queue.len() as int) == old(self)@.queue
                    &&& forall|i: int| 0 <= i < reqs.len() ==> is_file_log_request(
                        #[trigger] final(self)@.queue[old(self)@.queue.len() + i],
                        reqs[i],
                    )
                    &&& r == Ok::<EventState, String>(EventState { consumed: used })
                },
                _ => final(self)@ == old(self)@ && r == Ok::<EventState, String>(EventState { consumed: false }),
            },
    {
        let k = match ev {
            Event::Key(k) => k,
            _ => return Ok(EventState::not_consumed()),
        };
        let ghost q0 = self.queue@;
        proof {
            assert(q0.take(q0.len() as int) =~= q0);
        }
        if key_match(k, KeyAction::ClosePopup) || key_match(k, KeyAction::Quit) {
            self.queue.push(InternalEvent::ClosePopup);
            assert(self.queue@.take(q0.len() as int) =~= q0);
            assert(self.queue@[q0.len() + 0int] == InternalEvent::ClosePopup);
        } else if key_match(k, KeyAction::MoveDown) {
            self.move_selection(1);
        } else if key_match(k, KeyAction::MoveUp) {
            self.move_selection(-1);
        } else if key_match(k, KeyAction::PageDown) {
            self.move_selection(20);
        } else if key_match(k, KeyAction::PageUp) {
            self.move_selection(-20);
        } else if key_match(k, KeyAction::Home) {
            self.selection = 0;
            self.detail_scroll = 0;
        } else if key_match(k, KeyAction::End) {
            self.selection = if self.entries.len() == 0 {
                0
            } else {
                self.entries.len() - 1
            };
            self.detail_scroll = 0;
        } else if key_match(k, KeyAction::DetailScrollDown) {
            self.scroll_detail(true);
        } else if key_match(k, KeyAction::DetailScrollUp) {
            self.scroll_detail(false);
        } else if key_match(k, KeyAction::OpenRevisionDiff) {
            match self.selection_revision() {
                Some(rev) => {
                    self.queue.push(InternalEvent::RequestRevisionDiff(rev));
                    assert(self.queue@.take(q0.len() as int) =~= q0);
                    assert(self.queue@[q0.len() + 0int] == InternalEvent::RequestRevisionDiff(rev));
                },
                None => {},
            }
        } else if key_match(k, KeyAction::Blame) {
            let ev2 = InternalEvent::RequestBlame(self.path.clone());
            self.queue.push(ev2);
            assert(self.queue@.take(q0.len() as int) =~= q0);
            assert(self.queue@[q0.len() + 0int] == ev2);
        } else if key_match(k, KeyAction::Help) {
            self.queue.push(InternalEvent::OpenHelp);
            assert(self.queue@.take(q0.len() as int) =~= q0);
            assert(self.queue@[q0.len() + 0int] == InternalEvent::OpenHelp);
        } else {
            return Ok(EventState::not_consumed());
        }
        Ok(EventState::consumed())
    }
}

} // verus!
