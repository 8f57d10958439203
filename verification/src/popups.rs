//! Popups: temporary modal dialogs over the active tab (confirmation,
//! message, command output, key help, fullscreen diff), and what their
//! keys do. Each popup queues its requests for the app.

use vstd::prelude::*;
use crate::components::EventState;
use crate::diff_view::{contents_bytes, DiffView};
use crate::keys::{binds, key_match, Event, KeyAction, KeyCode};
use crate::queue::{ConfirmAction, InternalEvent, Queue};
use crate::spans::{lines_view, span, span_view, InfoSpan, Role};
use crate::text::{chars_of, line_spans, line_spans_of, lines_of, string_of};
use crate::text_search::{idle_state, EscAction};
use crate::text_view::{scroll_key, search_step, SearchOutcome};
use crate::blame::BlamePopup;
use crate::file_finder::{finder_action, finder_after, FileFinderPopup, FinderAction, FinderState};
use crate::file_log::{FileLogPopup, FileLogState};
use crate::query_popups::{filter_step, search_popup_step, query_requested, LogSearchPopup, StatusFilterPopup};
use crate::ui::{popup_area, popup_extent, Area};

verus! {

// ---------------------------------------------------------------------
// Confirmation
// ---------------------------------------------------------------------

/// Yes/No confirmation popup. Confirming queues `Confirmed(action)` so
/// the app performs the action.
pub struct ConfirmPopup {
    action: Option<ConfirmAction>,
    message: String,
    queue: Queue,
}

impl ConfirmPopup {
    pub fn new(message: String, action: ConfirmAction) -> (p: ConfirmPopup)
        ensures
            p.action() == Some(action),
            p.message_view() == message@,
            p.queued() == Seq::<InternalEvent>::empty(),
    {
        ConfirmPopup { action: Some(action), message, queue: Queue::new() }
    }

    /// The action still to confirm.
    pub closed spec fn action(&self) -> Option<ConfirmAction> {
        self.action
    }

    /// The requests queued for the app.
    pub closed spec fn queued(&self) -> Seq<InternalEvent> {
        self.queue@
    }

    /// The question.
    pub fn message(&self) -> (m: &str)
        ensures
            m@ == self.message_view(),
    {
        self.message.as_str()
    }

    /// The question, by value.
    pub closed spec fn message_view(&self) -> Seq<char> {
        self.message@
    }

    /// Take the queued requests, oldest first.
    pub fn take_events(&mut self) -> (v: Vec<InternalEvent>)
        ensures
            v@ == old(self).queued(),
            final(self).queued() == Seq::<InternalEvent>::empty(),
            final(self).action() == old(self).action(),
    {
        self.queue.drain()
    }

    /// `y` confirms (queues the action, once) and closes; `n` or Esc
    /// close; other keys are left alone.
    pub fn event(&mut self, ev: &Event) -> (r: Result<EventState, String>)
        ensures
            match ev {
                Event::Key(k) => if binds(*k, KeyAction::Confirm) {
                    &&& final(self).action() is None
                    &&& final(self).queued() == match old(self).action() {
                        Some(a) => old(self).queued().push(InternalEvent::Confirmed(a)).push(InternalEvent::ClosePopup),
                        None => old(self).queued().push(InternalEvent::ClosePopup),
                    }
                    &&& r == Ok::<EventState, String>(EventState { consumed: true })
                } else if binds(*k, KeyAction::Deny) || binds(*k, KeyAction::ClosePopup) {
                    &&& final(self).action() == old(self).action()
                    &&& final(self).queued() == old(self).queued().push(InternalEvent::ClosePopup)
                    &&& r == Ok::<EventState, String>(EventState { consumed: true })
                } else {
                    &&& final(self).action() == old(self).action()
                    &&& final(self).queued() == old(self).queued()
                    &&& r == Ok::<EventState, String>(EventState { consumed: false })
                },
                _ => {
                    &&& final(self).action() == old(self).action()
                    &&& final(self).queued() == old(self).queued()
                    &&& r == Ok::<EventState, String>(EventState { consumed: false })
                },
            },
            final(self).message_view() == old(self).message_view(),
    {
        let k = match ev {
            Event::Key(k) => k,
            _ => return Ok(EventState::not_consumed()),
        };
        if key_match(k, KeyAction::Confirm) {
            match self.action.take() {
                Some(action) => self.queue.push(InternalEvent::Confirmed(action)),
                None => {},
            }
            self.queue.push(InternalEvent::ClosePopup);
            return Ok(EventState::consumed());
        }
        if key_match(k, KeyAction::Deny) || key_match(k, KeyAction::ClosePopup) {
            self.queue.push(InternalEvent::ClosePopup);
            return Ok(EventState::consumed());
        }
        Ok(EventState::not_consumed())
    }
}

// ---------------------------------------------------------------------
// Message
// ---------------------------------------------------------------------

/// Message popup for errors and info. Dismissed by any key (or mouse
/// event).
pub struct MsgPopup {
    pub message: String,
    pub is_error: bool,
    /// Requests for the app
    pub queue: Queue,
}

impl MsgPopup {
    pub fn new(message: String, is_error: bool) -> (p: MsgPopup)
        ensures
            p.message@ == message@,
            p.is_error == is_error,
            p.queued() == Seq::<InternalEvent>::empty(),
    {
        MsgPopup { message, is_error, queue: Queue::new() }
    }

    /// The requests queued for the app.
    pub open spec fn queued(&self) -> Seq<InternalEvent> {
        self.queue@
    }

    /// Take the queued requests, oldest first.
    pub fn take_events(&mut self) -> (v: Vec<InternalEvent>)
        ensures
            v@ == old(self).queued(),
            final(self).queued() == Seq::<InternalEvent>::empty(),
    {
        self.queue.drain()
    }

    /// Any key or mouse event closes the popup.
    pub fn event(&mut self, ev: &Event) -> (r: Result<EventState, String>)
        ensures
            final(self).message == old(self).message,
            final(self).is_error == old(self).is_error,
            match ev {
                Event::Key(_) | Event::Mouse => {
                    &&& final(self).queued() == old(self).queued().push(InternalEvent::ClosePopup)
                    &&& r == Ok::<EventState, String>(EventState { consumed: true })
                },
                _ => {
                    &&& final(self).queued() == old(self).queued()
                    &&& r == Ok::<EventState, String>(EventState { consumed: false })
                },
            },
    {
        match ev {
            Event::Key(_) | Event::Mouse => {
                self.queue.push(InternalEvent::ClosePopup);
                Ok(EventState::consumed())
            },
            _ => Ok(EventState::not_consumed()),
        }
    }
}

// ---------------------------------------------------------------------
// Output
// ---------------------------------------------------------------------

/// What a key does to the scroll position of the output viewer over `len`
/// lines: the new position, clamped to `len`, or `None` when the key is
/// not a scroll key.
pub open spec fn output_scroll(k: crate::keys::KeyEvent, scroll: int, len: int) -> Option<int> {
    let t = if binds(k, KeyAction::MoveDown) {
        Some(if scroll + 1 > usize::MAX { usize::MAX as int } else { scroll + 1 })
    } else if binds(k, KeyAction::MoveUp) {
        Some(if scroll < 1 { 0 } else { scroll - 1 })
    } else if binds(k, KeyAction::PageDown) {
        Some(if scroll + 20 > usize::MAX { usize::MAX as int } else { scroll + 20 })
    } else if binds(k, KeyAction::PageUp) {
        Some(if scroll < 20 { 0 } else { scroll - 20 })
    } else if binds(k, KeyAction::Home) {
        Some(0)
    } else if binds(k, KeyAction::End) {
        Some(len)
    } else {
        None
    };
    match t {
        Some(s) => Some(if s < len { s } else { len }),
        None => None,
    }
}

/// The output viewer closes on Esc, `q` or Enter.
pub open spec fn output_closes(k: crate::keys::KeyEvent) -> bool {
    binds(k, KeyAction::ClosePopup) || binds(k, KeyAction::Quit) || k.code == KeyCode::Enter
}

/// Scrollable output viewer, used after svn update/commit/add/revert
/// and for the repo info.
pub struct OutputPopup {
    pub title: String,
    pub lines: Vec<Vec<InfoSpan>>,
    pub scroll: usize,
    /// Requests for the app
    pub queue: Queue,
}

impl OutputPopup {
    /// A viewer of `content`, one unstyled line per line of it.
    pub fn new(title: String, content: &str) -> (p: OutputPopup)
        ensures
            p.title@ == title@,
            lines_view(p.lines@) == lines_of(content@).map_values(|l: Seq<char>| seq![(l, Role::Plain)]),
            p.scroll == 0,
            p.queued() == Seq::<InternalEvent>::empty(),
    {
        let v = chars_of(content);
        let spans = line_spans(&v);
        let ghost ls = lines_of(v@);
        let mut lines: Vec<Vec<InfoSpan>> = Vec::new();
        let mut k: usize = 0;
        while k < spans.len()
            invariant
                v@ == content@,
                ls == lines_of(v@),
                line_spans_of(v@, spans@),
                k <= spans@.len(),
                lines_view(lines@) == ls.take(k as int).map_values(|l: Seq<char>| seq![(l, Role::Plain)]),
            decreases spans.len() - k,
        {
            let (s, t) = spans[k];
            assert(ls[k as int] == v@.subrange(s as int, t as int));
            let l = vec![span(string_of(&v, s, t), Role::Plain)];
            let ghost before = lines_view(lines@);
            lines.push(l);
            assert(lines_view(lines@) =~~= before.push(seq![(ls[k as int], Role::Plain)]));
            assert(ls.take(k + 1) =~= ls.take(k as int).push(ls[k as int]));
            assert(lines_view(lines@) =~~= ls.take(k + 1).map_values(|l: Seq<char>| seq![(l, Role::Plain)]));
            k = k + 1;
        }
        assert(ls.take(k as int) =~= ls);
        OutputPopup { title, lines, scroll: 0, queue: Queue::new() }
    }

    /// A viewer of pre-styled lines (e.g. the repo-info overview).
    pub fn from_lines(title: String, lines: Vec<Vec<InfoSpan>>) -> (p: OutputPopup)
        ensures
            p.title@ == title@,
            p.lines@ == lines@,
            p.scroll == 0,
            p.queued() == Seq::<InternalEvent>::empty(),
    {
        OutputPopup { title, lines, scroll: 0, queue: Queue::new() }
    }

    /// The requests queued for the app.
    pub open spec fn queued(&self) -> Seq<InternalEvent> {
        self.queue@
    }

    /// Take the queued requests, oldest first.
    pub fn take_events(&mut self) -> (v: Vec<InternalEvent>)
        ensures
            v@ == old(self).queued(),
            final(self).queued() == Seq::<InternalEvent>::empty(),
            final(self).scroll == old(self).scroll,
    {
        self.queue.drain()
    }

    /// Scroll keys move within the lines (at most to their count); Esc,
    /// `q` and Enter close the viewer.
    pub fn event(&mut self, ev: &Event) -> (r: Result<EventState, String>)
        ensures
            final(self).lines == old(self).lines,
            final(self).title == old(self).title,
            match ev {
                Event::Key(k) => match output_scroll(*k, old(self).scroll as int, old(self).lines@.len() as int) {
                    Some(s) => {
                        &&& final(self).scroll == s
                        &&& final(self).queued() == old(self).queued()
                        &&& r == Ok::<EventState, String>(EventState { consumed: true })
                    },
                    None => if output_closes(*k) {
                        &&& final(self).scroll == old(self).scroll
                        &&& final(self).queued() == old(self).queued().push(InternalEvent::ClosePopup)
                        &&& r == Ok::<EventState, String>(EventState { consumed: true })
                    } else {
                        &&& final(self).scroll == old(self).scroll
                        &&& final(self).queued() == old(self).queued()
                        &&& r == Ok::<EventState, String>(EventState { consumed: false })
                    },
                },
                _ => {
                    &&& final(self).scroll == old(self).scroll
                    &&& final(self).queued() == old(self).queued()
                    &&& r == Ok::<EventState, String>(EventState { consumed: false })
                },
            },
    {
        let k = match ev {
            Event::Key(k) => k,
            _ => return Ok(EventState::not_consumed()),
        };
        let len = self.lines.len();
        let scroll = self.scroll;
        let next = if key_match(k, KeyAction::MoveDown) {
            scroll.saturating_add(1)
        } else if key_match(k, KeyAction::MoveUp) {
            scroll.saturating_sub(1)
        } else if key_match(k, KeyAction::PageDown) {
            scroll.saturating_add(20)
        } else if key_match(k, KeyAction::PageUp) {
            scroll.saturating_sub(20)
        } else if key_match(k, KeyAction::Home) {
            0
        } else if key_match(k, KeyAction::End) {
            len
        } else if key_match(k, KeyAction::ClosePopup) || key_match(k, KeyAction::Quit) || k.code == KeyCode::Enter {
            self.queue.push(InternalEvent::ClosePopup);
            return Ok(EventState::consumed());
        } else {
            return Ok(EventState::not_consumed());
        };
        self.scroll = if next < len {
            next
        } else {
            len
        };
        Ok(EventState::consumed())
    }
}

// ---------------------------------------------------------------------
// Key help
// ---------------------------------------------------------------------

/// The help popup closes on Esc, `q` or `?`.
pub open spec fn help_closes(k: crate::keys::KeyEvent) -> bool {
    binds(k, KeyAction::ClosePopup) || binds(k, KeyAction::Quit) || k.code == KeyCode::Char('?')
}

/// What a key does to the help popup's scroll position, if it scrolls.
pub open spec fn help_scroll(k: crate::keys::KeyEvent, scroll: int) -> Option<int> {
    if binds(k, KeyAction::MoveDown) {
        Some(scroll + 1)
    } else if binds(k, KeyAction::MoveUp) {
        Some(if scroll < 1 { 0 } else { scroll - 1 })
    } else if binds(k, KeyAction::PageDown) {
        Some(scroll + 20)
    } else if binds(k, KeyAction::PageUp) {
        Some(if scroll < 20 { 0 } else { scroll - 20 })
    } else {
        None
    }
}

/// Help popup: lists all keybindings.
pub struct HelpPopup {
    /// First line shown (the drawing clamps it to the content)
    pub scroll: usize,
    /// Requests for the app
    pub queue: Queue,
}

impl HelpPopup {
    pub fn new() -> (p: HelpPopup)
        ensures
            p.scroll == 0,
            p.queued() == Seq::<InternalEvent>::empty(),
    {
        HelpPopup { scroll: 0, queue: Queue::new() }
    }

    /// The requests queued for the app.
    pub open spec fn queued(&self) -> Seq<InternalEvent> {
        self.queue@
    }

    /// Take the queued requests, oldest first.
    pub fn take_events(&mut self) -> (v: Vec<InternalEvent>)
        ensures
            v@ == old(self).queued(),
            final(self).queued() == Seq::<InternalEvent>::empty(),
            final(self).scroll == old(self).scroll,
    {
        self.queue.drain()
    }

    /// Esc, `q` and `?` close the help; the scroll keys move it.
    pub fn event(&mut self, ev: &Event) -> (r: Result<EventState, String>)
        requires
            old(self).scroll + 20 <= usize::MAX,
        ensures
            match ev {
                Event::Key(k) => if help_closes(*k) {
                    &&& final(self).scroll == old(self).scroll
                    &&& final(self).queued() == old(self).queued().push(InternalEvent::ClosePopup)
                    &&& r == Ok::<EventState, String>(EventState { consumed: true })
                } else {
                    match help_scroll(*k, old(self).scroll as int) {
                        Some(s) => {
                            &&& final(self).scroll == s
                            &&& final(self).queued() == old(self).queued()
                            &&& r == Ok::<EventState, String>(EventState { consumed: true })
                        },
                        None => {
                            &&& final(self).scroll == old(self).scroll
                            &&& final(self).queued() == old(self).queued()
                            &&& r == Ok::<EventState, String>(EventState { consumed: false })
                        },
                    }
                },
                _ => {
                    &&& final(self).scroll == old(self).scroll
                    &&& final(self).queued() == old(self).queued()
                    &&& r == Ok::<EventState, String>(EventState { consumed: false })
                },
            },
    {
        let k = match ev {
            Event::Key(k) => k,
            _ => return Ok(EventState::not_consumed()),
        };
        if key_match(k, KeyAction::ClosePopup) || key_match(k, KeyAction::Quit) || k.code == KeyCode::Char('?') {
            self.queue.push(InternalEvent::ClosePopup);
            return Ok(EventState::consumed());
        }
        let scroll = self.scroll;
        let next = if key_match(k, KeyAction::MoveDown) {
            scroll + 1
        } else if key_match(k, KeyAction::MoveUp) {
            scroll.saturating_sub(1)
        } else if key_match(k, KeyAction::PageDown) {
            scroll + 20
        } else if key_match(k, KeyAction::PageUp) {
            scroll.saturating_sub(20)
        } else {
            return Ok(EventState::not_consumed());
        };
        self.scroll = next;
        Ok(EventState::consumed())
    }
}

// ---------------------------------------------------------------------
// Fullscreen diff
// ---------------------------------------------------------------------

/// Fullscreen diff popup (file diff or revision diff), with search.
pub struct DiffPopup {
    pub view: DiffView,
    /// Requests for the app
    pub queue: Queue,
}

impl DiffPopup {
    /// A focused, searchable diff view of `content` titled `title`.
    pub fn new(title: String, content: &str) -> (p: DiffPopup)
        ensures
            p.view.title@ == title@,
            p.view.focused,
            p.view.search_enabled,
            p.view.parsed.spec_lines() == crate::diff_view::content_lines(content@).1,
            p.view.tv.search@ == idle_state(),
            p.queued() == Seq::<InternalEvent>::empty(),
    {
        let mut view = DiffView::new(title.as_str());
        view.set_content(title, content);
        view.focused = true;
        view.search_enabled = true;
        DiffPopup { view, queue: Queue::new() }
    }

    /// The requests queued for the app.
    pub open spec fn queued(&self) -> Seq<InternalEvent> {
        self.queue@
    }

    /// Take the queued requests, oldest first.
    pub fn take_events(&mut self) -> (v: Vec<InternalEvent>)
        ensures
            v@ == old(self).queued(),
            final(self).queued() == Seq::<InternalEvent>::empty(),
            final(self).view == old(self).view,
    {
        self.queue.drain()
    }

    /// Esc cancels the search input or clears the highlights first, and
    /// closes the popup only with no search showing; then the search keys,
    /// `q` (close) and the scroll keys; every key is consumed so none
    /// leaks through to the tab underneath.
    pub fn event(&mut self, ev: &Event) -> (r: Result<EventState, String>)
        requires
            old(self).view.search_enabled,
        ensures
            final(self).view.parsed == old(self).view.parsed,
            final(self).view.search_enabled,
            ({
                let s0 = old(self).view.tv.search@;
                let esc = *ev matches Event::Key(k) && binds(k, KeyAction::ClosePopup);
                if esc {
                    let closes = !s0.input_mode && s0.pattern.len() == 0;
                    &&& final(self).view.tv.search@ == (if closes { s0 } else { idle_state() })
                    &&& final(self).view.tv.scroll == old(self).view.tv.scroll
                    &&& final(self).queued() == (if closes {
                        old(self).queued().push(InternalEvent::ClosePopup)
                    } else {
                        old(self).queued()
                    })
                    &&& r == Ok::<EventState, String>(EventState { consumed: true })
                } else {
                    let (v, o) = search_step(
                        s0,
                        *ev,
                        contents_bytes(old(self).view.parsed.lines@),
                        old(self).view.tv.scroll as int,
                    );
                    match o {
                        SearchOutcome::Consumed => {
                            &&& final(self).view.tv.search@ == v
                            &&& final(self).view.tv.scroll == old(self).view.tv.scroll
                            &&& final(self).queued() == old(self).queued()
                            &&& r == Ok::<EventState, String>(EventState { consumed: true })
                        },
                        SearchOutcome::Reveal(line) => {
                            &&& final(self).view.tv.search@ == v
                            &&& final(self).view.tv.scroll == line
                            &&& final(self).queued() == old(self).queued()
                            &&& r == Ok::<EventState, String>(EventState { consumed: true })
                        },
                        SearchOutcome::Ignored => {
                            &&& final(self).view.tv.search@ == v
                            &&& r == Ok::<EventState, String>(EventState { consumed: true })
                            &&& if *ev matches Event::Key(k) && binds(k, KeyAction::Quit) {
                                &&& final(self).view.tv.scroll == old(self).view.tv.scroll
                                &&& final(self).queued() == old(self).queued().push(InternalEvent::ClosePopup)
                            } else {
                                &&& final(self).queued() == old(self).queued()
                                &&& match ev {
                                    Event::Key(k) => match scroll_key(
                                        *k,
                                        old(self).view.tv.scroll as int,
                                        old(self).view.tv.hscroll as int,
                                        old(self).view.parsed.lines@.len() as int,
                                    ) {
                                        Some((s, h)) => final(self).view.tv.scroll == s
                                            && final(self).view.tv.hscroll == h,
                                        None => final(self).view.tv.scroll == old(self).view.tv.scroll
                                            && final(self).view.tv.hscroll == old(self).view.tv.hscroll,
                                    },
                                    _ => final(self).view.tv.scroll == old(self).view.tv.scroll,
                                }
                            }
                        },
                    }
                }
            }),
    {
        let esc = match ev {
            Event::Key(k) => key_match(k, KeyAction::ClosePopup),
            _ => false,
        };
        if esc {
            if self.view.tv.search.esc() == EscAction::ClosePopup {
                self.queue.push(InternalEvent::ClosePopup);
            }
            return Ok(EventState::consumed());
        }
        match self.view.search_event(ev) {
            Some(state) => return Ok(state),
            None => {},
        }
        let quit = match ev {
            Event::Key(k) => key_match(k, KeyAction::Quit),
            _ => false,
        };
        if quit {
            self.queue.push(InternalEvent::ClosePopup);
            return Ok(EventState::consumed());
        }
        let _scrolled = self.view.event(ev);
        Ok(EventState::consumed())
    }
}

// ---------------------------------------------------------------------
// The popup stack
// ---------------------------------------------------------------------

/// One entry in the popup stack.
pub enum Popup {
    Confirm(ConfirmPopup),
    Msg(MsgPopup),
    Help(HelpPopup),
    Output(OutputPopup),
    Diff(DiffPopup),
    Blame(BlamePopup),
    FileLog(FileLogPopup),
    FileFinder(FileFinderPopup),
    LogSearch(LogSearchPopup),
    StatusFilter(StatusFilterPopup),
}

/// `new` is the stack `old` with one more popup on top.
pub open spec fn pushed_popup(old: Seq<Popup>, new: Seq<Popup>) -> bool {
    new.len() == old.len() + 1 && new.drop_last() == old
}

/// Which kind of popup.
#[derive(Clone, Copy, Debug, PartialEq, Eq, Structural)]
pub enum PopupKind {
    Confirm,
    Msg,
    Help,
    Output,
    Diff,
    Blame,
    FileLog,
    FileFinder,
    LogSearch,
    StatusFilter,
}

/// The kind of `p`.
pub open spec fn popup_kind(p: Popup) -> PopupKind {
    match p {
        Popup::Confirm(_) => PopupKind::Confirm,
        Popup::Msg(_) => PopupKind::Msg,
        Popup::Help(_) => PopupKind::Help,
        Popup::Output(_) => PopupKind::Output,
        Popup::Diff(_) => PopupKind::Diff,
        Popup::Blame(_) => PopupKind::Blame,
        Popup::FileLog(_) => PopupKind::FileLog,
        Popup::FileFinder(_) => PopupKind::FileFinder,
        Popup::LogSearch(_) => PopupKind::LogSearch,
        Popup::StatusFilter(_) => PopupKind::StatusFilter,
    }
}

/// The share of the screen a kind of popup takes, in percent (width,
/// height).
pub open spec fn popup_percent(k: PopupKind) -> (u16, u16) {
    match k {
        PopupKind::Confirm => (60, 40),
        PopupKind::Msg => (65, 35),
        PopupKind::Help => (75, 75),
        PopupKind::Output => (80, 65),
        PopupKind::Diff => (92, 92),
        PopupKind::Blame => (92, 92),
        PopupKind::FileLog => (75, 70),
        PopupKind::FileFinder => (70, 60),
        PopupKind::LogSearch => (60, 20),
        PopupKind::StatusFilter => (60, 20),
    }
}

/// The requests a popup has queued.
pub open spec fn popup_queue(p: Popup) -> Seq<InternalEvent> {
    match p {
        Popup::Confirm(c) => c.queued(),
        Popup::Msg(m) => m.queued(),
        Popup::Help(h) => h.queued(),
        Popup::Output(o) => o.queued(),
        Popup::Diff(d) => d.queued(),
        Popup::Blame(b) => b.queue@,
        Popup::FileLog(f) => f@.queue,
        Popup::FileFinder(f) => f@.queue,
        Popup::LogSearch(l) => l.queued(),
        Popup::StatusFilter(f) => f.queued(),
    }
}

/// A popup can take input: the help's scroll can still move a page, the
/// diff popup searches.
pub open spec fn popup_ok(p: Popup) -> bool {
    match p {
        Popup::Help(h) => h.scroll + 20 <= usize::MAX,
        Popup::Diff(d) => d.view.search_enabled,
        _ => true,
    }
}

/// The popup `p` after the input event `ev` became `q` (see
/// [`Popup::event`]).
pub open spec fn popup_stepped(p: Popup, q: Popup, ev: Event) -> bool {
    &&& popup_kind(q) == popup_kind(p)
    &&& p matches Popup::FileFinder(a) ==> (q matches Popup::FileFinder(b) && finder_after(a@, b@, ev))
    &&& p matches Popup::StatusFilter(a) ==> (q matches Popup::StatusFilter(b) && ({
        let (q2, reqs, _) = filter_step(a.query(), a.initial(), ev);
        &&& b.query() == q2
        &&& b.initial() == a.initial()
        &&& query_requested(a.queued(), b.queued(), reqs)
    }))
    &&& p matches Popup::LogSearch(a) ==> (q matches Popup::LogSearch(b) && ({
        let (q2, reqs, _) = search_popup_step(a.query(), ev);
        &&& b.query() == q2
        &&& query_requested(a.queued(), b.queued(), reqs)
    }))
    &&& p matches Popup::Msg(a) ==> (q matches Popup::Msg(b) && (match ev {
        Event::Key(_) | Event::Mouse => b.queued() == a.queued().push(InternalEvent::ClosePopup),
        _ => b.queued() == a.queued(),
    }))
}

impl Popup {
    /// The rectangle this popup occupies within the screen `area`
    /// (see [`popup_percent`]).
    pub fn rect(&self, area: Area) -> (r: Area)
        requires
            area.fits(),
        ensures
            r.width == popup_extent(area.width as int, popup_percent(popup_kind(*self)).0 as int, 20),
            r.height == popup_extent(area.height as int, popup_percent(popup_kind(*self)).1 as int, 5),
            r.x == area.x + (area.width - r.width) / 2,
            r.y == area.y + (area.height - r.height) / 2,
            r.x + r.width <= area.x + area.width,
            r.y + r.height <= area.y + area.height,
    {
        match self {
            Popup::Confirm(_) => popup_area(area, 60, 40),
            Popup::Msg(_) => popup_area(area, 65, 35),
            Popup::Help(_) => popup_area(area, 75, 75),
            Popup::Output(_) => popup_area(area, 80, 65),
            Popup::Diff(_) => popup_area(area, 92, 92),
            Popup::Blame(_) => popup_area(area, 92, 92),
            Popup::FileLog(_) => popup_area(area, 75, 70),
            Popup::FileFinder(_) => popup_area(area, 70, 60),
            Popup::LogSearch(_) => popup_area(area, 60, 20),
            Popup::StatusFilter(_) => popup_area(area, 60, 20),
        }
    }

    /// Hand an input event to the popup. The popup stays of its kind; the
    /// popups with a stated key table follow it (see [`finder_after`],
    /// `file_log_key`, [`filter_step`], [`search_popup_step`]).
    pub fn event(&mut self, ev: &Event) -> (r: Result<EventState, String>)
        requires
            popup_ok(*old(self)),
        ensures
            r is Ok,
            popup_stepped(*old(self), *final(self), *ev),
    {
        match self {
            Popup::Confirm(p) => p.event(ev),
            Popup::Msg(p) => p.event(ev),
            Popup::Help(p) => p.event(ev),
            Popup::Output(p) => p.event(ev),
            Popup::Diff(p) => p.event(ev),
            Popup::Blame(p) => p.event(ev),
            Popup::FileLog(p) => p.event(ev),
            Popup::FileFinder(p) => p.event(ev),
            Popup::LogSearch(p) => p.event(ev),
            Popup::StatusFilter(p) => p.event(ev),
        }
    }

    /// Take the popup's queued requests, oldest first.
    pub fn take_events(&mut self) -> (v: Vec<InternalEvent>)
        ensures
            v@ == popup_queue(*old(self)),
            popup_queue(*final(self)) == Seq::<InternalEvent>::empty(),
            popup_kind(*final(self)) == popup_kind(*old(self)),
            popup_ok(*old(self)) ==> popup_ok(*final(self)),
    {
        match self {
            Popup::Confirm(p) => p.take_events(),
            Popup::Msg(p) => p.take_events(),
            Popup::Help(p) => p.take_events(),
            Popup::Output(p) => p.take_events(),
            Popup::Diff(p) => p.take_events(),
            Popup::Blame(p) => p.take_events(),
            Popup::FileLog(p) => p.take_events(),
            Popup::FileFinder(p) => p.take_events(),
            Popup::LogSearch(p) => p.take_events(),
            Popup::StatusFilter(p) => p.take_events(),
        }
    }

    pub fn confirm(message: String, action: ConfirmAction) -> (p: Popup)
        ensures
            p matches Popup::Confirm(c) && c.action() == Some(action) && c.message_view() == message@
                && c.queued().len() == 0,
    {
        Popup::Confirm(ConfirmPopup::new(message, action))
    }

    pub fn msg(message: String, is_error: bool) -> (p: Popup)
        ensures
            p matches Popup::Msg(m) && m.message@ == message@ && m.is_error == is_error && m.queued().len() == 0,
    {
        Popup::Msg(MsgPopup::new(message, is_error))
    }

    pub fn help() -> (p: Popup)
        ensures
            p matches Popup::Help(h) && h.scroll == 0 && h.queued().len() == 0,
    {
        Popup::Help(HelpPopup::new())
    }

    pub fn output(title: String, content: &str) -> (p: Popup)
        ensures
            p matches Popup::Output(o) && o.title@ == title@ && o.queued().len() == 0 && lines_view(o.lines@)
                == crate::text::lines_of(content@).map_values(|l: Seq<char>| seq![(l, Role::Plain)]),
    {
        Popup::Output(OutputPopup::new(title, content))
    }

    pub fn blame(path: &str) -> (p: Popup)
        ensures
            p matches Popup::Blame(b) && b.path@ == path@ && b.pending && b.queue@.len() == 0,
    {
        Popup::Blame(BlamePopup::new(path))
    }

    pub fn file_log(path: &str) -> (p: Popup)
        ensures
            p matches Popup::FileLog(f) && f@.path == path@ && f@.pending && f@.queue.len() == 0,
    {
        Popup::FileLog(FileLogPopup::new(path))
    }

    pub fn file_finder() -> (p: Popup)
        ensures
            p matches Popup::FileFinder(f) && f@.pending && f@.files.len() == 0 && f@.query.len() == 0
                && f@.queue.len() == 0,
    {
        Popup::FileFinder(FileFinderPopup::new())
    }

    pub fn log_search(initial: &str) -> (p: Popup)
        ensures
            p matches Popup::LogSearch(l) && l.query() == initial@ && l.queued().len() == 0,
    {
        Popup::LogSearch(LogSearchPopup::new(initial))
    }

    pub fn status_filter(initial: &str) -> (p: Popup)
        ensures
            p matches Popup::StatusFilter(f) && f.query() == initial@ && f.initial() == initial@
                && f.queued().len() == 0,
    {
        Popup::StatusFilter(StatusFilterPopup::new(initial))
    }
}

} // verus!
