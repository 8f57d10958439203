//! Blame popup: `svn blame` output with a cursor line, horizontal
//! scrolling and incremental search; Enter asks for the diff of the
//! revision that last touched the cursor line.

use vstd::prelude::*;
use crate::components::EventState;
use crate::diff_view::{display_width, str_display_width};
use crate::keys::{binds, key_match, Event, KeyAction, KeyCode, KeyEvent};
use crate::models::BlameLine;
use crate::queue::{InternalEvent, Queue};
use crate::text_search::{idle_state, lines_bytes, EscAction};
use crate::text_view::{sat_add, sat_sub, search_step, SearchOutcome, TextView};
use vstd::utf8::encode_utf8;

verus! {

/// The widest author of the lines, in display columns.
pub open spec fn widest_author(ls: Seq<BlameLine>) -> int
    decreases ls.len(),
{
    if ls.len() == 0 {
        0
    } else {
        let w = display_width(ls.last().author@) as int;
        let r = widest_author(ls.drop_last());
        if w > r {
            w
        } else {
            r
        }
    }
}

/// The widest rendered line: 7 columns of revision, a space, the author
/// column `aw` wide, two spaces and the content (saturating at
/// `usize::MAX`).
pub open spec fn widest_blame_line(ls: Seq<BlameLine>, aw: int) -> int
    decreases ls.len(),
{
    if ls.len() == 0 {
        0
    } else {
        let w = sat_add(sat_add(10, aw), display_width(ls.last().content@) as int);
        let r = widest_blame_line(ls.drop_last(), aw);
        if w > r {
            w
        } else {
            r
        }
    }
}

/// The bytes of the lines' contents, as the search sees them.
pub open spec fn blame_bytes(ls: Seq<BlameLine>) -> Seq<Seq<u8>> {
    ls.map_values(|l: BlameLine| encode_utf8(l.content@))
}

/// A request the popup queues for the app, by value.
pub enum BlameRequest {
    Close,
    RevisionDiff(u64),
    NotCommitted,
    Help,
}

/// The queued event `ev` is the request `r`.
pub open spec fn is_blame_request(ev: InternalEvent, r: BlameRequest) -> bool {
    match r {
        BlameRequest::Close => ev is ClosePopup,
        BlameRequest::RevisionDiff(rev) => ev matches InternalEvent::RequestRevisionDiff(x) && x == rev,
        BlameRequest::NotCommitted => ev matches InternalEvent::ShowInfoMsg(m) && m@
            == "line is not committed yet (no revision)"@,
        BlameRequest::Help => ev is OpenHelp,
    }
}

/// `i` kept on a line of `len` (0 without lines).
pub open spec fn clamped(i: int, len: int) -> int {
    if len == 0 {
        0
    } else if i < len {
        i
    } else {
        len - 1
    }
}

/// What the key `k` does to the cursor `sel` and the horizontal offset
/// `h` over `ls`, once search and Esc had their turn: the new cursor and
/// offset, the requests queued and whether the key was used.
pub open spec fn blame_key(ls: Seq<BlameLine>, sel: int, h: int, k: KeyEvent) -> (int, int, Seq<BlameRequest>, bool) {
    let len = ls.len() as int;
    if binds(k, KeyAction::MoveDown) {
        (clamped(sat_add(sel, 1), len), h, Seq::empty(), true)
    } else if binds(k, KeyAction::MoveUp) {
        (clamped(sat_sub(sel, 1), len), h, Seq::empty(), true)
    } else if binds(k, KeyAction::PageDown) {
        (clamped(sat_add(sel, 20), len), h, Seq::empty(), true)
    } else if binds(k, KeyAction::PageUp) {
        (clamped(sat_sub(sel, 20), len), h, Seq::empty(), true)
    } else if binds(k, KeyAction::Home) {
        (0, h, Seq::empty(), true)
    } else if binds(k, KeyAction::End) {
        (clamped(sat_sub(len, 1), len), h, Seq::empty(), true)
    } else if binds(k, KeyAction::MoveLeft) {
        (sel, sat_sub(h, 8), Seq::empty(), true)
    } else if binds(k, KeyAction::MoveRight) {
        (sel, sat_add(h, 8), Seq::empty(), true)
    } else if binds(k, KeyAction::Enter) {
        (
            sel,
            h,
            if 0 <= sel < len {
                match ls[sel].revision {
                    Some(rev) => seq![BlameRequest::RevisionDiff(rev)],
                    None => seq![BlameRequest::NotCommitted],
                }
            } else {
                Seq::empty()
            },
            true,
        )
    } else if binds(k, KeyAction::Quit) {
        (sel, h, seq![BlameRequest::Close], true)
    } else if k.code == KeyCode::Char('?') {
        (sel, h, seq![BlameRequest::Help], true)
    } else {
        (sel, h, Seq::empty(), false)
    }
}

/// Blame popup.
pub struct BlamePopup {
    pub path: String,
    pub lines: Vec<BlameLine>,
    pub pending: bool,
    /// Scroll offsets + incremental search (shared text-view plumbing)
    pub tv: TextView,
    /// Cursor: the highlighted line; the scroll offset follows it
    pub selected: usize,
    /// Display column width of the author field (widest author in the file)
    pub author_w: usize,
    /// Requests for the app
    pub queue: Queue,
}

impl BlamePopup {
    /// The blame of `path`, still loading.
    pub fn new(path: &str) -> (p: BlamePopup)
        ensures
            p.path@ == path@,
            p.lines@ == Seq::<BlameLine>::empty(),
            p.pending,
            p.tv.scroll == 0 && p.tv.hscroll == 0 && p.tv.max_width == 0,
            p.tv.search@ == idle_state(),
            p.selected == 0,
            p.author_w == 0,
            p.queue@ == Seq::<InternalEvent>::empty(),
    {
        BlamePopup {
            path: path.to_owned(),
            lines: Vec::new(),
            pending: true,
            tv: TextView::new(),
            selected: 0,
            author_w: 0,
            queue: Queue::new(),
        }
    }

    /// Take the queued requests, oldest first.
    pub fn take_events(&mut self) -> (v: Vec<InternalEvent>)
        ensures
            v@ == old(self).queue@,
            final(self).queue@ == Seq::<InternalEvent>::empty(),
            final(self).lines == old(self).lines,
            final(self).selected == old(self).selected,
            final(self).tv == old(self).tv,
    {
        self.queue.drain()
    }

    /// Show the blame lines: scroll, search and cursor start over; the
    /// author column is as wide as the widest author, and the width cache
    /// holds the widest rendered line.
    pub fn update(&mut self, lines: Vec<BlameLine>)
        ensures
            !final(self).pending,
            final(self).lines@ == lines@,
            final(self).path == old(self).path,
            final(self).selected == 0,
            final(self).tv.scroll == 0 && final(self).tv.hscroll == 0,
            final(self).tv.search@ == idle_state(),
            final(self).author_w == widest_author(lines@),
            final(self).tv.max_width == widest_blame_line(lines@, widest_author(lines@)),
            final(self).queue@ == old(self).queue@,
    {
        self.pending = false;
        self.tv.reset();
        self.selected = 0;
        let mut aw: usize = 0;
        let mut i: usize = 0;
        while i < lines.len()
            invariant
                i <= lines@.len(),
                aw == widest_author(lines@.take(i as int)),
            decreases lines.len() - i,
        {
            assert(lines@.take(i + 1).drop_last() =~= lines@.take(i as int));
            let w = str_display_width(lines[i].author.as_str());
            if w > aw {
                aw = w;
            }
            i = i + 1;
        }
        assert(lines@.take(i as int) =~= lines@);
        self.author_w = aw;
        let mut mw: usize = 0;
        let mut j: usize = 0;
        while j < lines.len()
            invariant
                j <= lines@.len(),
                aw == widest_author(lines@),
                mw == widest_blame_line(lines@.take(j as int), aw as int),
            decreases lines.len() - j,
        {
            assert(lines@.take(j + 1).drop_last() =~= lines@.take(j as int));
            let w = str_display_width(lines[j].content.as_str());
            let total = 10usize.saturating_add(aw).saturating_add(w);
            if total > mw {
                mw = total;
            }
            j = j + 1;
        }
        assert(lines@.take(j as int) =~= lines@);
        self.tv.max_width = mw;
        self.lines = lines;
    }

    /// Handle an input event. Esc cancels the search input or clears the
    /// highlights first and closes only with no search showing; with
    /// lines loaded, the search keys come next (a match moves the cursor
    /// to its line); then the cursor, scroll, Enter, `q` and `?` keys
    /// (see [`blame_key`]).
    pub fn event(&mut self, ev: &Event) -> (r: Result<EventState, String>)
        ensures
            final(self).lines == old(self).lines,
            final(self).path == old(self).path,
            final(self).author_w == old(self).author_w,
            final(self).tv.max_width == old(self).tv.max_width,
            ({
                let s0 = old(self).tv.search@;
                let q0 = old(self).queue@;
                let q1 = final(self).queue@;
                if *ev matches Event::Key(k) && binds(k, KeyAction::ClosePopup) {
                    let closes = !s0.input_mode && s0.pattern.len() == 0;
                    &&& final(self).tv.search@ == (if closes { s0 } else { idle_state() })
                    &&& final(self).selected == old(self).selected
                    &&& final(self).tv.hscroll == old(self).tv.hscroll
                    &&& q1 == (if closes { q0.push(InternalEvent::ClosePopup) } else { q0 })
                    &&& r == Ok::<EventState, String>(EventState { consumed: true })
                } else {
                    let has_lines = old(self).lines@.len() > 0;
                    let (v, o) = search_step(
                        s0,
                        *ev,
                        if s0.input_mode { blame_bytes(old(self).lines@) } else { Seq::empty() },
                        old(self).selected as int,
                    );
                    if has_lines && !(o is Ignored) {
                        &&& final(self).tv.search@ == v
                        &&& final(self).tv.hscroll == old(self).tv.hscroll
                        &&& q1 == q0
                        &&& r == Ok::<EventState, String>(EventState { consumed: true })
                        &&& final(self).selected == match o {
                            SearchOutcome::Reveal(line) => line as int,
                            _ => old(self).selected as int,
                        }
                    } else {
                        &&& final(self).tv.search@ == (if has_lines { v } else { s0 })
                        &&& match ev {
                            Event::Key(k) => {
                                let (sel, h, reqs, used) = blame_key(
                                    old(self).lines@,
                                    old(self).selected as int,
                                    old(self).tv.hscroll as int,
                                    *k,
                                );
                                &&& final(self).selected == sel
                                &&& final(self).tv.hscroll == h
                                &&& q1.len() == q0.len() + reqs.len()
                                &&& q1.take(q0.len() as int) == q0
                                &&& forall|i: int| 0 <= i < reqs.len() ==> is_blame_request(
                                    #[trigger] q1[q0.len() + i],
                                    reqs[i],
                                )
                                &&& r == Ok::<EventState, String>(EventState { consumed: used })
                            },
                            _ => {
                                &&& final(self).selected == old(self).selected
                                &&& final(self).tv.hscroll == old(self).tv.hscroll
                                &&& q1 == q0
                                &&& r == Ok::<EventState, String>(EventState { consumed: false })
                            },
                        }
                    }
                }
            }),
    {
        let ghost q0 = self.queue@;
        let esc = match ev {
            Event::Key(k) => key_match(k, KeyAction::ClosePopup),
            _ => false,
        };
        if esc {
            if self.tv.search.esc() == EscAction::ClosePopup {
                self.queue.push(InternalEvent::ClosePopup);
            }
            return Ok(EventState::consumed());
        }
        if self.lines.len() > 0 {
            let outcome = if self.tv.search.is_input_mode() {
                let mut contents: Vec<&str> = Vec::new();
                let mut k: usize = 0;
                while k < self.lines.len()
                    invariant
                        k <= self.lines@.len(),
                        contents@.len() == k,
                        forall|i: int| 0 <= i < k ==> (#[trigger] contents@[i])@ == self.lines@[i].content@,
                    decreases self.lines.len() - k,
                {
                    contents.push(self.lines[k].content.as_str());
                    k = k + 1;
                }
                assert(lines_bytes(contents@) =~= blame_bytes(self.lines@));
                self.tv.search_event(ev, contents.as_slice(), self.selected)
            } else {
                let none: Vec<&str> = Vec::new();
                assert(lines_bytes(none@) =~= Seq::<Seq<u8>>::empty());
                self.tv.search_event(ev, none.as_slice(), self.selected)
            };
            match outcome {
                SearchOutcome::Reveal(line) => {
                    self.selected = line;
                    return Ok(EventState::consumed());
                },
                SearchOutcome::Consumed => return Ok(EventState::consumed()),
                SearchOutcome::Ignored => {},
            }
        }
        let k = match ev {
            Event::Key(k) => k,
            _ => return Ok(EventState::not_consumed()),
        };
        proof {
            assert(q0.take(q0.len() as int) =~= q0);
        }
        let len = self.lines.len();
        let sel = self.selected;
        let next = if key_match(k, KeyAction::MoveDown) {
            sel.saturating_add(1)
        } else if key_match(k, KeyAction::MoveUp) {
            sel.saturating_sub(1)
        } else if key_match(k, KeyAction::PageDown) {
            sel.saturating_add(20)
        } else if key_match(k, KeyAction::PageUp) {
            sel.saturating_sub(20)
        } else if key_match(k, KeyAction::Home) {
            0
        } else if key_match(k, KeyAction::End) {
            len.saturating_sub(1)
        } else if key_match(k, KeyAction::MoveLeft) {
            self.tv.hscroll = self.tv.hscroll.saturating_sub(8);
            return Ok(EventState::consumed());
        } else if key_match(k, KeyAction::MoveRight) {
            self.tv.hscroll = self.tv.hscroll.saturating_add(8);
            return Ok(EventState::consumed());
        } else if key_match(k, KeyAction::Enter) {
            if sel < len {
                match self.lines[sel].revision {
                    Some(rev) => {
                        self.queue.push(InternalEvent::RequestRevisionDiff(rev));
                        assert(self.queue@.take(q0.len() as int) =~= q0);
                        assert(self.queue@[q0.len() + 0int] == InternalEvent::RequestRevisionDiff(rev));
                    },
                    None => {
                        let m = InternalEvent::ShowInfoMsg("line is not committed yet (no revision)".to_owned());
                        self.queue.push(m);
                        assert(self.queue@.take(q0.len() as int) =~= q0);
                        assert(self.queue@[q0.len() + 0int] == m);
                    },
                }
            }
            return Ok(EventState::consumed());
        } else if key_match(k, KeyAction::Quit) {
            self.queue.push(InternalEvent::ClosePopup);
            assert(self.queue@.take(q0.len() as int) =~= q0);
            assert(self.queue@[q0.len() + 0int] == InternalEvent::ClosePopup);
            return Ok(EventState::consumed());
        } else if k.code == KeyCode::Char('?') {
            self.queue.push(InternalEvent::OpenHelp);
            assert(self.queue@.take(q0.len() as int) =~= q0);
            assert(self.queue@[q0.len() + 0int] == InternalEvent::OpenHelp);
            return Ok(EventState::consumed());
        } else {
            return Ok(EventState::not_consumed());
        };
        self.selected = crate::ui::clamp_index(next, len);
        Ok(EventState::consumed())
    }
}

} // verus!
