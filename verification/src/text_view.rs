//! Shared plumbing for scrollable text viewers (diff, blame): vertical and
//! horizontal scroll state, incremental search, footer layout.

use vstd::prelude::*;
use crate::components::EventState;
use crate::keys::{binds, key_match, Event, KeyAction, KeyCode, KeyEvent};
use crate::text_search::{
    after_input, current_line, lines_bytes, recomputed, stepped, typing_state, InputOutcome,
    SearchView, TextSearch,
};
use crate::ui::{
    clamp_hscroll, clamp_scroll, follow_offset, scroll_follow, spec_clamp_scroll,
    split_search_footer, Area,
};

verus! {

/// Outcome of feeding one event to [`TextView::search_event`].
#[derive(Clone, Copy, Debug, PartialEq, Eq, Structural)]
pub enum SearchOutcome {
    /// Not search business; the caller should handle the event itself.
    Ignored,
    /// Search business, but no jump (typing without a match, `/`, Enter).
    Consumed,
    /// The search jumped to a match on this line; the caller reveals it
    /// (scroll offset for the diff view, cursor for the blame view).
    Reveal(usize),
}

/// Shared base for scrollable text viewers: scroll offsets, the widest-line
/// width used to clamp the horizontal offset, and incremental-search state.
pub struct TextView {
    pub scroll: usize,
    /// Horizontal scroll offset in display columns (`h`/`l`)
    pub hscroll: usize,
    /// Display width of the widest rendered line (for clamping `hscroll`)
    pub max_width: usize,
    /// Incremental search over the text content (`/`, n/N)
    pub search: TextSearch,
}

/// `a + b`, saturating at `usize::MAX`.
pub open spec fn sat_add(a: int, b: int) -> int {
    if a + b > usize::MAX {
        usize::MAX as int
    } else {
        a + b
    }
}

/// `a - b`, saturating at 0.
pub open spec fn sat_sub(a: int, b: int) -> int {
    if a < b {
        0
    } else {
        a - b
    }
}

/// The smaller of `a` and `b`.
pub open spec fn lesser(a: int, b: int) -> int {
    if a <= b {
        a
    } else {
        b
    }
}

/// The scroll offsets `(scroll, hscroll)` after the key `k`, for content
/// of `len` lines, or `None` when `k` is no scrolling key: `j`/`k`/↓/↑
/// step one line, `J`/`K`/PgDn/PgUp step 20, `g`/Home go to the top,
/// `G`/End to `len`; the vertical offset never exceeds `len`. `h`/`l`/←/→
/// scroll 8 columns (saturating; the right bound is applied at layout).
pub open spec fn scroll_key(k: KeyEvent, scroll: int, hscroll: int, len: int) -> Option<(int, int)> {
    if binds(k, KeyAction::MoveDown) || binds(k, KeyAction::PageDown) {
        let step = if binds(k, KeyAction::PageDown) {
            20
        } else {
            1
        };
        Some((lesser(sat_add(scroll, step), len), hscroll))
    } else if binds(k, KeyAction::MoveUp) || binds(k, KeyAction::PageUp) {
        let step = if binds(k, KeyAction::PageUp) {
            20
        } else {
            1
        };
        Some((lesser(sat_sub(scroll, step), len), hscroll))
    } else if binds(k, KeyAction::Home) {
        Some((0, hscroll))
    } else if binds(k, KeyAction::End) {
        Some((len, hscroll))
    } else if binds(k, KeyAction::MoveLeft) {
        Some((scroll, sat_sub(hscroll, 8)))
    } else if binds(k, KeyAction::MoveRight) {
        Some((scroll, sat_add(hscroll, 8)))
    } else {
        None
    }
}

/// `k` is the char `c` typed without Control or Alt.
pub open spec fn plain_char(k: KeyEvent, c: char) -> bool {
    k.code == KeyCode::Char(c) && !k.ctrl && !k.alt
}

/// What the search part of a text view does with `ev`: the new search
/// state and the outcome. While typing, the event goes to the input line
/// and a changed pattern is searched again from `from_line`, revealing the
/// current match if there is one. Otherwise `/` starts a fresh search and
/// plain `n`/`N` step to the next/previous match, revealing it.
pub open spec fn search_step(v: SearchView, ev: Event, hs: Seq<Seq<u8>>, from_line: int) -> (
    SearchView,
    SearchOutcome,
) {
    if v.input_mode {
        let (v1, o) = after_input(v, ev);
        if o == InputOutcome::Changed {
            let v2 = recomputed(v1, hs, from_line);
            (
                v2,
                match current_line(v2) {
                    Some(line) => SearchOutcome::Reveal(line),
                    None => SearchOutcome::Consumed,
                },
            )
        } else {
            (v1, SearchOutcome::Consumed)
        }
    } else {
        match ev {
            Event::Key(k) => if binds(k, KeyAction::Filter) {
                (typing_state(), SearchOutcome::Consumed)
            } else if plain_char(k, 'n') || plain_char(k, 'N') {
                let (v1, line) = stepped(v, plain_char(k, 'n'));
                (
                    v1,
                    match line {
                        Some(l) => SearchOutcome::Reveal(l),
                        None => SearchOutcome::Consumed,
                    },
                )
            } else {
                (v, SearchOutcome::Ignored)
            },
            _ => (v, SearchOutcome::Ignored),
        }
    }
}

impl TextView {
    pub fn new() -> (t: TextView)
        ensures
            t.scroll == 0,
            t.hscroll == 0,
            t.max_width == 0,
            t.search@ == crate::text_search::idle_state(),
    {
        TextView { scroll: 0, hscroll: 0, max_width: 0, search: TextSearch::new() }
    }

    /// Zero both scroll offsets and the width cache; drop the search.
    pub fn reset(&mut self)
        ensures
            final(self).scroll == 0,
            final(self).hscroll == 0,
            final(self).max_width == 0,
            final(self).search@ == crate::text_search::idle_state(),
    {
        self.scroll = 0;
        self.hscroll = 0;
        self.max_width = 0;
        self.search.clear();
    }

    /// Scrolling keys ([`scroll_key`]); consumes those keys, everything
    /// else falls through with the view unchanged.
    pub fn scroll_event(&mut self, ev: &Event, len: usize) -> (e: EventState)
        ensures
            final(self).max_width == old(self).max_width,
            final(self).search@ == old(self).search@,
            match ev {
                Event::Key(k) => match scroll_key(*k, old(self).scroll as int, old(self).hscroll as int, len as int) {
                    Some((s, h)) => e.consumed && final(self).scroll == s && final(self).hscroll == h,
                    None => !e.consumed && final(self).scroll == old(self).scroll
                        && final(self).hscroll == old(self).hscroll,
                },
                _ => !e.consumed && final(self).scroll == old(self).scroll && final(self).hscroll
                    == old(self).hscroll,
            },
    {
        let k = match ev {
            Event::Key(k) => k,
            _ => {
                return EventState::not_consumed();
            },
        };
        let mut scroll = self.scroll;
        if key_match(k, KeyAction::MoveDown) || key_match(k, KeyAction::PageDown) {
            scroll = scroll.saturating_add(
                if key_match(k, KeyAction::PageDown) {
                    20
                } else {
                    1
                },
            );
        } else if key_match(k, KeyAction::MoveUp) || key_match(k, KeyAction::PageUp) {
            scroll = scroll.saturating_sub(
                if key_match(k, KeyAction::PageUp) {
                    20
                } else {
                    1
                },
            );
        } else if key_match(k, KeyAction::Home) {
            scroll = 0;
        } else if key_match(k, KeyAction::End) {
            scroll = len;
        } else if key_match(k, KeyAction::MoveLeft) {
            self.hscroll = self.hscroll.saturating_sub(8);
            return EventState::consumed();
        } else if key_match(k, KeyAction::MoveRight) {
            // right bound is applied at layout time (needs the area width)
            self.hscroll = self.hscroll.saturating_add(8);
            return EventState::consumed();
        } else {
            return EventState::not_consumed();
        }
        self.scroll = if scroll <= len {
            scroll
        } else {
            len
        };
        EventState::consumed()
    }

    /// Search input (`/`, live typing, `n`/`N`) against `lines`.
    /// `from_line` is where the incremental search starts looking (the
    /// diff's scroll offset, the blame cursor). Esc is *not* handled here:
    /// it interacts with closing the view, which the caller owns.
    pub fn search_event(&mut self, ev: &Event, lines: &[&str], from_line: usize) -> (o: SearchOutcome)
        ensures
            final(self).scroll == old(self).scroll,
            final(self).hscroll == old(self).hscroll,
            final(self).max_width == old(self).max_width,
            (final(self).search@, o) == search_step(
                old(self).search@,
                *ev,
                lines_bytes(lines@),
                from_line as int,
            ),
    {
        if self.search.is_input_mode() {
            if self.search.input_event(ev) == InputOutcome::Changed {
                self.search.recompute(lines, from_line);
                if let Some(line) = self.search.current_match_line() {
                    return SearchOutcome::Reveal(line);
                }
            }
            return SearchOutcome::Consumed;
        }
        let k = match ev {
            Event::Key(k) => k,
            _ => {
                return SearchOutcome::Ignored;
            },
        };
        if key_match(k, KeyAction::Filter) {
            self.search.start_input();
            return SearchOutcome::Consumed;
        }
        // plain char, no ctrl/alt: macOS Option+n reports Char('n')+ALT
        // and must not trigger search cycling
        let plain_n = k.code == KeyCode::Char('n') && !k.ctrl && !k.alt;
        let plain_big_n = k.code == KeyCode::Char('N') && !k.ctrl && !k.alt;
        let jump = if plain_n {
            self.search.next_match()
        } else if plain_big_n {
            self.search.prev_match()
        } else {
            return SearchOutcome::Ignored;
        };
        match jump {
            Some(line) => SearchOutcome::Reveal(line),
            None => SearchOutcome::Consumed,
        }
    }

    /// Carve off the search footer (while a search is active) and clamp
    /// both scroll offsets against the content, writing them back.
    /// Returns the content area, the footer area and the clamped scroll.
    pub fn layout(&mut self, inner: Area, total: usize) -> (r: (Area, Option<Area>, usize))
        requires
            inner.fits(),
        ensures
            (r.0, r.1) == split_search_footer_spec(inner, old(self).search@),
            r.2 == spec_clamp_scroll(old(self).scroll as int, total as int, r.0.height as int),
            final(self).scroll == r.2,
            final(self).hscroll == hscroll_bound(old(self).hscroll, old(self).max_width, r.0),
            final(self).max_width == old(self).max_width,
            final(self).search@ == old(self).search@,
    {
        let (content, footer) = split_search_footer(inner, self.search.is_active());
        let scroll = clamp_scroll(self.scroll, total, content.height as usize);
        self.scroll = scroll;
        self.clamp_hscroll(content);
        (content, footer, scroll)
    }

    /// [`TextView::layout`] variant for cursor-driven views (blame): the
    /// scroll offset follows `cursor` so it stays inside the visible window.
    pub fn layout_with_cursor(&mut self, inner: Area, total: usize, cursor: usize) -> (r: (
        Area,
        Option<Area>,
        usize,
    ))
        requires
            inner.fits(),
        ensures
            (r.0, r.1) == split_search_footer_spec(inner, old(self).search@),
            r.2 == spec_clamp_scroll(
                follow_offset(cursor as int, old(self).scroll as int, r.0.height as int),
                total as int,
                r.0.height as int,
            ),
            final(self).scroll == r.2,
            final(self).hscroll == hscroll_bound(old(self).hscroll, old(self).max_width, r.0),
            final(self).max_width == old(self).max_width,
            final(self).search@ == old(self).search@,
    {
        let (content, footer) = split_search_footer(inner, self.search.is_active());
        let scroll = scroll_follow(cursor, self.scroll, total, content.height as usize);
        self.scroll = scroll;
        self.clamp_hscroll(content);
        (content, footer, scroll)
    }

    /// Clamp the horizontal offset against the widest line (needs the area
    /// width, so it can only happen at layout time) and write it back.
    fn clamp_hscroll(&mut self, content: Area)
        ensures
            final(self).hscroll == hscroll_bound(old(self).hscroll, old(self).max_width, content),
            final(self).scroll == old(self).scroll,
            final(self).max_width == old(self).max_width,
            final(self).search@ == old(self).search@,
    {
        let h_off = clamp_hscroll(self.hscroll, self.max_width, content.width as usize);
        self.hscroll = h_off;
    }
}

/// The content and footer areas of a text view whose search is `v`: a
/// footer row is split off while the search is active.
pub open spec fn split_search_footer_spec(inner: Area, v: SearchView) -> (Area, Option<Area>) {
    let active = v.input_mode || v.pattern.len() > 0;
    if active && inner.height > 1 {
        (
            Area { height: (inner.height - 1) as u16, ..inner },
            Some(
                Area {
                    x: inner.x,
                    y: (inner.y + inner.height - 1) as u16,
                    width: inner.width,
                    height: 1,
                },
            ),
        )
    } else {
        (inner, None)
    }
}

/// The horizontal offset clamped so the widest line's right edge
/// (`max_width`) is not scrolled past in an area of the given width.
pub open spec fn hscroll_bound(hscroll: usize, max_width: usize, content: Area) -> usize {
    if max_width <= content.width {
        0
    } else if hscroll <= max_width - content.width {
        hscroll
    } else {
        (max_width - content.width) as usize
    }
}

} // verus!
