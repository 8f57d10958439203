//! Shared view arithmetic: scrolling, selection clamping, the busy spinner
//! and title truncation.

use vstd::prelude::*;
use crate::text::{chars_of, push_char, string_of};

verus! {

/// The scroll offset `clamp_scroll` settles on.
pub open spec fn spec_clamp_scroll(scroll: int, len: int, height: int) -> int {
    if height == 0 || len <= height {
        0
    } else if scroll <= len - height {
        scroll
    } else {
        len - height
    }
}

/// Clamp a scroll offset so the view stays within the content.
pub fn clamp_scroll(scroll: usize, len: usize, height: usize) -> (r: usize)
    ensures
        r == spec_clamp_scroll(scroll as int, len as int, height as int),
{
    if height == 0 || len <= height {
        return 0;
    }
    if scroll <= len - height {
        scroll
    } else {
        len - height
    }
}

/// Clamp a selection index into range.
pub fn clamp_index(idx: usize, len: usize) -> (r: usize)
    ensures
        len == 0 ==> r == 0,
        len > 0 ==> r == if idx < len { idx as int } else { len - 1 },
{
    if len == 0 {
        return 0;
    }
    if idx <= len - 1 {
        idx
    } else {
        len - 1
    }
}

/// The scroll offset before clamping, once `selection` has been pulled
/// into the window of `view_h` rows with the least movement.
pub open spec fn follow_offset(selection: int, scroll: int, view_h: int) -> int {
    if view_h == 0 {
        scroll
    } else if selection < scroll {
        selection
    } else if selection >= scroll + view_h {
        selection - view_h + 1
    } else {
        scroll
    }
}

/// Adjust `scroll` so `selection` stays inside the visible window of
/// `view_h` rows, scrolling minimally; the result is clamped against the
/// content length `len` via [`clamp_scroll`].
pub fn scroll_follow(selection: usize, scroll: usize, len: usize, view_h: usize) -> (r: usize)
    ensures
        r == spec_clamp_scroll(
            follow_offset(selection as int, scroll as int, view_h as int),
            len as int,
            view_h as int,
        ),
{
    let mut scroll = scroll;
    if view_h > 0 {
        if selection < scroll {
            scroll = selection;
        } else if selection - scroll >= view_h {
            scroll = selection - view_h + 1;
        }
    }
    clamp_scroll(scroll, len, view_h)
}

/// Following a selection that lies inside the content keeps it on screen:
/// with a non-empty view, the selected row is within
/// `[result, result + view_h)`, and the window never runs past the content.
pub proof fn lemma_scroll_follow_keeps_selection_visible(
    selection: int,
    scroll: int,
    len: int,
    view_h: int,
)
    requires
        0 <= selection < len,
        0 <= scroll,
        0 < view_h,
    ensures
        ({
            let r = spec_clamp_scroll(follow_offset(selection, scroll, view_h), len, view_h);
            &&& 0 <= r
            &&& r <= selection < r + view_h
            &&& (len > view_h ==> r + view_h <= len)
        }),
{
}

/// Clamp a horizontal scroll offset so the view cannot scroll past the
/// right edge of the widest line.
pub fn clamp_hscroll(hscroll: usize, max_width: usize, width: usize) -> (r: usize)
    ensures
        r == if max_width <= width {
            0
        } else if hscroll <= max_width - width {
            hscroll as int
        } else {
            max_width - width
        },
{
    let limit = if max_width <= width {
        0
    } else {
        max_width - width
    };
    if hscroll <= limit {
        hscroll
    } else {
        limit
    }
}

/// The text of frame `k` (of ten) of the busy spinner.
pub open spec fn spinner_text(k: int) -> Seq<char> {
    if k == 0 {
        seq!['⠋']
    } else if k == 1 {
        seq!['⠙']
    } else if k == 2 {
        seq!['⠹']
    } else if k == 3 {
        seq!['⠸']
    } else if k == 4 {
        seq!['⠼']
    } else if k == 5 {
        seq!['⠴']
    } else if k == 6 {
        seq!['⠦']
    } else if k == 7 {
        seq!['⠧']
    } else if k == 8 {
        seq!['⠇']
    } else {
        seq!['⠏']
    }
}

/// A small spinner: the frame for tick `i`, cycling through ten frames.
pub fn spinner_frame(i: usize) -> (r: &'static str)
    ensures
        r@ == spinner_text(i as int % 10),
{
    let k = i % 10;
    if k == 0 {
        proof { reveal_strlit("⠋"); }
        "⠋"
    } else if k == 1 {
        proof { reveal_strlit("⠙"); }
        "⠙"
    } else if k == 2 {
        proof { reveal_strlit("⠹"); }
        "⠹"
    } else if k == 3 {
        proof { reveal_strlit("⠸"); }
        "⠸"
    } else if k == 4 {
        proof { reveal_strlit("⠼"); }
        "⠼"
    } else if k == 5 {
        proof { reveal_strlit("⠴"); }
        "⠴"
    } else if k == 6 {
        proof { reveal_strlit("⠦"); }
        "⠦"
    } else if k == 7 {
        proof { reveal_strlit("⠧"); }
        "⠧"
    } else if k == 8 {
        proof { reveal_strlit("⠇"); }
        "⠇"
    } else {
        proof { reveal_strlit("⠏"); }
        "⠏"
    }
}

/// The spinner cycles with period ten, and its ten frames are pairwise
/// different.
pub proof fn lemma_spinner_cycle(i: int, j: int)
    requires
        0 <= i,
        0 <= j,
    ensures
        spinner_text(i % 10) == spinner_text((i + 10) % 10),
        i % 10 != j % 10 ==> spinner_text(i % 10) != spinner_text(j % 10),
{
    let a = i % 10;
    let b = j % 10;
    if a != b {
        assert(spinner_text(a)[0] != spinner_text(b)[0]);
    }
}

/// What `truncate` makes of a title: kept whole when it has at most `max`
/// chars, else cut to `max - 1` chars followed by an ellipsis; nothing is
/// left when `max` is 0.
pub open spec fn spec_truncate(s: Seq<char>, max: int) -> Seq<char> {
    if s.len() <= max {
        s
    } else if max == 0 {
        Seq::empty()
    } else {
        s.take(max - 1).push('…')
    }
}

/// Truncate a string to a max char count for popup titles etc.
pub fn truncate(s: &str, max: usize) -> (r: String)
    ensures
        r@ == spec_truncate(s@, max as int),
        r@.len() <= max,
{
    let v = chars_of(s);
    if v.len() <= max {
        string_of(&v, 0, v.len())
    } else if max == 0 {
        String::new()
    } else {
        let mut out = string_of(&v, 0, max - 1);
        push_char(&mut out, '…');
        assert(v@.subrange(0, max - 1) =~= v@.take(max - 1));
        out
    }
}

/// A truncated title never holds more than `max` chars; a title that fits
/// is kept as it is.
pub proof fn lemma_truncate_bounded(s: Seq<char>, max: int)
    requires
        0 <= max,
    ensures
        spec_truncate(s, max).len() <= max,
        s.len() <= max ==> spec_truncate(s, max) == s,
{
}

/// A rectangle of terminal cells: the origin and the size. As for the
/// terminal's own rectangles, the right and bottom edges are within
/// `u16` (see [`Area::fits`]).
#[derive(Clone, Copy, Debug, Default, PartialEq, Eq, Structural)]
pub struct Area {
    pub x: u16,
    pub y: u16,
    pub width: u16,
    pub height: u16,
}

impl Area {
    pub fn new(x: u16, y: u16, width: u16, height: u16) -> (a: Area)
        ensures
            a == (Area { x, y, width, height }),
    {
        Area { x, y, width, height }
    }

    /// The right and bottom edges are within `u16`.
    pub open spec fn fits(self) -> bool {
        self.x + self.width <= u16::MAX && self.y + self.height <= u16::MAX
    }
}

/// Split off a one-row footer (e.g. the `/pattern` search line) from the
/// bottom of `inner` when `active` and `inner` has more than one row.
/// Returns the (shrunk) content area and the footer.
pub fn split_search_footer(inner: Area, active: bool) -> (r: (Area, Option<Area>))
    requires
        inner.fits(),
    ensures
        active && inner.height > 1 ==> r == (
            Area { height: (inner.height - 1) as u16, ..inner },
            Some(Area { x: inner.x, y: (inner.y + inner.height - 1) as u16, width: inner.width, height: 1 }),
        ),
        !(active && inner.height > 1) ==> r == (inner, None::<Area>),
{
    if active && inner.height > 1 {
        (
            Area::new(inner.x, inner.y, inner.width, inner.height - 1),
            Some(Area::new(inner.x, inner.y + inner.height - 1, inner.width, 1)),
        )
    } else {
        (inner, None)
    }
}

/// The size `popup_area` gives a popup along one axis: `percent` of the
/// `full` size (taken modulo 2^16, as the narrowing does), at least
/// `least`, at most `full`.
pub open spec fn popup_extent(full: int, percent: int, least: int) -> int {
    let raw = (full * percent / 100) % 0x1_0000;
    let grown = if raw < least { least } else { raw };
    if grown > full { full } else { grown }
}

/// Compute a centered popup rectangle taking `percent_x` / `percent_y` of
/// `area`, at least 20 columns by 5 rows, at most `area`.
pub fn popup_area(area: Area, percent_x: u16, percent_y: u16) -> (r: Area)
    requires
        area.fits(),
    ensures
        r.width == popup_extent(area.width as int, percent_x as int, 20),
        r.height == popup_extent(area.height as int, percent_y as int, 5),
        r.x == area.x + (area.width - r.width) / 2,
        r.y == area.y + (area.height - r.height) / 2,
        r.fits(),
        r.x + r.width <= area.x + area.width,
        r.y + r.height <= area.y + area.height,
{
    // u32 intermediates: `width * percent` overflows u16 on wide terminals
    assert((area.width as u32) * (percent_x as u32) <= u32::MAX) by (nonlinear_arith)
        requires
            area.width <= u16::MAX,
            percent_x <= u16::MAX,
    ;
    assert((area.height as u32) * (percent_y as u32) <= u32::MAX) by (nonlinear_arith)
        requires
            area.height <= u16::MAX,
            percent_y <= u16::MAX,
    ;
    let wide: u32 = (area.width as u32) * (percent_x as u32) / 100;
    let tall: u32 = (area.height as u32) * (percent_y as u32) / 100;
    let width0: u16 = (wide % 0x1_0000) as u16;
    let height0: u16 = (tall % 0x1_0000) as u16;
    let width1 = if width0 < 20 { 20 } else { width0 };
    let height1 = if height0 < 5 { 5 } else { height0 };
    let width = if width1 > area.width { area.width } else { width1 };
    let height = if height1 > area.height { area.height } else { height1 };
    let x = area.x + (area.width - width) / 2;
    let y = area.y + (area.height - height) / 2;
    Area::new(x, y, width, height)
}

} // verus!
