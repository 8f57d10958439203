//! The rows of a diff block and of blame lines: the line-number gutter,
//! the styles of the diff kinds, and the search matches cut out of a
//! line's text.

use vstd::prelude::*;
use vstd::utf8::{
    decode_utf8, encode_utf8, encode_utf8_decode_utf8, encode_utf8_valid_utf8, decode_utf8_split,
    is_char_boundary_iff_not_is_continuation_byte, is_char_boundary_start_end_of_seq, is_continuation_byte,
};
use vstd::string::StringSliceAdditionalSpecFns;
use crate::diff_view::{display_width, numbered, str_display_width, DiffView};
use crate::models::{BlameLine, DiffLine, DiffLineKind, SpecBlameLine, SpecDiffLine};
use crate::spans::{lines_view, push_line, span, span_view, text_span, InfoSpan, Role};
use crate::text::{decimal, digit_count, push_char, push_decimal};
use crate::text_search::{current_on_line, ranges_on_line};

verus! {

/// The text of a row: its spans' texts one after the other.
pub open spec fn span_texts(s: Seq<InfoSpan>) -> Seq<char>
    decreases s.len(),
{
    if s.len() == 0 {
        Seq::empty()
    } else {
        span_texts(s.drop_last()) + s.last().text@
    }
}

/// A row by value.
pub open spec fn row_view(r: Seq<InfoSpan>) -> Seq<(Seq<char>, Role)> {
    r.map_values(|s: InfoSpan| span_view(s))
}

/// `i` is where a piece of the UTF-8 bytes `b` may start or end: the end,
/// or a byte that opens a char.
pub open spec fn cut_ok(b: Seq<u8>, i: int) -> bool {
    i == b.len() || (0 <= i < b.len() && !is_continuation_byte(b[i]))
}

/// `rs` are byte ranges of `b` in order, not overlapping, each beginning
/// and ending between chars.
pub open spec fn ranges_fit(b: Seq<u8>, rs: Seq<(usize, usize)>) -> bool {
    &&& forall|k: int|
        0 <= k < rs.len() ==> (#[trigger] rs[k]).0 <= rs[k].1 <= b.len() && cut_ok(b, rs[k].0 as int) && cut_ok(
            b,
            rs[k].1 as int,
        )
    &&& forall|j: int, k: int| 0 <= j < k < rs.len() ==> (#[trigger] rs[j]).1 <= (#[trigger] rs[k]).0
}

/// The role of the `k`-th match among those of a line.
pub open spec fn match_role(current: Option<usize>, k: int) -> Role {
    if current == Some(k as usize) {
        Role::Current
    } else {
        Role::Matched
    }
}

/// Where the pieces after the first `k` ranges start.
pub open spec fn after_range(rs: Seq<(usize, usize)>, k: int) -> int {
    if k <= 0 {
        0
    } else {
        rs[k - 1].1 as int
    }
}

/// The pieces of `b` up to the end of its `k`-th range: before each range
/// the text since the last one (when there is any) in `base`, then the
/// range in the match role.
pub open spec fn pieces_upto(b: Seq<u8>, rs: Seq<(usize, usize)>, current: Option<usize>, base: Role, k: int) -> Seq<
    (Seq<char>, Role),
>
    decreases k,
{
    if k <= 0 {
        Seq::empty()
    } else {
        let pos = after_range(rs, k - 1);
        let (s, e) = rs[k - 1];
        pieces_upto(b, rs, current, base, k - 1) + (if s > pos {
            seq![(decode_utf8(b.subrange(pos, s as int)), base)]
        } else {
            Seq::empty()
        }) + seq![(decode_utf8(b.subrange(s as int, e as int)), match_role(current, k - 1))]
    }
}

/// The spans of the text with UTF-8 bytes `b` and the match ranges `rs`:
/// the whole text in `base` without ranges; else the pieces of the ranges
/// (see [`pieces_upto`]) and the text after the last range, if any, in
/// `base`.
pub open spec fn spec_highlight(b: Seq<u8>, rs: Seq<(usize, usize)>, current: Option<usize>, base: Role) -> Seq<
    (Seq<char>, Role),
> {
    if rs.len() == 0 {
        seq![(decode_utf8(b), base)]
    } else {
        let last = rs.last().1 as int;
        pieces_upto(b, rs, current, base, rs.len() as int) + (if last < b.len() {
            seq![(decode_utf8(b.subrange(last, b.len() as int)), base)]
        } else {
            Seq::empty()
        })
    }
}

proof fn lemma_span_texts_push(s: Seq<InfoSpan>, x: InfoSpan)
    ensures
        span_texts(s.push(x)) == span_texts(s) + x.text@,
{
    assert(s.push(x).drop_last() =~= s);
}

/// Cut the first `m` bytes off `rest`: their text, and what is left.
fn split_piece<'a>(rest: &'a str, m: usize) -> (r: (String, &'a str))
    requires
        m <= rest.spec_bytes().len(),
        m == 0 || m == rest.spec_bytes().len() || !is_continuation_byte(rest.spec_bytes()[m as int]),
    ensures
        r.0@ == decode_utf8(rest.spec_bytes().subrange(0, m as int)),
        r.1.spec_bytes() == rest.spec_bytes().subrange(m as int, rest.spec_bytes().len() as int),
        rest@ == r.0@ + r.1@,
{
    let ghost rb = rest.spec_bytes();
    proof {
        encode_utf8_valid_utf8(rest@);
        encode_utf8_decode_utf8(rest@);
        is_char_boundary_start_end_of_seq(rb);
        if 0 < m < rb.len() {
            is_char_boundary_iff_not_is_continuation_byte(rb, m as int);
        }
        decode_utf8_split(rb, m as int);
    }
    let (a, b) = rest.split_at(m);
    proof {
        encode_utf8_decode_utf8(a@);
        encode_utf8_decode_utf8(b@);
    }
    (a.to_owned(), b)
}

/// Split `text` at the match `ranges`: the spans of [`spec_highlight`],
/// whose texts together are `text`. Each range gets the match role, the
/// one at `current` the current-match role, the rest `base`.
pub fn highlight_spans(text: &str, ranges: &[(usize, usize)], current: Option<usize>, base: Role) -> (r: Vec<
    InfoSpan,
>)
    requires
        ranges_fit(text.spec_bytes(), ranges@),
    ensures
        row_view(r@) == spec_highlight(text.spec_bytes(), ranges@, current, base),
        span_texts(r@) == text@,
{
    let ghost b = text.spec_bytes();
    proof {
        encode_utf8_decode_utf8(text@);
        encode_utf8_valid_utf8(text@);
    }
    let n = text.as_bytes().len();
    let mut out: Vec<InfoSpan> = Vec::new();
    if ranges.len() == 0 {
        let sp = span(text.to_owned(), base);
        proof {
            lemma_span_texts_push(out@, sp);
        }
        out.push(sp);
        assert(span_texts(out@) =~= text@);
        assert(row_view(out@) =~= spec_highlight(b, ranges@, current, base));
        return out;
    }
    let mut rest: &str = text;
    let mut pos: usize = 0;
    let mut k: usize = 0;
    assert(b.subrange(0, b.len() as int) =~= b);
    assert(row_view(out@) =~= Seq::<(Seq<char>, Role)>::empty());
    assert(span_texts(out@) + rest@ =~= text@);
    while k < ranges.len()
        invariant
            b == text.spec_bytes(),
            n == b.len(),
            ranges_fit(b, ranges@),
            k <= ranges@.len(),
            pos == after_range(ranges@, k as int),
            pos <= n,
            k < ranges@.len() ==> pos <= ranges@[k as int].0,
            rest.spec_bytes() == b.subrange(pos as int, n as int),
            span_texts(out@) + rest@ == text@,
            row_view(out@) == pieces_upto(b, ranges@, current, base, k as int),
        decreases ranges.len() - k,
    {
        let (s, e) = ranges[k];
        let ghost before = row_view(out@);
        let ghost mut mid_base: Seq<(Seq<char>, Role)> = Seq::empty();
        if s > pos {
            assert(rest.spec_bytes()[(s - pos) as int] == b[s as int] || s == n);
            let (a, r2) = split_piece(rest, s - pos);
            assert(b.subrange(pos as int, n as int).subrange(0, (s - pos) as int) =~= b.subrange(pos as int, s as int));
            assert(b.subrange(pos as int, n as int).subrange((s - pos) as int, (n - pos) as int) =~= b.subrange(s as int, n as int));
            let sp = span(a, base);
            proof {
                lemma_span_texts_push(out@, sp);
                mid_base = seq![(decode_utf8(b.subrange(pos as int, s as int)), base)];
            }
            let ghost o0 = out@;
            out.push(sp);
            assert(row_view(out@) =~= row_view(o0).push(span_view(sp)));
            assert(span_texts(out@) + r2@ =~= text@);
            rest = r2;
            pos = s;
        }
        assert(rest.spec_bytes()[(e - pos) as int] == b[e as int] || e == n || e == pos);
        let (a, r2) = split_piece(rest, e - pos);
        assert(b.subrange(pos as int, n as int).subrange(0, (e - pos) as int) =~= b.subrange(s as int, e as int));
        assert(b.subrange(pos as int, n as int).subrange((e - pos) as int, (n - pos) as int) =~= b.subrange(e as int, n as int));
        let role = match current {
            Some(c) => if c == k {
                Role::Current
            } else {
                Role::Matched
            },
            None => Role::Matched,
        };
        let sp = span(a, role);
        proof {
            lemma_span_texts_push(out@, sp);
        }
        let ghost o1 = out@;
        out.push(sp);
        assert(row_view(out@) =~= row_view(o1).push(span_view(sp)));
        assert(span_texts(out@) + r2@ =~= text@);
        rest = r2;
        pos = e;
        assert(row_view(out@) =~= before + mid_base + seq![(decode_utf8(b.subrange(s as int, e as int)), match_role(current, k as int))]);
        k = k + 1;
        proof {
            if k < ranges@.len() {
                assert(ranges@[k - 1].1 <= ranges@[k as int].0);
            }
        }
    }
    let ghost last = out@;
    if pos < n {
        proof {
            encode_utf8_decode_utf8(rest@);
        }
        let sp = span(rest.to_owned(), base);
        proof {
            lemma_span_texts_push(out@, sp);
        }
        out.push(sp);
        assert(row_view(out@) =~= row_view(last).push(span_view(sp)));
    } else {
        proof {
            encode_utf8_decode_utf8(rest@);
        }
        assert(rest.spec_bytes() =~= Seq::<u8>::empty());
        assert(span_texts(out@) + rest@ =~= span_texts(out@));
    }
    assert(row_view(out@) =~= spec_highlight(b, ranges@, current, base));
    out
}

/// Whether `ranges` fit the text `text` (see [`ranges_fit`]).
pub fn ranges_fit_text(text: &str, ranges: &[(usize, usize)]) -> (ok: bool)
    ensures
        ok == ranges_fit(text.spec_bytes(), ranges@),
{
    let b = text.as_bytes();
    let n = b.len();
    let mut k: usize = 0;
    while k < ranges.len()
        invariant
            b@ == text.spec_bytes(),
            n == b@.len(),
            k <= ranges@.len(),
            forall|i: int|
                0 <= i < k ==> (#[trigger] ranges@[i]).0 <= ranges@[i].1 <= n && cut_ok(b@, ranges@[i].0 as int)
                    && cut_ok(b@, ranges@[i].1 as int),
            forall|j: int, i: int| 0 <= j < i < k ==> (#[trigger] ranges@[j]).1 <= (#[trigger] ranges@[i]).0,
        decreases ranges.len() - k,
    {
        let (s, e) = ranges[k];
        if !(s <= e && e <= n) {
            return false;
        }
        let s_ok = s == n || b[s] < 0x80 || b[s] > 0xbf;
        let e_ok = e == n || b[e] < 0x80 || b[e] > 0xbf;
        if !(s_ok && e_ok) {
            return false;
        }
        if k > 0 && ranges[k - 1].1 > s {
            return false;
        }
        proof {
            assert forall|j: int, i: int| 0 <= j < i < k + 1 implies (#[trigger] ranges@[j]).1 <= (
            #[trigger] ranges@[i]).0 by {
                if i == k && j < k - 1 {
                    assert(ranges@[j].1 <= ranges@[k - 1].0);
                    assert(ranges@[k - 1].0 <= ranges@[k - 1].1);
                }
            }
        }
        k = k + 1;
    }
    true
}

// ---------------------------------------------------------------------
// The diff gutter and rows
// ---------------------------------------------------------------------

/// The role a diff line's text has by its kind.
pub open spec fn kind_role(k: DiffLineKind) -> Role {
    match k {
        DiffLineKind::Header => Role::DiffHeader,
        DiffLineKind::FileHeader => Role::DiffFileHeader,
        DiffLineKind::Hunk => Role::DiffHunk,
        DiffLineKind::Note => Role::DiffNote,
        DiffLineKind::Context => Role::Text,
        DiffLineKind::Added => Role::Added,
        DiffLineKind::Removed => Role::Removed,
    }
}

/// `n` spaces.
pub open spec fn spaces(n: nat) -> Seq<char> {
    Seq::new(n, |i: int| ' ')
}

/// A line number right-aligned to `w` columns; blank when there is none.
pub open spec fn number_text(n: Option<u64>, w: nat) -> Seq<char> {
    match n {
        Some(x) => {
            let d = decimal(x as nat);
            if d.len() < w {
                spaces((w - d.len()) as nat) + d
            } else {
                d
            }
        },
        None => spaces(w),
    }
}

/// The row of diff line `l` with the match ranges `rs` of its line: for a
/// numbered line the gutter (old and new numbers right-aligned to `w`,
/// then a rule), then the text split at the matches, in the role of the
/// line's kind. Ranges that do not fit the text mark nothing.
pub open spec fn spec_diff_row(l: SpecDiffLine, rs: Seq<(usize, usize)>, current: Option<usize>, w: nat) -> Seq<
    (Seq<char>, Role),
> {
    let b = encode_utf8(l.content);
    let fit = ranges_fit(b, rs);
    let text = spec_highlight(
        b,
        if fit { rs } else { Seq::empty() },
        if fit { current } else { None },
        kind_role(l.kind),
    );
    if numbered(l.kind) {
        seq![
            (number_text(l.old, w), Role::LineNumber),
            (" "@, Role::Plain),
            (number_text(l.new, w), Role::LineNumber),
            ("│ "@, Role::LineNumber),
        ] + text
    } else {
        text
    }
}

fn blanks(n: usize) -> (r: String)
    ensures
        r@ == spaces(n as nat),
{
    let mut t = String::new();
    let mut i: usize = 0;
    while i < n
        invariant
            i <= n,
            t@ == spaces(i as nat),
        decreases n - i,
    {
        push_char(&mut t, ' ');
        assert(t@ =~= spaces((i + 1) as nat));
        i = i + 1;
    }
    t
}

/// The text of a line number (see [`number_text`]).
pub fn number_cell(n: Option<u64>, w: usize) -> (r: String)
    ensures
        r@ == number_text(n, w as nat),
{
    match n {
        Some(x) => {
            let d = digit_count(x);
            let mut t = if d < w {
                blanks(w - d)
            } else {
                String::new()
            };
            let ghost t0 = t@;
            push_decimal(&mut t, x);
            proof {
                if d >= w {
                    assert(t@ =~= decimal(x as nat));
                }
            }
            t
        },
        None => blanks(w),
    }
}

/// The row of diff line `l` (see [`spec_diff_row`]).
pub fn diff_row(l: &DiffLine, ranges: &[(usize, usize)], current: Option<usize>, w: usize) -> (r: Vec<InfoSpan>)
    ensures
        row_view(r@) == spec_diff_row(l@, ranges@, current, w as nat),
{
    let role = match l.kind {
        DiffLineKind::Header => Role::DiffHeader,
        DiffLineKind::FileHeader => Role::DiffFileHeader,
        DiffLineKind::Hunk => Role::DiffHunk,
        DiffLineKind::Note => Role::DiffNote,
        DiffLineKind::Context => Role::Text,
        DiffLineKind::Added => Role::Added,
        DiffLineKind::Removed => Role::Removed,
    };
    let text = l.content.as_str();
    let fit = ranges_fit_text(text, ranges);
    let empty: Vec<(usize, usize)> = Vec::new();
    let content = if fit {
        highlight_spans(text, ranges, current, role)
    } else {
        highlight_spans(text, empty.as_slice(), None, role)
    };
    proof {
        if !fit {
            assert(empty@ =~= Seq::<(usize, usize)>::empty());
        }
    }
    let numbered = match l.kind {
        DiffLineKind::Context | DiffLineKind::Added | DiffLineKind::Removed => true,
        _ => false,
    };
    if !numbered {
        return content;
    }
    let mut r: Vec<InfoSpan> = vec![
        span(number_cell(l.old, w), Role::LineNumber),
        text_span(" ", Role::Plain),
        span(number_cell(l.new, w), Role::LineNumber),
        text_span("│ ", Role::LineNumber),
    ];
    let ghost head = row_view(r@);
    let mut k: usize = 0;
    while k < content.len()
        invariant
            k <= content@.len(),
            row_view(r@) == head + row_view(content@).take(k as int),
        decreases content.len() - k,
    {
        let sp = crate::spans::copy_span(&content[k]);
        let ghost r0 = r@;
        r.push(sp);
        assert(row_view(r@) =~= row_view(r0).push(span_view(sp)));
        assert(row_view(content@).take(k + 1) =~= row_view(content@).take(k as int).push(
            span_view(content@[k as int]),
        ));
        k = k + 1;
    }
    assert(row_view(content@).take(k as int) =~= row_view(content@));
    assert(row_view(r@) =~= spec_diff_row(l@, ranges@, current, w as nat));
    r
}

/// The rows of the diff block of `view` with `height` rows for its lines:
/// the empty-diff reason alone, or the loading note alone; else the fixed
/// header lines, then from the scroll offset one row per line that fits
/// (see [`spec_diff_row`]), numbered to the view's gutter width and split
/// at the search matches of its line.
pub open spec fn spec_diff_block_rows(view: DiffView, height: int) -> Seq<Seq<(Seq<char>, Role)>> {
    match view.empty_reason {
        Some(reason) => seq![seq![(reason@, Role::Dim)]],
        None => if view.pending {
            seq![seq![("Loading..."@, Role::Dim)]]
        } else {
            let hs = view.header@.map_values(|t: String| seq![(t@, Role::Dim)]);
            let ls = view.parsed.spec_lines();
            let s = view.tv.scroll as int;
            let end = if s + height < ls.len() { s + height } else { ls.len() as int };
            let n = if end > s { end - s } else { 0 };
            let sv = view.tv.search@;
            hs + Seq::new(
                n as nat,
                |k: int| spec_diff_row(ls[s + k], ranges_on_line(sv, s + k), current_on_line(sv, s + k), view.num_w as nat),
            )
        },
    }
}

/// The rows of the diff block of `view` (see [`spec_diff_block_rows`]).
pub fn diff_block_rows(view: &DiffView, height: usize) -> (r: Vec<Vec<InfoSpan>>)
    ensures
        lines_view(r@) == spec_diff_block_rows(*view, height as int),
{
    let mut out: Vec<Vec<InfoSpan>> = Vec::new();
    assert(lines_view(out@) =~= Seq::<Seq<(Seq<char>, Role)>>::empty());
    match &view.empty_reason {
        Some(reason) => {
            let row = vec![span(reason.clone(), Role::Dim)];
            assert(row@.map_values(|s: InfoSpan| span_view(s)) =~= seq![(reason@, Role::Dim)]);
            push_line(&mut out, row);
            assert(lines_view(out@) =~= spec_diff_block_rows(*view, height as int));
            return out;
        },
        None => {},
    }
    if view.pending {
        let row = vec![text_span("Loading...", Role::Dim)];
        assert(row@.map_values(|s: InfoSpan| span_view(s)) =~= seq![("Loading..."@, Role::Dim)]);
        push_line(&mut out, row);
        assert(lines_view(out@) =~= spec_diff_block_rows(*view, height as int));
        return out;
    }
    let ghost hs = view.header@.map_values(|t: String| seq![(t@, Role::Dim)]);
    let mut i: usize = 0;
    while i < view.header.len()
        invariant
            i <= view.header@.len(),
            hs == view.header@.map_values(|t: String| seq![(t@, Role::Dim)]),
            lines_view(out@) == hs.take(i as int),
        decreases view.header.len() - i,
    {
        let row = vec![span(view.header[i].clone(), Role::Dim)];
        assert(row@.map_values(|s: InfoSpan| span_view(s)) =~= seq![(view.header@[i as int]@, Role::Dim)]);
        push_line(&mut out, row);
        assert(hs.take(i + 1) =~= hs.take(i as int).push(hs[i as int]));
        i = i + 1;
    }
    assert(hs.take(i as int) =~= hs);
    let total = view.parsed.lines.len();
    let s = view.tv.scroll;
    let ghost ls = view.parsed.spec_lines();
    let ghost sv = view.tv.search@;
    let ghost w = view.num_w as nat;
    if s < total {
        let end = if height < total - s {
            s + height
        } else {
            total
        };
        let ghost want = Seq::new(
            (end - s) as nat,
            |k: int| spec_diff_row(ls[s + k], ranges_on_line(sv, s + k), current_on_line(sv, s + k), w),
        );
        let mut j: usize = s;
        while j < end
            invariant
                s <= j <= end <= total,
                total == view.parsed.lines@.len(),
                ls == view.parsed.spec_lines(),
                sv == view.tv.search@,
                w == view.num_w as nat,
                want == Seq::new(
                    (end - s) as nat,
                    |k: int| spec_diff_row(ls[s + k], ranges_on_line(sv, s + k), current_on_line(sv, s + k), w),
                ),
                lines_view(out@) == hs + want.take(j - s),
            decreases end - j,
        {
            let (ranges, current) = view.tv.search.line_ranges(j);
            let row = diff_row(&view.parsed.lines[j], ranges.as_slice(), current, view.num_w);
            assert(ls[j as int] == view.parsed.lines@[j as int]@);
            let ghost k = j - s;
            assert(want[k] == row_view(row@));
            push_line(&mut out, row);
            assert(want.take(k + 1) =~= want.take(k).push(want[k]));
            assert(lines_view(out@) =~= hs + want.take(k + 1));
            j = j + 1;
        }
        assert(want.take(j - s) =~= want);
        assert(lines_view(out@) =~= spec_diff_block_rows(*view, height as int));
    } else {
        assert(lines_view(out@) =~= spec_diff_block_rows(*view, height as int));
    }
    out
}

// ---------------------------------------------------------------------
// Blame rows
// ---------------------------------------------------------------------

/// The revision cell of a blame line: the number right-aligned to seven
/// columns, coloured by the revision (one of twelve colours, by the
/// revision modulo twelve); a dim `-` for an uncommitted line.
pub open spec fn rev_cell(rev: Option<u64>) -> (Seq<char>, Role) {
    match rev {
        Some(r) => (number_text(Some(r), 7), Role::BlameRev((r % 12) as u8)),
        None => (spaces(6).push('-'), Role::Dim),
    }
}

/// `a` padded with spaces to `w` display columns.
pub open spec fn padded_author(a: Seq<char>, w: nat) -> Seq<char> {
    let aw = display_width(a) as nat;
    if aw >= w {
        a
    } else {
        a + spaces((w - aw) as nat)
    }
}

/// The row of blame line `l` with the match ranges `rs` of its line: the
/// revision cell, the author padded to `author_w` columns, then the text
/// split at the matches. Ranges that do not fit the text mark nothing.
pub open spec fn spec_blame_row(l: SpecBlameLine, rs: Seq<(usize, usize)>, current: Option<usize>, author_w: nat) -> Seq<
    (Seq<char>, Role),
> {
    let b = encode_utf8(l.content);
    let fit = ranges_fit(b, rs);
    seq![
        rev_cell(l.revision),
        (" "@, Role::Plain),
        (padded_author(l.author, author_w), Role::Author),
        ("  "@, Role::Plain),
    ] + spec_highlight(b, if fit { rs } else { Seq::empty() }, if fit { current } else { None }, Role::Plain)
}

/// The row of blame line `l` (see [`spec_blame_row`]).
pub fn blame_row(l: &BlameLine, ranges: &[(usize, usize)], current: Option<usize>, author_w: usize) -> (r: Vec<
    InfoSpan,
>)
    ensures
        row_view(r@) == spec_blame_row(l@, ranges@, current, author_w as nat),
{
    let rev = match l.revision {
        Some(x) => span(number_cell(Some(x), 7), Role::BlameRev((x % 12) as u8)),
        None => {
            let mut t = blanks(6);
            push_char(&mut t, '-');
            span(t, Role::Dim)
        },
    };
    let aw = str_display_width(l.author.as_str());
    let mut author = l.author.clone();
    if aw < author_w {
        let pad = blanks(author_w - aw);
        crate::text::push_str(&mut author, pad.as_str());
    }
    let text = l.content.as_str();
    let fit = ranges_fit_text(text, ranges);
    let empty: Vec<(usize, usize)> = Vec::new();
    let content = if fit {
        highlight_spans(text, ranges, current, Role::Plain)
    } else {
        highlight_spans(text, empty.as_slice(), None, Role::Plain)
    };
    proof {
        if !fit {
            assert(empty@ =~= Seq::<(usize, usize)>::empty());
        }
    }
    let mut r: Vec<InfoSpan> = vec![rev, text_span(" ", Role::Plain), span(author, Role::Author), text_span("  ", Role::Plain)];
    let ghost head = row_view(r@);
    let mut k: usize = 0;
    while k < content.len()
        invariant
            k <= content@.len(),
            row_view(r@) == head + row_view(content@).take(k as int),
        decreases content.len() - k,
    {
        let sp = crate::spans::copy_span(&content[k]);
        let ghost r0 = r@;
        r.push(sp);
        assert(row_view(r@) =~= row_view(r0).push(span_view(sp)));
        assert(row_view(content@).take(k + 1) =~= row_view(content@).take(k as int).push(
            span_view(content@[k as int]),
        ));
        k = k + 1;
    }
    assert(row_view(content@).take(k as int) =~= row_view(content@));
    assert(row_view(r@) =~= spec_blame_row(l@, ranges@, current, author_w as nat));
    r
}

} // verus!
