//! Character-level text utilities shared by the parsers: line splitting,
//! whitespace trimming, prefix tests and number parsing, each with the
//! mathematical definition it implements.

use vstd::prelude::*;
use vstd::utf8::{decode_utf8, valid_utf8};

verus! {

// ---------------------------------------------------------------------
// Definitions
// ---------------------------------------------------------------------

/// Unicode `White_Space`, the set that `char::is_whitespace` tests.
pub open spec fn is_ws(c: char) -> bool {
    ||| c == ' '
    ||| ('\t' <= c && c <= '\r')
    ||| c == '\u{85}'
    ||| c == '\u{a0}'
    ||| c == '\u{1680}'
    ||| ('\u{2000}' <= c && c <= '\u{200a}')
    ||| c == '\u{2028}'
    ||| c == '\u{2029}'
    ||| c == '\u{202f}'
    ||| c == '\u{205f}'
    ||| c == '\u{3000}'
}

/// `s` without its leading whitespace (`str::trim_start`).
pub open spec fn trim_start(s: Seq<char>) -> Seq<char>
    decreases s.len(),
{
    if s.len() > 0 && is_ws(s[0]) {
        trim_start(s.drop_first())
    } else {
        s
    }
}

/// `s` without its trailing whitespace (`str::trim_end`).
pub open spec fn trim_end(s: Seq<char>) -> Seq<char>
    decreases s.len(),
{
    if s.len() > 0 && is_ws(s.last()) {
        trim_end(s.drop_last())
    } else {
        s
    }
}

/// `s` without leading and trailing whitespace (`str::trim`).
pub open spec fn trim(s: Seq<char>) -> Seq<char> {
    trim_end(trim_start(s))
}

/// `s` without its leading copies of `c` (`str::trim_start_matches(c)`).
pub open spec fn trim_start_char(s: Seq<char>, c: char) -> Seq<char>
    decreases s.len(),
{
    if s.len() > 0 && s[0] == c {
        trim_start_char(s.drop_first(), c)
    } else {
        s
    }
}

/// `s` without its trailing copies of `c` (`str::trim_end_matches(c)`).
pub open spec fn trim_end_char<T>(s: Seq<T>, c: T) -> Seq<T>
    decreases s.len(),
{
    if s.len() > 0 && s.last() == c {
        trim_end_char(s.drop_last(), c)
    } else {
        s
    }
}

/// `s` starts with `p`.
pub open spec fn starts_with<T>(s: Seq<T>, p: Seq<T>) -> bool {
    p.len() <= s.len() && s.take(p.len() as int) == p
}

/// The pieces of `s` between `sep` chars (`str::split(sep)`): always at
/// least one piece, one more than the number of separators.
pub open spec fn split_char<T>(s: Seq<T>, sep: T) -> Seq<Seq<T>>
    decreases s.len(),
{
    if s.len() == 0 {
        seq![Seq::<T>::empty()]
    } else {
        let p = split_char(s.drop_last(), sep);
        if s.last() == sep {
            p.push(Seq::<T>::empty())
        } else {
            p.update(p.len() - 1, p.last().push(s.last()))
        }
    }
}

/// `l` without one trailing `c`, if it ends with one.
pub open spec fn strip_last<T>(l: Seq<T>, c: T) -> Seq<T> {
    if l.len() > 0 && l.last() == c {
        l.drop_last()
    } else {
        l
    }
}

/// The lines of `s` split at `nl` as `str::lines` splits at `'\n'`: the
/// pieces between separators, where a final empty piece (text ending in a
/// separator, or empty text) is no line; a piece that a separator ends
/// loses one trailing `cr`, the unterminated last piece keeps it.
pub open spec fn split_lines<T>(s: Seq<T>, nl: T, cr: T) -> Seq<Seq<T>> {
    let p = split_char(s, nl);
    let body = p.drop_last().map_values(|l: Seq<T>| strip_last(l, cr));
    if p.last().len() == 0 {
        body
    } else {
        body.push(p.last())
    }
}

/// The lines of `s` as `str::lines` yields them.
pub open spec fn lines_of(s: Seq<char>) -> Seq<Seq<char>> {
    split_lines(s, '\n', '\r')
}

/// `p` occurs in `s` at index `i`.
pub open spec fn occurs_at(s: Seq<char>, p: Seq<char>, i: int) -> bool {
    0 <= i && i + p.len() <= s.len() && s.subrange(i, i + p.len()) == p
}

/// The first index at or after `i` where `p` occurs in `s`.
pub open spec fn find_from(s: Seq<char>, p: Seq<char>, i: int) -> Option<int>
    decreases s.len() + 1 - i,
{
    if i < 0 || i > s.len() {
        None
    } else if occurs_at(s, p, i) {
        Some(i)
    } else {
        find_from(s, p, i + 1)
    }
}

/// The pieces of `s` between the occurrences of the non-empty `p`
/// (`str::split(p)`), found left to right.
pub open spec fn split_str(s: Seq<char>, p: Seq<char>) -> Seq<Seq<char>>
    decreases s.len(),
{
    if p.len() == 0 {
        seq![s]
    } else {
        match find(s, p) {
            Some(i) => {
                proof {
                    lemma_find_from_occurs(s, p, 0);
                }
                seq![s.take(i)] + split_str(s.skip(i + p.len()), p)
            },
            None => seq![s],
        }
    }
}

/// `s` with every occurrence of the non-empty `p` replaced by `r`, left to
/// right (`str::replace`).
pub open spec fn replace_all(s: Seq<char>, p: Seq<char>, r: Seq<char>) -> Seq<char>
    decreases s.len(),
{
    if p.len() == 0 {
        s
    } else {
        match find(s, p) {
            Some(i) => {
                proof {
                    lemma_find_from_occurs(s, p, 0);
                }
                s.take(i) + r + replace_all(s.skip(i + p.len()), p, r)
            },
            None => s,
        }
    }
}

/// The first index where `p` occurs in `s` (`str::find`).
pub open spec fn find(s: Seq<char>, p: Seq<char>) -> Option<int> {
    find_from(s, p, 0)
}

/// The last index below `j` where `p` occurs in `s`.
pub open spec fn rfind_below(s: Seq<char>, p: Seq<char>, j: int) -> Option<int>
    decreases j,
{
    if j <= 0 {
        None
    } else if occurs_at(s, p, j - 1) {
        Some(j - 1)
    } else {
        rfind_below(s, p, j - 1)
    }
}

/// The last index where `p` occurs in `s` (`str::rfind`).
pub open spec fn rfind(s: Seq<char>, p: Seq<char>) -> Option<int> {
    rfind_below(s, p, s.len() + 1int)
}

/// The lines of a byte string, split and stripped as `lines_of` does
/// for chars (`\n` is byte 10, `\r` byte 13).
pub open spec fn byte_lines_of(s: Seq<u8>) -> Seq<Seq<u8>> {
    split_lines(s, 10u8, 13u8)
}

/// `r` are the line spans of the byte string `v`.
pub open spec fn byte_line_spans_of(v: Seq<u8>, r: Seq<(usize, usize)>) -> bool {
    &&& r.len() == byte_lines_of(v).len()
    &&& forall|k: int|
        0 <= k < r.len() ==> r[k].0 <= r[k].1 <= v.len() && v.subrange(r[k].0 as int, r[k].1 as int)
            == #[trigger] byte_lines_of(v)[k]
}

/// Every char of `s` is an ASCII digit.
pub open spec fn all_digits(s: Seq<char>) -> bool {
    forall|i: int| 0 <= i < s.len() ==> '0' <= #[trigger] s[i] && s[i] <= '9'
}

/// The decimal value of a digit string.
pub open spec fn digits_value(s: Seq<char>) -> nat
    decreases s.len(),
{
    if s.len() == 0 {
        0
    } else {
        digits_value(s.drop_last()) * 10 + ((s.last() as int - '0' as int) as nat)
    }
}

/// What `str::parse` gives for an unsigned integer type whose largest
/// value is `max`: an optional `+`, then one or more ASCII digits whose
/// value does not exceed `max`.
pub open spec fn parse_unsigned(s: Seq<char>, max: nat) -> Option<nat> {
    let d = if s.len() > 0 && s[0] == '+' { s.drop_first() } else { s };
    if d.len() > 0 && all_digits(d) && digits_value(d) <= max {
        Some(digits_value(d))
    } else {
        None
    }
}

// ---------------------------------------------------------------------
// Lemmas
// ---------------------------------------------------------------------

pub proof fn lemma_split_char_nonempty<T>(s: Seq<T>, sep: T)
    ensures
        split_char(s, sep).len() >= 1,
    decreases s.len(),
{
    if s.len() > 0 {
        lemma_split_char_nonempty(s.drop_last(), sep);
    }
}

pub proof fn lemma_find_from_occurs(s: Seq<char>, p: Seq<char>, i: int)
    ensures
        find_from(s, p, i) matches Some(j) ==> occurs_at(s, p, j) && i <= j,
    decreases s.len() + 1 - i,
{
    if !(i < 0 || i > s.len()) && !occurs_at(s, p, i) {
        lemma_find_from_occurs(s, p, i + 1);
    }
}

pub proof fn lemma_rfind_below_occurs(s: Seq<char>, p: Seq<char>, j: int)
    ensures
        rfind_below(s, p, j) matches Some(k) ==> occurs_at(s, p, k) && k < j,
    decreases j,
{
    if j > 0 && !occurs_at(s, p, j - 1) {
        lemma_rfind_below_occurs(s, p, j - 1);
    }
}

proof fn lemma_rfind_skip(s: Seq<char>, p: Seq<char>, j: int)
    requires
        p.len() >= 1,
        s.len() - p.len() + 1 <= j <= s.len() + 1,
    ensures
        rfind_below(s, p, j) == rfind_below(s, p, s.len() - p.len() + 1),
    decreases j,
{
    if j > s.len() - p.len() + 1 && j > 0 {
        assert(!occurs_at(s, p, j - 1));
        lemma_rfind_skip(s, p, j - 1);
    }
}

/// Digit strings only grow in value when extended.
pub proof fn lemma_digits_value_monotone(s: Seq<char>, t: Seq<char>)
    requires
        all_digits(s + t),
    ensures
        digits_value(s + t) >= digits_value(s),
    decreases t.len(),
{
    if t.len() > 0 {
        let u = s + t.drop_last();
        assert((s + t).drop_last() =~= u);
        assert(all_digits(u)) by {
            assert forall|i: int| 0 <= i < u.len() implies '0' <= #[trigger] u[i] && u[i] <= '9' by {
                assert(u[i] == (s + t)[i]);
            }
        }
        lemma_digits_value_monotone(s, t.drop_last());
    } else {
        assert(s + t =~= s);
    }
}

// ---------------------------------------------------------------------
// Executable helpers
// ---------------------------------------------------------------------

/// `std::str::from_utf8`, taken to an owned `String`: `Some` exactly when
/// `b` is valid UTF-8, holding the chars that `b` encodes.
#[verifier::external_body]
pub fn utf8_to_string(b: &[u8]) -> (r: Option<String>)
    ensures
        r is Some <==> valid_utf8(b@),
        r matches Some(s) ==> s@ == decode_utf8(b@),
{
    std::str::from_utf8(b).ok().map(|s| s.to_string())
}

/// What `String::from_utf8_lossy` makes of `b`.
pub uninterp spec fn utf8_lossy(b: Seq<u8>) -> Seq<char>;

/// `String::from_utf8_lossy`: the chars `b` encodes, with each invalid
/// sequence replaced by U+FFFD. The result is named `utf8_lossy(b)`; for
/// valid UTF-8 it is exactly the decoded text, which is all this contract
/// states of it (the replacement rule for invalid input is left unsaid).
#[verifier::external_body]
pub fn utf8_lossy_string(b: &[u8]) -> (r: String)
    ensures
        r@ == utf8_lossy(b@),
        valid_utf8(b@) ==> r@ == decode_utf8(b@),
{
    String::from_utf8_lossy(b).into_owned()
}

/// Append one char to a `String` (std `String::push`).
#[verifier::external_body]
pub fn push_char(s: &mut String, c: char)
    ensures
        final(s)@ == old(s)@.push(c),
{
    s.push(c);
}

/// Remove the last char of a `String` and return it (std `String::pop`);
/// `None`, leaving the string as it is, when it is empty.
#[verifier::external_body]
pub fn pop_char(s: &mut String) -> (r: Option<char>)
    ensures
        old(s)@.len() == 0 ==> r is None && final(s)@ == old(s)@,
        old(s)@.len() > 0 ==> r == Some(old(s)@.last()) && final(s)@ == old(s)@.drop_last(),
{
    s.pop()
}

/// The chars of `s`, in order.
pub fn chars_of(s: &str) -> (v: Vec<char>)
    ensures
        v@ == s@,
{
    let mut v: Vec<char> = Vec::new();
    for c in it: s.chars()
        invariant
            v@ == it.seq().take(it.index() as int),
            it.seq() == s@,
    {
        v.push(c);
    }
    v
}

/// The `String` made of `v[start..end]`.
pub fn string_of(v: &Vec<char>, start: usize, end: usize) -> (r: String)
    requires
        start <= end <= v@.len(),
    ensures
        r@ == v@.subrange(start as int, end as int),
{
    let mut r = String::new();
    let mut i = start;
    while i < end
        invariant
            start <= i <= end <= v@.len(),
            r@ == v@.subrange(start as int, i as int),
        decreases end - i,
    {
        push_char(&mut r, v[i]);
        i = i + 1;
    }
    r
}

/// `char::is_whitespace`.
pub fn is_ws_char(c: char) -> (b: bool)
    ensures
        b == is_ws(c),
{
    c == ' ' || ('\t' <= c && c <= '\r') || c == '\u{85}' || c == '\u{a0}' || c == '\u{1680}'
        || ('\u{2000}' <= c && c <= '\u{200a}') || c == '\u{2028}' || c == '\u{2029}'
        || c == '\u{202f}' || c == '\u{205f}' || c == '\u{3000}'
}

/// Start of `trim_start(v[s..e])`.
pub fn skip_ws(v: &Vec<char>, s: usize, e: usize) -> (r: usize)
    requires
        s <= e <= v@.len(),
    ensures
        s <= r <= e,
        v@.subrange(r as int, e as int) == trim_start(v@.subrange(s as int, e as int)),
{
    let mut i = s;
    while i < e && is_ws_char(v[i])
        invariant
            s <= i <= e <= v@.len(),
            trim_start(v@.subrange(i as int, e as int)) == trim_start(v@.subrange(s as int, e as int)),
        decreases e - i,
    {
        assert(v@.subrange(i as int, e as int).drop_first() =~= v@.subrange(i + 1, e as int));
        i = i + 1;
    }
    i
}

/// End of `trim_end(v[s..e])`.
pub fn rskip_ws(v: &Vec<char>, s: usize, e: usize) -> (r: usize)
    requires
        s <= e <= v@.len(),
    ensures
        s <= r <= e,
        v@.subrange(s as int, r as int) == trim_end(v@.subrange(s as int, e as int)),
{
    let mut j = e;
    while j > s && is_ws_char(v[j - 1])
        invariant
            s <= j <= e <= v@.len(),
            trim_end(v@.subrange(s as int, j as int)) == trim_end(v@.subrange(s as int, e as int)),
        decreases j - s,
    {
        assert(v@.subrange(s as int, j as int).drop_last() =~= v@.subrange(s as int, j - 1));
        j = j - 1;
    }
    j
}

/// The bounds of `trim(v[s..e])`.
pub fn trim_range(v: &Vec<char>, s: usize, e: usize) -> (r: (usize, usize))
    requires
        s <= e <= v@.len(),
    ensures
        s <= r.0 <= r.1 <= e,
        v@.subrange(r.0 as int, r.1 as int) == trim(v@.subrange(s as int, e as int)),
{
    let a = skip_ws(v, s, e);
    let b = rskip_ws(v, a, e);
    (a, b)
}

/// Start of `trim_start_char(v[s..e], c)`.
pub fn skip_char(v: &Vec<char>, s: usize, e: usize, c: char) -> (r: usize)
    requires
        s <= e <= v@.len(),
    ensures
        s <= r <= e,
        v@.subrange(r as int, e as int) == trim_start_char(v@.subrange(s as int, e as int), c),
{
    let mut i = s;
    while i < e && v[i] == c
        invariant
            s <= i <= e <= v@.len(),
            trim_start_char(v@.subrange(i as int, e as int), c) == trim_start_char(
                v@.subrange(s as int, e as int),
                c,
            ),
        decreases e - i,
    {
        assert(v@.subrange(i as int, e as int).drop_first() =~= v@.subrange(i + 1, e as int));
        i = i + 1;
    }
    i
}

/// End of `trim_end_char(v[s..e], c)`.
pub fn rskip_char(v: &Vec<char>, s: usize, e: usize, c: char) -> (r: usize)
    requires
        s <= e <= v@.len(),
    ensures
        s <= r <= e,
        v@.subrange(s as int, r as int) == trim_end_char(v@.subrange(s as int, e as int), c),
{
    let mut j = e;
    while j > s && v[j - 1] == c
        invariant
            s <= j <= e <= v@.len(),
            trim_end_char(v@.subrange(s as int, j as int), c) == trim_end_char(
                v@.subrange(s as int, e as int),
                c,
            ),
        decreases j - s,
    {
        assert(v@.subrange(s as int, j as int).drop_last() =~= v@.subrange(s as int, j - 1));
        j = j - 1;
    }
    j
}

/// Whether `v[s..e]` starts with `p`.
pub fn starts_with_at(v: &Vec<char>, s: usize, e: usize, p: &Vec<char>) -> (b: bool)
    requires
        s <= e <= v@.len(),
    ensures
        b == starts_with(v@.subrange(s as int, e as int), p@),
{
    if p.len() > e - s {
        return false;
    }
    let mut j: usize = 0;
    while j < p.len()
        invariant
            s <= e <= v@.len(),
            p@.len() <= e - s,
            j <= p@.len(),
            forall|k: int| 0 <= k < j ==> v@[s + k] == p@[k],
        decreases p.len() - j,
    {
        if v[s + j] != p[j] {
            assert(v@.subrange(s as int, e as int).take(p@.len() as int)[j as int] != p@[j as int]);
            return false;
        }
        j = j + 1;
    }
    assert(v@.subrange(s as int, e as int).take(p@.len() as int) =~= p@);
    true
}

/// Whether `v[s..e]` equals `p`.
pub fn equals_at(v: &Vec<char>, s: usize, e: usize, p: &Vec<char>) -> (b: bool)
    requires
        s <= e <= v@.len(),
    ensures
        b == (v@.subrange(s as int, e as int) == p@),
{
    if p.len() != e - s {
        return false;
    }
    let b = starts_with_at(v, s, e, p);
    proof {
        if v@.subrange(s as int, e as int) == p@ {
            assert(v@.subrange(s as int, e as int).take(p@.len() as int) =~= p@);
        }
    }
    if b {
        assert(v@.subrange(s as int, e as int) =~= v@.subrange(s as int, e as int).take(p@.len() as int));
    }
    b
}

/// `r` are the line spans of `v`: `v[r[k].0 .. r[k].1]` is line `k` of
/// `lines_of(v)`.
pub open spec fn line_spans_of(v: Seq<char>, r: Seq<(usize, usize)>) -> bool {
    &&& r.len() == lines_of(v).len()
    &&& forall|k: int|
        0 <= k < r.len() ==> r[k].0 <= r[k].1 <= v.len() && v.subrange(r[k].0 as int, r[k].1 as int)
            == #[trigger] lines_of(v)[k]
}

/// The line spans of `v`.
#[verifier::spinoff_prover]
pub fn line_spans(v: &Vec<char>) -> (r: Vec<(usize, usize)>)
    ensures
        line_spans_of(v@, r@),
{
    let mut r: Vec<(usize, usize)> = Vec::new();
    let ghost mut done: Seq<Seq<char>> = Seq::empty();
    let mut st: usize = 0;
    let mut i: usize = 0;
    let n = v.len();
    assert(v@.take(0) =~= Seq::<char>::empty());
    while i < n
        invariant
            n == v@.len(),
            st <= i <= n,
            split_char(v@.take(i as int), '\n') == done.push(v@.subrange(st as int, i as int)),
            r@.len() == done.len(),
            forall|k: int| 0 <= k < r@.len() ==> #[trigger] r@[k].0 <= r@[k].1 <= v@.len(),
            forall|k: int|
                0 <= k < r@.len() ==> v@.subrange(r@[k].0 as int, r@[k].1 as int) == strip_last(
                    #[trigger] done[k],
                    '\r',
                ),
        decreases n - i,
    {
        let ghost prev = v@.take(i as int);
        assert(v@.take(i + 1).drop_last() =~= prev);
        assert(v@.take(i + 1).last() == v@[i as int]);
        if v[i] == '\n' {
            let e = if i > st && v[i - 1] == '\r' {
                i - 1
            } else {
                i
            };
            proof {
                let piece = v@.subrange(st as int, i as int);
                if i > st && v@[i - 1] == '\r' {
                    assert(piece.drop_last() =~= v@.subrange(st as int, e as int));
                }
            }
            let ghost old_r = r@;
            let ghost old_done = done;
            r.push((st, e));
            proof {
                done = done.push(v@.subrange(st as int, i as int));
                assert(v@.subrange((i + 1) as int, (i + 1) as int) =~= Seq::<char>::empty());
                assert forall|k: int| 0 <= k < r@.len() implies #[trigger] r@[k].0 <= r@[k].1
                    <= v@.len() by {
                    if k < old_r.len() {
                        assert(r@[k] == old_r[k]);
                    }
                }
                assert forall|k: int|
                    0 <= k < r@.len() implies v@.subrange(r@[k].0 as int, r@[k].1 as int)
                    == strip_last(#[trigger] done[k], '\r') by {
                    if k < old_r.len() {
                        assert(r@[k] == old_r[k]);
                        assert(done[k] == old_done[k]);
                    }
                }
            }
            st = i + 1;
        } else {
            proof {
                assert(v@.subrange(st as int, i as int).push(v@[i as int]) =~= v@.subrange(
                    st as int,
                    i + 1,
                ));
            }
        }
        i = i + 1;
    }
    assert(v@.take(n as int) =~= v@);
    let ghost p = split_char(v@, '\n');
    let ghost body = p.drop_last().map_values(|l: Seq<char>| strip_last(l, '\r'));
    assert(p.drop_last() =~= done);
    assert(p.last() == v@.subrange(st as int, n as int));
    if st < n {
        let ghost old_r = r@;
        r.push((st, n));
        proof {
            assert(lines_of(v@) == body.push(p.last()));
            assert forall|k: int| 0 <= k < r@.len() implies r@[k].0 <= r@[k].1 <= v@.len()
                && v@.subrange(r@[k].0 as int, r@[k].1 as int) == #[trigger] lines_of(v@)[k] by {
                if k < old_r.len() {
                    assert(r@[k] == old_r[k]);
                    assert(lines_of(v@)[k] == body[k]);
                    assert(body[k] == strip_last(done[k], '\r'));
                }
            }
        }
    } else {
        proof {
            assert(lines_of(v@) == body);
            assert forall|k: int| 0 <= k < r@.len() implies r@[k].0 <= r@[k].1 <= v@.len()
                && v@.subrange(r@[k].0 as int, r@[k].1 as int) == #[trigger] lines_of(v@)[k] by {
                assert(lines_of(v@)[k] == body[k]);
                assert(body[k] == strip_last(done[k], '\r'));
            }
        }
    }
    r
}

/// `find(v[s..e], p)`, as an index into `v`.
pub fn find_at(v: &Vec<char>, s: usize, e: usize, p: &Vec<char>) -> (r: Option<usize>)
    requires
        s <= e <= v@.len(),
    ensures
        match find(v@.subrange(s as int, e as int), p@) {
            Some(i) => 0 <= i && s + i + p@.len() <= e && r == Some((s + i) as usize),
            None => r is None,
        },
        r matches Some(x) ==> s <= x && x + p@.len() <= e,
{
    proof {
        lemma_find_from_occurs(v@.subrange(s as int, e as int), p@, 0);
    }
    let ghost t = v@.subrange(s as int, e as int);
    let mut j = s;
    while j <= e
        invariant
            s <= j <= e + 1,
            e <= v@.len(),
            t == v@.subrange(s as int, e as int),
            find(t, p@) == find_from(t, p@, j - s),
        decreases e + 1 - j,
    {
        let b = starts_with_at(v, j, e, p);
        proof {
            if j - s + p@.len() <= t.len() {
                assert(t.subrange(j - s, j - s + p@.len()) =~= v@.subrange(j as int, e as int).take(
                    p@.len() as int,
                ));
            }
        }
        if b {
            return Some(j);
        }
        if j == e {
            assert(find_from(t, p@, j - s + 1) == None::<int>);
            return None;
        }
        j = j + 1;
    }
    None
}

/// `rfind(v[s..e], p)`, as an index into `v`.
pub fn rfind_at(v: &Vec<char>, s: usize, e: usize, p: &Vec<char>) -> (r: Option<usize>)
    requires
        s <= e <= v@.len(),
        p@.len() >= 1,
    ensures
        match rfind(v@.subrange(s as int, e as int), p@) {
            Some(i) => 0 <= i && s + i + p@.len() <= e && r == Some((s + i) as usize),
            None => r is None,
        },
        r matches Some(x) ==> s <= x && x + p@.len() <= e,
{
    proof {
        lemma_rfind_below_occurs(v@.subrange(s as int, e as int), p@, v@.subrange(s as int, e as int).len() + 1int);
    }
    let ghost t = v@.subrange(s as int, e as int);
    proof {
        lemma_rfind_skip(t, p@, t.len() + 1int);
    }
    if p.len() > e - s {
        return None;
    }
    let mut j = e - s - p.len() + 1;
    while j > 0
        invariant
            s <= e <= v@.len(),
            t == v@.subrange(s as int, e as int),
            1 <= p@.len() <= e - s,
            j <= e - s - p@.len() + 1,
            rfind(t, p@) == rfind_below(t, p@, j as int),
        decreases j,
    {
        let b = starts_with_at(v, s + j - 1, e, p);
        proof {
            assert(t.subrange(j - 1, j - 1 + p@.len()) =~= v@.subrange(s + j - 1, e as int).take(
                p@.len() as int,
            ));
        }
        if b {
            return Some(s + j - 1);
        }
        j = j - 1;
    }
    None
}

/// Whether `v[s..e]` starts with `p` (bytes).
pub fn bytes_start_with_at(v: &[u8], s: usize, e: usize, p: &[u8]) -> (b: bool)
    requires
        s <= e <= v@.len(),
    ensures
        b == starts_with(v@.subrange(s as int, e as int), p@),
{
    if p.len() > e - s {
        return false;
    }
    let mut j: usize = 0;
    while j < p.len()
        invariant
            s <= e <= v@.len(),
            p@.len() <= e - s,
            j <= p@.len(),
            forall|k: int| 0 <= k < j ==> v@[s + k] == p@[k],
        decreases p.len() - j,
    {
        if v[s + j] != p[j] {
            assert(v@.subrange(s as int, e as int).take(p@.len() as int)[j as int] != p@[j as int]);
            return false;
        }
        j = j + 1;
    }
    assert(v@.subrange(s as int, e as int).take(p@.len() as int) =~= p@);
    true
}

/// Whether `v[s..e]` equals `p` (bytes).
pub fn bytes_equal_at(v: &[u8], s: usize, e: usize, p: &[u8]) -> (b: bool)
    requires
        s <= e <= v@.len(),
    ensures
        b == (v@.subrange(s as int, e as int) == p@),
{
    if p.len() != e - s {
        return false;
    }
    let b = bytes_start_with_at(v, s, e, p);
    proof {
        if v@.subrange(s as int, e as int) == p@ {
            assert(v@.subrange(s as int, e as int).take(p@.len() as int) =~= p@);
        }
    }
    if b {
        assert(v@.subrange(s as int, e as int) =~= v@.subrange(s as int, e as int).take(p@.len() as int));
    }
    b
}

/// The line spans of the byte string `v`.
#[verifier::spinoff_prover]
pub fn byte_line_spans(v: &[u8]) -> (r: Vec<(usize, usize)>)
    ensures
        byte_line_spans_of(v@, r@),
{
    let mut r: Vec<(usize, usize)> = Vec::new();
    let ghost mut done: Seq<Seq<u8>> = Seq::empty();
    let mut st: usize = 0;
    let mut i: usize = 0;
    let n = v.len();
    assert(v@.take(0) =~= Seq::<u8>::empty());
    while i < n
        invariant
            n == v@.len(),
            st <= i <= n,
            split_char(v@.take(i as int), 10u8) == done.push(v@.subrange(st as int, i as int)),
            r@.len() == done.len(),
            forall|k: int| 0 <= k < r@.len() ==> #[trigger] r@[k].0 <= r@[k].1 <= v@.len(),
            forall|k: int|
                0 <= k < r@.len() ==> v@.subrange(r@[k].0 as int, r@[k].1 as int) == strip_last(
                    #[trigger] done[k],
                    13u8,
                ),
        decreases n - i,
    {
        let ghost prev = v@.take(i as int);
        assert(v@.take(i + 1).drop_last() =~= prev);
        assert(v@.take(i + 1).last() == v@[i as int]);
        if v[i] == 10u8 {
            let e = if i > st && v[i - 1] == 13u8 {
                i - 1
            } else {
                i
            };
            proof {
                let piece = v@.subrange(st as int, i as int);
                if i > st && v@[i - 1] == 13u8 {
                    assert(piece.drop_last() =~= v@.subrange(st as int, e as int));
                }
            }
            let ghost old_r = r@;
            let ghost old_done = done;
            r.push((st, e));
            proof {
                done = done.push(v@.subrange(st as int, i as int));
                assert(v@.subrange((i + 1) as int, (i + 1) as int) =~= Seq::<u8>::empty());
                assert forall|k: int| 0 <= k < r@.len() implies #[trigger] r@[k].0 <= r@[k].1
                    <= v@.len() by {
                    if k < old_r.len() {
                        assert(r@[k] == old_r[k]);
                    }
                }
                assert forall|k: int|
                    0 <= k < r@.len() implies v@.subrange(r@[k].0 as int, r@[k].1 as int)
                    == strip_last(#[trigger] done[k], 13u8) by {
                    if k < old_r.len() {
                        assert(r@[k] == old_r[k]);
                        assert(done[k] == old_done[k]);
                    }
                }
            }
            st = i + 1;
        } else {
            proof {
                assert(v@.subrange(st as int, i as int).push(v@[i as int]) =~= v@.subrange(
                    st as int,
                    i + 1,
                ));
            }
        }
        i = i + 1;
    }
    assert(v@.take(n as int) =~= v@);
    let ghost p = split_char(v@, 10u8);
    let ghost body = p.drop_last().map_values(|l: Seq<u8>| strip_last(l, 13u8));
    assert(p.drop_last() =~= done);
    assert(p.last() == v@.subrange(st as int, n as int));
    if st < n {
        let ghost old_r = r@;
        r.push((st, n));
        proof {
            assert(byte_lines_of(v@) == body.push(p.last()));
            assert forall|k: int| 0 <= k < r@.len() implies r@[k].0 <= r@[k].1 <= v@.len()
                && v@.subrange(r@[k].0 as int, r@[k].1 as int) == #[trigger] byte_lines_of(v@)[k] by {
                if k < old_r.len() {
                    assert(r@[k] == old_r[k]);
                    assert(byte_lines_of(v@)[k] == body[k]);
                    assert(body[k] == strip_last(done[k], 13u8));
                }
            }
        }
    } else {
        proof {
            assert(byte_lines_of(v@) == body);
            assert forall|k: int| 0 <= k < r@.len() implies r@[k].0 <= r@[k].1 <= v@.len()
                && v@.subrange(r@[k].0 as int, r@[k].1 as int) == #[trigger] byte_lines_of(v@)[k] by {
                assert(byte_lines_of(v@)[k] == body[k]);
                assert(body[k] == strip_last(done[k], 13u8));
            }
        }
    }
    r
}


/// `replace_all(v, p, r)`.
pub fn replace_chars(v: &Vec<char>, p: &Vec<char>, r: &Vec<char>) -> (out: Vec<char>)
    requires
        p@.len() > 0,
    ensures
        out@ == replace_all(v@, p@, r@),
{
    let n = v.len();
    let mut out: Vec<char> = Vec::new();
    let mut pos: usize = 0;
    assert(v@.subrange(0, n as int) =~= v@);
    loop
        invariant
            n == v@.len(),
            pos <= n,
            p@.len() > 0,
            out@ + replace_all(v@.subrange(pos as int, n as int), p@, r@) == replace_all(v@, p@, r@),
        decreases n - pos,
    {
        let ghost t = v@.subrange(pos as int, n as int);
        match find_at(v, pos, n, p) {
            None => {
                let mut i = pos;
                while i < n
                    invariant
                        pos <= i <= n == v@.len(),
                        out@ + v@.subrange(i as int, n as int) == replace_all(v@, p@, r@),
                    decreases n - i,
                {
                    let ghost before = out@;
                    out.push(v[i]);
                    assert(before + v@.subrange(i as int, n as int) =~= out@ + v@.subrange(i + 1, n as int));
                    i = i + 1;
                }
                assert(out@ + v@.subrange(n as int, n as int) =~= out@);
                return out;
            },
            Some(j) => {
                let ghost before = out@;
                let mut i = pos;
                while i < j
                    invariant
                        pos <= i <= j <= n == v@.len(),
                        out@ == before + v@.subrange(pos as int, i as int),
                    decreases j - i,
                {
                    out.push(v[i]);
                    assert(before + v@.subrange(pos as int, i + 1) =~= (before + v@.subrange(pos as int, i as int)).push(v@[i as int]));
                    i = i + 1;
                }
                let mut q: usize = 0;
                while q < r.len()
                    invariant
                        q <= r@.len(),
                        out@ == before + v@.subrange(pos as int, j as int) + r@.take(q as int),
                    decreases r.len() - q,
                {
                    out.push(r[q]);
                    assert(before + v@.subrange(pos as int, j as int) + r@.take(q + 1) =~= (before + v@.subrange(pos as int, j as int) + r@.take(q as int)).push(r@[q as int]));
                    q = q + 1;
                }
                assert(r@.take(r@.len() as int) =~= r@);
                assert(t.take(j - pos) =~= v@.subrange(pos as int, j as int));
                assert(t.skip(j - pos + p@.len()) =~= v@.subrange(j + p@.len(), n as int));
                assert(before + (t.take(j - pos) + r@ + replace_all(t.skip(j - pos + p@.len()), p@, r@)) =~= out@ + replace_all(v@.subrange(j + p@.len(), n as int), p@, r@));
                pos = j + p.len();
            },
        }
    }
}

/// `parse_unsigned(v[s..e], max)`, for `max` up to `u64::MAX`.
pub fn parse_unsigned_at(v: &Vec<char>, s: usize, e: usize, max: u64) -> (r: Option<u64>)
    requires
        s <= e <= v@.len(),
    ensures
        match parse_unsigned(v@.subrange(s as int, e as int), max as nat) {
            Some(n) => r == Some(n as u64),
            None => r is None,
        },
{
    let ghost t = v@.subrange(s as int, e as int);
    let mut i = s;
    assert(t.len() > 0 ==> t[0] == v@[s as int]);
    if i < e && v[i] == '+' {
        i = i + 1;
    }
    let ghost d = if t.len() > 0 && t[0] == '+' { t.drop_first() } else { t };
    assert(d =~= v@.subrange(i as int, e as int));
    if i == e {
        return None;
    }
    let start = i;
    let mut acc: u64 = 0;
    while i < e
        invariant
            s <= start <= i <= e <= v@.len(),
            t == v@.subrange(s as int, e as int),
            d == (if t.len() > 0 && t[0] == '+' { t.drop_first() } else { t }),
            d == v@.subrange(start as int, e as int),
            all_digits(v@.subrange(start as int, i as int)),
            acc as nat == digits_value(v@.subrange(start as int, i as int)),
            acc <= max,
        decreases e - i,
    {
        let c = v[i];
        let ghost pre = v@.subrange(start as int, i as int);
        let ghost nxt = v@.subrange(start as int, i + 1);
        assert(nxt.drop_last() =~= pre);
        if c < '0' || c > '9' {
            assert(!all_digits(d)) by {
                assert(d[i - start] == c);
            }
            return None;
        }
        let dig: u64 = (c as u32 - '0' as u32) as u64;
        assert(all_digits(nxt));
        assert(digits_value(nxt) == digits_value(pre) * 10 + dig);
        if acc > max / 10 || (acc == max / 10 && dig > max % 10) {
            proof {
                assert(digits_value(nxt) > max) by (nonlinear_arith)
                    requires
                        digits_value(nxt) == acc * 10 + dig,
                        acc > max / 10 || (acc == max / 10 && dig > max % 10),
                ;
                if all_digits(d) {
                    assert(d =~= nxt + v@.subrange(i + 1, e as int));
                    lemma_digits_value_monotone(nxt, v@.subrange(i + 1, e as int));
                }
            }
            return None;
        }
        assert(acc * 10 + dig <= max) by (nonlinear_arith)
            requires
                acc <= max / 10,
                acc < max / 10 || dig <= max % 10,
                dig < 10,
        ;
        acc = acc * 10 + dig;
        i = i + 1;
    }
    Some(acc)
}


/// The ASCII digit for `d < 10`.
pub open spec fn digit_char(d: nat) -> char {
    (48 + d) as char
}

/// The decimal representation of `n`, without leading zeros (`"0"` for 0).
pub open spec fn decimal(n: nat) -> Seq<char>
    decreases n,
{
    if n < 10 {
        seq![digit_char(n)]
    } else {
        decimal(n / 10).push(digit_char(n % 10))
    }
}

/// Ten to the power `k`.
pub open spec fn pow10(k: nat) -> nat
    decreases k,
{
    if k == 0 {
        1
    } else {
        10 * pow10((k - 1) as nat)
    }
}

pub proof fn lemma_decimal_len_bound(n: nat, k: nat)
    requires
        k >= 1,
        n < pow10(k),
    ensures
        decimal(n).len() <= k,
    decreases n,
{
    if n >= 10 {
        assert(n / 10 < pow10((k - 1) as nat)) by (nonlinear_arith)
            requires
                n < pow10(k),
                pow10(k) == 10 * pow10((k - 1) as nat),
                n >= 10,
        ;
        if k == 1 {
            assert(pow10(1) == 10);
        } else {
            lemma_decimal_len_bound(n / 10, (k - 1) as nat);
        }
    }
}

pub proof fn lemma_decimal_len(n: nat)
    ensures
        decimal(n).len() >= 1,
        n >= 10 ==> decimal(n).len() == decimal(n / 10).len() + 1,
        n <= u64::MAX ==> decimal(n).len() <= 20,
{
    if n <= u64::MAX {
        assert(pow10(20) == 100000000000000000000nat) by {
            reveal_with_fuel(pow10, 21);
        }
        lemma_decimal_len_bound(n, 20);
    }
}

/// The number of decimal digits of `n`.
pub fn digit_count(n: u64) -> (d: usize)
    ensures
        d == decimal(n as nat).len(),
        1 <= d <= 20,
{
    let mut d: usize = 1;
    let mut m = n;
    proof {
        lemma_decimal_len(n as nat);
    }
    while m >= 10
        invariant
            1 <= d <= 20,
            d + decimal(m as nat).len() == decimal(n as nat).len() + 1,
            decimal(n as nat).len() <= 20,
        decreases m,
    {
        proof {
            lemma_decimal_len(m as nat);
            lemma_decimal_len((m / 10) as nat);
        }
        m = m / 10;
        d = d + 1;
    }
    proof {
        lemma_decimal_len(m as nat);
    }
    d
}

/// Append the decimal representation of `n` to `s` (as `format!("{n}")`
/// writes it).
pub fn push_decimal(s: &mut String, n: u64)
    ensures
        final(s)@ == old(s)@ + decimal(n as nat),
    decreases n,
{
    if n >= 10 {
        push_decimal(s, n / 10);
    }
    let d: u8 = (n % 10) as u8;
    let c = (48u8 + d) as char;
    push_char(s, c);
    proof {
        if n >= 10 {
            assert(old(s)@ + decimal(n as nat) =~= old(s)@ + decimal((n / 10) as nat) + seq![c]);
        } else {
            assert(old(s)@ + decimal(n as nat) =~= old(s)@.push(c));
        }
    }
}

/// Append the chars of `t` to `s` (as `String::push_str` does).
pub fn push_str(s: &mut String, t: &str)
    ensures
        final(s)@ == old(s)@ + t@,
{
    let v = chars_of(t);
    let mut i: usize = 0;
    while i < v.len()
        invariant
            i <= v@.len(),
            v@ == t@,
            s@ == old(s)@ + v@.take(i as int),
        decreases v.len() - i,
    {
        push_char(s, v[i]);
        assert(v@.take(i + 1) =~= v@.take(i as int).push(v@[i as int]));
        i = i + 1;
    }
    assert(v@.take(i as int) =~= v@);
}

/// The texts of a list of strings.
pub open spec fn texts(v: Seq<String>) -> Seq<Seq<char>> {
    v.map_values(|s: String| s@)
}

/// Whether `s` is one of `names`.
pub fn contains_text(names: &[String], s: &String) -> (b: bool)
    ensures
        b == texts(names@).contains(s@),
{
    let mut k: usize = 0;
    while k < names.len()
        invariant
            k <= names@.len(),
            forall|j: int| 0 <= j < k ==> names@[j]@ != s@,
        decreases names.len() - k,
    {
        if names[k] == *s {
            assert(texts(names@)[k as int] == s@);
            return true;
        }
        k = k + 1;
    }
    proof {
        if texts(names@).contains(s@) {
            let j = choose|j: int| 0 <= j < texts(names@).len() && texts(names@)[j] == s@;
            assert(names@[j]@ == s@);
        }
    }
    false
}

/// Whether `a` and `b` hold the same text.
pub fn same_text(a: &str, b: &str) -> (r: bool)
    ensures
        r == (a@ == b@),
{
    let x = a.to_owned();
    let y = b.to_owned();
    x == y
}

/// `s` without leading and trailing whitespace (`str::trim`).
pub fn trimmed(s: &str) -> (r: String)
    ensures
        r@ == trim(s@),
{
    let v = chars_of(s);
    let (a, b) = trim_range(&v, 0, v.len());
    assert(v@.subrange(0, v@.len() as int) =~= v@);
    string_of(&v, a, b)
}

/// The file name of a path: the part after its last `/` (the whole path
/// when that part is empty).
pub open spec fn file_name(p: Seq<char>) -> Seq<char> {
    let cut = last_slash(p);
    let tail = if cut < 0 { p } else { p.skip(cut + 1) };
    if tail.len() == 0 { p } else { tail }
}

/// Where the last `/` of `p` is, or -1.
pub open spec fn last_slash(p: Seq<char>) -> int
    decreases p.len(),
{
    if p.len() == 0 {
        -1
    } else if p.last() == '/' {
        p.len() - 1
    } else {
        last_slash(p.drop_last())
    }
}

proof fn lemma_last_slash(p: Seq<char>)
    ensures
        -1 <= last_slash(p) < p.len(),
        last_slash(p) >= 0 ==> p[last_slash(p)] == '/',
        forall|i: int| last_slash(p) < i < p.len() ==> p[i] != '/',
    decreases p.len(),
{
    if p.len() > 0 && p.last() != '/' {
        lemma_last_slash(p.drop_last());
        assert forall|i: int| last_slash(p) < i < p.len() implies p[i] != '/' by {
            if i < p.len() - 1 {
                assert(p[i] == p.drop_last()[i]);
            }
        }
    }
}

/// The file name of `path` (see [`file_name`]).
pub fn file_name_of(path: &str) -> (r: String)
    ensures
        r@ == file_name(path@),
{
    let v = chars_of(path);
    let mut i: usize = v.len();
    proof {
        lemma_last_slash(path@);
    }
    while i > 0 && v[i - 1] != '/'
        invariant
            i <= v@.len(),
            v@ == path@,
            forall|j: int| i <= j < v@.len() ==> v@[j] != '/',
            last_slash(path@) < i,
            -1 <= last_slash(path@),
            last_slash(path@) >= 0 ==> path@[last_slash(path@)] == '/',
        decreases i,
    {
        i = i - 1;
    }
    proof {
        if i > 0 {
            assert(v@[i - 1] == '/');
            assert(last_slash(path@) == i - 1) by {
                lemma_last_slash(path@);
                if last_slash(path@) < i - 1 {
                    assert(path@[i - 1] != '/');
                }
            }
        } else {
            assert(last_slash(path@) == -1) by {
                lemma_last_slash(path@);
                if last_slash(path@) >= 0 {
                    assert(path@[last_slash(path@)] != '/');
                }
            }
        }
    }
    if i == v.len() {
        assert(v@.subrange(0, v@.len() as int) =~= v@);
        assert(path@.skip(i as int).len() == 0);
        return string_of(&v, 0, v.len());
    }
    assert(v@.subrange(i as int, v@.len() as int) =~= path@.skip(i as int));
    string_of(&v, i, v.len())
}


/// The lines of svn output: the lines of `s` (see [`lines_of`]), each
/// without all of its trailing carriage returns.
pub open spec fn crlf_lines(s: Seq<char>) -> Seq<Seq<char>> {
    lines_of(s).map_values(|l: Seq<char>| trim_end_char(l, '\r'))
}

/// The lines of svn output as bytes (see [`crlf_lines`]).
pub open spec fn crlf_byte_lines(s: Seq<u8>) -> Seq<Seq<u8>> {
    byte_lines_of(s).map_values(|l: Seq<u8>| trim_end_char(l, 13u8))
}

/// `r` are the spans of the lines of `v` as [`crlf_lines`] gives them.
pub open spec fn crlf_spans_of(v: Seq<char>, r: Seq<(usize, usize)>) -> bool {
    &&& r.len() == crlf_lines(v).len()
    &&& forall|k: int|
        0 <= k < r.len() ==> r[k].0 <= r[k].1 <= v.len() && v.subrange(r[k].0 as int, r[k].1 as int)
            == #[trigger] crlf_lines(v)[k]
}

/// `r` are the spans of the lines of `v` as [`crlf_byte_lines`] gives them.
pub open spec fn crlf_byte_spans_of(v: Seq<u8>, r: Seq<(usize, usize)>) -> bool {
    &&& r.len() == crlf_byte_lines(v).len()
    &&& forall|k: int|
        0 <= k < r.len() ==> r[k].0 <= r[k].1 <= v.len() && v.subrange(r[k].0 as int, r[k].1 as int)
            == #[trigger] crlf_byte_lines(v)[k]
}

/// The spans of the lines of `v` without their trailing carriage returns.
pub fn crlf_line_spans(v: &Vec<char>) -> (r: Vec<(usize, usize)>)
    ensures
        crlf_spans_of(v@, r@),
{
    let spans = line_spans(v);
    let ghost ls = lines_of(v@);
    let mut r: Vec<(usize, usize)> = Vec::new();
    let mut k: usize = 0;
    while k < spans.len()
        invariant
            k <= spans@.len(),
            ls == lines_of(v@),
            line_spans_of(v@, spans@),
            r@.len() == k,
            forall|j: int|
                0 <= j < k ==> (#[trigger] r@[j]).0 <= r@[j].1 <= v@.len() && v@.subrange(r@[j].0 as int, r@[j].1 as int)
                    == trim_end_char(ls[j], '\r'),
        decreases spans.len() - k,
    {
        let (s, e) = spans[k];
        assert(v@.subrange(s as int, e as int) == ls[k as int]);
        let e2 = rskip_char(v, s, e, '\r');
        r.push((s, e2));
        k = k + 1;
    }
    assert forall|j: int| 0 <= j < r@.len() implies (#[trigger] r@[j]).0 <= r@[j].1 <= v@.len()
        && v@.subrange(r@[j].0 as int, r@[j].1 as int) == crlf_lines(v@)[j] by {
        assert(crlf_lines(v@)[j] == trim_end_char(ls[j], '\r'));
    }
    r
}

/// End of `trim_end_char(v[s..e], b)` for bytes.
pub fn rskip_byte(v: &[u8], s: usize, e: usize, b: u8) -> (r: usize)
    requires
        s <= e <= v@.len(),
    ensures
        s <= r <= e,
        v@.subrange(s as int, r as int) == trim_end_char(v@.subrange(s as int, e as int), b),
{
    let mut j = e;
    while j > s && v[j - 1] == b
        invariant
            s <= j <= e <= v@.len(),
            trim_end_char(v@.subrange(s as int, j as int), b) == trim_end_char(
                v@.subrange(s as int, e as int),
                b,
            ),
        decreases j - s,
    {
        assert(v@.subrange(s as int, j as int).drop_last() =~= v@.subrange(s as int, j - 1));
        j = j - 1;
    }
    j
}

/// The spans of the byte lines of `v` without their trailing carriage
/// returns.
pub fn crlf_byte_line_spans(v: &[u8]) -> (r: Vec<(usize, usize)>)
    ensures
        crlf_byte_spans_of(v@, r@),
{
    let spans = byte_line_spans(v);
    let ghost ls = byte_lines_of(v@);
    let mut r: Vec<(usize, usize)> = Vec::new();
    let mut k: usize = 0;
    while k < spans.len()
        invariant
            k <= spans@.len(),
            ls == byte_lines_of(v@),
            byte_line_spans_of(v@, spans@),
            r@.len() == k,
            forall|j: int|
                0 <= j < k ==> (#[trigger] r@[j]).0 <= r@[j].1 <= v@.len() && v@.subrange(r@[j].0 as int, r@[j].1 as int)
                    == trim_end_char(ls[j], 13u8),
        decreases spans.len() - k,
    {
        let (s, e) = spans[k];
        assert(v@.subrange(s as int, e as int) == ls[k as int]);
        let e2 = rskip_byte(v, s, e, 13u8);
        r.push((s, e2));
        k = k + 1;
    }
    assert forall|j: int| 0 <= j < r@.len() implies (#[trigger] r@[j]).0 <= r@[j].1 <= v@.len()
        && v@.subrange(r@[j].0 as int, r@[j].1 as int) == crlf_byte_lines(v@)[j] by {
        assert(crlf_byte_lines(v@)[j] == trim_end_char(ls[j], 13u8));
    }
    r
}


proof fn lemma_trim_start_first(s: Seq<char>)
    ensures
        trim_start(s).len() > 0 ==> !is_ws(trim_start(s)[0]),
    decreases s.len(),
{
    if s.len() > 0 && is_ws(s[0]) {
        lemma_trim_start_first(s.drop_first());
    }
}

proof fn lemma_trim_end_prefix(s: Seq<char>)
    ensures
        trim_end(s).len() <= s.len(),
        trim_end(s) == s.take(trim_end(s).len() as int),
        trim_end(s).len() > 0 ==> !is_ws(trim_end(s).last()),
    decreases s.len(),
{
    if s.len() > 0 && is_ws(s.last()) {
        lemma_trim_end_prefix(s.drop_last());
        assert(s.drop_last().take(trim_end(s).len() as int) =~= s.take(trim_end(s).len() as int));
    } else {
        assert(s.take(s.len() as int) =~= s);
    }
}

/// Trimming twice is trimming once.
pub proof fn lemma_trim_idempotent(s: Seq<char>)
    ensures
        trim(trim(s)) == trim(s),
{
    let u = trim_start(s);
    let w = trim_end(u);
    lemma_trim_start_first(s);
    lemma_trim_end_prefix(u);
    if w.len() > 0 {
        assert(w[0] == u[0]);
        assert(trim_start(w) == w);
        assert(trim_end(w) == w);
    } else {
        assert(trim_start(w) == w);
        assert(trim_end(w) == w);
    }
}

/// `trim_start_char(s, c)` does not start with `c`.
pub proof fn lemma_trim_start_char_first(s: Seq<char>, c: char)
    ensures
        trim_start_char(s, c).len() > 0 ==> trim_start_char(s, c)[0] != c,
    decreases s.len(),
{
    if s.len() > 0 && s[0] == c {
        lemma_trim_start_char_first(s.drop_first(), c);
    }
}

} // verus!
