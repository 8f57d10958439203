//! Saved patch files: their list order (newest first), their timestamped
//! names, and the UTC calendar arithmetic behind both.

use vstd::prelude::*;
use crate::components::EventState;
use crate::keys::{binds, key_match, Event, KeyAction, KeyEvent};
use crate::queue::{ConfirmAction, InternalEvent, Queue, Tab};
use crate::text::{contains_text, decimal, digit_count, push_char, push_decimal, push_str, texts};

verus! {

broadcast use vstd::seq_lib::group_to_multiset_ensures;

/// A point in time as the file system reports it: whole seconds since the
/// Unix epoch (negative before it) and the nanoseconds into that second.
/// Later times compare greater, field by field.
#[derive(Clone, Copy, Debug, PartialEq, Eq, Structural)]
pub struct Timestamp {
    pub secs: i64,
    pub nanos: u32,
}

/// One patch file in the patch directory.
#[derive(Clone, Debug)]
pub struct PatchFile {
    pub name: String,
    pub path: String,
    pub size: u64,
    pub modified: Option<Timestamp>,
}

// ---------------------------------------------------------------------
// List order
// ---------------------------------------------------------------------

/// -1, 0 or 1 as `x` is earlier than, the same as, or later than `y`; an
/// unknown time is earlier than every known one.
pub open spec fn time_rank(x: Option<Timestamp>, y: Option<Timestamp>) -> int {
    match (x, y) {
        (None, None) => 0,
        (None, Some(_)) => -1,
        (Some(_), None) => 1,
        (Some(a), Some(b)) => if a.secs < b.secs {
            -1
        } else if a.secs > b.secs {
            1
        } else if a.nanos < b.nanos {
            -1
        } else if a.nanos > b.nanos {
            1
        } else {
            0
        },
    }
}

/// -1, 0 or 1 as `x` sorts before, with, or after `y` in lexicographic
/// order of their chars (which is the byte order of their UTF-8 forms,
/// the order of `String`'s `Ord`).
pub open spec fn text_rank(x: Seq<char>, y: Seq<char>) -> int
    decreases x.len(),
{
    if x.len() == 0 && y.len() == 0 {
        0
    } else if x.len() == 0 {
        -1
    } else if y.len() == 0 {
        1
    } else if x[0] < y[0] {
        -1
    } else if x[0] > y[0] {
        1
    } else {
        text_rank(x.drop_first(), y.drop_first())
    }
}

/// Where `a` goes relative to `b` in the list: -1 before, 1 after: newest
/// modification first; equal times fall back to name descending.
pub open spec fn list_rank(a: PatchFile, b: PatchFile) -> int {
    let t = time_rank(b.modified, a.modified);
    if t != 0 {
        t
    } else {
        text_rank(b.name@, a.name@)
    }
}

/// `text_rank(x, y)`.
fn text_order(x: &str, y: &str) -> (r: i8)
    ensures
        r as int == text_rank(x@, y@),
{
    let a = crate::text::chars_of(x);
    let b = crate::text::chars_of(y);
    let mut i: usize = 0;
    assert(a@.skip(0) =~= a@);
    assert(b@.skip(0) =~= b@);
    while i < a.len() && i < b.len() && a[i] == b[i]
        invariant
            a@ == x@,
            b@ == y@,
            i <= a@.len(),
            i <= b@.len(),
            text_rank(x@, y@) == text_rank(a@.skip(i as int), b@.skip(i as int)),
        decreases a.len() - i,
    {
        assert(a@.skip(i as int).drop_first() =~= a@.skip(i + 1));
        assert(b@.skip(i as int).drop_first() =~= b@.skip(i + 1));
        i = i + 1;
    }
    if i == a.len() && i == b.len() {
        0
    } else if i == a.len() {
        -1
    } else if i == b.len() {
        1
    } else if a[i] < b[i] {
        -1
    } else {
        1
    }
}

/// `time_rank(x, y)`.
fn time_order(x: Option<Timestamp>, y: Option<Timestamp>) -> (r: i8)
    ensures
        r as int == time_rank(x, y),
{
    match (x, y) {
        (None, None) => 0,
        (None, Some(_)) => -1,
        (Some(_), None) => 1,
        (Some(a), Some(b)) => if a.secs < b.secs {
            -1
        } else if a.secs > b.secs {
            1
        } else if a.nanos < b.nanos {
            -1
        } else if a.nanos > b.nanos {
            1
        } else {
            0
        },
    }
}

/// `list_rank(a, b)`.
fn list_order(a: &PatchFile, b: &PatchFile) -> (r: i8)
    ensures
        r as int == list_rank(*a, *b),
        -1 <= r <= 1,
{
    proof {
        lemma_text_rank_range(b.name@, a.name@);
    }
    let t = time_order(b.modified, a.modified);
    if t != 0 {
        t
    } else {
        text_order(b.name.as_str(), a.name.as_str())
    }
}

/// List order: newest modification first; same-second saves (timestamped
/// names) fall back to name descending, keeping the order deterministic.
pub fn newer_first(a: &PatchFile, b: &PatchFile) -> (r: std::cmp::Ordering)
    ensures
        match r {
            std::cmp::Ordering::Less => list_rank(*a, *b) == -1,
            std::cmp::Ordering::Equal => list_rank(*a, *b) == 0,
            std::cmp::Ordering::Greater => list_rank(*a, *b) == 1,
        },
{
    let k = list_order(a, b);
    if k < 0 {
        std::cmp::Ordering::Less
    } else if k == 0 {
        std::cmp::Ordering::Equal
    } else {
        std::cmp::Ordering::Greater
    }
}

proof fn lemma_text_rank_range(x: Seq<char>, y: Seq<char>)
    ensures
        -1 <= text_rank(x, y) <= 1,
    decreases x.len(),
{
    if x.len() > 0 && y.len() > 0 && x[0] == y[0] {
        lemma_text_rank_range(x.drop_first(), y.drop_first());
    }
}

proof fn lemma_text_rank_antisymmetric(x: Seq<char>, y: Seq<char>)
    ensures
        text_rank(x, y) == -text_rank(y, x),
        text_rank(x, y) == 0 <==> x == y,
    decreases x.len(),
{
    if x.len() > 0 && y.len() > 0 && x[0] == y[0] {
        lemma_text_rank_antisymmetric(x.drop_first(), y.drop_first());
        if x.drop_first() == y.drop_first() {
            assert(x =~= seq![x[0]] + x.drop_first());
            assert(y =~= seq![y[0]] + y.drop_first());
        }
    } else if x.len() == 0 && y.len() == 0 {
        assert(x =~= y);
    }
}

/// The list order is antisymmetric, and two patch files rank equal only
/// when they have the same time and the same name.
pub proof fn lemma_list_rank_antisymmetric(a: PatchFile, b: PatchFile)
    ensures
        list_rank(a, b) == -list_rank(b, a),
        list_rank(a, b) == 0 <==> (a.modified == b.modified && a.name@ == b.name@),
{
    lemma_text_rank_antisymmetric(b.name@, a.name@);
}

proof fn lemma_text_rank_transitive(x: Seq<char>, y: Seq<char>, z: Seq<char>)
    requires
        text_rank(x, y) <= 0,
        text_rank(y, z) <= 0,
    ensures
        text_rank(x, z) <= 0,
    decreases x.len(),
{
    if x.len() > 0 && y.len() > 0 && z.len() > 0 && x[0] == y[0] && y[0] == z[0] {
        lemma_text_rank_transitive(x.drop_first(), y.drop_first(), z.drop_first());
    }
}

/// The list order is transitive.
pub proof fn lemma_list_rank_transitive(a: PatchFile, b: PatchFile, c: PatchFile)
    requires
        list_rank(a, b) <= 0,
        list_rank(b, c) <= 0,
    ensures
        list_rank(a, c) <= 0,
{
    if time_rank(b.modified, a.modified) == 0 && time_rank(c.modified, b.modified) == 0 {
        lemma_text_rank_transitive(c.name@, b.name@, a.name@);
    }
}

/// `r` holds the files `files`, newest first (see [`list_rank`]).
pub open spec fn newest_first(r: Seq<PatchFile>, files: Seq<PatchFile>) -> bool {
    &&& r.to_multiset() == files.to_multiset()
    &&& forall|i: int, j: int| 0 <= i < j < r.len() ==> list_rank(#[trigger] r[i], #[trigger] r[j]) <= 0
}

/// The files `files` in list order: newest first, same times by name
/// descending.
pub fn sort_newest_first(files: Vec<PatchFile>) -> (r: Vec<PatchFile>)
    ensures
        newest_first(r@, files@),
{
    let mut rest = files;
    let mut out: Vec<PatchFile> = Vec::new();
    let ghost all = rest@;
    proof {
        assert(out@.to_multiset() =~= vstd::multiset::Multiset::empty());
        assert(out@.to_multiset().add(rest@.to_multiset()) =~= all.to_multiset());
    }
    while rest.len() > 0
        invariant
            out@.to_multiset().add(rest@.to_multiset()) == all.to_multiset(),
            forall|i: int, j: int| 0 <= i < j < out@.len() ==> list_rank(#[trigger] out@[i], #[trigger] out@[j]) <= 0,
        decreases rest@.len(),
    {
        let ghost before = rest@;
        let x = rest.pop().unwrap();
        proof {
            assert(before.drop_last() =~= before.remove(before.len() - 1));
        }
        let mut p: usize = 0;
        while p < out.len() && list_order(&x, &out[p]) >= 0
            invariant
                p <= out@.len(),
                forall|k: int| 0 <= k < p ==> list_rank(#[trigger] out@[k], x) <= 0,
            decreases out@.len() - p,
        {
            proof {
                lemma_list_rank_antisymmetric(x, out@[p as int]);
            }
            p = p + 1;
        }
        let ghost o = out@;
        proof {
            if p < o.len() {
                assert forall|k: int| p <= k < o.len() implies list_rank(x, #[trigger] o[k]) <= 0 by {
                    if k > p {
                        lemma_list_rank_transitive(x, o[p as int], o[k]);
                    }
                }
            }
        }
        out.insert(p, x);
        proof {
            assert(out@ == o.insert(p as int, x));
            assert forall|i: int, j: int| 0 <= i < j < out@.len() implies list_rank(#[trigger] out@[i], #[trigger] out@[j]) <= 0 by {
                if j < p {
                    assert(out@[i] == o[i] && out@[j] == o[j]);
                } else if j == p {
                    assert(out@[i] == o[i]);
                } else if i == p {
                    assert(out@[j] == o[j - 1]);
                } else if i < p {
                    assert(out@[i] == o[i] && out@[j] == o[j - 1]);
                } else {
                    assert(out@[i] == o[i - 1] && out@[j] == o[j - 1]);
                }
            }
        }
    }
    proof {
        assert(rest@ =~= Seq::<PatchFile>::empty());
        assert(rest@.to_multiset() =~= vstd::multiset::Multiset::empty());
        assert(out@.to_multiset() =~= out@.to_multiset().add(rest@.to_multiset()));
    }
    out
}

// ---------------------------------------------------------------------
// Calendar
// ---------------------------------------------------------------------

/// The whole seconds since the epoch that a time reads as; times before
/// the epoch read as the epoch itself.
pub open spec fn epoch_secs(t: Timestamp) -> nat {
    if t.secs < 0 {
        0
    } else {
        t.secs as nat
    }
}

/// The proleptic Gregorian calendar date `(year, month, day)` of the day
/// `days` days after 1970-01-01 (`days >= 0`), by Howard Hinnant's
/// `civil_from_days`, counted in 400-year eras from 0000-03-01.
pub open spec fn civil_from_days(days: int) -> (int, int, int) {
    let z = days + 719468;
    let era = z / 146097;
    let doe = z % 146097;
    let yoe = (doe - doe / 1460 + doe / 36524 - doe / 146096) / 365;
    let y = yoe + era * 400;
    let doy = doe - (365 * yoe + yoe / 4 - yoe / 100);
    let mp = (5 * doy + 2) / 153;
    let d = doy - (153 * mp + 2) / 5 + 1;
    let m = if mp < 10 {
        mp + 3
    } else {
        mp - 9
    };
    (if m <= 2 {
        y + 1
    } else {
        y
    }, m, d)
}

/// The UTC calendar fields `(year, month, day, hour, minute, second)` of
/// `t` (the epoch for times before it).
pub open spec fn utc_fields(t: Timestamp) -> (int, int, int, int, int, int) {
    let secs = epoch_secs(t);
    let (y, m, d) = civil_from_days((secs / 86400) as int);
    let rem = secs % 86400;
    (y, m, d, (rem / 3600) as int, (rem % 3600 / 60) as int, (rem % 60) as int)
}

/// UTC calendar fields of a time: the civil date of its day and the time
/// of day, each in range (month 1..=12, day 1..=31, year from 1970 on).
pub fn utc_ymd_hms(t: Timestamp) -> (r: (i64, u64, u64, u64, u64, u64))
    ensures
        (r.0 as int, r.1 as int, r.2 as int, r.3 as int, r.4 as int, r.5 as int) == utc_fields(t),
        r.0 >= 1970,
        1 <= r.1 <= 12,
        1 <= r.2 <= 31,
        r.3 < 24 && r.4 < 60 && r.5 < 60,
{
    let secs: u64 = if t.secs < 0 {
        0
    } else {
        t.secs as u64
    };
    let days: u64 = secs / 86_400;
    let rem: u64 = secs % 86_400;
    // Howard Hinnant's civil_from_days algorithm (days >= 0 here, so all
    // intermediate values are non-negative)
    let z: u64 = days + 719_468;
    let era: u64 = z / 146_097;
    let doe: u64 = z % 146_097;
    let yoe: u64 = (doe - doe / 1460 + doe / 36_524 - doe / 146_096) / 365;
    assert(yoe <= 399) by (nonlinear_arith)
        requires
            doe <= 146096,
            yoe == (doe - doe / 1460 + doe / 36_524 - doe / 146_096) / 365,
    ;
    let y: u64 = yoe + era * 400;
    assert(365 * yoe + yoe / 4 - yoe / 100 <= doe) by (nonlinear_arith)
        requires
            doe <= 146096,
            yoe == (doe - doe / 1460 + doe / 36_524 - doe / 146_096) / 365,
    ;
    let doy: u64 = doe - (365 * yoe + yoe / 4 - yoe / 100);
    assert(doy <= 365) by (nonlinear_arith)
        requires
            doe <= 146096,
            yoe == (doe - doe / 1460 + doe / 36_524 - doe / 146_096) / 365,
            doy == doe - (365 * yoe + yoe / 4 - yoe / 100),
    ;
    let mp: u64 = (5 * doy + 2) / 153;
    let d: u64 = doy - (153 * mp + 2) / 5 + 1;
    assert(1 <= d <= 31) by (nonlinear_arith)
        requires
            doy <= 365,
            mp == (5 * doy + 2) / 153,
            d == doy - (153 * mp + 2) / 5 + 1,
    ;
    let m: u64 = if mp < 10 {
        mp + 3
    } else {
        mp - 9
    };
    let year: u64 = if m <= 2 {
        y + 1
    } else {
        y
    };
    assert(era >= 4);
    if era == 4 {
        assert(doe >= 135080);
        assert(doe - doe / 1460 + doe / 36_524 - doe / 146_096 >= 134991);
        assert(yoe >= 369);
        if yoe == 369 {
            assert(doy >= 306);
            assert(mp >= 10);
        }
    }
    (year as i64, m, d, rem / 3600, rem % 3600 / 60, rem % 60)
}

// ---------------------------------------------------------------------
// Names
// ---------------------------------------------------------------------

/// `n` in decimal, left-padded with zeros to at least `w` digits (as
/// `format!("{n:0w$}")` writes it).
pub open spec fn padded(n: nat, w: nat) -> Seq<char> {
    let d = decimal(n);
    if d.len() >= w {
        d
    } else {
        Seq::new((w - d.len()) as nat, |i: int| '0') + d
    }
}

/// Append `padded(n, w)` to `s`.
fn push_padded(s: &mut String, n: u64, w: usize)
    ensures
        final(s)@ == old(s)@ + padded(n as nat, w as nat),
{
    let len = digit_count(n);
    if len < w {
        let mut k: usize = len;
        let ghost start = s@;
        while k < w
            invariant
                len <= k <= w,
                s@ == start + Seq::new((k - len) as nat, |i: int| '0'),
            decreases w - k,
        {
            push_char(s, '0');
            assert(start + Seq::new((k + 1 - len) as nat, |i: int| '0') =~= (start + Seq::new(
                (k - len) as nat,
                |i: int| '0',
            )).push('0'));
            k = k + 1;
        }
    }
    let ghost mid = s@;
    push_decimal(s, n);
    assert(s@ =~= old(s)@ + padded(n as nat, w as nat));
}

/// `patch-YYYYMMDD-HHMMSS`: the name of a patch saved at `t`, without the
/// extension.
pub open spec fn patch_stem(t: Timestamp) -> Seq<char> {
    let (y, mo, d, hh, mi, ss) = utc_fields(t);
    "patch-"@ + padded(y as nat, 4) + padded(mo as nat, 2) + padded(d as nat, 2) + seq!['-']
        + padded(hh as nat, 2) + padded(mi as nat, 2) + padded(ss as nat, 2)
}

/// The name of a patch saved at `t`.
pub open spec fn patch_name(t: Timestamp) -> Seq<char> {
    patch_stem(t) + ".patch"@
}

/// Append `patch_stem(t)` to `s`.
fn push_stem(s: &mut String, t: Timestamp)
    ensures
        final(s)@ == old(s)@ + patch_stem(t),
{
    let (y, mo, d, hh, mi, ss) = utc_ymd_hms(t);
    push_str(s, "patch-");
    push_padded(s, y as u64, 4);
    push_padded(s, mo, 2);
    push_padded(s, d, 2);
    push_char(s, '-');
    push_padded(s, hh, 2);
    push_padded(s, mi, 2);
    push_padded(s, ss, 2);
    assert(s@ =~= old(s)@ + patch_stem(t));
}

/// `patch-YYYYMMDD-HHMMSS.patch` (UTC).
pub fn patch_file_name(t: Timestamp) -> (r: String)
    ensures
        r@ == patch_name(t),
{
    let mut s = String::new();
    push_stem(&mut s, t);
    push_str(&mut s, ".patch");
    assert(s@ =~= patch_name(t));
    s
}

/// The name tried as the `i`-th same-second save (`i >= 2`).
pub open spec fn numbered_name(t: Timestamp, i: nat) -> Seq<char> {
    patch_stem(t) + seq!['-'] + decimal(i) + ".patch"@
}

/// The last-resort name once every numbered name up to `u32::MAX` is taken:
/// the nanoseconds of `t` (0 before the epoch) as the suffix.
pub open spec fn nanos_name(t: Timestamp) -> Seq<char> {
    let n: nat = if t.secs < 0 {
        0
    } else {
        t.nanos as nat
    };
    patch_stem(t) + seq!['-', 'n'] + decimal(n) + ".patch"@
}

/// The first number from `i` up to `u32::MAX` whose numbered name is not
/// among `taken`.
pub open spec fn first_free(taken: Seq<Seq<char>>, t: Timestamp, i: int) -> Option<nat>
    decreases u32::MAX + 1 - i,
{
    if i > u32::MAX || i < 0 {
        None
    } else if !taken.contains(numbered_name(t, i as nat)) {
        Some(i as nat)
    } else {
        first_free(taken, t, i + 1)
    }
}

proof fn lemma_first_free(taken: Seq<Seq<char>>, t: Timestamp, i: int)
    ensures
        first_free(taken, t, i) matches Some(k) ==> i <= k <= u32::MAX && !taken.contains(numbered_name(t, k))
            && forall|j: int| i <= j < k ==> taken.contains(#[trigger] numbered_name(t, j as nat)),
        first_free(taken, t, i) is None && i >= 0 ==> forall|j: int|
            i <= j <= u32::MAX ==> taken.contains(#[trigger] numbered_name(t, j as nat)),
    decreases u32::MAX + 1 - i,
{
    if 0 <= i <= u32::MAX && taken.contains(numbered_name(t, i as nat)) {
        lemma_first_free(taken, t, i + 1);
    }
}

/// The next free patch name: a patch saved at `t` gets its plain name when
/// that is free; otherwise the numbered name with the least number from
/// 2 on that is free; only when every numbered name up to `u32::MAX` is
/// taken, the nanosecond name. The plain and numbered names it gets are
/// never among the names taken.
pub proof fn lemma_fresh_name(taken: Seq<Seq<char>>, t: Timestamp)
    ensures
        !taken.contains(patch_name(t)) ==> fresh_name(taken, t) == patch_name(t),
        taken.contains(patch_name(t)) ==> match first_free(taken, t, 2) {
            Some(k) => {
                &&& fresh_name(taken, t) == numbered_name(t, k)
                &&& 2 <= k <= u32::MAX
                &&& !taken.contains(numbered_name(t, k))
                &&& forall|j: int| 2 <= j < k ==> taken.contains(#[trigger] numbered_name(t, j as nat))
            },
            None => {
                &&& fresh_name(taken, t) == nanos_name(t)
                &&& forall|j: int| 2 <= j <= u32::MAX ==> taken.contains(#[trigger] numbered_name(t, j as nat))
            },
        },
{
    lemma_first_free(taken, t, 2);
}

/// The name a new patch saved at `t` gets, given the names already taken
/// in the patch directory: its plain name if free, else the first free
/// numbered name `-2`, `-3`, ..., else the nanosecond name.
pub open spec fn fresh_name(taken: Seq<Seq<char>>, t: Timestamp) -> Seq<char> {
    if !taken.contains(patch_name(t)) {
        patch_name(t)
    } else {
        match first_free(taken, t, 2) {
            Some(i) => numbered_name(t, i),
            None => nanos_name(t),
        }
    }
}

/// The file name for a patch saved at `t` into a directory that already
/// holds the files `existing`: same-second saves get a `-2`, `-3`, ...
/// suffix instead of silently overwriting each other (see [`fresh_name`]).
/// The caller joins it to the directory.
pub fn fresh_patch_path(existing: &[String], t: Timestamp) -> (r: String)
    ensures
        r@ == fresh_name(texts(existing@), t),
        !texts(existing@).contains(r@) || (r@ == nanos_name(t) && first_free(
            texts(existing@),
            t,
            2,
        ) is None),
{
    let ghost taken = texts(existing@);
    let base = patch_file_name(t);
    if !contains_text(existing, &base) {
        return base;
    }
    let mut i: u64 = 2;
    while i <= 0xFFFF_FFFF
        invariant
            2 <= i <= 0x1_0000_0000,
            taken == texts(existing@),
            taken.contains(patch_name(t)),
            first_free(taken, t, 2) == first_free(taken, t, i as int),
        decreases 0x1_0000_0000 - i,
    {
        let mut candidate = String::new();
        push_stem(&mut candidate, t);
        push_char(&mut candidate, '-');
        push_decimal(&mut candidate, i);
        push_str(&mut candidate, ".patch");
        assert(candidate@ =~= numbered_name(t, i as nat));
        if !contains_text(existing, &candidate) {
            return candidate;
        }
        i = i + 1;
    }
    // the u32 range above is exhausted only after ~4 billion same-second
    // patches: fall back to a nanosecond-suffixed name instead of failing
    let nanos: u32 = if t.secs < 0 {
        0
    } else {
        t.nanos
    };
    let mut name = String::new();
    push_stem(&mut name, t);
    push_char(&mut name, '-');
    push_char(&mut name, 'n');
    push_decimal(&mut name, nanos as u64);
    push_str(&mut name, ".patch");
    assert(name@ =~= nanos_name(t));
    name
}

/// `YYYY-MM-DD HH:MM` (UTC) of `t`, or `?` for an unknown time.
pub open spec fn time_text(t: Option<Timestamp>) -> Seq<char> {
    match t {
        Some(t) => {
            let (y, mo, d, hh, mi, _) = utc_fields(t);
            padded(y as nat, 4) + seq!['-'] + padded(mo as nat, 2) + seq!['-'] + padded(d as nat, 2)
                + seq![' '] + padded(hh as nat, 2) + seq![':'] + padded(mi as nat, 2)
        },
        None => seq!['?'],
    }
}

/// `YYYY-MM-DD HH:MM` (UTC) for the list's modification column.
pub fn format_time(t: Option<Timestamp>) -> (r: String)
    ensures
        r@ == time_text(t),
{
    let mut s = String::new();
    match t {
        Some(t) => {
            let (y, mo, d, hh, mi, _) = utc_ymd_hms(t);
            push_padded(&mut s, y as u64, 4);
            push_char(&mut s, '-');
            push_padded(&mut s, mo, 2);
            push_char(&mut s, '-');
            push_padded(&mut s, d, 2);
            push_char(&mut s, ' ');
            push_padded(&mut s, hh, 2);
            push_char(&mut s, ':');
            push_padded(&mut s, mi, 2);
            assert(s@ =~= time_text(Some(t)));
        },
        None => {
            push_char(&mut s, '?');
            assert(s@ =~= seq!['?']);
        },
    }
    s
}

// ---------------------------------------------------------------------
// The patches tab
// ---------------------------------------------------------------------

/// The key hints of the patches tab.
pub fn hints() -> (r: &'static str)
    ensures
        r@ == "enter/p preview  a apply  d delete  P new patch  F5/R refresh"@,
{
    "enter/p preview  a apply  d delete  P new patch  F5/R refresh"
}

/// The value of the patches tab.
pub struct PatchesState {
    pub dir: Seq<char>,
    pub entries: Seq<PatchFile>,
    pub selection: int,
    pub scroll: int,
    pub queue: Seq<InternalEvent>,
    /// The directory listing should be read again
    pub reload: bool,
}

/// The selected patch file, if any.
pub open spec fn selected_patch(s: PatchesState) -> Option<PatchFile> {
    if 0 <= s.selection < s.entries.len() {
        Some(s.entries[s.selection])
    } else {
        None
    }
}

/// The tab after a new listing `r` (already in list order): the
/// selection stays, kept on the list.
pub open spec fn relisted(s: PatchesState, r: Seq<PatchFile>) -> PatchesState {
    PatchesState {
        entries: r,
        selection: if s.selection >= r.len() {
            if r.len() == 0 {
                0
            } else {
                r.len() - 1
            }
        } else {
            s.selection
        },
        reload: false,
        ..s
    }
}

/// The selection moved by `delta`, kept on the list.
pub open spec fn patches_moved(s: PatchesState, delta: int) -> PatchesState {
    let len = s.entries.len() as int;
    if len == 0 {
        s
    } else {
        let t = if s.selection + delta < 0 {
            0
        } else {
            s.selection + delta
        };
        PatchesState { selection: if t < len { t } else { len - 1 }, ..s }
    }
}

/// What the patches tab does with a key.
pub enum PatchesAction {
    Move(int),
    Top,
    Bottom,
    /// Preview the selected patch
    Preview,
    /// Ask to apply the selected patch
    Apply,
    /// Ask to delete the selected patch
    Delete,
    Reload,
    Help,
    Switch(Tab),
    /// A key of this tab with nothing to do
    Nothing,
    Ignore,
}

/// The patches tab's key bindings, in the order they are tried.
pub open spec fn patches_action(k: KeyEvent) -> PatchesAction {
    if binds(k, KeyAction::MoveUp) {
        PatchesAction::Move(-1)
    } else if binds(k, KeyAction::MoveDown) {
        PatchesAction::Move(1)
    } else if binds(k, KeyAction::PageUp) {
        PatchesAction::Move(-20)
    } else if binds(k, KeyAction::PageDown) {
        PatchesAction::Move(20)
    } else if binds(k, KeyAction::Home) {
        PatchesAction::Top
    } else if binds(k, KeyAction::End) {
        PatchesAction::Bottom
    } else if binds(k, KeyAction::Enter) || binds(k, KeyAction::PreviewPatch) {
        PatchesAction::Preview
    } else if binds(k, KeyAction::ApplyPatch) {
        PatchesAction::Apply
    } else if binds(k, KeyAction::DeletePatch) {
        PatchesAction::Delete
    } else if binds(k, KeyAction::Refresh) {
        PatchesAction::Reload
    } else if binds(k, KeyAction::Help) {
        PatchesAction::Help
    } else if binds(k, KeyAction::Escape) || binds(k, KeyAction::SwitchTabStatus) {
        PatchesAction::Switch(Tab::Status)
    } else if binds(k, KeyAction::SwitchTabLog) {
        PatchesAction::Switch(Tab::Log)
    } else if binds(k, KeyAction::SwitchTabPatches) {
        PatchesAction::Nothing
    } else {
        PatchesAction::Ignore
    }
}

/// The event `e` asks for the action `a` on the patch file `f`.
pub open spec fn is_patch_request(e: InternalEvent, a: PatchesAction, f: PatchFile) -> bool {
    match a {
        PatchesAction::Preview => e matches InternalEvent::PreviewPatch(p) && p@ == f.path@,
        PatchesAction::Apply => e matches InternalEvent::Confirm(ConfirmAction::ApplyPatch(p)) && p@ == f.path@,
        PatchesAction::Delete => e matches InternalEvent::Confirm(ConfirmAction::DeletePatch(p)) && p@ == f.path@,
        _ => false,
    }
}

/// The tab after the key `k`: `new_s` is what `old_s` becomes.
pub open spec fn patches_after(old_s: PatchesState, new_s: PatchesState, k: KeyEvent) -> bool {
    match patches_action(k) {
        PatchesAction::Move(d) => new_s == patches_moved(old_s, d),
        PatchesAction::Top => new_s == (PatchesState { selection: 0, ..old_s }),
        PatchesAction::Bottom => new_s == (PatchesState {
            selection: if old_s.entries.len() == 0 {
                0
            } else {
                old_s.entries.len() - 1
            },
            ..old_s
        }),
        PatchesAction::Preview | PatchesAction::Apply | PatchesAction::Delete => match selected_patch(old_s) {
            Some(f) => new_s == (PatchesState { queue: new_s.queue, ..old_s }) && new_s.queue.len() == old_s.queue.len() + 1
                && new_s.queue.drop_last() == old_s.queue && is_patch_request(new_s.queue.last(), patches_action(k), f),
            None => new_s == old_s,
        },
        PatchesAction::Reload => new_s == (PatchesState { reload: true, ..old_s }),
        PatchesAction::Help => new_s == (PatchesState { queue: old_s.queue.push(InternalEvent::OpenHelp), ..old_s }),
        PatchesAction::Switch(t) => new_s == (PatchesState {
            queue: old_s.queue.push(InternalEvent::SwitchTab(t)),
            ..old_s
        }),
        PatchesAction::Nothing | PatchesAction::Ignore => new_s == old_s,
    }
}

/// The saved patches tab.
pub struct PatchesComponent {
    dir: String,
    entries: Vec<PatchFile>,
    selection: usize,
    scroll: usize,
    queue: Queue,
    reload: bool,
}

impl View for PatchesComponent {
    type V = PatchesState;

    closed spec fn view(&self) -> PatchesState {
        PatchesState {
            dir: self.dir@,
            entries: self.entries@,
            selection: self.selection as int,
            scroll: self.scroll as int,
            queue: self.queue@,
            reload: self.reload,
        }
    }
}

impl PatchesComponent {
    /// A tab on the directory `dir`, listing `listing` (as read from it).
    pub fn with_dir(dir: String, listing: Vec<PatchFile>) -> (c: PatchesComponent)
        ensures
            c@.dir == dir@,
            newest_first(c@.entries, listing@),
            c@.selection == 0 && c@.scroll == 0,
            c@.queue == Seq::<InternalEvent>::empty(),
            !c@.reload,
    {
        let mut c = PatchesComponent {
            dir,
            entries: Vec::new(),
            selection: 0,
            scroll: 0,
            queue: Queue::new(),
            reload: false,
        };
        c.refresh(listing);
        c
    }

    /// The patch directory.
    pub fn dir(&self) -> (d: &str)
        ensures
            d@ == self@.dir,
    {
        self.dir.as_str()
    }

    /// Point the tab at a different directory, listing `listing`.
    pub fn set_dir(&mut self, dir: String, listing: Vec<PatchFile>)
        ensures
            final(self)@.dir == dir@,
            newest_first(final(self)@.entries, listing@),
            final(self)@.selection == 0 && final(self)@.scroll == 0,
            final(self)@.queue == old(self)@.queue,
            !final(self)@.reload,
    {
        self.dir = dir;
        self.selection = 0;
        self.scroll = 0;
        self.refresh(listing);
    }

    /// Show a fresh listing of the directory (newest first); the
    /// selection stays, kept on the list.
    pub fn refresh(&mut self, listing: Vec<PatchFile>)
        ensures
            exists|r: Seq<PatchFile>| newest_first(r, listing@) && final(self)@ == relisted(old(self)@, r),
    {
        let sorted = sort_newest_first(listing);
        let ghost r = sorted@;
        self.entries = sorted;
        if self.selection >= self.entries.len() {
            self.selection = if self.entries.len() == 0 {
                0
            } else {
                self.entries.len() - 1
            };
        }
        self.reload = false;
        assert(self@ == relisted(old(self)@, r));
    }

    /// Whether a key asked for the listing to be read again; clears the
    /// request.
    pub fn take_reload(&mut self) -> (b: bool)
        ensures
            b == old(self)@.reload,
            final(self)@ == (PatchesState { reload: false, ..old(self)@ }),
    {
        let b = self.reload;
        self.reload = false;
        b
    }

    /// The listed patch files.
    pub fn entries(&self) -> (v: &[PatchFile])
        ensures
            v@ == self@.entries,
    {
        self.entries.as_slice()
    }

    /// The selected row.
    pub fn selection(&self) -> (i: usize)
        ensures
            i == self@.selection,
    {
        self.selection
    }

    /// The first row shown.
    pub fn scroll(&self) -> (n: usize)
        ensures
            n == self@.scroll,
    {
        self.scroll
    }

    /// Remember the first row shown.
    pub fn set_scroll(&mut self, n: usize)
        ensures
            final(self)@ == (PatchesState { scroll: n as int, ..old(self)@ }),
    {
        self.scroll = n;
    }

    /// The selected patch file.
    pub fn selection_entry(&self) -> (r: Option<&PatchFile>)
        ensures
            match r {
                Some(f) => selected_patch(self@) == Some(*f),
                None => selected_patch(self@) is None,
            },
    {
        if self.selection < self.entries.len() {
            Some(&self.entries[self.selection])
        } else {
            None
        }
    }

    /// Take the queued requests, oldest first.
    pub fn take_events(&mut self) -> (v: Vec<InternalEvent>)
        ensures
            v@ == old(self)@.queue,
            final(self)@ == (PatchesState { queue: Seq::empty(), ..old(self)@ }),
    {
        self.queue.drain()
    }

    /// Move the selection by `delta` rows, kept on the list.
    pub fn move_selection(&mut self, delta: isize)
        ensures
            final(self)@ == patches_moved(old(self)@, delta as int),
    {
        let len = self.entries.len();
        if len == 0 {
            return;
        }
        let sel = self.selection;
        let target: usize = if delta < 0 {
            let d: usize = ((-(delta + 1)) as usize) + 1;
            if sel >= d {
                sel - d
            } else {
                0
            }
        } else {
            let d: usize = delta as usize;
            if sel >= len || d >= len - sel {
                len
            } else {
                sel + d
            }
        };
        self.selection = if target < len {
            target
        } else {
            len - 1
        };
    }

    /// Queue the request for the selected patch file (see
    /// [`is_patch_request`]).
    fn request(&mut self, what: u8)
        requires
            what < 3,
        ensures
            ({
                let a = if what == 0 {
                    PatchesAction::Preview
                } else if what == 1 {
                    PatchesAction::Apply
                } else {
                    PatchesAction::Delete
                };
                match selected_patch(old(self)@) {
                    Some(f) => final(self)@ == (PatchesState { queue: final(self)@.queue, ..old(self)@ })
                        && final(self)@.queue.len() == old(self)@.queue.len() + 1 && final(self)@.queue.drop_last()
                        == old(self)@.queue && is_patch_request(final(self)@.queue.last(), a, f),
                    None => final(self)@ == old(self)@,
                }
            }),
    {
        if self.selection < self.entries.len() {
            let path = self.entries[self.selection].path.clone();
            let e = if what == 0 {
                InternalEvent::PreviewPatch(path)
            } else if what == 1 {
                InternalEvent::Confirm(ConfirmAction::ApplyPatch(path))
            } else {
                InternalEvent::Confirm(ConfirmAction::DeletePatch(path))
            };
            let ghost q0 = self.queue@;
            self.queue.push(e);
            assert(self.queue@.drop_last() =~= q0);
        }
    }

    /// Handle an input event (see [`patches_action`]).
    pub fn event(&mut self, ev: &Event) -> (r: Result<EventState, String>)
        ensures
            match *ev {
                Event::Key(k) => patches_after(old(self)@, final(self)@, k) && r == Ok::<EventState, String>(
                    EventState { consumed: !(patches_action(k) is Ignore) },
                ),
                _ => final(self)@ == old(self)@ && r == Ok::<EventState, String>(EventState { consumed: false }),
            },
    {
        let k = match ev {
            Event::Key(k) => k,
            _ => {
                return Ok(EventState::not_consumed());
            },
        };
        if key_match(k, KeyAction::MoveUp) {
            self.move_selection(-1);
        } else if key_match(k, KeyAction::MoveDown) {
            self.move_selection(1);
        } else if key_match(k, KeyAction::PageUp) {
            self.move_selection(-20);
        } else if key_match(k, KeyAction::PageDown) {
            self.move_selection(20);
        } else if key_match(k, KeyAction::Home) {
            self.selection = 0;
        } else if key_match(k, KeyAction::End) {
            self.selection = if self.entries.len() == 0 {
                0
            } else {
                self.entries.len() - 1
            };
        } else if key_match(k, KeyAction::Enter) || key_match(k, KeyAction::PreviewPatch) {
            self.request(0);
        } else if key_match(k, KeyAction::ApplyPatch) {
            self.request(1);
        } else if key_match(k, KeyAction::DeletePatch) {
            self.request(2);
        } else if key_match(k, KeyAction::Refresh) {
            self.reload = true;
        } else if key_match(k, KeyAction::Help) {
            self.queue.push(InternalEvent::OpenHelp);
        } else if key_match(k, KeyAction::Escape) || key_match(k, KeyAction::SwitchTabStatus) {
            self.queue.push(InternalEvent::SwitchTab(Tab::Status));
        } else if key_match(k, KeyAction::SwitchTabLog) {
            self.queue.push(InternalEvent::SwitchTab(Tab::Log));
        } else if key_match(k, KeyAction::SwitchTabPatches) {
            // already on the patches tab
        } else {
            return Ok(EventState::not_consumed());
        }
        Ok(EventState::consumed())
    }
}

} // verus!
