//! Lexicographic order on integer sequences, and a merge sort of indices
//! by such keys.

use vstd::prelude::*;
use vstd::multiset::Multiset;

verus! {

broadcast use vstd::seq_lib::group_to_multiset_ensures;

/// Lexicographic order: `a` sorts before or with `b` (a proper prefix
/// sorts first).
pub open spec fn lex_le(a: Seq<u32>, b: Seq<u32>) -> bool
    decreases a.len(),
{
    if a.len() == 0 {
        true
    } else if b.len() == 0 {
        false
    } else if a[0] < b[0] {
        true
    } else if a[0] > b[0] {
        false
    } else {
        lex_le(a.drop_first(), b.drop_first())
    }
}

/// Strictly before in lexicographic order.
pub open spec fn lex_lt(a: Seq<u32>, b: Seq<u32>) -> bool {
    lex_le(a, b) && a != b
}

pub proof fn lemma_lex_total(a: Seq<u32>, b: Seq<u32>)
    ensures
        lex_le(a, b) || lex_le(b, a),
    decreases a.len(),
{
    if a.len() > 0 && b.len() > 0 && a[0] == b[0] {
        lemma_lex_total(a.drop_first(), b.drop_first());
    }
}

pub proof fn lemma_lex_antisymmetric(a: Seq<u32>, b: Seq<u32>)
    requires
        lex_le(a, b),
        lex_le(b, a),
    ensures
        a == b,
    decreases a.len(),
{
    if a.len() == 0 {
        assert(b.len() == 0);
        assert(a =~= b);
    } else {
        lemma_lex_antisymmetric(a.drop_first(), b.drop_first());
        assert(a =~= seq![a[0]] + a.drop_first());
        assert(b =~= seq![b[0]] + b.drop_first());
    }
}

pub proof fn lemma_lex_transitive(a: Seq<u32>, b: Seq<u32>, c: Seq<u32>)
    requires
        lex_le(a, b),
        lex_le(b, c),
    ensures
        lex_le(a, c),
    decreases a.len(),
{
    if a.len() > 0 && b.len() > 0 && c.len() > 0 && a[0] == b[0] && b[0] == c[0] {
        lemma_lex_transitive(a.drop_first(), b.drop_first(), c.drop_first());
    }
}

pub proof fn lemma_lex_reflexive(a: Seq<u32>)
    ensures
        lex_le(a, a),
    decreases a.len(),
{
    if a.len() > 0 {
        lemma_lex_reflexive(a.drop_first());
    }
}

/// `lex_le(a, b)`, computed.
pub fn lex_leq(a: &Vec<u32>, b: &Vec<u32>) -> (r: bool)
    ensures
        r == lex_le(a@, b@),
{
    let mut i: usize = 0;
    assert(a@.skip(0) =~= a@);
    assert(b@.skip(0) =~= b@);
    while i < a.len() && i < b.len() && a[i] == b[i]
        invariant
            i <= a@.len(),
            i <= b@.len(),
            lex_le(a@, b@) == lex_le(a@.skip(i as int), b@.skip(i as int)),
        decreases a.len() - i,
    {
        assert(a@.skip(i as int).drop_first() =~= a@.skip(i + 1));
        assert(b@.skip(i as int).drop_first() =~= b@.skip(i + 1));
        i = i + 1;
    }
    if i == a.len() {
        true
    } else if i == b.len() {
        false
    } else {
        assert(a@.skip(i as int)[0] == a@[i as int]);
        assert(b@.skip(i as int)[0] == b@[i as int]);
        a[i] < b[i]
    }
}

/// The key views of a key table.
pub open spec fn key_views(keys: Seq<Vec<u32>>) -> Seq<Seq<u32>> {
    keys.map_values(|k: Vec<u32>| k@)
}

/// The indices `r` are ordered by their keys in `kv`.
pub open spec fn sorted_by_keys(kv: Seq<Seq<u32>>, r: Seq<usize>) -> bool {
    forall|i: int, j: int| 0 <= i < j < r.len() ==> lex_le(#[trigger] kv[r[i] as int], #[trigger] kv[r[j] as int])
}

/// Every index of `r` has a key in `kv`.
pub open spec fn indices_in(kv: Seq<Seq<u32>>, r: Seq<usize>) -> bool {
    forall|i: int| 0 <= i < r.len() ==> #[trigger] r[i] < kv.len()
}

/// Merge two key-ordered index lists into one.
fn merge(keys: &Vec<Vec<u32>>, a: &Vec<usize>, b: &Vec<usize>) -> (r: Vec<usize>)
    requires
        indices_in(key_views(keys@), a@),
        indices_in(key_views(keys@), b@),
        sorted_by_keys(key_views(keys@), a@),
        sorted_by_keys(key_views(keys@), b@),
    ensures
        r@.to_multiset() == a@.to_multiset().add(b@.to_multiset()),
        r@.len() == a@.len() + b@.len(),
        indices_in(key_views(keys@), r@),
        sorted_by_keys(key_views(keys@), r@),
{
    let ghost kv = key_views(keys@);
    let mut r: Vec<usize> = Vec::new();
    let mut i: usize = 0;
    let mut j: usize = 0;
    while i < a.len() || j < b.len()
        invariant
            kv == key_views(keys@),
            indices_in(kv, a@),
            indices_in(kv, b@),
            sorted_by_keys(kv, a@),
            sorted_by_keys(kv, b@),
            i <= a@.len(),
            j <= b@.len(),
            r@.len() == i + j,
            r@.to_multiset() == a@.take(i as int).to_multiset().add(b@.take(j as int).to_multiset()),
            indices_in(kv, r@),
            sorted_by_keys(kv, r@),
            r@.len() > 0 && i < a@.len() ==> lex_le(kv[r@.last() as int], kv[a@[i as int] as int]),
            r@.len() > 0 && j < b@.len() ==> lex_le(kv[r@.last() as int], kv[b@[j as int] as int]),
        decreases a.len() + b.len() - i - j,
    {
        let take_a = if i == a.len() {
            false
        } else if j == b.len() {
            true
        } else {
            lex_leq(&keys[a[i]], &keys[b[j]])
        };
        let ghost old_r = r@;
        if take_a {
            let x = a[i];
            proof {
                if j < b@.len() {
                    lemma_lex_total(kv[x as int], kv[b@[j as int] as int]);
                }
                if i + 1 < a@.len() {
                    assert(lex_le(kv[a@[i as int] as int], kv[a@[i + 1] as int]));
                }
                assert forall|p: int, q: int| 0 <= p < q < old_r.len() + 1 implies lex_le(
                    #[trigger] kv[old_r.push(x)[p] as int],
                    #[trigger] kv[old_r.push(x)[q] as int],
                ) by {
                    if q == old_r.len() {
                        if p < old_r.len() - 1 {
                            assert(lex_le(kv[old_r[p] as int], kv[old_r.last() as int]));
                            lemma_lex_transitive(kv[old_r[p] as int], kv[old_r.last() as int], kv[x as int]);
                        }
                    } else {
                        assert(old_r.push(x)[p] == old_r[p]);
                        assert(old_r.push(x)[q] == old_r[q]);
                    }
                }
                assert(a@.take(i + 1) =~= a@.take(i as int).push(x));
            }
            r.push(x);
            i = i + 1;
        } else {
            let x = b[j];
            proof {
                if i < a@.len() {
                    lemma_lex_total(kv[x as int], kv[a@[i as int] as int]);
                }
                if j + 1 < b@.len() {
                    assert(lex_le(kv[b@[j as int] as int], kv[b@[j + 1] as int]));
                }
                assert forall|p: int, q: int| 0 <= p < q < old_r.len() + 1 implies lex_le(
                    #[trigger] kv[old_r.push(x)[p] as int],
                    #[trigger] kv[old_r.push(x)[q] as int],
                ) by {
                    if q == old_r.len() {
                        if p < old_r.len() - 1 {
                            assert(lex_le(kv[old_r[p] as int], kv[old_r.last() as int]));
                            lemma_lex_transitive(kv[old_r[p] as int], kv[old_r.last() as int], kv[x as int]);
                        }
                    } else {
                        assert(old_r.push(x)[p] == old_r[p]);
                        assert(old_r.push(x)[q] == old_r[q]);
                    }
                }
                assert(b@.take(j + 1) =~= b@.take(j as int).push(x));
            }
            r.push(x);
            j = j + 1;
        }
    }
    assert(a@.take(a@.len() as int) =~= a@);
    assert(b@.take(b@.len() as int) =~= b@);
    r
}

/// The indices `idx`, reordered by their keys (ascending, lexicographic).
pub fn sort_by_keys(keys: &Vec<Vec<u32>>, idx: Vec<usize>) -> (r: Vec<usize>)
    requires
        indices_in(key_views(keys@), idx@),
    ensures
        r@.to_multiset() == idx@.to_multiset(),
        r@.len() == idx@.len(),
        indices_in(key_views(keys@), r@),
        sorted_by_keys(key_views(keys@), r@),
    decreases idx@.len(),
{
    let n = idx.len();
    if n <= 1 {
        return idx;
    }
    let mid = n / 2;
    let mut left: Vec<usize> = Vec::new();
    let mut right: Vec<usize> = Vec::new();
    let mut k: usize = 0;
    while k < n
        invariant
            n == idx@.len(),
            mid <= n,
            k <= n,
            k <= mid ==> left@ == idx@.take(k as int) && right@.len() == 0,
            k > mid ==> left@ == idx@.take(mid as int) && right@ == idx@.subrange(
                mid as int,
                k as int,
            ),
        decreases n - k,
    {
        if k < mid {
            left.push(idx[k]);
            assert(idx@.take(k + 1) =~= idx@.take(k as int).push(idx@[k as int]));
        } else {
            right.push(idx[k]);
            assert(idx@.subrange(mid as int, k + 1) =~= idx@.subrange(mid as int, k as int).push(
                idx@[k as int],
            ));
        }
        k = k + 1;
    }
    proof {
        assert(idx@ =~= left@ + right@);
        vstd::seq_lib::lemma_multiset_commutative(left@, right@);
        assert forall|i: int| 0 <= i < left@.len() implies #[trigger] left@[i] < key_views(
            keys@,
        ).len() by {
            assert(left@[i] == idx@[i]);
        }
        assert forall|i: int| 0 <= i < right@.len() implies #[trigger] right@[i] < key_views(
            keys@,
        ).len() by {
            assert(right@[i] == idx@[mid + i]);
        }
    }
    let sl = sort_by_keys(keys, left);
    let sr = sort_by_keys(keys, right);
    merge(keys, &sl, &sr)
}

/// The indices `0..n`.
pub open spec fn range_seq(n: nat) -> Seq<usize> {
    Seq::new(n, |i: int| i as usize)
}

/// Sorting a permutation of `0..n` puts each index `< n` in exactly one
/// place.
pub proof fn lemma_permutation_covers(r: Seq<usize>, n: nat, k: usize)
    requires
        n <= usize::MAX + 1,
        r.to_multiset() == range_seq(n).to_multiset(),
        k < n,
    ensures
        r.contains(k),
{
    assert(range_seq(n)[k as int] == k);
    assert(range_seq(n).contains(k));
    assert(range_seq(n).to_multiset().count(k) > 0);
    assert(r.to_multiset().count(k) > 0);
}

/// In a permutation of `0..n` no index occurs twice.
pub proof fn lemma_permutation_distinct(r: Seq<usize>, n: nat)
    requires
        n <= usize::MAX + 1,
        r.to_multiset() == range_seq(n).to_multiset(),
    ensures
        forall|i: int, j: int| 0 <= i < j < r.len() ==> r[i] != r[j],
        forall|i: int| 0 <= i < r.len() ==> r[i] < n,
{
    lemma_range_no_duplicates(n);
    range_seq(n).unique_seq_to_set();
    assert forall|i: int, j: int| 0 <= i < j < r.len() implies r[i] != r[j] by {
        if r[i] == r[j] {
            let x = r[i];
            lemma_count_at_least_two(r, i, j);
            assert(range_seq(n).to_multiset().count(x) <= 1) by {
                range_seq(n).lemma_multiset_has_no_duplicates();
            }
        }
    }
    assert forall|i: int| 0 <= i < r.len() implies r[i] < n by {
        assert(r.contains(r[i]));
        assert(r.to_multiset().count(r[i]) > 0);
        assert(range_seq(n).to_multiset().count(r[i]) > 0);
        assert(range_seq(n).contains(r[i]));
    }
}

proof fn lemma_range_no_duplicates(n: nat)
    requires
        n <= usize::MAX + 1,
    ensures
        range_seq(n).no_duplicates(),
{
}

proof fn lemma_count_at_least_two(r: Seq<usize>, i: int, j: int)
    requires
        0 <= i < j < r.len(),
        r[i] == r[j],
    ensures
        r.to_multiset().count(r[i]) >= 2,
    decreases r.len(),
{
    let x = r[i];
    if j == r.len() - 1 {
        let s = r.drop_last();
        assert(r =~= s.push(x));
        assert(s.contains(x)) by {
            assert(s[i] == x);
        }
        assert(s.to_multiset().count(x) >= 1);
    } else {
        let s = r.drop_last();
        assert(r =~= s.push(r.last()));
        assert(s[i] == x && s[j] == x);
        lemma_count_at_least_two(s, i, j);
    }
}

} // verus!
