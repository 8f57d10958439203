//! A set of paths kept as a list sorted by path, char by char, each path
//! once: membership by binary search, bulk changes by sorting.

use vstd::prelude::*;
use crate::order::{
    key_views, lemma_lex_antisymmetric, lemma_lex_reflexive, lemma_lex_total, lemma_lex_transitive,
    lemma_permutation_covers, lemma_permutation_distinct, lex_le, lex_leq, lex_lt, range_seq,
    sort_by_keys,
};
use crate::text::{chars_of, texts};

verus! {

broadcast use vstd::seq_lib::group_to_multiset_ensures;

/// The char codes of `q`: the key paths are ordered and found by.
pub open spec fn path_key(q: Seq<char>) -> Seq<u32> {
    q.map_values(|c: char| c as u32)
}

/// Different paths have different keys.
pub proof fn lemma_path_key_injective(a: Seq<char>, b: Seq<char>)
    requires
        path_key(a) == path_key(b),
    ensures
        a == b,
{
    assert(a.len() == path_key(a).len());
    assert forall|i: int| 0 <= i < a.len() implies a[i] == b[i] by {
        assert(path_key(a)[i] == path_key(b)[i]);
        let x = a[i];
        let y = b[i];
        assert(path_key(a)[i] == (x as u32));
        assert(path_key(b)[i] == (y as u32));
        vstd::utf8::char_u32_cast(x, x as u32);
        vstd::utf8::char_u32_cast(y, y as u32);
    }
    assert(a =~= b);
}

/// Strict lexicographic order is transitive.
pub proof fn lemma_lex_lt_transitive(a: Seq<u32>, b: Seq<u32>, c: Seq<u32>)
    requires
        lex_lt(a, b),
        lex_lt(b, c),
    ensures
        lex_lt(a, c),
{
    lemma_lex_transitive(a, b, c);
    if a == c {
        lemma_lex_antisymmetric(a, b);
    }
}

/// `v` is sorted by key, strictly: each path once.
pub open spec fn strictly_sorted(v: Seq<Seq<char>>) -> bool {
    forall|i: int, j: int| 0 <= i < j < v.len() ==> lex_lt(path_key(#[trigger] v[i]), path_key(#[trigger] v[j]))
}

/// `path_key(s)`, computed.
pub fn key_of(s: &String) -> (r: Vec<u32>)
    ensures
        r@ == path_key(s@),
{
    let v = chars_of(s.as_str());
    let mut out: Vec<u32> = Vec::new();
    let mut j: usize = 0;
    while j < v.len()
        invariant
            j <= v@.len(),
            v@ == s@,
            out@ == path_key(v@.take(j as int)),
        decreases v.len() - j,
    {
        out.push(v[j] as u32);
        assert(v@.take(j + 1) =~= v@.take(j as int).push(v@[j as int]));
        assert(out@ =~= path_key(v@.take(j + 1)));
        j = j + 1;
    }
    assert(v@.take(j as int) =~= v@);
    out
}

/// Equal keys.
fn same_key(a: &Vec<u32>, b: &Vec<u32>) -> (r: bool)
    ensures
        r == (a@ == b@),
{
    if a.len() != b.len() {
        return false;
    }
    let mut i: usize = 0;
    while i < a.len()
        invariant
            a@.len() == b@.len(),
            i <= a@.len(),
            forall|j: int| 0 <= j < i ==> a@[j] == b@[j],
        decreases a.len() - i,
    {
        if a[i] != b[i] {
            return false;
        }
        i = i + 1;
    }
    assert(a@ =~= b@);
    true
}

/// A set of paths.
pub struct PathSet {
    /// The paths, sorted strictly by key
    items: Vec<String>,
    /// The key of each path
    keys: Vec<Vec<u32>>,
}

impl View for PathSet {
    type V = Set<Seq<char>>;

    closed spec fn view(&self) -> Set<Seq<char>> {
        texts(self.items@).to_set()
    }
}

impl PathSet {
    /// The paths in order.
    pub closed spec fn list(&self) -> Seq<Seq<char>> {
        texts(self.items@)
    }

    /// The list is sorted strictly and the keys are those of the paths.
    pub closed spec fn wf(&self) -> bool {
        &&& strictly_sorted(texts(self.items@))
        &&& self.keys@.len() == self.items@.len()
        &&& forall|i: int| 0 <= i < self.keys@.len() ==> (#[trigger] self.keys@[i])@ == path_key(self.items@[i]@)
    }

    /// The list holds the set, sorted, each path once.
    pub proof fn lemma_list(&self)
        requires
            self.wf(),
        ensures
            self.list().to_set() == self@,
            strictly_sorted(self.list()),
            self.list().no_duplicates(),
            self.list().len() == self@.len(),
    {
        let l = self.list();
        assert forall|i: int, j: int| 0 <= i < j < l.len() implies l[i] != l[j] by {
            assert(lex_lt(path_key(l[i]), path_key(l[j])));
        }
        l.unique_seq_to_set();
    }

    /// The empty set.
    pub fn new() -> (s: PathSet)
        ensures
            s.wf(),
            s@ == Set::<Seq<char>>::empty(),
    {
        let s = PathSet { items: Vec::new(), keys: Vec::new() };
        assert(texts(s.items@) =~= Seq::<Seq<char>>::empty());
        assert(s@ =~= Set::<Seq<char>>::empty());
        s
    }

    /// The number of paths.
    pub fn len(&self) -> (n: usize)
        requires
            self.wf(),
        ensures
            n == self@.len(),
    {
        proof {
            self.lemma_list();
        }
        self.items.len()
    }

    /// The paths, sorted by key.
    pub fn as_slice(&self) -> (v: &[String])
        requires
            self.wf(),
        ensures
            texts(v@) == self.list(),
    {
        self.items.as_slice()
    }

    /// Where the key `key` goes: the number of paths with a smaller key,
    /// and whether the next one has this key.
    fn search(&self, key: &Vec<u32>) -> (r: (bool, usize))
        requires
            self.wf(),
        ensures
            r.1 <= self.items@.len(),
            forall|i: int| 0 <= i < r.1 ==> lex_lt(path_key(#[trigger] self.list()[i]), key@),
            forall|i: int| r.1 <= i < self.items@.len() ==> lex_le(key@, path_key(#[trigger] self.list()[i])),
            r.0 == (r.1 < self.items@.len() && path_key(self.list()[r.1 as int]) == key@),
    {
        let ghost l = self.list();
        let mut lo: usize = 0;
        let mut hi: usize = self.items.len();
        while lo < hi
            invariant
                l == self.list(),
                self.wf(),
                lo <= hi <= self.items@.len(),
                forall|i: int| 0 <= i < lo ==> lex_lt(path_key(#[trigger] l[i]), key@),
                forall|i: int| hi <= i < self.items@.len() ==> lex_le(key@, path_key(#[trigger] l[i])),
            decreases hi - lo,
        {
            let mid = lo + (hi - lo) / 2;
            assert(self.keys@[mid as int]@ == path_key(l[mid as int]));
            if lex_leq(key, &self.keys[mid]) {
                proof {
                    assert forall|i: int| mid <= i < self.items@.len() implies lex_le(key@, path_key(#[trigger] l[i])) by {
                        if i > mid {
                            assert(lex_lt(path_key(l[mid as int]), path_key(l[i])));
                            lemma_lex_transitive(key@, path_key(l[mid as int]), path_key(l[i]));
                        }
                    }
                }
                hi = mid;
            } else {
                proof {
                    lemma_lex_total(key@, path_key(l[mid as int]));
                    assert forall|i: int| 0 <= i < mid + 1 implies lex_lt(path_key(#[trigger] l[i]), key@) by {
                        if i < mid {
                            assert(lex_lt(path_key(l[i]), path_key(l[mid as int])));
                            lemma_lex_lt_transitive(path_key(l[i]), path_key(l[mid as int]), key@);
                        }
                    }
                }
                lo = mid + 1;
            }
        }
        if lo < self.items.len() {
            assert(self.keys@[lo as int]@ == path_key(l[lo as int]));
            (same_key(&self.keys[lo], key), lo)
        } else {
            (false, lo)
        }
    }

    /// Whether the path with key `key` is in the set.
    fn contains_key(&self, key: &Vec<u32>) -> (b: bool)
        requires
            self.wf(),
        ensures
            b == exists|p: Seq<char>| self@.contains(p) && path_key(p) == key@,
    {
        let (found, pos) = self.search(key);
        proof {
            let l = self.list();
            if found {
                assert(self@.contains(l[pos as int]));
            }
            if exists|p: Seq<char>| self@.contains(p) && path_key(p) == key@ {
                let p = choose|p: Seq<char>| self@.contains(p) && path_key(p) == key@;
                let i = choose|i: int| 0 <= i < l.len() && l[i] == p;
                if i < pos {
                    assert(lex_lt(path_key(l[i]), key@));
                } else if i > pos {
                    assert(lex_lt(path_key(l[pos as int]), path_key(l[i])));
                    lemma_lex_antisymmetric(key@, path_key(l[pos as int]));
                }
            }
        }
        found
    }

    /// Whether `p` is in the set.
    pub fn contains(&self, p: &String) -> (b: bool)
        requires
            self.wf(),
        ensures
            b == self@.contains(p@),
    {
        let key = key_of(p);
        let b = self.contains_key(&key);
        proof {
            if b {
                let q = choose|q: Seq<char>| self@.contains(q) && path_key(q) == key@;
                lemma_path_key_injective(q, p@);
            }
        }
        b
    }

    /// Add `p`.
    pub fn insert(&mut self, p: &String)
        requires
            old(self).wf(),
        ensures
            final(self).wf(),
            final(self)@ == old(self)@.insert(p@),
    {
        let key = key_of(p);
        let (found, pos) = self.search(&key);
        let ghost l = self.list();
        if found {
            proof {
                lemma_path_key_injective(l[pos as int], p@);
                assert(self@.contains(p@));
                assert(self@ =~= self@.insert(p@));
            }
            return;
        }
        self.items.insert(pos, p.clone());
        self.keys.insert(pos, key);
        proof {
            let n = l.insert(pos as int, p@);
            assert(texts(self.items@) =~= n);
            assert forall|i: int, j: int| 0 <= i < j < n.len() implies lex_lt(path_key(#[trigger] n[i]), path_key(#[trigger] n[j])) by {
                if j < pos {
                    assert(n[i] == l[i] && n[j] == l[j]);
                } else if j == pos {
                    assert(n[i] == l[i]);
                } else if i > pos {
                    assert(n[i] == l[i - 1] && n[j] == l[j - 1]);
                } else if i == pos {
                    assert(n[j] == l[j - 1]);
                    assert(lex_le(key@, path_key(l[pos as int])));
                    if j - 1 > pos {
                        assert(lex_lt(path_key(l[pos as int]), path_key(l[j - 1])));
                        lemma_lex_transitive(key@, path_key(l[pos as int]), path_key(l[j - 1]));
                        if key@ == path_key(l[j - 1]) {
                            lemma_lex_antisymmetric(key@, path_key(l[pos as int]));
                        }
                    }
                } else {
                    assert(n[i] == l[i] && n[j] == l[j - 1]);
                    assert(lex_lt(path_key(l[i]), key@));
                    assert(lex_le(key@, path_key(l[j - 1])));
                    lemma_lex_transitive(path_key(l[i]), key@, path_key(l[j - 1]));
                    if path_key(l[i]) == path_key(l[j - 1]) {
                        lemma_lex_antisymmetric(key@, path_key(l[i]));
                    }
                }
            }
            assert forall|i: int| 0 <= i < self.keys@.len() implies (#[trigger] self.keys@[i])@ == path_key(self.items@[i]@) by {
                if i < pos {
                } else if i == pos {
                } else {
                    assert(self.keys@[i] == old(self).keys@[i - 1]);
                    assert(self.items@[i] == old(self).items@[i - 1]);
                }
            }
            assert forall|x: Seq<char>| #[trigger] n.contains(x) <==> l.contains(x) || x == p@ by {
                if n.contains(x) {
                    let k = choose|k: int| 0 <= k < n.len() && n[k] == x;
                    if k < pos {
                        assert(l[k] == x);
                    } else if k > pos {
                        assert(l[k - 1] == x);
                    }
                }
                if l.contains(x) {
                    let k = choose|k: int| 0 <= k < l.len() && l[k] == x;
                    if k < pos {
                        assert(n[k] == x);
                    } else {
                        assert(n[k + 1] == x);
                    }
                }
                if x == p@ {
                    assert(n[pos as int] == x);
                }
            }
            assert(self@ =~= old(self)@.insert(p@));
        }
    }

    /// Remove `p`.
    pub fn remove(&mut self, p: &String)
        requires
            old(self).wf(),
        ensures
            final(self).wf(),
            final(self)@ == old(self)@.remove(p@),
    {
        let key = key_of(p);
        let (found, pos) = self.search(&key);
        let ghost l = self.list();
        proof {
            self.lemma_list();
        }
        if !found {
            proof {
                if self@.contains(p@) {
                    let i = choose|i: int| 0 <= i < l.len() && l[i] == p@;
                    if i < pos {
                        assert(lex_lt(path_key(l[i]), key@));
                    } else {
                        assert(lex_le(key@, path_key(l[pos as int])));
                        if i > pos {
                            assert(lex_lt(path_key(l[pos as int]), path_key(l[i])));
                        }
                        lemma_lex_antisymmetric(key@, path_key(l[pos as int]));
                    }
                }
                assert(self@ =~= self@.remove(p@));
            }
            return;
        }
        proof {
            lemma_path_key_injective(l[pos as int], p@);
        }
        self.items.remove(pos);
        self.keys.remove(pos);
        proof {
            let n = l.remove(pos as int);
            assert(texts(self.items@) =~= n);
            assert forall|i: int, j: int| 0 <= i < j < n.len() implies lex_lt(path_key(#[trigger] n[i]), path_key(#[trigger] n[j])) by {
                if j < pos {
                    assert(n[i] == l[i] && n[j] == l[j]);
                } else if i < pos {
                    assert(n[i] == l[i] && n[j] == l[j + 1]);
                } else {
                    assert(n[i] == l[i + 1] && n[j] == l[j + 1]);
                }
            }
            assert forall|i: int| 0 <= i < self.keys@.len() implies (#[trigger] self.keys@[i])@ == path_key(self.items@[i]@) by {
                if i >= pos {
                    assert(self.keys@[i] == old(self).keys@[i + 1]);
                    assert(self.items@[i] == old(self).items@[i + 1]);
                }
            }
            assert forall|x: Seq<char>| #[trigger] n.contains(x) <==> l.contains(x) && x != p@ by {
                if n.contains(x) {
                    let k = choose|k: int| 0 <= k < n.len() && n[k] == x;
                    if k < pos {
                        assert(l[k] == x);
                        assert(k != pos);
                    } else {
                        assert(l[k + 1] == x);
                    }
                }
                if l.contains(x) && x != p@ {
                    let k = choose|k: int| 0 <= k < l.len() && l[k] == x;
                    if k < pos {
                        assert(n[k] == x);
                    } else {
                        assert(k != pos);
                        assert(n[k - 1] == x);
                    }
                }
            }
            assert(self@ =~= old(self)@.remove(p@));
        }
    }

    /// Remove every path.
    pub fn clear(&mut self)
        requires
            old(self).wf(),
        ensures
            final(self).wf(),
            final(self)@ == Set::<Seq<char>>::empty(),
    {
        *self = PathSet::new();
    }

    /// The set of the paths `v`.
    pub fn from_paths(v: &[String]) -> (s: PathSet)
        ensures
            s.wf(),
            s@ == texts(v@).to_set(),
    {
        let ghost t = texts(v@);
        let mut keys: Vec<Vec<u32>> = Vec::new();
        let mut idx: Vec<usize> = Vec::new();
        let mut i: usize = 0;
        while i < v.len()
            invariant
                i <= v@.len(),
                t == texts(v@),
                keys@.len() == i,
                forall|k: int| 0 <= k < i ==> (#[trigger] keys@[k])@ == path_key(t[k]),
                idx@ == range_seq(i as nat),
            decreases v.len() - i,
        {
            keys.push(key_of(&v[i]));
            idx.push(i);
            assert(idx@ =~= range_seq((i + 1) as nat));
            i = i + 1;
        }
        proof {
            assert forall|k: int| 0 <= k < idx@.len() implies #[trigger] idx@[k] < key_views(keys@).len() by {}
        }
        let n = idx.len();
        let order = sort_by_keys(&keys, idx);
        proof {
            lemma_permutation_distinct(order@, n as nat);
        }
        let mut items: Vec<String> = Vec::new();
        let mut ks: Vec<Vec<u32>> = Vec::new();
        let mut s: usize = 0;
        while s < order.len()
            invariant
                t == texts(v@),
                n == v@.len(),
                order@.len() == n,
                keys@.len() == n,
                forall|k: int| 0 <= k < n ==> (#[trigger] keys@[k])@ == path_key(t[k]),
                forall|k: int| 0 <= k < order@.len() ==> #[trigger] order@[k] < n,
                forall|a: int, b: int| 0 <= a < b < order@.len() ==> lex_le(#[trigger] key_views(keys@)[order@[a] as int], #[trigger] key_views(keys@)[order@[b] as int]),
                s <= order@.len(),
                strictly_sorted(texts(items@)),
                ks@.len() == items@.len(),
                forall|k: int| 0 <= k < ks@.len() ==> (#[trigger] ks@[k])@ == path_key(items@[k]@),
                s > 0 ==> items@.len() > 0 && items@.last()@ == t[order@[s - 1] as int],
                s == 0 ==> items@.len() == 0,
                forall|x: Seq<char>| #[trigger] texts(items@).contains(x) <==> exists|k: int| 0 <= k < s && t[#[trigger] order@[k] as int] == x,
            decreases order.len() - s,
        {
            let o = order[s];
            let ghost li = texts(items@);
            let fresh = if items.len() == 0 {
                true
            } else {
                assert(ks@[ks@.len() - 1]@ == path_key(items@.last()@));
                !same_key(&ks[ks.len() - 1], &keys[o])
            };
            if fresh {
                proof {
                    if s > 0 {
                        let prev = t[order@[s - 1] as int];
                        assert(lex_le(key_views(keys@)[order@[s - 1] as int], key_views(keys@)[order@[s as int] as int]));
                        assert(path_key(prev) != path_key(t[o as int]));
                        assert forall|a: int| 0 <= a < li.len() implies lex_lt(path_key(#[trigger] li[a]), path_key(t[o as int])) by {
                            if a < li.len() - 1 {
                                assert(lex_lt(path_key(li[a]), path_key(li[li.len() - 1])));
                                lemma_lex_lt_transitive(path_key(li[a]), path_key(prev), path_key(t[o as int]));
                            }
                        }
                    }
                }
                items.push(v[o].clone());
                ks.push(key_of(&v[o]));
                proof {
                    let ni = texts(items@);
                    assert(ni =~= li.push(t[o as int]));
                    assert forall|a: int, b: int| 0 <= a < b < ni.len() implies lex_lt(path_key(#[trigger] ni[a]), path_key(#[trigger] ni[b])) by {
                        if b < li.len() {
                            assert(ni[a] == li[a] && ni[b] == li[b]);
                        } else {
                            assert(ni[a] == li[a]);
                        }
                    }
                    assert forall|x: Seq<char>| #[trigger] ni.contains(x) <==> exists|k: int| 0 <= k < s + 1 && t[#[trigger] order@[k] as int] == x by {
                        if ni.contains(x) {
                            let j = choose|j: int| 0 <= j < ni.len() && ni[j] == x;
                            if j < li.len() {
                                assert(li[j] == x);
                                assert(li.contains(x));
                                let k = choose|k: int| 0 <= k < s && t[#[trigger] order@[k] as int] == x;
                                assert(0 <= k < s + 1 && t[order@[k] as int] == x);
                            } else {
                                assert(t[order@[s as int] as int] == x);
                            }
                        }
                        if exists|k: int| 0 <= k < s + 1 && t[#[trigger] order@[k] as int] == x {
                            let k = choose|k: int| 0 <= k < s + 1 && t[#[trigger] order@[k] as int] == x;
                            if k < s {
                                assert(li.contains(x));
                                let j = choose|j: int| 0 <= j < li.len() && li[j] == x;
                                assert(ni[j] == x);
                            } else {
                                assert(ni[li.len() as int] == x);
                            }
                        }
                    }
                }
            } else {
                proof {
                    let prev = items@.last()@;
                    assert(path_key(prev) == path_key(t[o as int]));
                    lemma_path_key_injective(prev, t[o as int]);
                    assert forall|x: Seq<char>| #[trigger] li.contains(x) <==> exists|k: int| 0 <= k < s + 1 && t[#[trigger] order@[k] as int] == x by {
                        if exists|k: int| 0 <= k < s + 1 && t[#[trigger] order@[k] as int] == x {
                            let k = choose|k: int| 0 <= k < s + 1 && t[#[trigger] order@[k] as int] == x;
                            if k == s {
                                assert(li[li.len() - 1] == x);
                            } else {
                                assert(0 <= k < s && t[order@[k] as int] == x);
                            }
                        }
                        if li.contains(x) {
                            let k = choose|k: int| 0 <= k < s && t[#[trigger] order@[k] as int] == x;
                            assert(0 <= k < s + 1 && t[order@[k] as int] == x);
                        }
                    }
                    assert(items@.last()@ == t[order@[s as int] as int]);
                }
            }
            s = s + 1;
        }
        let out = PathSet { items, keys: ks };
        proof {
            assert forall|x: Seq<char>| #[trigger] texts(out.items@).contains(x) <==> t.contains(x) by {
                if t.contains(x) {
                    let j = choose|j: int| 0 <= j < t.len() && t[j] == x;
                    lemma_permutation_covers(order@, n as nat, j as usize);
                    let k = choose|k: int| 0 <= k < order@.len() && order@[k] == j as usize;
                    assert(t[order@[k] as int] == x);
                }
                if texts(out.items@).contains(x) {
                    let k = choose|k: int| 0 <= k < n && t[#[trigger] order@[k] as int] == x;
                    assert(t[order@[k] as int] == x);
                }
            }
            assert(out@ =~= t.to_set());
        }
        out
    }

    /// Add the paths `v`.
    pub fn insert_all(&mut self, v: &[String])
        requires
            old(self).wf(),
        ensures
            final(self).wf(),
            final(self)@ == old(self)@.union(texts(v@).to_set()),
    {
        let mut all: Vec<String> = Vec::new();
        let mut i: usize = 0;
        while i < self.items.len()
            invariant
                i <= self.items@.len(),
                texts(all@) == texts(self.items@).take(i as int),
            decreases self.items.len() - i,
        {
            let ghost pre = texts(all@);
            all.push(self.items[i].clone());
            assert(texts(all@) =~= pre.push(self.items@[i as int]@));
            assert(texts(self.items@).take(i + 1) =~= texts(self.items@).take(i as int).push(self.items@[i as int]@));
            assert(texts(all@) =~= texts(self.items@).take(i + 1));
            i = i + 1;
        }
        assert(texts(self.items@).take(i as int) =~= texts(self.items@));
        let ghost before = texts(all@);
        let mut j: usize = 0;
        while j < v.len()
            invariant
                j <= v@.len(),
                texts(all@) == before + texts(v@).take(j as int),
            decreases v.len() - j,
        {
            let ghost pre = texts(all@);
            all.push(v[j].clone());
            assert(texts(all@) =~= pre.push(v@[j as int]@));
            assert(texts(v@).take(j + 1) =~= texts(v@).take(j as int).push(v@[j as int]@));
            assert(texts(all@) =~= before + texts(v@).take(j + 1));
            j = j + 1;
        }
        assert(texts(v@).take(j as int) =~= texts(v@));
        let ghost old_set = self@;
        *self = PathSet::from_paths(all.as_slice());
        proof {
            assert forall|x: Seq<char>| #[trigger] (before + texts(v@)).contains(x) <==> before.contains(x) || texts(v@).contains(x) by {
                let c = before + texts(v@);
                if c.contains(x) {
                    let k = choose|k: int| 0 <= k < c.len() && c[k] == x;
                    if k < before.len() {
                        assert(before[k] == x);
                    } else {
                        assert(texts(v@)[k - before.len()] == x);
                    }
                }
                if before.contains(x) {
                    let k = choose|k: int| 0 <= k < before.len() && before[k] == x;
                    assert(c[k] == x);
                }
                if texts(v@).contains(x) {
                    let k = choose|k: int| 0 <= k < texts(v@).len() && texts(v@)[k] == x;
                    assert(c[before.len() + k] == x);
                }
            }
            assert(self@ =~= old_set.union(texts(v@).to_set()));
        }
    }

    /// Keep the paths that pass: `keep` says, by position in the list,
    /// which to keep.
    fn keep_where(&mut self, keep: Vec<bool>)
        requires
            old(self).wf(),
            keep@.len() == old(self).items@.len(),
        ensures
            final(self).wf(),
            forall|x: Seq<char>| #[trigger] final(self)@.contains(x) <==> exists|i: int|
                0 <= i < old(self).items@.len() && old(self).list()[i] == x && keep@[i],
    {
        let ghost l = self.list();
        let mut items: Vec<String> = Vec::new();
        let mut ks: Vec<Vec<u32>> = Vec::new();
        let mut i: usize = 0;
        while i < self.items.len()
            invariant
                l == self.list(),
                self.wf(),
                keep@.len() == self.items@.len(),
                i <= self.items@.len(),
                ks@.len() == items@.len(),
                forall|k: int| 0 <= k < ks@.len() ==> (#[trigger] ks@[k])@ == path_key(items@[k]@),
                strictly_sorted(texts(items@)),
                i < l.len() ==> forall|a: int| 0 <= a < items@.len() ==> lex_lt(path_key(#[trigger] texts(items@)[a]), path_key(l[i as int])),
                forall|x: Seq<char>| #[trigger] texts(items@).contains(x) <==> exists|b: int| 0 <= b < i && l[b] == x && keep@[b],
            decreases self.items.len() - i,
        {
            if keep[i] {
                let ghost li = texts(items@);
                items.push(self.items[i].clone());
                ks.push(self.keys[i].clone());
                proof {
                    assert(self.keys@[i as int]@ == path_key(l[i as int]));
                    let ni = texts(items@);
                    assert(ni =~= li.push(l[i as int]));
                    assert forall|a: int, b: int| 0 <= a < b < ni.len() implies lex_lt(path_key(#[trigger] ni[a]), path_key(#[trigger] ni[b])) by {
                        if b < li.len() {
                            assert(ni[a] == li[a] && ni[b] == li[b]);
                        } else {
                            assert(ni[a] == li[a]);
                        }
                    }
                    if i + 1 < l.len() {
                        assert(lex_lt(path_key(l[i as int]), path_key(l[i + 1])));
                        assert forall|a: int| 0 <= a < ni.len() implies lex_lt(path_key(#[trigger] ni[a]), path_key(l[i + 1])) by {
                            if a < li.len() {
                                assert(ni[a] == li[a]);
                                lemma_lex_lt_transitive(path_key(li[a]), path_key(l[i as int]), path_key(l[i + 1]));
                            }
                        }
                    }
                    assert forall|x: Seq<char>| #[trigger] ni.contains(x) <==> exists|b: int| 0 <= b < i + 1 && l[b] == x && keep@[b] by {
                        if ni.contains(x) {
                            let a = choose|a: int| 0 <= a < ni.len() && ni[a] == x;
                            if a < li.len() {
                                assert(li[a] == x);
                                assert(li.contains(x));
                                let b = choose|b: int| 0 <= b < i && l[b] == x && keep@[b];
                                assert(0 <= b < i + 1 && l[b] == x && keep@[b]);
                            } else {
                                assert(l[i as int] == x && keep@[i as int]);
                            }
                        }
                        if exists|b: int| 0 <= b < i + 1 && l[b] == x && keep@[b] {
                            let b = choose|b: int| 0 <= b < i + 1 && l[b] == x && keep@[b];
                            if b < i {
                                assert(li.contains(x));
                                let a = choose|a: int| 0 <= a < li.len() && li[a] == x;
                                assert(ni[a] == x);
                            } else {
                                assert(ni[li.len() as int] == x);
                            }
                        }
                    }
                }
            } else {
                proof {
                    let li = texts(items@);
                    assert forall|x: Seq<char>| #[trigger] li.contains(x) <==> exists|b: int| 0 <= b < i + 1 && l[b] == x && keep@[b] by {
                        if exists|b: int| 0 <= b < i + 1 && l[b] == x && keep@[b] {
                            let b = choose|b: int| 0 <= b < i + 1 && l[b] == x && keep@[b];
                            assert(b != i);
                            assert(0 <= b < i && l[b] == x && keep@[b]);
                        }
                        if li.contains(x) {
                            let b = choose|b: int| 0 <= b < i && l[b] == x && keep@[b];
                            assert(0 <= b < i + 1 && l[b] == x && keep@[b]);
                        }
                    }
                    if i + 1 < l.len() {
                        assert(lex_lt(path_key(l[i as int]), path_key(l[i + 1])));
                        assert forall|a: int| 0 <= a < li.len() implies lex_lt(path_key(#[trigger] li[a]), path_key(l[i + 1])) by {
                            lemma_lex_lt_transitive(path_key(li[a]), path_key(l[i as int]), path_key(l[i + 1]));
                        }
                    }
                }
            }
            i = i + 1;
        }
        *self = PathSet { items, keys: ks };
    }

    /// Remove the paths `v`.
    pub fn remove_all(&mut self, v: &[String])
        requires
            old(self).wf(),
        ensures
            final(self).wf(),
            final(self)@ == old(self)@.difference(texts(v@).to_set()),
    {
        let gone = PathSet::from_paths(v);
        let mut keep: Vec<bool> = Vec::new();
        let mut i: usize = 0;
        while i < self.items.len()
            invariant
                self.wf(),
                gone.wf(),
                gone@ == texts(v@).to_set(),
                i <= self.items@.len(),
                keep@.len() == i,
                forall|k: int| 0 <= k < i ==> #[trigger] keep@[k] == !gone@.contains(self.list()[k]),
            decreases self.items.len() - i,
        {
            let b = gone.contains_key(&self.keys[i]);
            proof {
                assert(self.keys@[i as int]@ == path_key(self.list()[i as int]));
                if b {
                    let q = choose|q: Seq<char>| gone@.contains(q) && path_key(q) == self.keys@[i as int]@;
                    lemma_path_key_injective(q, self.list()[i as int]);
                }
            }
            keep.push(!b);
            i = i + 1;
        }
        let ghost old_set = self@;
        let ghost l = self.list();
        self.keep_where(keep);
        proof {
            assert forall|x: Seq<char>| #[trigger] self@.contains(x) <==> old_set.difference(texts(v@).to_set()).contains(x) by {
                if old_set.contains(x) && !texts(v@).to_set().contains(x) {
                    let i = choose|i: int| 0 <= i < l.len() && l[i] == x;
                    assert(keep@[i]);
                }
            }
            assert(self@ =~= old_set.difference(texts(v@).to_set()));
        }
    }

    /// Keep only the paths that are also in `other`.
    pub fn retain_in(&mut self, other: &PathSet)
        requires
            old(self).wf(),
            other.wf(),
        ensures
            final(self).wf(),
            final(self)@ == old(self)@.intersect(other@),
    {
        let mut keep: Vec<bool> = Vec::new();
        let mut i: usize = 0;
        while i < self.items.len()
            invariant
                self.wf(),
                other.wf(),
                i <= self.items@.len(),
                keep@.len() == i,
                forall|k: int| 0 <= k < i ==> #[trigger] keep@[k] == other@.contains(self.list()[k]),
            decreases self.items.len() - i,
        {
            let b = other.contains_key(&self.keys[i]);
            proof {
                assert(self.keys@[i as int]@ == path_key(self.list()[i as int]));
                if b {
                    let q = choose|q: Seq<char>| other@.contains(q) && path_key(q) == self.keys@[i as int]@;
                    lemma_path_key_injective(q, self.list()[i as int]);
                }
            }
            keep.push(b);
            i = i + 1;
        }
        let ghost old_set = self@;
        let ghost l = self.list();
        self.keep_where(keep);
        proof {
            assert forall|x: Seq<char>| #[trigger] self@.contains(x) <==> old_set.intersect(other@).contains(x) by {
                if old_set.contains(x) && other@.contains(x) {
                    let i = choose|i: int| 0 <= i < l.len() && l[i] == x;
                    assert(keep@[i]);
                }
            }
            assert(self@ =~= old_set.intersect(other@));
        }
    }
}

} // verus!
