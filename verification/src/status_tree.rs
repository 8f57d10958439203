//! The status file tree: `svn status` entries grouped by directory, in
//! the order the tree pane shows them (directories first, then by name,
//! each directory followed by its contents), and the rows that are visible
//! given which directories are expanded.

use vstd::prelude::*;
use crate::models::{SpecTreeItem, StatusEntry, TreeItem, TreeItemKind};
use crate::order::{
    lemma_lex_antisymmetric, lemma_lex_reflexive, lemma_lex_total, lemma_lex_transitive, lex_lt,
    lemma_permutation_covers, lemma_permutation_distinct, lex_le, key_views, range_seq,
    sort_by_keys, sorted_by_keys, indices_in,
};
use crate::text::{chars_of, contains_text, decimal, find, find_at, starts_with, string_of, texts};
use crate::queue::{ConfirmAction, InternalEvent, Queue, Tab};
use crate::path_set::{lemma_path_key_injective, path_key, strictly_sorted, PathSet};
use crate::keys::{binds, key_match, Event, KeyAction, KeyEvent};
use crate::components::EventState;

verus! {

broadcast use vstd::seq_lib::group_to_multiset_ensures;

// ---------------------------------------------------------------------
// The tree, mathematically
// ---------------------------------------------------------------------

/// `q` names a directory above `p`: `p` continues `q` with a `/`.
pub open spec fn is_ancestor(q: Seq<char>, p: Seq<char>) -> bool {
    q.len() < p.len() && p.take(q.len() as int) == q && p[q.len() as int] == '/'
}

/// `q` is `p` itself or a directory above it.
pub open spec fn covers(q: Seq<char>, p: Seq<char>) -> bool {
    q == p || is_ancestor(q, p)
}

/// The paths of the status entries.
pub open spec fn entry_paths(es: Seq<StatusEntry>) -> Seq<Seq<char>> {
    es.map_values(|e: StatusEntry| e.path@)
}

/// `q` is a node of the tree of the paths `ps`: an entry path or a
/// directory above one.
pub open spec fn is_node(ps: Seq<Seq<char>>, q: Seq<char>) -> bool {
    exists|i: int| 0 <= i < ps.len() && covers(q, #[trigger] ps[i])
}

/// The node `q` has something below it.
pub open spec fn has_children(ps: Seq<Seq<char>>, q: Seq<char>) -> bool {
    exists|i: int| 0 <= i < ps.len() && is_ancestor(q, #[trigger] ps[i])
}

/// The index of the last entry whose path is `q`, if any (a later entry
/// for the same path replaces an earlier one).
pub open spec fn last_entry(ps: Seq<Seq<char>>, q: Seq<char>) -> Option<int>
    decreases ps.len(),
{
    if ps.len() == 0 {
        None
    } else if ps.last() == q {
        Some(ps.len() - 1)
    } else {
        last_entry(ps.drop_last(), q)
    }
}

/// The node `q` is a directory: something lies below it, or its own
/// (last) entry says so.
pub open spec fn node_is_dir(es: Seq<StatusEntry>, q: Seq<char>) -> bool {
    has_children(entry_paths(es), q) || match last_entry(entry_paths(es), q) {
        Some(i) => es[i].is_dir,
        None => false,
    }
}

/// The number of `/` in `q`: how deep the node lies.
pub open spec fn slash_count(q: Seq<char>) -> nat
    decreases q.len(),
{
    if q.len() == 0 {
        0
    } else {
        slash_count(q.drop_last()) + if q.last() == '/' {
            1nat
        } else {
            0nat
        }
    }
}

/// The last component of `q`: what follows its last `/`.
pub open spec fn node_name(q: Seq<char>) -> Seq<char>
    decreases q.len(),
{
    if q.len() == 0 {
        q
    } else if q.last() == '/' {
        Seq::empty()
    } else {
        node_name(q.drop_last()).push(q.last())
    }
}


/// The rest of the order key of a node from its char `q[0]` on (see
/// [`tree_key`]); `own` is the flag of the node's own component.
pub open spec fn key_tail(q: Seq<char>, own: u32) -> Seq<u32>
    decreases q.len(),
{
    if q.len() == 0 {
        seq![0u32]
    } else if q[0] == '/' {
        seq![
            0u32,
            if q.drop_first().contains('/') {
                0u32
            } else {
                own
            },
        ] + key_tail(q.drop_first(), own)
    } else {
        seq![(q[0] as u32 + 1) as u32] + key_tail(q.drop_first(), own)
    }
}

/// The order key of node `q`: component by component, a flag (0 for a
/// directory, 1 for a file), the component's chars (each code plus one)
/// and a terminating 0. Lexicographic order on these keys lists a
/// directory before its contents, and siblings directories first, then by
/// name.
pub open spec fn tree_key(q: Seq<char>, is_dir: bool) -> Seq<u32> {
    let own: u32 = if is_dir {
        0
    } else {
        1
    };
    seq![
        if q.contains('/') {
            0u32
        } else {
            own
        },
    ] + key_tail(q, own)
}

/// The node `q` is shown: every directory above it is expanded.
pub open spec fn shown(expanded: Set<Seq<char>>, q: Seq<char>) -> bool {
    forall|a: Seq<char>| is_ancestor(a, q) ==> expanded.contains(a)
}

// ---------------------------------------------------------------------
// Building
// ---------------------------------------------------------------------

/// A node of the status tree, listed in tree order by [`build_tree`].
#[derive(Clone, Debug)]
pub struct Node {
    pub name: String,
    pub path: String,
    pub is_dir: bool,
    /// Index into the entries if this path has its own status entry
    pub entry: Option<usize>,
    /// Number of directories above the node
    pub depth: usize,
}

/// The char sequences of a list of char vectors.
pub open spec fn char_views(v: Seq<Vec<char>>) -> Seq<Seq<char>> {
    v.map_values(|p: Vec<char>| p@)
}

/// `(i, e)` marks a node in the paths `ps`: the path `ps[i]` cut at `e`,
/// at a `/` or at its end.
pub open spec fn cut_at(ps: Seq<Seq<char>>, i: int, e: int) -> bool {
    0 <= i < ps.len() && 0 <= e <= ps[i].len() && (e == ps[i].len() || ps[i][e] == '/')
}

/// The cuts of the paths: entry indices, cut positions and keys of the
/// paths they mark.
pub open spec fn cuts_exact(
    ps: Seq<Seq<char>>,
    ent: Seq<usize>,
    end: Seq<usize>,
    keys: Seq<Seq<u32>>,
) -> bool {
    &&& ent.len() == end.len() && end.len() == keys.len()
    &&& forall|k: int|
        0 <= k < ent.len() ==> cut_at(ps, #[trigger] ent[k] as int, end[k] as int) && keys[k]
            == path_key(ps[ent[k] as int].take(end[k] as int))
    &&& forall|i: int, e: int|
        #![trigger cut_at(ps, i, e)]
        cut_at(ps, i, e) ==> exists|k: int| 0 <= k < ent.len() && ent[k] == i && end[k] == e
}

/// Record the cut `(i, e)`, whose key is `key`.
fn push_cut(
    ent: &mut Vec<usize>,
    end: &mut Vec<usize>,
    keys: &mut Vec<Vec<u32>>,
    i: usize,
    e: usize,
    key: &Vec<u32>,
    Ghost(ps): Ghost<Seq<Seq<char>>>,
)
    requires
        cut_at(ps, i as int, e as int),
        key@ == path_key(ps[i as int].take(e as int)),
        old(ent)@.len() == old(end)@.len() && old(end)@.len() == old(keys)@.len(),
        forall|k: int|
            0 <= k < old(ent)@.len() ==> cut_at(ps, #[trigger] old(ent)@[k] as int, old(end)@[k] as int)
                && old(keys)@[k]@ == path_key(ps[old(ent)@[k] as int].take(old(end)@[k] as int)),
    ensures
        final(ent)@ == old(ent)@.push(i),
        final(end)@ == old(end)@.push(e),
        final(ent)@.len() == final(end)@.len() && final(end)@.len() == final(keys)@.len(),
        forall|k: int|
            0 <= k < final(ent)@.len() ==> cut_at(ps, #[trigger] final(ent)@[k] as int, final(end)@[k] as int)
                && final(keys)@[k]@ == path_key(ps[final(ent)@[k] as int].take(final(end)@[k] as int)),
        forall|i2: int, e2: int|
            #![trigger cut_at(ps, i2, e2)]
            cut_at(ps, i2, e2) && ((exists|k: int|
                0 <= k < old(ent)@.len() && old(ent)@[k] == i2 && old(end)@[k] == e2) || (i2 == i
                && e2 == e)) ==> exists|k: int|
                0 <= k < final(ent)@.len() && final(ent)@[k] == i2 && final(end)@[k] == e2,
{
    let ghost n = ent@.len();
    ent.push(i);
    end.push(e);
    keys.push(key.clone());
    assert forall|i2: int, e2: int|
        #![trigger cut_at(ps, i2, e2)]
        cut_at(ps, i2, e2) && ((exists|k: int|
            0 <= k < old(ent)@.len() && old(ent)@[k] == i2 && old(end)@[k] == e2) || (i2 == i && e2
            == e)) implies exists|k: int| 0 <= k < ent@.len() && ent@[k] == i2 && end@[k] == e2 by {
        if i2 == i && e2 == e {
            assert(ent@[n as int] == i2 && end@[n as int] == e2);
        } else {
            let k = choose|k: int| 0 <= k < old(ent)@.len() && old(ent)@[k] == i2 && old(end)@[k] == e2;
            assert(ent@[k] == i2 && end@[k] == e2);
        }
    }
}

/// All cuts of the paths `ps`.
fn cuts(paths: &Vec<Vec<char>>) -> (r: (Vec<usize>, Vec<usize>, Vec<Vec<u32>>))
    ensures
        cuts_exact(
            char_views(paths@),
            r.0@,
            r.1@,
            crate::order::key_views(r.2@),
        ),
{
    let ghost ps = char_views(paths@);
    let mut ent: Vec<usize> = Vec::new();
    let mut end: Vec<usize> = Vec::new();
    let mut keys: Vec<Vec<u32>> = Vec::new();
    let mut i: usize = 0;
    while i < paths.len()
        invariant
            ps == char_views(paths@),
            i <= paths@.len(),
            ent@.len() == end@.len() && end@.len() == keys@.len(),
            forall|k: int|
                0 <= k < ent@.len() ==> cut_at(ps, #[trigger] ent@[k] as int, end@[k] as int)
                    && keys@[k]@ == path_key(ps[ent@[k] as int].take(end@[k] as int)),
            forall|i2: int, e: int|
                #![trigger cut_at(ps, i2, e)]
                cut_at(ps, i2, e) && i2 < i ==> exists|k: int|
                    0 <= k < ent@.len() && ent@[k] == i2 && end@[k] == e,
        decreases paths.len() - i,
    {
        let p = &paths[i];
        let ghost pv = p@;
        assert(pv == ps[i as int]);
        let mut key: Vec<u32> = Vec::new();
        let mut e: usize = 0;
        while e < p.len()
            invariant
                ps == char_views(paths@),
                i < paths@.len(),
                pv == p@,
                pv == ps[i as int],
                e <= pv.len(),
                key@ == path_key(pv.take(e as int)),
                ent@.len() == end@.len() && end@.len() == keys@.len(),
                forall|k: int|
                    0 <= k < ent@.len() ==> cut_at(ps, #[trigger] ent@[k] as int, end@[k] as int)
                        && keys@[k]@ == path_key(ps[ent@[k] as int].take(end@[k] as int)),
                forall|i2: int, e2: int|
                    #![trigger cut_at(ps, i2, e2)]
                    cut_at(ps, i2, e2) && (i2 < i || (i2 == i && e2 < e)) ==> exists|k: int|
                        0 <= k < ent@.len() && ent@[k] == i2 && end@[k] == e2,
            decreases pv.len() - e,
        {
            if p[e] == '/' {
                push_cut(&mut ent, &mut end, &mut keys, i, e, &key, Ghost(ps));
            }
            let c = p[e];
            key.push(c as u32);
            assert(pv.take(e + 1) =~= pv.take(e as int).push(c));
            assert(path_key(pv.take(e + 1)) =~= path_key(pv.take(e as int)).push(c as u32));
            e = e + 1;
        }
        assert(pv.take(e as int) =~= pv);
        push_cut(&mut ent, &mut end, &mut keys, i, e, &key, Ghost(ps));
        assert forall|i2: int, e2: int|
            #![trigger cut_at(ps, i2, e2)]
            cut_at(ps, i2, e2) && i2 < i + 1 implies exists|k: int|
                0 <= k < ent@.len() && ent@[k] == i2 && end@[k] == e2 by {
            if i2 == i {
                assert(e2 <= e);
            }
        }
        i = i + 1;
    }
    (ent, end, keys)
}

/// The path the cut `k` marks.
pub open spec fn cut_path(ps: Seq<Seq<char>>, ent: Seq<usize>, end: Seq<usize>, k: int) -> Seq<char> {
    ps[ent[k] as int].take(end[k] as int)
}


proof fn lemma_last_entry(ps: Seq<Seq<char>>, q: Seq<char>)
    ensures
        match last_entry(ps, q) {
            Some(m) => 0 <= m < ps.len() && ps[m] == q && forall|j: int| m < j < ps.len() ==> ps[j] != q,
            None => forall|j: int| 0 <= j < ps.len() ==> ps[j] != q,
        },
    decreases ps.len(),
{
    if ps.len() > 0 && ps.last() != q {
        lemma_last_entry(ps.drop_last(), q);
        match last_entry(ps, q) {
            Some(m) => {
                assert forall|j: int| m < j < ps.len() implies ps[j] != q by {
                    if j < ps.len() - 1 {
                        assert(ps[j] == ps.drop_last()[j]);
                    }
                }
            },
            None => {
                assert forall|j: int| 0 <= j < ps.len() implies ps[j] != q by {
                    if j < ps.len() - 1 {
                        assert(ps[j] == ps.drop_last()[j]);
                    }
                }
            },
        }
    }
}

/// In key order, two places with the same key enclose only that key.
proof fn lemma_sandwich(kv: Seq<Seq<u32>>, r: Seq<usize>, a: int, b: int, c: int)
    requires
        sorted_by_keys(kv, r),
        indices_in(kv, r),
        0 <= a <= b <= c < r.len(),
        kv[r[a] as int] == kv[r[c] as int],
    ensures
        kv[r[b] as int] == kv[r[a] as int],
{
    if a < b && b < c {
        assert(lex_le(kv[r[a] as int], kv[r[b] as int]));
        assert(lex_le(kv[r[b] as int], kv[r[c] as int]));
        lemma_lex_antisymmetric(kv[r[a] as int], kv[r[b] as int]);
    } else if a < b {
        assert(b == c);
    }
}

/// Equal keys.
fn keys_equal(a: &Vec<u32>, b: &Vec<u32>) -> (r: bool)
    ensures
        r == (a@ == b@),
{
    if a.len() != b.len() {
        return false;
    }
    let mut i: usize = 0;
    while i < a.len()
        invariant
            a@.len() == b@.len(),
            i <= a@.len(),
            forall|j: int| 0 <= j < i ==> a@[j] == b@[j],
        decreases a.len() - i,
    {
        if a[i] != b[i] {
            return false;
        }
        i = i + 1;
    }
    assert(a@ =~= b@);
    true
}

/// The nodes found by grouping the cuts in key order: for each node, a
/// cut that marks it, whether it has something below it, and its last
/// entry.
pub open spec fn nodes_exact(
    ps: Seq<Seq<char>>,
    ent: Seq<usize>,
    end: Seq<usize>,
    rep: Seq<usize>,
    hc: Seq<bool>,
    last: Seq<Option<usize>>,
) -> bool {
    &&& rep.len() == hc.len() && hc.len() == last.len()
    &&& forall|t: int| 0 <= t < rep.len() ==> #[trigger] rep[t] < ent.len()
    &&& forall|t: int|
        0 <= t < rep.len() ==> hc[t] == has_children(ps, #[trigger] cut_path(ps, ent, end, rep[t] as int))
    &&& forall|t: int|
        0 <= t < rep.len() ==> match last_entry(ps, #[trigger] cut_path(ps, ent, end, rep[t] as int)) {
            Some(m) => last[t] == Some(m as usize),
            None => last[t] is None,
        }
    &&& forall|t: int, u: int|
        0 <= t < u < rep.len() ==> cut_path(ps, ent, end, rep[t] as int) != cut_path(ps, ent, end, rep[u] as int)
}

/// Some node of `rep` is marked by a cut whose path is `q`.
pub open spec fn node_listed(
    ps: Seq<Seq<char>>,
    ent: Seq<usize>,
    end: Seq<usize>,
    rep: Seq<usize>,
    q: Seq<char>,
) -> bool {
    exists|t: int| 0 <= t < rep.len() && cut_path(ps, ent, end, #[trigger] rep[t] as int) == q
}

/// The facts the grouping relies on: the cuts are exact, and `sorted`
/// lists each cut once, in key order.
pub open spec fn grouping_input(
    ps: Seq<Seq<char>>,
    ent: Seq<usize>,
    end: Seq<usize>,
    kv: Seq<Seq<u32>>,
    sorted: Seq<usize>,
) -> bool {
    &&& cuts_exact(ps, ent, end, kv)
    &&& ent.len() <= usize::MAX
    &&& sorted.len() == ent.len()
    &&& sorted.to_multiset() == range_seq(ent.len()).to_multiset()
    &&& sorted_by_keys(kv, sorted)
    &&& indices_in(kv, sorted)
}

/// The cuts at sorted places `g..i` are all the cuts that mark the path
/// of the cut at `g`.
proof fn lemma_group_complete(
    ps: Seq<Seq<char>>,
    ent: Seq<usize>,
    end: Seq<usize>,
    kv: Seq<Seq<u32>>,
    sorted: Seq<usize>,
    g: int,
    i: int,
)
    requires
        grouping_input(ps, ent, end, kv, sorted),
        0 <= g < i <= sorted.len(),
        forall|pos: int| g <= pos < i ==> kv[#[trigger] sorted[pos] as int] == kv[sorted[g] as int],
        i < sorted.len() ==> kv[sorted[i] as int] != kv[sorted[g] as int],
        forall|pos: int|
            0 <= pos < g ==> cut_path(ps, ent, end, #[trigger] sorted[pos] as int) != cut_path(
                ps,
                ent,
                end,
                sorted[g] as int,
            ),
    ensures
        forall|pos: int|
            g <= pos < i ==> cut_path(ps, ent, end, #[trigger] sorted[pos] as int) == cut_path(
                ps,
                ent,
                end,
                sorted[g] as int,
            ),
        forall|k: int|
            0 <= k < ent.len() && #[trigger] cut_path(ps, ent, end, k) == cut_path(ps, ent, end, sorted[g] as int)
                ==> exists|pos: int| g <= pos < i && sorted[pos] == k,
{
    let n = sorted.len();
    lemma_permutation_distinct(sorted, n);
    let k0 = sorted[g] as int;
    let q = cut_path(ps, ent, end, k0);
    assert forall|pos: int| g <= pos < i implies cut_path(ps, ent, end, #[trigger] sorted[pos] as int) == q by {
        let k = sorted[pos] as int;
        assert(kv[k] == path_key(cut_path(ps, ent, end, k)));
        assert(kv[k0] == path_key(q));
        lemma_path_key_injective(cut_path(ps, ent, end, k), q);
    }
    assert forall|k: int|
        0 <= k < ent.len() && #[trigger] cut_path(ps, ent, end, k) == q implies exists|pos: int|
            g <= pos < i && sorted[pos] == k by {
        lemma_permutation_covers(sorted, n, k as usize);
        let pos = choose|pos: int| 0 <= pos < sorted.len() && sorted[pos] == k as usize;
        assert(kv[k] == path_key(q));
        assert(kv[k0] == path_key(q));
        if pos < g {
            assert(cut_path(ps, ent, end, sorted[pos] as int) != q);
        } else if pos >= i {
            lemma_sandwich(kv, sorted, g, i, pos);
        }
    }
}

/// The grouping of the cuts `sorted` into nodes.
#[verifier::spinoff_prover]
#[verifier::rlimit(30)]
fn group_nodes(
    paths: &Vec<Vec<char>>,
    ent: &Vec<usize>,
    end: &Vec<usize>,
    keys: &Vec<Vec<u32>>,
    sorted: &Vec<usize>,
) -> (r: (Vec<usize>, Vec<bool>, Vec<Option<usize>>))
    requires
        grouping_input(
            char_views(paths@),
            ent@,
            end@,
            key_views(keys@),
            sorted@,
        ),
    ensures
        nodes_exact(char_views(paths@), ent@, end@, r.0@, r.1@, r.2@),
        forall|q: Seq<char>|
            #[trigger] is_node(char_views(paths@), q) ==> node_listed(char_views(paths@), ent@, end@, r.0@, q),
{
    let ghost ps = char_views(paths@);
    let ghost kv = key_views(keys@);
    let n = sorted.len();
    proof {
        lemma_permutation_distinct(sorted@, n as nat);
    }
    let mut rep: Vec<usize> = Vec::new();
    let mut hc: Vec<bool> = Vec::new();
    let mut last: Vec<Option<usize>> = Vec::new();
    let mut g: usize = 0;
    while g < n
        invariant
            ps == char_views(paths@),
            kv == key_views(keys@),
            grouping_input(ps, ent@, end@, kv, sorted@),
            n == sorted@.len(),
            forall|i: int| 0 <= i < sorted@.len() ==> sorted@[i] < n,
            g <= n,
            nodes_exact(ps, ent@, end@, rep@, hc@, last@),
            forall|pos: int|
                0 <= pos < g ==> exists|t: int|
                    0 <= t < rep@.len() && cut_path(ps, ent@, end@, rep@[t] as int) == cut_path(
                        ps,
                        ent@,
                        end@,
                        #[trigger] sorted@[pos] as int,
                    ),
            forall|t: int, pos: int|
                0 <= t < rep@.len() && g <= pos < n ==> cut_path(ps, ent@, end@, #[trigger] rep@[t] as int)
                    != cut_path(ps, ent@, end@, #[trigger] sorted@[pos] as int),
        decreases n - g,
    {
        let k0 = sorted[g];
        let ghost q = cut_path(ps, ent@, end@, k0 as int);
        let mut has_ch = false;
        let mut lastv: Option<usize> = None;
        let mut i = g;
        while i < n && keys_equal(&keys[sorted[i]], &keys[k0])
            invariant
                ps == char_views(paths@),
                kv == key_views(keys@),
                grouping_input(ps, ent@, end@, kv, sorted@),
                n == sorted@.len(),
                forall|i: int| 0 <= i < sorted@.len() ==> sorted@[i] < n,
                g < n,
                k0 == sorted@[g as int],
                g <= i <= n,
                forall|pos: int| g <= pos < i ==> kv[#[trigger] sorted@[pos] as int] == kv[k0 as int],
                has_ch == exists|pos: int|
                    g <= pos < i && end@[#[trigger] sorted@[pos] as int] < ps[ent@[sorted@[pos] as int] as int].len(),
                lastv is None ==> forall|pos: int|
                    g <= pos < i ==> end@[#[trigger] sorted@[pos] as int] != ps[ent@[sorted@[pos] as int] as int].len(),
                lastv matches Some(m) ==> exists|pos: int|
                    g <= pos < i && end@[#[trigger] sorted@[pos] as int] == ps[ent@[sorted@[pos] as int] as int].len()
                        && ent@[sorted@[pos] as int] == m,
                lastv matches Some(m) ==> forall|pos: int|
                    g <= pos < i && end@[#[trigger] sorted@[pos] as int] == ps[ent@[sorted@[pos] as int] as int].len()
                        ==> ent@[sorted@[pos] as int] <= m,
            decreases n - i,
        {
            let k = sorted[i];
            let ei = ent[k];
            assert(cut_at(ps, ent@[k as int] as int, end@[k as int] as int));
            assert(paths@[ei as int]@ == ps[ei as int]);
            if end[k] < paths[ei].len() {
                has_ch = true;
            } else {
                lastv = match lastv {
                    Some(m) => if ei > m {
                        Some(ei)
                    } else {
                        Some(m)
                    },
                    None => Some(ei),
                };
            }
            i = i + 1;
        }
        proof {
            assert forall|pos: int| 0 <= pos < g implies cut_path(ps, ent@, end@, #[trigger] sorted@[pos] as int)
                != q by {
                let t = choose|t: int|
                    0 <= t < rep@.len() && cut_path(ps, ent@, end@, rep@[t] as int) == cut_path(
                        ps,
                        ent@,
                        end@,
                        sorted@[pos] as int,
                    );
                assert(cut_path(ps, ent@, end@, rep@[t] as int) != cut_path(ps, ent@, end@, sorted@[g as int] as int));
            }
            lemma_group_complete(ps, ent@, end@, kv, sorted@, g as int, i as int);
            assert(cut_at(ps, ent@[k0 as int] as int, end@[k0 as int] as int));
            assert(q.len() == end@[k0 as int]);
            // has_children
            if has_children(ps, q) {
                let j = choose|j: int| 0 <= j < ps.len() && is_ancestor(q, #[trigger] ps[j]);
                assert(cut_at(ps, j, q.len() as int));
                let k = choose|k: int| 0 <= k < ent@.len() && ent@[k] == j && end@[k] == q.len();
                assert(ps[j].take(q.len() as int) == q);
                assert(cut_path(ps, ent@, end@, k) == q);
                let pos = choose|pos: int| g <= pos < i && sorted@[pos] == k;
                assert(end@[sorted@[pos] as int] < ps[ent@[sorted@[pos] as int] as int].len());
            }
            if has_ch {
                let pos = choose|pos: int|
                    g <= pos < i && end@[#[trigger] sorted@[pos] as int] < ps[ent@[sorted@[pos] as int] as int].len();
                let k = sorted@[pos] as int;
                assert(cut_path(ps, ent@, end@, k) == q);
                assert(cut_at(ps, ent@[k] as int, end@[k] as int));
                assert(is_ancestor(q, ps[ent@[k] as int]));
            }
            // last entry
            lemma_last_entry(ps, q);
            match last_entry(ps, q) {
                Some(m) => {
                    assert(cut_at(ps, m, ps[m].len() as int));
                    let k = choose|k: int| 0 <= k < ent@.len() && ent@[k] == m && end@[k] == ps[m].len();
                    assert(ps[m].take(ps[m].len() as int) =~= ps[m]);
                    assert(cut_path(ps, ent@, end@, k) == q);
                    let pos = choose|pos: int| g <= pos < i && sorted@[pos] == k;
                    assert(end@[sorted@[pos] as int] == ps[ent@[sorted@[pos] as int] as int].len());
                    let mm = lastv.unwrap();
                    let pos2 = choose|pos2: int|
                        g <= pos2 < i && end@[#[trigger] sorted@[pos2] as int] == ps[ent@[sorted@[pos2] as int] as int].len()
                            && ent@[sorted@[pos2] as int] == mm;
                    let k2 = sorted@[pos2] as int;
                    assert(cut_path(ps, ent@, end@, k2) == q);
                    assert(ps[mm as int].take(ps[mm as int].len() as int) =~= ps[mm as int]);
                    assert(ps[mm as int] == q);
                    assert(mm as int <= m);
                    assert(lastv == Some(m as usize));
                },
                None => {
                    if lastv is Some {
                        let mm = lastv.unwrap();
                        let pos2 = choose|pos2: int|
                            g <= pos2 < i && end@[#[trigger] sorted@[pos2] as int] == ps[ent@[sorted@[pos2] as int] as int].len()
                                && ent@[sorted@[pos2] as int] == mm;
                        let k2 = sorted@[pos2] as int;
                        assert(cut_path(ps, ent@, end@, k2) == q);
                        assert(ps[mm as int].take(ps[mm as int].len() as int) =~= ps[mm as int]);
                        assert(ps[mm as int] == q);
                    }
                },
            }
        }
        let ghost old_rep = rep@;
        let ghost old_hc = hc@;
        let ghost old_last = last@;
        rep.push(k0);
        hc.push(has_ch);
        last.push(lastv);
        proof {
            assert forall|t: int| 0 <= t < rep@.len() implies #[trigger] rep@[t] < ent@.len() by {
                if t < old_rep.len() {
                    assert(rep@[t] == old_rep[t]);
                }
            }
            assert forall|t: int|
                0 <= t < rep@.len() implies hc@[t] == has_children(ps, #[trigger] cut_path(ps, ent@, end@, rep@[t] as int)) by {
                if t < old_rep.len() {
                    assert(rep@[t] == old_rep[t]);
                    assert(hc@[t] == old_hc[t]);
                }
            }
            assert forall|t: int|
                0 <= t < rep@.len() implies match last_entry(ps, #[trigger] cut_path(ps, ent@, end@, rep@[t] as int)) {
                    Some(m) => last@[t] == Some(m as usize),
                    None => last@[t] is None,
                } by {
                if t < old_rep.len() {
                    assert(rep@[t] == old_rep[t]);
                    assert(last@[t] == old_last[t]);
                }
            }
            assert forall|t: int, u: int|
                0 <= t < u < rep@.len() implies cut_path(ps, ent@, end@, rep@[t] as int) != cut_path(ps, ent@, end@, rep@[u] as int) by {
                if u < old_rep.len() {
                    assert(rep@[t] == old_rep[t]);
                    assert(rep@[u] == old_rep[u]);
                } else {
                    assert(rep@[t] == old_rep[t]);
                    assert(rep@[u] == sorted@[g as int]);
                }
            }
            assert forall|pos: int|
                0 <= pos < i implies exists|t: int|
                    0 <= t < rep@.len() && cut_path(ps, ent@, end@, rep@[t] as int) == cut_path(
                        ps,
                        ent@,
                        end@,
                        #[trigger] sorted@[pos] as int,
                    ) by {
                if pos < g {
                    let t = choose|t: int|
                        0 <= t < old_rep.len() && cut_path(ps, ent@, end@, old_rep[t] as int) == cut_path(
                            ps,
                            ent@,
                            end@,
                            sorted@[pos] as int,
                        );
                    assert(rep@[t] == old_rep[t]);
                } else {
                    assert(rep@[old_rep.len() as int] == k0);
                }
            }
            assert forall|t: int, pos: int|
                0 <= t < rep@.len() && i <= pos < n implies cut_path(ps, ent@, end@, #[trigger] rep@[t] as int)
                    != cut_path(ps, ent@, end@, #[trigger] sorted@[pos] as int) by {
                if t < old_rep.len() {
                    assert(rep@[t] == old_rep[t]);
                } else {
                    assert(rep@[t] == k0);
                    if cut_path(ps, ent@, end@, sorted@[pos] as int) == q {
                        let k = sorted@[pos] as int;
                        let pos2 = choose|pos2: int| g <= pos2 < i && sorted@[pos2] == k;
                        lemma_permutation_distinct(sorted@, n as nat);
                    }
                }
            }
        }
        g = i;
    }
    proof {
        assert forall|q: Seq<char>| #[trigger] is_node(ps, q) implies node_listed(ps, ent@, end@, rep@, q) by {
            let j = choose|j: int| 0 <= j < ps.len() && covers(q, #[trigger] ps[j]);
            let e = q.len() as int;
            assert(cut_at(ps, j, e));
            let k = choose|k: int| 0 <= k < ent@.len() && ent@[k] == j && end@[k] == e;
            if q == ps[j] {
                assert(ps[j].take(e) =~= ps[j]);
            }
            assert(cut_path(ps, ent@, end@, k) == q);
            lemma_permutation_covers(sorted@, n as nat, k as usize);
            let pos = choose|pos: int| 0 <= pos < sorted@.len() && sorted@[pos] == k as usize;
            let t = choose|t: int|
                0 <= t < rep@.len() && cut_path(ps, ent@, end@, rep@[t] as int) == cut_path(
                    ps,
                    ent@,
                    end@,
                    sorted@[pos] as int,
                );
            assert(cut_path(ps, ent@, end@, rep@[t] as int) == q);
        }
    }
    (rep, hc, last)
}

/// The position of the last `/` in `q`, if any.
fn last_slash(q: &Vec<char>) -> (r: Option<usize>)
    ensures
        match r {
            Some(l) => l < q@.len() && q@[l as int] == '/' && forall|k: int| l < k < q@.len() ==> q@[k] != '/',
            None => forall|k: int| 0 <= k < q@.len() ==> q@[k] != '/',
        },
{
    let mut j = q.len();
    while j > 0
        invariant
            j <= q@.len(),
            forall|k: int| j <= k < q@.len() ==> q@[k] != '/',
        decreases j,
    {
        if q[j - 1] == '/' {
            return Some(j - 1);
        }
        j = j - 1;
    }
    None
}

proof fn lemma_contains_after(q: Seq<char>, j: int, l: Option<usize>)
    requires
        0 <= j < q.len(),
        match l {
            Some(l) => l < q.len() && q[l as int] == '/' && forall|k: int| l < k < q.len() ==> q[k] != '/',
            None => forall|k: int| 0 <= k < q.len() ==> q[k] != '/',
        },
    ensures
        q.skip(j + 1).contains('/') <==> (l matches Some(l) && j < l),
{
    let rest = q.skip(j + 1);
    if rest.contains('/') {
        let k = choose|k: int| 0 <= k < rest.len() && #[trigger] rest[k] == '/';
        assert(q[j + 1 + k] == '/');
    }
    if let Some(l) = l {
        if j < l {
            assert(q.skip(j + 1)[l - j - 1] == '/');
        }
    }
}

/// `tree_key(q, is_dir)`, computed.
fn tree_key_of(q: &Vec<char>, is_dir: bool) -> (r: Vec<u32>)
    ensures
        r@ == tree_key(q@, is_dir),
{
    let own: u32 = if is_dir {
        0
    } else {
        1
    };
    let ls = last_slash(q);
    let mut out: Vec<u32> = Vec::new();
    proof {
        if q@.contains('/') {
            let k = choose|k: int| 0 <= k < q@.len() && #[trigger] q@[k] == '/';
        }
    }
    out.push(
        match ls {
            Some(_) => 0,
            None => own,
        },
    );
    let ghost first = out@;
    assert(q@.skip(0) =~= q@);
    let mut j: usize = 0;
    while j < q.len()
        invariant
            j <= q@.len(),
            own == (if is_dir { 0u32 } else { 1u32 }),
            match ls {
                Some(l) => l < q@.len() && q@[l as int] == '/' && forall|k: int| l < k < q@.len() ==> q@[k] != '/',
                None => forall|k: int| 0 <= k < q@.len() ==> q@[k] != '/',
            },
            out@ + key_tail(q@.skip(j as int), own) == tree_key(q@, is_dir),
        decreases q.len() - j,
    {
        let c = q[j];
        let ghost before = out@;
        let ghost rest = q@.skip(j as int);
        assert(rest.drop_first() =~= q@.skip(j + 1));
        assert(rest[0] == c);
        if c == '/' {
            proof {
                lemma_contains_after(q@, j as int, ls);
            }
            out.push(0);
            let flag = match ls {
                Some(l) => if j < l {
                    0
                } else {
                    own
                },
                None => own,
            };
            out.push(flag);
            assert(out@ + key_tail(q@.skip(j + 1), own) =~= before + key_tail(rest, own));
        } else {
            proof {
                vstd::utf8::char_is_scalar(c);
            }
            out.push(c as u32 + 1);
            assert(out@ + key_tail(q@.skip(j + 1), own) =~= before + key_tail(rest, own));
        }
        j = j + 1;
    }
    assert(key_tail(q@.skip(j as int), own) =~= seq![0u32]);
    out.push(0);
    out
}

proof fn lemma_node_name(q: Seq<char>, a: int)
    requires
        0 <= a <= q.len(),
        a == 0 || q[a - 1] == '/',
        forall|k: int| a <= k < q.len() ==> q[k] != '/',
    ensures
        node_name(q) == q.subrange(a, q.len() as int),
    decreases q.len(),
{
    if q.len() > a {
        lemma_node_name(q.drop_last(), a);
        assert(q.subrange(a, q.len() as int) =~= q.drop_last().subrange(a, q.len() - 1).push(q.last()));
    } else if q.len() > 0 {
        assert(q.last() == '/');
        assert(q.subrange(a, q.len() as int) =~= Seq::<char>::empty());
    } else {
        assert(q.subrange(a, q.len() as int) =~= q);
    }
}

/// The number of `/` in `q`.
fn count_slashes(q: &Vec<char>) -> (r: usize)
    ensures
        r == slash_count(q@),
{
    let mut n: usize = 0;
    let mut j: usize = 0;
    while j < q.len()
        invariant
            j <= q@.len(),
            n <= j,
            n == slash_count(q@.take(j as int)),
        decreases q.len() - j,
    {
        assert(q@.take(j + 1).drop_last() =~= q@.take(j as int));
        if q[j] == '/' {
            n = n + 1;
        }
        j = j + 1;
    }
    assert(q@.take(j as int) =~= q@);
    n
}

/// The char vector `v[0..e]`.
fn prefix_chars(v: &Vec<char>, e: usize) -> (r: Vec<char>)
    requires
        e <= v@.len(),
    ensures
        r@ == v@.take(e as int),
{
    let mut r: Vec<char> = Vec::new();
    let mut j: usize = 0;
    while j < e
        invariant
            j <= e <= v@.len(),
            r@ == v@.take(j as int),
        decreases e - j,
    {
        r.push(v[j]);
        assert(v@.take(j + 1) =~= v@.take(j as int).push(v@[j as int]));
        j = j + 1;
    }
    r
}

/// The node `n` is the node of path `n.path` in the tree of `es`, with
/// the fields the tree gives it.
pub open spec fn node_fits(es: Seq<StatusEntry>, n: Node) -> bool {
    let q = n.path@;
    &&& is_node(entry_paths(es), q)
    &&& n.name@ == node_name(q)
    &&& n.depth == slash_count(q)
    &&& n.is_dir == node_is_dir(es, q)
    &&& n.entry == match last_entry(entry_paths(es), q) {
        Some(i) => Some(i as usize),
        None => None,
    }
}

/// The tree of the status entries `es`: every node once, each with its
/// fields, in tree order (each directory directly followed by its
/// contents; siblings directories first, then by name).
pub open spec fn is_tree_of(es: Seq<StatusEntry>, r: Seq<Node>) -> bool {
    &&& forall|t: int| 0 <= t < r.len() ==> node_fits(es, #[trigger] r[t])
    &&& forall|q: Seq<char>|
        #[trigger] is_node(entry_paths(es), q) ==> exists|t: int| 0 <= t < r.len() && r[t].path@ == q
    &&& forall|t: int, u: int| 0 <= t < u < r.len() ==> r[t].path@ != r[u].path@
    &&& forall|t: int, u: int|
        0 <= t < u < r.len() ==> lex_le(
            tree_key(#[trigger] r[t].path@, r[t].is_dir),
            tree_key(#[trigger] r[u].path@, r[u].is_dir),
        )
}

/// The nodes of the tree of the status entries, in tree order: every
/// entry path and every directory above one, each once; directories
/// before files among siblings, then by name; each directory directly
/// followed by its contents.
pub fn build_tree(entries: &[StatusEntry]) -> (r: Vec<Node>)
    ensures
        is_tree_of(entries@, r@),
{
    let ghost es = entries@;
    let mut paths: Vec<Vec<char>> = Vec::new();
    let mut k: usize = 0;
    while k < entries.len()
        invariant
            k <= entries@.len(),
            es == entries@,
            char_views(paths@) == entry_paths(es).take(k as int),
        decreases entries.len() - k,
    {
        let v = chars_of(entries[k].path.as_str());
        assert(v@ == es[k as int].path@);
        let ghost before = paths@;
        paths.push(v);
        assert(char_views(paths@) =~= char_views(before).push(v@));
        assert(entry_paths(es).take(k + 1) =~= entry_paths(es).take(k as int).push(es[k as int].path@));
        assert(char_views(paths@) =~= entry_paths(es).take(k + 1));
        k = k + 1;
    }
    assert(entry_paths(es).take(entries@.len() as int) =~= entry_paths(es));
    let ghost ps = char_views(paths@);
    let (ent, end, keys) = cuts(&paths);
    let mut idx: Vec<usize> = Vec::new();
    let mut j: usize = 0;
    while j < ent.len()
        invariant
            j <= ent@.len(),
            idx@ == range_seq(j as nat),
        decreases ent.len() - j,
    {
        idx.push(j);
        assert(idx@ =~= range_seq((j + 1) as nat));
        j = j + 1;
    }
    proof {
        assert forall|i: int| 0 <= i < idx@.len() implies #[trigger] idx@[i] < key_views(keys@).len() by {}
    }
    let sorted = sort_by_keys(&keys, idx);
    let (rep, hc, last) = group_nodes(&paths, &ent, &end, &keys, &sorted);
    // the nodes' paths, flags and keys
    let mut qs: Vec<Vec<char>> = Vec::new();
    let mut dirs: Vec<bool> = Vec::new();
    let mut tkeys: Vec<Vec<u32>> = Vec::new();
    let mut t: usize = 0;
    while t < rep.len()
        invariant
            ps == char_views(paths@),
            ps == entry_paths(es),
            es == entries@,
            cuts_exact(ps, ent@, end@, key_views(keys@)),
            nodes_exact(ps, ent@, end@, rep@, hc@, last@),
            t <= rep@.len(),
            qs@.len() == t && dirs@.len() == t && tkeys@.len() == t,
            forall|u: int| 0 <= u < t ==> (#[trigger] qs@[u])@ == cut_path(ps, ent@, end@, rep@[u] as int),
            forall|u: int| 0 <= u < t ==> #[trigger] dirs@[u] == node_is_dir(es, cut_path(ps, ent@, end@, rep@[u] as int)),
            forall|u: int| 0 <= u < t ==> (#[trigger] tkeys@[u])@ == tree_key(qs@[u]@, dirs@[u]),
        decreases rep.len() - t,
    {
        let k0 = rep[t];
        let e0 = ent[k0];
        assert(cut_at(ps, ent@[k0 as int] as int, end@[k0 as int] as int));
        let q = prefix_chars(&paths[e0], end[k0]);
        proof {
            lemma_last_entry(ps, cut_path(ps, ent@, end@, rep@[t as int] as int));
        }
        let is_dir = hc[t] || match last[t] {
            Some(m) => entries[m].is_dir,
            None => false,
        };
        let key = tree_key_of(&q, is_dir);
        qs.push(q);
        dirs.push(is_dir);
        tkeys.push(key);
        t = t + 1;
    }
    let mut nidx: Vec<usize> = Vec::new();
    let mut j: usize = 0;
    while j < rep.len()
        invariant
            j <= rep@.len(),
            tkeys@.len() == rep@.len(),
            nidx@ == range_seq(j as nat),
        decreases rep.len() - j,
    {
        nidx.push(j);
        assert(nidx@ =~= range_seq((j + 1) as nat));
        j = j + 1;
    }
    let order = sort_by_keys(&tkeys, nidx);
    proof {
        lemma_permutation_distinct(order@, rep@.len());
    }
    let mut out: Vec<Node> = Vec::new();
    let mut s: usize = 0;
    while s < order.len()
        invariant
            ps == entry_paths(es),
            cuts_exact(ps, ent@, end@, key_views(keys@)),
            es == entries@,
            nodes_exact(ps, ent@, end@, rep@, hc@, last@),
            qs@.len() == rep@.len() && dirs@.len() == rep@.len() && tkeys@.len() == rep@.len(),
            forall|u: int| 0 <= u < rep@.len() ==> (#[trigger] qs@[u])@ == cut_path(ps, ent@, end@, rep@[u] as int),
            forall|u: int| 0 <= u < rep@.len() ==> #[trigger] dirs@[u] == node_is_dir(es, cut_path(ps, ent@, end@, rep@[u] as int)),
            forall|u: int| 0 <= u < rep@.len() ==> (#[trigger] tkeys@[u])@ == tree_key(qs@[u]@, dirs@[u]),
            order@.len() == rep@.len(),
            forall|i: int| 0 <= i < order@.len() ==> order@[i] < rep@.len(),
            forall|i: int, j: int| 0 <= i < j < order@.len() ==> order@[i] != order@[j],
            sorted_by_keys(key_views(tkeys@), order@),
            s <= order@.len(),
            out@.len() == s,
            forall|i: int| 0 <= i < s ==> (#[trigger] out@[i]).path@ == qs@[order@[i] as int]@ && out@[i].is_dir == dirs@[order@[i] as int],
            forall|i: int| 0 <= i < s ==> node_fits(es, #[trigger] out@[i]),
        decreases order.len() - s,
    {
        let u = order[s];
        let q = &qs[u];
        let ls = last_slash(q);
        let a: usize = match ls {
            Some(l) => {
                assert(l < q.len());
                l + 1
            },
            None => 0,
        };
        proof {
            lemma_node_name(q@, a as int);
        }
        let name = string_of(q, a, q.len());
        let path = string_of(q, 0, q.len());
        assert(q@.subrange(0, q@.len() as int) =~= q@);
        let depth = count_slashes(q);
        let node = Node { name, path, is_dir: dirs[u], entry: last[u], depth };
        proof {
            let cq = cut_path(ps, ent@, end@, rep@[u as int] as int);
            assert(qs@[u as int]@ == cq);
            assert(cq == q@);
            assert(cut_at(ps, ent@[rep@[u as int] as int] as int, end@[rep@[u as int] as int] as int));
            let i0 = ent@[rep@[u as int] as int] as int;
            let e0 = end@[rep@[u as int] as int] as int;
            assert(covers(cq, ps[i0])) by {
                if e0 == ps[i0].len() {
                    assert(ps[i0].take(e0) =~= ps[i0]);
                }
            }
            assert(is_node(ps, cq));
        }
        out.push(node);
        s = s + 1;
    }
    proof {
        let r = out@;
        assert forall|q: Seq<char>| #[trigger] is_node(entry_paths(es), q) implies exists|t: int|
            0 <= t < r.len() && r[t].path@ == q by {
            assert(node_listed(ps, ent@, end@, rep@, q));
            let u = choose|u: int| 0 <= u < rep@.len() && cut_path(ps, ent@, end@, #[trigger] rep@[u] as int) == q;
            lemma_permutation_covers(order@, rep@.len(), u as usize);
            let t = choose|t: int| 0 <= t < order@.len() && order@[t] == u as usize;
            assert(r[t].path@ == q);
        }
        assert forall|t: int, u: int| 0 <= t < u < r.len() implies r[t].path@ != r[u].path@ by {
            assert(order@[t] != order@[u]);
            if order@[t] < order@[u] {
                assert(cut_path(ps, ent@, end@, rep@[order@[t] as int] as int) != cut_path(ps, ent@, end@, rep@[order@[u] as int] as int));
            } else {
                assert(cut_path(ps, ent@, end@, rep@[order@[u] as int] as int) != cut_path(ps, ent@, end@, rep@[order@[t] as int] as int));
            }
        }
        assert forall|t: int, u: int|
            0 <= t < u < r.len() implies lex_le(
                tree_key(#[trigger] r[t].path@, r[t].is_dir),
                tree_key(#[trigger] r[u].path@, r[u].is_dir),
            ) by {
            assert(lex_le(key_views(tkeys@)[order@[t] as int], key_views(tkeys@)[order@[u] as int]));
        }
    }
    out
}

/// The row node `n` shows: at its depth, with its path and name; a
/// directory showing whether it is expanded, a file pointing at its entry.
pub open spec fn row_of(n: Node, expanded: Set<Seq<char>>) -> SpecTreeItem {
    SpecTreeItem {
        depth: n.depth,
        path: n.path@,
        name: n.name@,
        kind: if n.is_dir {
            TreeItemKind::Dir { expanded: expanded.contains(n.path@) }
        } else {
            TreeItemKind::File {
                entry: match n.entry {
                    Some(i) => i,
                    None => 0,
                },
            }
        },
    }
}

/// The rows of the nodes `nodes` that are shown, in order.
pub open spec fn visible_rows(nodes: Seq<Node>, expanded: Set<Seq<char>>) -> Seq<SpecTreeItem>
    decreases nodes.len(),
{
    if nodes.len() == 0 {
        Seq::empty()
    } else {
        let rest = visible_rows(nodes.drop_last(), expanded);
        if shown(expanded, nodes.last().path@) {
            rest.push(row_of(nodes.last(), expanded))
        } else {
            rest
        }
    }
}

proof fn lemma_visible_rows_members(nodes: Seq<Node>, expanded: Set<Seq<char>>)
    ensures
        forall|k: int| 0 <= k < visible_rows(nodes, expanded).len() ==> exists|t: int|
            0 <= t < nodes.len() && shown(expanded, nodes[t].path@) && #[trigger] visible_rows(nodes, expanded)[k]
                == row_of(nodes[t], expanded),
        forall|t: int| 0 <= t < nodes.len() && shown(expanded, (#[trigger] nodes[t]).path@) ==> visible_rows(
            nodes,
            expanded,
        ).contains(row_of(nodes[t], expanded)),
    decreases nodes.len(),
{
    if nodes.len() > 0 {
        let init = nodes.drop_last();
        lemma_visible_rows_members(init, expanded);
        let r0 = visible_rows(init, expanded);
        let r = visible_rows(nodes, expanded);
        let last = nodes.last();
        assert forall|k: int| 0 <= k < r.len() implies exists|t: int|
            0 <= t < nodes.len() && shown(expanded, nodes[t].path@) && #[trigger] r[k] == row_of(nodes[t], expanded) by {
            if k < r0.len() {
                assert(r[k] == r0[k]);
                let t = choose|t: int| 0 <= t < init.len() && shown(expanded, init[t].path@) && r0[k] == row_of(init[t], expanded);
                assert(nodes[t] == init[t]);
            } else {
                assert(nodes[nodes.len() - 1] == last);
            }
        }
        assert forall|t: int| 0 <= t < nodes.len() && shown(expanded, (#[trigger] nodes[t]).path@) implies r.contains(
            row_of(nodes[t], expanded),
        ) by {
            if t < init.len() {
                assert(init[t] == nodes[t]);
                assert(r0.contains(row_of(init[t], expanded)));
                let k = choose|k: int| 0 <= k < r0.len() && r0[k] == row_of(init[t], expanded);
                if shown(expanded, last.path@) {
                    assert(r0.push(row_of(last, expanded))[k] == r0[k]);
                }
            } else {
                assert(r0.push(row_of(last, expanded))[r0.len() as int] == row_of(last, expanded));
            }
        }
    }
}

/// The tree's structure as it shows: nodes that hold every entry path and
/// every directory above one, once each, in tree order (directories
/// before files among siblings, each directory directly followed by its
/// contents) show the same rows as the tree of the entries, there being
/// only one such tree; a node shows exactly when every directory above it
/// is expanded, as the row of its depth, name and kind.
pub proof fn lemma_tree_structure(es: Seq<StatusEntry>, nodes: Seq<Node>, expanded: Set<Seq<char>>)
    requires
        is_tree_of(es, nodes),
    ensures
        visible_rows(nodes, expanded) == visible_rows(tree_of(es), expanded),
        forall|k: int| 0 <= k < visible_rows(nodes, expanded).len() ==> exists|t: int|
            0 <= t < nodes.len() && shown(expanded, nodes[t].path@) && #[trigger] visible_rows(nodes, expanded)[k]
                == row_of(nodes[t], expanded),
        forall|t: int| 0 <= t < nodes.len() && shown(expanded, (#[trigger] nodes[t]).path@) ==> visible_rows(
            nodes,
            expanded,
        ).contains(row_of(nodes[t], expanded)),
{
    assert(is_tree_of(es, tree_of(es)));
    lemma_tree_unique(es, nodes, tree_of(es));
    lemma_visible_rows_same(nodes, tree_of(es), expanded);
    lemma_visible_rows_members(nodes, expanded);
}

/// The views of tree items.
pub open spec fn item_views(v: Seq<TreeItem>) -> Seq<SpecTreeItem> {
    v.map_values(|t: TreeItem| t@)
}

/// Whether every directory above the node of path `q` is expanded.
fn is_shown(q: &Vec<char>, expanded: &[String]) -> (b: bool)
    ensures
        b == shown(texts(expanded@).to_set(), q@),
{
    let mut j: usize = 0;
    while j < q.len()
        invariant
            j <= q@.len(),
            forall|a: Seq<char>| is_ancestor(a, q@) && a.len() < j ==> texts(expanded@).contains(a),
        decreases q.len() - j,
    {
        if q[j] == '/' {
            let prefix = string_of(q, 0, j);
            if !contains_text(expanded, &prefix) {
                assert(is_ancestor(q@.take(j as int), q@));
                assert(q@.subrange(0, j as int) =~= q@.take(j as int));
                return false;
            }
            assert(q@.subrange(0, j as int) =~= q@.take(j as int));
        }
        assert forall|a: Seq<char>| is_ancestor(a, q@) && a.len() < j + 1 implies texts(expanded@).contains(a) by {
            if a.len() == j {
                assert(q@.take(j as int) == a);
            }
        }
        j = j + 1;
    }
    true
}

/// Append the rows of `nodes` (a tree in tree order) that are shown given
/// the `expanded` directories: a node is shown when every directory above
/// it is expanded.
pub fn flatten(nodes: &[Node], expanded: &[String], out: &mut Vec<TreeItem>)
    ensures
        item_views(final(out)@) == item_views(old(out)@) + visible_rows(nodes@, texts(expanded@).to_set()),
{
    let ghost exp = texts(expanded@).to_set();
    let ghost start = item_views(out@);
    let mut k: usize = 0;
    assert(visible_rows(nodes@.take(0), exp) =~= Seq::<SpecTreeItem>::empty());
    assert(start + Seq::<SpecTreeItem>::empty() =~= start);
    while k < nodes.len()
        invariant
            k <= nodes@.len(),
            exp == texts(expanded@).to_set(),
            item_views(out@) == start + visible_rows(nodes@.take(k as int), exp),
        decreases nodes.len() - k,
    {
        let n = &nodes[k];
        let ghost pre = nodes@.take(k as int);
        assert(nodes@.take(k + 1).drop_last() =~= pre);
        assert(nodes@.take(k + 1).last() == *n);
        let q = chars_of(n.path.as_str());
        if is_shown(&q, expanded) {
            let open = contains_text(expanded, &n.path);
            let kind = if n.is_dir {
                TreeItemKind::Dir { expanded: open }
            } else {
                TreeItemKind::File {
                    entry: match n.entry {
                        Some(i) => i,
                        None => 0,
                    },
                }
            };
            let item = TreeItem { depth: n.depth, path: n.path.clone(), name: n.name.clone(), kind };
            let ghost before = out@;
            out.push(item);
            assert(item_views(out@) =~= item_views(before).push(row_of(*n, exp)));
        }
        k = k + 1;
    }
    assert(nodes@.take(nodes@.len() as int) =~= nodes@);
}

/// The rows of the status tree of `entries` with the directories
/// `expanded` open: the tree's nodes in tree order, each shown when every
/// directory above it is expanded.
pub fn tree_rows(entries: &[StatusEntry], expanded: &[String]) -> (r: Vec<TreeItem>)
    ensures
        exists|nodes: Seq<Node>| is_tree_of(entries@, nodes) && item_views(r@) == visible_rows(nodes, texts(expanded@).to_set()),
        item_views(r@) == visible_rows(tree_of(entries@), texts(expanded@).to_set()),
{
    let nodes = build_tree(entries);
    let mut out: Vec<TreeItem> = Vec::new();
    flatten(nodes.as_slice(), expanded, &mut out);
    proof {
        lemma_tree_unique(entries@, nodes@, tree_of(entries@));
        lemma_visible_rows_same(nodes@, tree_of(entries@), texts(expanded@).to_set());
    }
    assert(item_views(Seq::<TreeItem>::empty()) + visible_rows(nodes@, texts(expanded@).to_set()) =~= visible_rows(nodes@, texts(expanded@).to_set()));
    out
}

// ---------------------------------------------------------------------
// The tree is determined by the entries
// ---------------------------------------------------------------------

proof fn lemma_key_tail_len(q: Seq<char>, own: u32)
    ensures
        key_tail(q, own).len() >= 1,
        q.len() > 0 && q[0] == '/' ==> key_tail(q, own).len() >= 3,
    decreases q.len(),
{
    if q.len() > 0 {
        lemma_key_tail_len(q.drop_first(), own);
    }
}

/// Different paths have different key tails, whatever the flags.
proof fn lemma_key_tail_injective(a: Seq<char>, oa: u32, b: Seq<char>, ob: u32)
    requires
        key_tail(a, oa) == key_tail(b, ob),
    ensures
        a == b,
    decreases a.len(),
{
    lemma_key_tail_len(a, oa);
    lemma_key_tail_len(b, ob);
    let ka = key_tail(a, oa);
    let kb = key_tail(b, ob);
    if a.len() == 0 {
        if b.len() > 0 && b[0] != '/' {
            vstd::utf8::char_is_scalar(b[0]);
            assert(kb[0] == (b[0] as u32 + 1) as u32);
        }
    } else if a[0] == '/' {
        if b.len() > 0 && b[0] != '/' {
            vstd::utf8::char_is_scalar(b[0]);
            assert(kb[0] == (b[0] as u32 + 1) as u32);
        }
        assert(b.len() > 0);
        assert(ka.subrange(2, ka.len() as int) =~= key_tail(a.drop_first(), oa));
        assert(kb.subrange(2, kb.len() as int) =~= key_tail(b.drop_first(), ob));
        lemma_key_tail_injective(a.drop_first(), oa, b.drop_first(), ob);
        assert(a =~= seq![a[0]] + a.drop_first());
        assert(b =~= seq![b[0]] + b.drop_first());
    } else {
        vstd::utf8::char_is_scalar(a[0]);
        assert(ka[0] == (a[0] as u32 + 1) as u32);
        assert(b.len() > 0 && b[0] != '/');
        vstd::utf8::char_is_scalar(b[0]);
        assert(kb[0] == (b[0] as u32 + 1) as u32);
        vstd::utf8::char_u32_cast(a[0], a[0] as u32);
        vstd::utf8::char_u32_cast(b[0], b[0] as u32);
        assert(ka.subrange(1, ka.len() as int) =~= key_tail(a.drop_first(), oa));
        assert(kb.subrange(1, kb.len() as int) =~= key_tail(b.drop_first(), ob));
        lemma_key_tail_injective(a.drop_first(), oa, b.drop_first(), ob);
        assert(a =~= seq![a[0]] + a.drop_first());
        assert(b =~= seq![b[0]] + b.drop_first());
    }
}

/// Different nodes have different order keys.
pub proof fn lemma_tree_key_injective(a: Seq<char>, da: bool, b: Seq<char>, db: bool)
    requires
        tree_key(a, da) == tree_key(b, db),
    ensures
        a == b,
{
    let oa: u32 = if da { 0 } else { 1 };
    let ob: u32 = if db { 0 } else { 1 };
    assert(tree_key(a, da).drop_first() =~= key_tail(a, oa));
    assert(tree_key(b, db).drop_first() =~= key_tail(b, ob));
    lemma_key_tail_injective(a, oa, b, ob);
}

/// The order key of node `q` in the tree of `es`.
pub open spec fn node_key(es: Seq<StatusEntry>, q: Seq<char>) -> Seq<u32> {
    tree_key(q, node_is_dir(es, q))
}

/// Two lists of distinct paths with the same members, both in key order,
/// are the same list.
proof fn lemma_sorted_paths_unique(es: Seq<StatusEntry>, p1: Seq<Seq<char>>, p2: Seq<Seq<char>>)
    requires
        p1.no_duplicates(),
        p2.no_duplicates(),
        forall|q: Seq<char>| p1.contains(q) <==> p2.contains(q),
        forall|t: int, u: int| 0 <= t < u < p1.len() ==> lex_le(node_key(es, #[trigger] p1[t]), node_key(es, #[trigger] p1[u])),
        forall|t: int, u: int| 0 <= t < u < p2.len() ==> lex_le(node_key(es, #[trigger] p2[t]), node_key(es, #[trigger] p2[u])),
    ensures
        p1 == p2,
    decreases p1.len(),
{
    if p1.len() == 0 {
        if p2.len() > 0 {
            assert(p2.contains(p2[0]));
        }
        assert(p1 =~= p2);
    } else {
        assert(p1.contains(p1.last()));
        assert(p2.len() > 0);
        let l1 = p1.last();
        let l2 = p2.last();
        assert(p2.contains(l1));
        assert(p2.contains(l2));
        assert(p1.contains(l2));
        let u2 = choose|u: int| 0 <= u < p2.len() && p2[u] == l1;
        let u1 = choose|u: int| 0 <= u < p1.len() && p1[u] == l2;
        if u2 < p2.len() - 1 {
            assert(lex_le(node_key(es, p2[u2]), node_key(es, p2[p2.len() - 1])));
        } else {
            lemma_lex_reflexive(node_key(es, l1));
        }
        if u1 < p1.len() - 1 {
            assert(lex_le(node_key(es, p1[u1]), node_key(es, p1[p1.len() - 1])));
        } else {
            lemma_lex_reflexive(node_key(es, l2));
        }
        lemma_lex_antisymmetric(node_key(es, l1), node_key(es, l2));
        lemma_tree_key_injective(l1, node_is_dir(es, l1), l2, node_is_dir(es, l2));
        let d1 = p1.drop_last();
        let d2 = p2.drop_last();
        assert forall|q: Seq<char>| d1.contains(q) <==> d2.contains(q) by {
            if d1.contains(q) {
                let k = choose|k: int| 0 <= k < d1.len() && d1[k] == q;
                assert(p1[k] == q);
                assert(q != l1);
                assert(p1.contains(q));
                let m = choose|m: int| 0 <= m < p2.len() && p2[m] == q;
                assert(m != p2.len() - 1);
                assert(d2[m] == q);
            }
            if d2.contains(q) {
                let k = choose|k: int| 0 <= k < d2.len() && d2[k] == q;
                assert(p2[k] == q);
                assert(q != l2);
                assert(p2.contains(q));
                let m = choose|m: int| 0 <= m < p1.len() && p1[m] == q;
                assert(m != p1.len() - 1);
                assert(d1[m] == q);
            }
        }
        assert forall|t: int, u: int| 0 <= t < u < d1.len() implies lex_le(node_key(es, #[trigger] d1[t]), node_key(es, #[trigger] d1[u])) by {
            assert(d1[t] == p1[t] && d1[u] == p1[u]);
        }
        assert forall|t: int, u: int| 0 <= t < u < d2.len() implies lex_le(node_key(es, #[trigger] d2[t]), node_key(es, #[trigger] d2[u])) by {
            assert(d2[t] == p2[t] && d2[u] == p2[u]);
        }
        lemma_sorted_paths_unique(es, d1, d2);
        assert(p1 =~= d1.push(l1));
        assert(p2 =~= d2.push(l2));
    }
}

/// The paths of nodes.
pub open spec fn node_paths(r: Seq<Node>) -> Seq<Seq<char>> {
    r.map_values(|n: Node| n.path@)
}

proof fn lemma_tree_paths(es: Seq<StatusEntry>, r: Seq<Node>)
    requires
        is_tree_of(es, r),
    ensures
        node_paths(r).no_duplicates(),
        forall|q: Seq<char>| node_paths(r).contains(q) <==> is_node(entry_paths(es), q),
        forall|t: int, u: int| 0 <= t < u < r.len() ==> lex_le(node_key(es, #[trigger] node_paths(r)[t]), node_key(es, #[trigger] node_paths(r)[u])),
{
    let p = node_paths(r);
    assert forall|q: Seq<char>| p.contains(q) <==> is_node(entry_paths(es), q) by {
        if p.contains(q) {
            let k = choose|k: int| 0 <= k < p.len() && p[k] == q;
            assert(node_fits(es, r[k]));
        }
        if is_node(entry_paths(es), q) {
            let t = choose|t: int| 0 <= t < r.len() && r[t].path@ == q;
            assert(p[t] == q);
        }
    }
    assert forall|t: int, u: int| 0 <= t < u < r.len() implies lex_le(node_key(es, #[trigger] p[t]), node_key(es, #[trigger] p[u])) by {
        assert(node_fits(es, r[t]));
        assert(node_fits(es, r[u]));
        assert(lex_le(tree_key(r[t].path@, r[t].is_dir), tree_key(r[u].path@, r[u].is_dir)));
    }
    assert forall|t: int, u: int| 0 <= t < u < p.len() implies p[t] != p[u] by {
        assert(r[t].path@ != r[u].path@);
    }
}

/// The tree of the status entries is unique: two node lists that are
/// both the tree of `es` list the same nodes, with the same fields, in
/// the same order.
pub proof fn lemma_tree_unique(es: Seq<StatusEntry>, r1: Seq<Node>, r2: Seq<Node>)
    requires
        is_tree_of(es, r1),
        is_tree_of(es, r2),
    ensures
        r1.len() == r2.len(),
        forall|t: int| 0 <= t < r1.len() ==> {
            &&& (#[trigger] r1[t]).path@ == r2[t].path@
            &&& r1[t].name@ == r2[t].name@
            &&& r1[t].is_dir == r2[t].is_dir
            &&& r1[t].entry == r2[t].entry
            &&& r1[t].depth == r2[t].depth
        },
{
    lemma_tree_paths(es, r1);
    lemma_tree_paths(es, r2);
    lemma_sorted_paths_unique(es, node_paths(r1), node_paths(r2));
    assert forall|t: int| 0 <= t < r1.len() implies {
        &&& (#[trigger] r1[t]).path@ == r2[t].path@
        &&& r1[t].name@ == r2[t].name@
        &&& r1[t].is_dir == r2[t].is_dir
        &&& r1[t].entry == r2[t].entry
        &&& r1[t].depth == r2[t].depth
    } by {
        assert(node_paths(r1)[t] == node_paths(r2)[t]);
        assert(node_fits(es, r1[t]));
        assert(node_fits(es, r2[t]));
    }
}

proof fn lemma_visible_rows_same(r1: Seq<Node>, r2: Seq<Node>, expanded: Set<Seq<char>>)
    requires
        r1.len() == r2.len(),
        forall|t: int| 0 <= t < r1.len() ==> {
            &&& (#[trigger] r1[t]).path@ == r2[t].path@
            &&& r1[t].name@ == r2[t].name@
            &&& r1[t].is_dir == r2[t].is_dir
            &&& r1[t].entry == r2[t].entry
            &&& r1[t].depth == r2[t].depth
        },
    ensures
        visible_rows(r1, expanded) == visible_rows(r2, expanded),
    decreases r1.len(),
{
    if r1.len() > 0 {
        assert forall|t: int| 0 <= t < r1.drop_last().len() implies {
            &&& (#[trigger] r1.drop_last()[t]).path@ == r2.drop_last()[t].path@
            &&& r1.drop_last()[t].name@ == r2.drop_last()[t].name@
            &&& r1.drop_last()[t].is_dir == r2.drop_last()[t].is_dir
            &&& r1.drop_last()[t].entry == r2.drop_last()[t].entry
            &&& r1.drop_last()[t].depth == r2.drop_last()[t].depth
        } by {
            assert(r1.drop_last()[t] == r1[t]);
            assert(r2.drop_last()[t] == r2[t]);
        }
        lemma_visible_rows_same(r1.drop_last(), r2.drop_last(), expanded);
        assert(r1.last() == r1[r1.len() - 1]);
        assert(r2.last() == r2[r2.len() - 1]);
        assert(row_of(r1.last(), expanded) == row_of(r2.last(), expanded));
    }
}

/// The tree of the status entries `es` (see [`is_tree_of`]).
pub open spec fn tree_of(es: Seq<StatusEntry>) -> Seq<Node> {
    choose|r: Seq<Node>| is_tree_of(es, r)
}

/// The entries `a` and `b` differ at most in the letter case of their
/// paths.
pub open spec fn same_but_case(a: Seq<StatusEntry>, b: Seq<StatusEntry>) -> bool {
    &&& a.len() == b.len()
    &&& forall|i: int|
        0 <= i < a.len() ==> (#[trigger] a[i]).is_dir == b[i].is_dir && lowercase(a[i].path@) == lowercase(
            b[i].path@,
        )
}

/// The status filter ignores letter case: entries whose paths differ only
/// in case show under the same filter in the same rows (for the same
/// entries), and filters that differ only in case show the same rows.
pub proof fn lemma_filter_ignores_case(a: Seq<StatusEntry>, b: Seq<StatusEntry>, f: Seq<char>, g: Seq<char>)
    requires
        same_but_case(a, b),
        lowercase(f) == lowercase(g),
    ensures
        filter_rows(a, f).len() == filter_rows(b, g).len(),
        forall|k: int| 0 <= k < filter_rows(a, f).len() ==> (#[trigger] filter_rows(a, f)[k]).kind == filter_rows(b, g)[k].kind,
        forall|k: int|
            0 <= k < filter_rows(a, f).len() ==> lowercase((#[trigger] filter_rows(a, f)[k]).path) == lowercase(
                filter_rows(b, g)[k].path,
            ),
    decreases a.len(),
{
    if a.len() > 0 {
        let a0 = a.drop_last();
        let b0 = b.drop_last();
        assert(same_but_case(a0, b0)) by {
            assert forall|i: int| 0 <= i < a0.len() implies (#[trigger] a0[i]).is_dir == b0[i].is_dir && lowercase(
                a0[i].path@,
            ) == lowercase(b0[i].path@) by {
                assert(a0[i] == a[i]);
                assert(b0[i] == b[i]);
            }
        }
        lemma_filter_ignores_case(a0, b0, f, g);
        assert(a.last() == a[a.len() - 1]);
        assert(b.last() == b[b.len() - 1]);
        let ra = filter_rows(a, f);
        let rb = filter_rows(b, g);
        let qa = filter_rows(a0, f);
        let qb = filter_rows(b0, g);
        assert forall|k: int| 0 <= k < ra.len() implies (#[trigger] ra[k]).kind == rb[k].kind && lowercase(ra[k].path)
            == lowercase(rb[k].path) by {
            if k < qa.len() {
                assert(ra[k] == qa[k]);
                assert(rb[k] == qb[k]);
            }
        }
    }
}

/// The rows the pane shows for the entries `es`, the `expanded`
/// directories and the filter `f`: the shown rows of the tree, or the
/// filtered list while `f` is set.
pub open spec fn pane_rows(es: Seq<StatusEntry>, expanded: Set<Seq<char>>, f: Seq<char>) -> Seq<SpecTreeItem> {
    if f.len() == 0 {
        visible_rows(tree_of(es), expanded)
    } else {
        filter_rows(es, f)
    }
}

/// Rows that fit the entries, the expanded directories and the filter are
/// exactly [`pane_rows`]: what the pane shows depends on nothing else.
pub proof fn lemma_rows_determined(es: Seq<StatusEntry>, expanded: Set<Seq<char>>, f: Seq<char>, v: Seq<SpecTreeItem>)
    requires
        rows_ok(es, expanded, f, v),
    ensures
        v == pane_rows(es, expanded, f),
{
    if f.len() == 0 {
        let nodes = choose|nodes: Seq<Node>| is_tree_of(es, nodes) && v == visible_rows(nodes, expanded);
        lemma_tree_unique(es, nodes, tree_of(es));
        lemma_visible_rows_same(nodes, tree_of(es), expanded);
    }
}

/// Whether an entry can be committed as-is. Missing (`!`) and obstructed
/// (`~`) files make `svn commit` fail wholesale; conflicted files must be
/// resolved first.
pub open spec fn spec_stageable(e: StatusEntry) -> bool {
    e.status != '!' && e.status != '~' && !e.spec_is_conflicted()
}

/// Whether an entry can be committed as-is (see [`spec_stageable`]).
pub fn stageable(e: &StatusEntry) -> (b: bool)
    ensures
        b == spec_stageable(*e),
{
    e.status != '!' && e.status != '~' && !e.is_conflicted()
}

// ---------------------------------------------------------------------
// The tree pane
// ---------------------------------------------------------------------

/// What `str::to_lowercase` makes of `s` (full Unicode case mapping).
pub uninterp spec fn lowercase(s: Seq<char>) -> Seq<char>;

/// `str::to_lowercase`: the lowercase form of `s`, named [`lowercase`];
/// the case tables are not restated.
#[verifier::external_body]
pub(crate) fn to_lower(s: &str) -> (r: String)
    ensures
        r@ == lowercase(s@),
{
    s.to_lowercase()
}

/// The flat list the filter shows: every file entry whose path contains
/// `f` (ignoring case), in entry order, at depth 0 and named by its path.
pub open spec fn filter_rows(es: Seq<StatusEntry>, f: Seq<char>) -> Seq<SpecTreeItem>
    decreases es.len(),
{
    if es.len() == 0 {
        Seq::empty()
    } else {
        let rest = filter_rows(es.drop_last(), f);
        let e = es.last();
        if !e.is_dir && find(lowercase(e.path@), lowercase(f)) is Some {
            rest.push(
                SpecTreeItem {
                    depth: 0,
                    path: e.path@,
                    name: e.path@,
                    kind: TreeItemKind::File { entry: (es.len() - 1) as usize },
                },
            )
        } else {
            rest
        }
    }
}

/// `v` are the rows the pane shows for the entries `es`: the tree with the
/// `expanded` directories open, or the filtered list while `f` is set.
pub open spec fn rows_ok(
    es: Seq<StatusEntry>,
    expanded: Set<Seq<char>>,
    f: Seq<char>,
    v: Seq<SpecTreeItem>,
) -> bool {
    if f.len() == 0 {
        exists|nodes: Seq<Node>| is_tree_of(es, nodes) && v == visible_rows(nodes, expanded)
    } else {
        v == filter_rows(es, f)
    }
}

/// The first row of `v` with path `p`.
pub open spec fn row_position(v: Seq<SpecTreeItem>, p: Seq<char>) -> Option<int>
    decreases v.len(),
{
    if v.len() == 0 {
        None
    } else {
        match row_position(v.drop_last(), p) {
            Some(i) => Some(i),
            None => if v.last().path == p {
                Some(v.len() - 1)
            } else {
                None
            },
        }
    }
}

/// The selection after the rows changed to `v`: the row of the previously
/// selected path if it is still there, else the first row.
pub open spec fn reselect(v: Seq<SpecTreeItem>, prev: Option<Seq<char>>) -> int {
    match prev {
        Some(p) => match row_position(v, p) {
            Some(i) => i,
            None => 0,
        },
        None => 0,
    }
}

/// The pane `s` with its rows recomputed from its entries, expanded
/// directories and filter, and the selection moved to the row of `prev`
/// (or the first row).
pub open spec fn refreshed(s: PaneState, prev: Option<Seq<char>>) -> PaneState {
    let v = pane_rows(s.entries, s.expanded, s.filter);
    PaneState { visible: v, selection: reselect(v, prev), ..s }
}

/// The value of the tree pane.
pub struct PaneState {
    pub entries: Seq<StatusEntry>,
    pub visible: Seq<SpecTreeItem>,
    pub expanded: Set<Seq<char>>,
    pub selection: int,
    pub staged: Set<Seq<char>>,
    pub filter: Seq<char>,
    pub pending: bool,
    pub focused: bool,
    pub queue: Seq<InternalEvent>,
}

/// Status file tree: `svn status` entries grouped by directory, with
/// staging (the commit set), filtering and a selection.
pub struct StatusTreeComponent {
    entries: Vec<StatusEntry>,
    visible: Vec<TreeItem>,
    expanded: Vec<String>,
    selection: usize,
    /// Paths included in the commit set (staged), each once
    staged: PathSet,
    filter: String,
    pending: bool,
    focused: bool,
    /// Requests for the app, taken by [`StatusTreeComponent::take_events`]
    queue: Queue,
}

impl View for StatusTreeComponent {
    type V = PaneState;

    closed spec fn view(&self) -> PaneState {
        PaneState {
            entries: self.entries@,
            visible: item_views(self.visible@),
            expanded: texts(self.expanded@).to_set(),
            selection: self.selection as int,
            staged: self.staged@,
            filter: self.filter@,
            pending: self.pending,
            focused: self.focused,
            queue: self.queue@,
        }
    }
}

/// The path of the selected row of `s`, if any.
pub open spec fn selected_path(s: PaneState) -> Option<Seq<char>> {
    if 0 <= s.selection < s.visible.len() {
        Some(s.visible[s.selection].path)
    } else {
        None
    }
}

impl StatusTreeComponent {
    /// The pane is consistent: its rows are those of its entries,
    /// expanded directories and filter; the selection is a row (or 0
    /// when there are none); no path is staged twice.
    pub closed spec fn wf(&self) -> bool {
        &&& rows_ok(self.entries@, texts(self.expanded@).to_set(), self.filter@, item_views(self.visible@))
        &&& (self.selection < self.visible@.len() || (self.visible@.len() == 0 && self.selection
            == 0))
        &&& self.staged.wf()
    }

    /// The rows, the selection and the staged paths fit together.
    pub proof fn lemma_wf(&self)
        requires
            self.wf(),
        ensures
            rows_ok(self@.entries, self@.expanded, self@.filter, self@.visible),
            self@.visible == pane_rows(self@.entries, self@.expanded, self@.filter),
            0 <= self@.selection,
            self@.selection < self@.visible.len() || (self@.visible.len() == 0 && self@.selection
                == 0),
    {
        lemma_rows_determined(self@.entries, self@.expanded, self@.filter, self@.visible);
    }

    pub fn new() -> (c: StatusTreeComponent)
        ensures
            c.wf(),
            c@.entries == Seq::<StatusEntry>::empty(),
            c@.visible == Seq::<SpecTreeItem>::empty(),
            c@.expanded == Set::<Seq<char>>::empty(),
            c@.selection == 0,
            c@.staged == Set::<Seq<char>>::empty(),
            c@.filter == Seq::<char>::empty(),
            c@.pending,
            c@.focused,
            c@.queue == Seq::<InternalEvent>::empty(),
    {
        let c = StatusTreeComponent {
            entries: Vec::new(),
            visible: Vec::new(),
            expanded: Vec::new(),
            selection: 0,
            staged: PathSet::new(),
            filter: String::new(),
            pending: true,
            focused: true,
            queue: Queue::new(),
        };
        proof {
            let nodes = Seq::<Node>::empty();
            assert(is_tree_of(c.entries@, nodes)) by {
                assert forall|q: Seq<char>| #[trigger] is_node(entry_paths(c.entries@), q) implies exists|t: int| 0 <= t < nodes.len() && nodes[t].path@ == q by {
                    let i = choose|i: int| 0 <= i < entry_paths(c.entries@).len() && covers(q, #[trigger] entry_paths(c.entries@)[i]);
                }
            }
            assert(item_views(c.visible@) =~= visible_rows(nodes, texts(c.expanded@).to_set()));
        }
        c
    }

    /// The rows currently shown.
    pub fn visible(&self) -> (v: &[TreeItem])
        ensures
            item_views(v@) == self@.visible,
    {
        self.visible.as_slice()
    }

    /// The selected row.
    pub fn selection(&self) -> (i: usize)
        ensures
            i == self@.selection,
    {
        self.selection
    }

    /// The status entries.
    pub fn entries(&self) -> (v: &[StatusEntry])
        ensures
            v@ == self@.entries,
    {
        self.entries.as_slice()
    }

    /// The staged paths, each once, in no particular order.
    pub fn staged(&self) -> (v: &[String])
        requires
            self.wf(),
        ensures
            texts(v@).to_set() == self@.staged,
            strictly_sorted(texts(v@)),
    {
        proof {
            self.staged.lemma_list();
        }
        self.staged.as_slice()
    }

    /// Whether the status is still loading.
    pub fn pending(&self) -> (b: bool)
        ensures
            b == self@.pending,
    {
        self.pending
    }

    /// Whether the pane has the focus.
    pub fn focused(&self) -> (b: bool)
        ensures
            b == self@.focused,
    {
        self.focused
    }

    /// Take the requests the pane queued for the app, oldest first.
    pub fn take_events(&mut self) -> (v: Vec<InternalEvent>)
        requires
            old(self).wf(),
        ensures
            final(self).wf(),
            v@ == old(self)@.queue,
            final(self)@ == (PaneState { queue: Seq::empty(), ..old(self)@ }),
    {
        self.queue.drain()
    }

    /// Recompute the rows from the entries, the expanded directories and
    /// the filter; the selection stays on the selected path if it is still
    /// shown, else goes to the first row.
    fn rebuild_visible(&mut self)
        requires
            old(self).selection < old(self).visible@.len() || old(self).selection == 0,
        ensures
            rows_ok(final(self).entries@, texts(final(self).expanded@).to_set(), final(self).filter@, item_views(final(self).visible@)),
            final(self).selection as int == reselect(item_views(final(self).visible@), selected_path(old(self)@)),
            final(self)@ == refreshed(old(self)@, selected_path(old(self)@)),
            final(self).selection < final(self).visible@.len() || (final(self).visible@.len() == 0 && final(self).selection == 0),
            final(self).entries == old(self).entries,
            final(self).expanded == old(self).expanded,
            final(self).staged == old(self).staged,
            final(self).filter == old(self).filter,
            final(self).pending == old(self).pending,
            final(self).focused == old(self).focused,
            final(self).queue == old(self).queue,
    {
        let prev = self.selection_path_raw();
        let visible = if self.filter.as_str().is_empty() {
            tree_rows(self.entries.as_slice(), self.expanded.as_slice())
        } else {
            self.filtered()
        };
        self.visible = visible;
        let ghost v = item_views(self.visible@);
        let mut k: usize = 0;
        let mut found: Option<usize> = None;
        match &prev {
            Some(p) => {
                while k < self.visible.len() && found.is_none()
                    invariant
                        v == item_views(self.visible@),
                        k <= v.len(),
                        found is None ==> row_position(v.take(k as int), p@) is None,
                        found matches Some(i) ==> i < v.len() && row_position(v, p@) == Some(i as int),
                    decreases self.visible.len() - k,
                {
                    assert(v.take(k + 1).drop_last() =~= v.take(k as int));
                    if string_eq(&self.visible[k].path, p) {
                        assert(v.take(k + 1).last().path == p@);
                        proof {
                            lemma_row_position_prefix(v, k as int + 1, p@);
                        }
                        found = Some(k);
                    }
                    k = k + 1;
                }
                if found.is_none() {
                    assert(v.take(v.len() as int) =~= v);
                }
            },
            None => {},
        }
        self.selection = match found {
            Some(i) => i,
            None => 0,
        };
        proof {
            lemma_rows_determined(self@.entries, self@.expanded, self@.filter, self@.visible);
        }
    }

    /// The selected path, as the pane stands.
    fn selection_path_raw(&self) -> (r: Option<String>)
        ensures
            match r {
                Some(p) => selected_path(self@) == Some(p@),
                None => selected_path(self@) is None,
            },
    {
        if self.selection < self.visible.len() {
            Some(self.visible[self.selection].path.clone())
        } else {
            None
        }
    }

    /// The rows of the filtered list.
    fn filtered(&self) -> (r: Vec<TreeItem>)
        ensures
            item_views(r@) == filter_rows(self.entries@, self.filter@),
    {
        let f = chars_of(to_lower(self.filter.as_str()).as_str());
        let mut out: Vec<TreeItem> = Vec::new();
        let mut i: usize = 0;
        while i < self.entries.len()
            invariant
                i <= self.entries@.len(),
                f@ == lowercase(self.filter@),
                item_views(out@) == filter_rows(self.entries@.take(i as int), self.filter@),
            decreases self.entries.len() - i,
        {
            let e = &self.entries[i];
            assert(self.entries@.take(i + 1).drop_last() =~= self.entries@.take(i as int));
            assert(self.entries@.take(i + 1).last() == *e);
            if !e.is_dir {
                let lp = chars_of(to_lower(e.path.as_str()).as_str());
                assert(lp@.subrange(0, lp@.len() as int) =~= lp@);
                if find_at(&lp, 0, lp.len(), &f).is_some() {
                    let ghost before = out@;
                    out.push(TreeItem { depth: 0, path: e.path.clone(), name: e.path.clone(), kind: TreeItemKind::File { entry: i } });
                    assert(item_views(out@) =~= item_views(before).push(SpecTreeItem { depth: 0, path: e.path@, name: e.path@, kind: TreeItemKind::File { entry: i } }));
                }
            }
            i = i + 1;
        }
        assert(self.entries@.take(self.entries@.len() as int) =~= self.entries@);
        out
    }
}

proof fn lemma_row_position_prefix(v: Seq<SpecTreeItem>, n: int, p: Seq<char>)
    requires
        0 < n <= v.len(),
        row_position(v.take(n - 1), p) is None,
        v[n - 1].path == p,
    ensures
        row_position(v, p) == Some(n - 1),
    decreases v.len(),
{
    if v.len() > n {
        assert(v.drop_last().take(n - 1) =~= v.take(n - 1));
        lemma_row_position_prefix(v.drop_last(), n, p);
    } else {
        assert(v.drop_last() =~= v.take(n - 1));
    }
}

/// Equal strings.
fn string_eq(a: &String, b: &String) -> (r: bool)
    ensures
        r == (a@ == b@),
{
    *a == *b
}

/// The files `paths_at_selection` gives for directory `d`: the
/// directory's own entry and every file entry below it, in entry order.
pub open spec fn files_under(es: Seq<StatusEntry>, d: Seq<char>) -> Seq<Seq<char>>
    decreases es.len(),
{
    if es.len() == 0 {
        Seq::empty()
    } else {
        let rest = files_under(es.drop_last(), d);
        let e = es.last();
        if e.path@ == d || (!e.is_dir && starts_with(e.path@, d.push('/'))) {
            rest.push(e.path@)
        } else {
            rest
        }
    }
}

/// The paths acted on at the selection of `s`: the selected file, or for
/// a directory its own entry and everything below it; none without a
/// selected row.
pub open spec fn selection_paths(s: PaneState) -> Seq<Seq<char>> {
    if 0 <= s.selection < s.visible.len() {
        let item = s.visible[s.selection];
        match item.kind {
            TreeItemKind::File { .. } => seq![item.path],
            TreeItemKind::Dir { .. } => files_under(s.entries, item.path),
        }
    } else {
        Seq::empty()
    }
}

/// The status entry of the selected row of `s`, when it is a file row.
pub open spec fn selected_entry(s: PaneState) -> Option<StatusEntry> {
    if 0 <= s.selection < s.visible.len() {
        match s.visible[s.selection].kind {
            TreeItemKind::File { entry } => if entry < s.entries.len() {
                Some(s.entries[entry as int])
            } else {
                None
            },
            TreeItemKind::Dir { .. } => None,
        }
    } else {
        None
    }
}

/// The entry the path-keyed lookups find for `p`: the last entry with
/// that path.
pub open spec fn entry_by_path(es: Seq<StatusEntry>, p: Seq<char>) -> Option<StatusEntry> {
    match last_entry(entry_paths(es), p) {
        Some(i) => Some(es[i]),
        None => None,
    }
}

/// `p` may be staged: it has no entry, or its entry is stageable.
pub open spec fn path_stageable(es: Seq<StatusEntry>, p: Seq<char>) -> bool {
    match entry_by_path(es, p) {
        Some(e) => spec_stageable(e),
        None => true,
    }
}

/// The paths of `ps` that may be staged under the entries `es`, in order.
pub open spec fn stageable_paths(es: Seq<StatusEntry>, ps: Seq<Seq<char>>) -> Seq<Seq<char>>
    decreases ps.len(),
{
    if ps.len() == 0 {
        Seq::empty()
    } else {
        let rest = stageable_paths(es, ps.drop_last());
        if path_stageable(es, ps.last()) {
            rest.push(ps.last())
        } else {
            rest
        }
    }
}

/// The paths of `ps` whose membership in `st` is `want`, in order.
pub open spec fn paths_in(st: Set<Seq<char>>, ps: Seq<Seq<char>>, want: bool) -> Seq<Seq<char>>
    decreases ps.len(),
{
    if ps.len() == 0 {
        Seq::empty()
    } else {
        let rest = paths_in(st, ps.drop_last(), want);
        if st.contains(ps.last()) == want {
            rest.push(ps.last())
        } else {
            rest
        }
    }
}

/// What toggling the stage of `paths` one after the other does to the
/// staged set `st`: the final set, the paths added and the paths removed,
/// each in order.
pub open spec fn toggle_fold(st: Set<Seq<char>>, paths: Seq<Seq<char>>) -> (Set<Seq<char>>, Seq<Seq<char>>, Seq<Seq<char>>)
    decreases paths.len(),
{
    if paths.len() == 0 {
        (st, Seq::empty(), Seq::empty())
    } else {
        let (s0, a0, r0) = toggle_fold(st, paths.drop_last());
        let p = paths.last();
        if s0.contains(p) {
            (s0.remove(p), a0, r0.push(p))
        } else {
            (s0.insert(p), a0.push(p), r0)
        }
    }
}

proof fn lemma_to_set_push(v: Seq<Seq<char>>, x: Seq<char>)
    ensures
        v.push(x).to_set() == v.to_set().insert(x),
{
    assert(v.push(x).to_set() =~= v.to_set().insert(x)) by {
        assert forall|y: Seq<char>| #[trigger] v.push(x).to_set().contains(y) <==> v.to_set().insert(x).contains(y) by {
            if v.push(x).contains(y) {
                let w = v.push(x);
                let i = choose|i: int| 0 <= i < w.len() && #[trigger] w[i] == y;
                if i < v.len() {
                    assert(v[i] == y);
                }
            }
            if v.contains(y) {
                let i = choose|i: int| 0 <= i < v.len() && #[trigger] v[i] == y;
                assert(v.push(x)[i] == y);
            }
            if y == x {
                assert(v.push(x)[v.len() as int] == y);
            }
        }
    }
}

/// Toggling distinct `paths` flips each of them: the result is the
/// symmetric difference of the staged set and the paths.
proof fn lemma_toggle_fold_flips(st: Set<Seq<char>>, paths: Seq<Seq<char>>)
    requires
        paths.no_duplicates(),
    ensures
        toggle_fold(st, paths).0 == st.difference(paths.to_set()).union(paths.to_set().difference(st)),
    decreases paths.len(),
{
    if paths.len() > 0 {
        let init = paths.drop_last();
        let p = paths.last();
        assert(init.no_duplicates());
        lemma_toggle_fold_flips(st, init);
        assert(paths =~= init.push(p));
        lemma_to_set_push(init, p);
        assert(!init.to_set().contains(p)) by {
            if init.contains(p) {
                let i = choose|i: int| 0 <= i < init.len() && #[trigger] init[i] == p;
                assert(paths[i] == paths[paths.len() - 1]);
            }
        }
        let q = init.to_set();
        let s0 = st.difference(q).union(q.difference(st));
        let qp = q.insert(p);
        if s0.contains(p) {
            assert(s0.remove(p) =~= st.difference(qp).union(qp.difference(st)));
        } else {
            assert(s0.insert(p) =~= st.difference(qp).union(qp.difference(st)));
        }
    } else {
        assert(paths.to_set() =~= Set::<Seq<char>>::empty());
        assert(st.difference(paths.to_set()).union(paths.to_set().difference(st)) =~= st);
    }
}

/// Staging toggles: toggling the stage of the same distinct paths twice
/// leaves the commit set as it was.
pub proof fn lemma_toggle_twice_restores(st: Set<Seq<char>>, paths: Seq<Seq<char>>)
    requires
        paths.no_duplicates(),
    ensures
        toggle_fold(toggle_fold(st, paths).0, paths).0 == st,
{
    let q = paths.to_set();
    let s1 = toggle_fold(st, paths).0;
    lemma_toggle_fold_flips(st, paths);
    lemma_toggle_fold_flips(s1, paths);
    assert(s1.difference(q).union(q.difference(s1)) =~= st);
}

impl StatusTreeComponent {
    /// Whether `p` is staged.
    pub fn is_staged(&self, p: &String) -> (b: bool)
        requires
            self.wf(),
        ensures
            b == self@.staged.contains(p@),
    {
        self.staged.contains(p)
    }

    /// The number of staged paths.
    pub fn staged_count(&self) -> (n: usize)
        requires
            self.wf(),
        ensures
            n == self@.staged.len(),
    {
        self.staged.len()
    }

    /// Add `paths` to the commit set.
    pub fn set_staged(&mut self, paths: &[String])
        requires
            old(self).wf(),
        ensures
            final(self).wf(),
            final(self)@ == (PaneState { staged: old(self)@.staged.union(texts(paths@).to_set()), ..old(self)@ }),
    {
        self.staged.insert_all(paths);
    }

    /// Remove `paths` from the commit set.
    pub fn unset_staged(&mut self, paths: &[String])
        requires
            old(self).wf(),
        ensures
            final(self).wf(),
            final(self)@ == (PaneState { staged: old(self)@.staged.difference(texts(paths@).to_set()), ..old(self)@ }),
    {
        self.staged.remove_all(paths);
    }

    /// Empty the commit set.
    pub fn clear_staged(&mut self)
        requires
            old(self).wf(),
        ensures
            final(self).wf(),
            final(self)@ == (PaneState { staged: Set::empty(), ..old(self)@ }),
    {
        self.staged.clear();
    }

    /// Toggle each of `paths` in turn: staged ones are unstaged, others
    /// staged. Returns the paths staged and the paths unstaged.
    pub fn toggle_stage_paths(&mut self, paths: &[String]) -> (r: (Vec<String>, Vec<String>))
        requires
            old(self).wf(),
        ensures
            final(self).wf(),
            ({
                let (st, a, rm) = toggle_fold(old(self)@.staged, texts(paths@));
                &&& final(self)@ == (PaneState { staged: st, ..old(self)@ })
                &&& texts(r.0@) == a
                &&& texts(r.1@) == rm
            }),
    {
        let mut added: Vec<String> = Vec::new();
        let mut removed: Vec<String> = Vec::new();
        let mut i: usize = 0;
        while i < paths.len()
            invariant
                i <= paths@.len(),
                self.wf(),
                ({
                    let (st, a, rm) = toggle_fold(old(self)@.staged, texts(paths@).take(i as int));
                    &&& self@ == (PaneState { staged: st, ..old(self)@ })
                    &&& texts(added@) == a
                    &&& texts(removed@) == rm
                }),
            decreases paths.len() - i,
        {
            let p = &paths[i];
            assert(texts(paths@).take(i + 1).drop_last() =~= texts(paths@).take(i as int));
            assert(texts(paths@).take(i + 1).last() == p@);
            if self.is_staged(p) {
                self.staged.remove(p);
                let ghost before = texts(removed@);
                removed.push(p.clone());
                assert(texts(removed@) =~= before.push(p@));
            } else {
                self.staged.insert(p);
                let ghost before = texts(added@);
                added.push(p.clone());
                assert(texts(added@) =~= before.push(p@));
            }
            i = i + 1;
        }
        assert(texts(paths@).take(paths@.len() as int) =~= texts(paths@));
        (added, removed)
    }

    pub fn set_focused(&mut self, focused: bool)
        requires
            old(self).wf(),
        ensures
            final(self).wf(),
            final(self)@ == (PaneState { focused, ..old(self)@ }),
    {
        self.focused = focused;
    }
}

/// `q` is `old_q` with `ev` appended, as far as the event's kind and
/// texts go.
pub open spec fn pushed(old_q: Seq<InternalEvent>, new_q: Seq<InternalEvent>) -> bool {
    new_q.len() == old_q.len() + 1 && new_q.drop_last() == old_q
}

/// The message shown when nothing under the selection can be staged.
pub open spec fn nothing_stageable_msg() -> Seq<char> {
    "Nothing stageable here (missing/obstructed/conflicted files must be fixed first)"@
}

/// What toggling the stage at the selection does to the pane `s`: the
/// new pane, and the paths staged and unstaged. If everything stageable
/// under the selection is staged and something under it is staged,
/// everything under it is unstaged; otherwise the stageable paths not yet
/// staged are staged; with nothing stageable, a message is queued.
pub open spec fn toggle_at_selection(s: PaneState) -> (PaneState, Seq<Seq<char>>, Seq<Seq<char>>) {
    let paths = selection_paths(s);
    let es = s.entries;
    let stageable = stageable_paths(es, paths);
    let staged = s.staged;
    let removed = paths_in(staged, paths, true);
    if paths.len() == 0 {
        (s, Seq::empty(), Seq::empty())
    } else if (forall|i: int| 0 <= i < stageable.len() ==> staged.contains(#[trigger] stageable[i]))
        && removed.len() > 0 {
        (PaneState { staged: staged.difference(paths.to_set()), ..s }, Seq::empty(), removed)
    } else if stageable.len() == 0 {
        (s, Seq::empty(), Seq::empty())
    } else {
        let added = paths_in(staged, stageable, false);
        (PaneState { staged: staged.union(added.to_set()), ..s }, added, Seq::empty())
    }
}

impl StatusTreeComponent {
    /// The entry the path-keyed lookups find for `p` (the last entry with
    /// that path).
    fn entry_by_path(&self, p: &String) -> (r: Option<&StatusEntry>)
        ensures
            match entry_by_path(self@.entries, p@) {
                Some(e) => r == Some(&e),
                None => r is None,
            },
    {
        let ghost ps = entry_paths(self.entries@);
        proof {
            lemma_last_entry(ps, p@);
        }
        let mut k = self.entries.len();
        while k > 0
            invariant
                k <= self.entries@.len(),
                ps == entry_paths(self.entries@),
                forall|j: int| k <= j < ps.len() ==> ps[j] != p@,
            decreases k,
        {
            if string_eq(&self.entries[k - 1].path, p) {
                proof {
                    lemma_last_entry(ps, p@);
                    match last_entry(ps, p@) {
                        Some(m) => {
                            if m < k - 1 {
                                assert(ps[k - 1] == p@);
                            }
                        },
                        None => {
                            assert(ps[k - 1] == p@);
                        },
                    }
                }
                return Some(&self.entries[k - 1]);
            }
            k = k - 1;
        }
        None
    }

    /// The entry paths of `self.entries` that `paths_at_selection` takes
    /// for the directory `d`.
    fn files_under(&self, d: &String) -> (r: Vec<String>)
        ensures
            texts(r@) == files_under(self@.entries, d@),
    {
        let mut prefix = d.clone();
        crate::text::push_char(&mut prefix, '/');
        let pre = chars_of(prefix.as_str());
        let mut out: Vec<String> = Vec::new();
        let mut i: usize = 0;
        while i < self.entries.len()
            invariant
                i <= self.entries@.len(),
                pre@ == d@.push('/'),
                texts(out@) == files_under(self.entries@.take(i as int), d@),
            decreases self.entries.len() - i,
        {
            let e = &self.entries[i];
            assert(self.entries@.take(i + 1).drop_last() =~= self.entries@.take(i as int));
            assert(self.entries@.take(i + 1).last() == *e);
            let under = if string_eq(&e.path, d) {
                true
            } else if !e.is_dir {
                let pc = chars_of(e.path.as_str());
                assert(pc@.subrange(0, pc@.len() as int) =~= pc@);
                crate::text::starts_with_at(&pc, 0, pc.len(), &pre)
            } else {
                false
            };
            if under {
                let ghost before = texts(out@);
                out.push(e.path.clone());
                assert(texts(out@) =~= before.push(e.path@));
            }
            i = i + 1;
        }
        assert(self.entries@.take(self.entries@.len() as int) =~= self.entries@);
        out
    }

    /// The path of the selected row, if any.
    pub fn selection_path(&self) -> (r: Option<String>)
        ensures
            match r {
                Some(p) => selected_path(self@) == Some(p@),
                None => selected_path(self@) is None,
            },
    {
        self.selection_path_raw()
    }

    /// The status entry of the selected row, when it is a file row.
    pub fn selection_entry(&self) -> (r: Option<&StatusEntry>)
        ensures
            match selected_entry(self@) {
                Some(e) => r == Some(&e),
                None => r is None,
            },
    {
        if self.selection < self.visible.len() {
            match self.visible[self.selection].kind {
                TreeItemKind::File { entry } => {
                    if entry < self.entries.len() {
                        Some(&self.entries[entry])
                    } else {
                        None
                    }
                },
                TreeItemKind::Dir { .. } => None,
            }
        } else {
            None
        }
    }

    /// Paths affected by staging the item under the cursor. For a
    /// directory this includes the directory's own status entry (if any:
    /// an unversioned or property-changed dir) plus all descendant files;
    /// svn accepts directories as add/commit/revert targets.
    pub fn paths_at_selection(&self) -> (r: Vec<String>)
        ensures
            texts(r@) == selection_paths(self@),
    {
        if self.selection >= self.visible.len() {
            let v: Vec<String> = Vec::new();
            assert(texts(v@) =~= Seq::<Seq<char>>::empty());
            return v;
        }
        let item = &self.visible[self.selection];
        match item.kind {
            TreeItemKind::File { .. } => {
                let mut v: Vec<String> = Vec::new();
                v.push(item.path.clone());
                assert(texts(v@) =~= seq![item.path@]);
                v
            },
            TreeItemKind::Dir { .. } => self.files_under(&item.path),
        }
    }

    /// The paths of `paths` that may be staged.
    fn stageable_of(&self, paths: &Vec<String>) -> (r: Vec<String>)
        ensures
            texts(r@) == stageable_paths(self@.entries, texts(paths@)),
    {
        let ghost es = self@.entries;
        let mut out: Vec<String> = Vec::new();
        let mut i: usize = 0;
        while i < paths.len()
            invariant
                i <= paths@.len(),
                es == self@.entries,
                texts(out@) == stageable_paths(es, texts(paths@).take(i as int)),
            decreases paths.len() - i,
        {
            assert(texts(paths@).take(i + 1).drop_last() =~= texts(paths@).take(i as int));
            assert(texts(paths@).take(i + 1).last() == paths@[i as int]@);
            let ok = match self.entry_by_path(&paths[i]) {
                Some(e) => stageable(e),
                None => true,
            };
            if ok {
                let ghost before = texts(out@);
                out.push(paths[i].clone());
                assert(texts(out@) =~= before.push(paths@[i as int]@));
            }
            i = i + 1;
        }
        assert(texts(paths@).take(paths@.len() as int) =~= texts(paths@));
        out
    }

    /// The paths of `paths` that are staged (`want`) or not.
    fn staged_of(&self, paths: &Vec<String>, want: bool) -> (r: Vec<String>)
        requires
            self.wf(),
        ensures
            texts(r@) == paths_in(self@.staged, texts(paths@), want),
    {
        let ghost st = self@.staged;
        let mut out: Vec<String> = Vec::new();
        let mut i: usize = 0;
        while i < paths.len()
            invariant
                i <= paths@.len(),
                st == self@.staged,
                self.wf(),
                texts(out@) == paths_in(st, texts(paths@).take(i as int), want),
            decreases paths.len() - i,
        {
            assert(texts(paths@).take(i + 1).drop_last() =~= texts(paths@).take(i as int));
            assert(texts(paths@).take(i + 1).last() == paths@[i as int]@);
            if self.is_staged(&paths[i]) == want {
                let ghost before = texts(out@);
                out.push(paths[i].clone());
                assert(texts(out@) =~= before.push(paths@[i as int]@));
            }
            i = i + 1;
        }
        assert(texts(paths@).take(paths@.len() as int) =~= texts(paths@));
        out
    }

    /// Toggle staging for the item under the cursor. Returns the paths that
    /// were newly staged (so the app can run `svn add` for unversioned ones)
    /// and the paths that were unstaged (see [`toggle_at_selection`]).
    /// Missing (`!`), obstructed (`~`) and conflicted entries cannot be
    /// committed and are never staged.
    pub fn toggle_stage_at_selection(&mut self) -> (r: (Vec<String>, Vec<String>))
        requires
            old(self).wf(),
        ensures
            final(self).wf(),
            ({
                let (s2, added, removed) = toggle_at_selection(old(self)@);
                &&& texts(r.0@) == added
                &&& texts(r.1@) == removed
                &&& final(self)@.staged == s2.staged
                &&& final(self)@.entries == old(self)@.entries
                &&& final(self)@.visible == old(self)@.visible
                &&& final(self)@.expanded == old(self)@.expanded
                &&& final(self)@.selection == old(self)@.selection
                &&& final(self)@.filter == old(self)@.filter
                &&& final(self)@.pending == old(self)@.pending
                &&& final(self)@.focused == old(self)@.focused
                &&& (if selection_paths(old(self)@).len() > 0 && texts(r.0@).len() == 0 && texts(r.1@).len() == 0 {
                    &&& pushed(old(self)@.queue, final(self)@.queue)
                    &&& (final(self)@.queue.last() matches InternalEvent::ShowInfoMsg(m) && m@ == nothing_stageable_msg())
                } else {
                    final(self)@.queue == old(self)@.queue
                })
            }),
    {
        let paths = self.paths_at_selection();
        if paths.len() == 0 {
            let a: Vec<String> = Vec::new();
            let b: Vec<String> = Vec::new();
            assert(texts(a@) =~= Seq::<Seq<char>>::empty());
            assert(texts(b@) =~= Seq::<Seq<char>>::empty());
            return (a, b);
        }
        let stageable_paths = self.stageable_of(&paths);
        let unstaged_left = self.staged_of(&stageable_paths, false);
        let ghost stg = texts(stageable_paths@);
        let ghost st = self@.staged;
        proof {
            lemma_paths_in_none(st, stg, false);
        }
        if unstaged_left.len() == 0 {
            let removed = self.staged_of(&paths, true);
            proof {
                lemma_paths_in_none(st, texts(paths@), true);
                lemma_stageable_within(self@.entries, texts(paths@));
                if removed@.len() == 0 && stg.len() > 0 {
                    assert(st.contains(stg[0]));
                    let k = choose|k: int| 0 <= k < texts(paths@).len() && #[trigger] texts(paths@)[k] == stg[0];
                    assert(!st.contains(texts(paths@)[k]));
                }
            }
            if removed.len() > 0 {
                self.unset_staged(paths.as_slice());
                let a: Vec<String> = Vec::new();
                assert(texts(a@) =~= Seq::<Seq<char>>::empty());
                return (a, removed);
            }
        }
        if stageable_paths.len() == 0 {
            let msg = "Nothing stageable here (missing/obstructed/conflicted files must be fixed first)".to_owned();
            let ghost q0 = self@.queue;
            self.queue.push(InternalEvent::ShowInfoMsg(msg));
            assert(self@.queue.drop_last() =~= q0);
            let a: Vec<String> = Vec::new();
            let b: Vec<String> = Vec::new();
            assert(texts(a@) =~= Seq::<Seq<char>>::empty());
            assert(texts(b@) =~= Seq::<Seq<char>>::empty());
            return (a, b);
        }
        let added = unstaged_left;
        self.set_staged(added.as_slice());
        let b: Vec<String> = Vec::new();
        assert(texts(b@) =~= Seq::<Seq<char>>::empty());
        (added, b)
    }
}

/// Every path `stageable_paths` keeps is one of `ps`.
proof fn lemma_stageable_within(es: Seq<StatusEntry>, ps: Seq<Seq<char>>)
    ensures
        forall|i: int| 0 <= i < stageable_paths(es, ps).len() ==> ps.contains(#[trigger] stageable_paths(es, ps)[i]),
    decreases ps.len(),
{
    if ps.len() > 0 {
        lemma_stageable_within(es, ps.drop_last());
        let r = stageable_paths(es, ps.drop_last());
        assert forall|i: int| 0 <= i < stageable_paths(es, ps).len() implies ps.contains(#[trigger] stageable_paths(es, ps)[i]) by {
            if i < r.len() {
                let x = r[i];
                assert(ps.drop_last().contains(x));
                let k = choose|k: int| 0 <= k < ps.drop_last().len() && #[trigger] ps.drop_last()[k] == x;
                assert(ps[k] == x);
            } else {
                assert(ps[ps.len() - 1] == ps.last());
            }
        }
    }
}

/// `paths_in` keeps nothing exactly when no path has the wanted
/// membership.
proof fn lemma_paths_in_none(st: Set<Seq<char>>, ps: Seq<Seq<char>>, want: bool)
    ensures
        paths_in(st, ps, want).len() == 0 <==> forall|i: int| 0 <= i < ps.len() ==> st.contains(#[trigger] ps[i]) != want,
    decreases ps.len(),
{
    if ps.len() > 0 {
        lemma_paths_in_none(st, ps.drop_last(), want);
        if paths_in(st, ps, want).len() == 0 {
            assert forall|i: int| 0 <= i < ps.len() implies st.contains(#[trigger] ps[i]) != want by {
                if i < ps.len() - 1 {
                    assert(ps[i] == ps.drop_last()[i]);
                }
            }
        }
        if forall|i: int| 0 <= i < ps.len() ==> st.contains(#[trigger] ps[i]) != want {
            assert forall|i: int| 0 <= i < ps.drop_last().len() implies st.contains(#[trigger] ps.drop_last()[i]) != want by {
                assert(ps.drop_last()[i] == ps[i]);
            }
            assert(st.contains(ps[ps.len() - 1]) != want);
        }
    }
}




/// The selection of `s` moved by `delta` rows, kept on a row.
pub open spec fn moved_selection(s: PaneState, delta: int) -> int {
    if s.visible.len() == 0 {
        s.selection
    } else {
        let t = if s.selection + delta < 0 {
            0
        } else {
            s.selection + delta
        };
        if t < s.visible.len() {
            t
        } else {
            s.visible.len() - 1
        }
    }
}

/// The pane `s` after collapsing (`expand` false) or expanding the
/// selected row, when it is a directory.
pub open spec fn folded(s: PaneState, expand: bool) -> PaneState {
    if 0 <= s.selection < s.visible.len() && s.visible[s.selection].kind is Dir {
        let p = s.visible[s.selection].path;
        refreshed(
            PaneState {
                expanded: if expand {
                    s.expanded.insert(p)
                } else {
                    s.expanded.remove(p)
                },
                ..s
            },
            selected_path(s),
        )
    } else {
        s
    }
}

/// `v` without the text `p`.
fn without_text(v: &Vec<String>, p: &String) -> (r: Vec<String>)
    ensures
        texts(r@).to_set() == texts(v@).to_set().remove(p@),
{
    let ghost t = texts(v@);
    let mut out: Vec<String> = Vec::new();
    let mut i: usize = 0;
    while i < v.len()
        invariant
            i <= v@.len(),
            t == texts(v@),
            forall|x: Seq<char>| #[trigger] texts(out@).contains(x) <==> (t.take(i as int).contains(x) && x != p@),
        decreases v.len() - i,
    {
        let ghost before = texts(out@);
        let keep = !string_eq(&v[i], p);
        if keep {
            out.push(v[i].clone());
            assert(texts(out@) =~= before.push(t[i as int]));
        }
        assert forall|x: Seq<char>| #[trigger] texts(out@).contains(x) <==> (t.take(i + 1).contains(x) && x != p@) by {
            let t1 = t.take(i + 1);
            let t0 = t.take(i as int);
            if texts(out@).contains(x) {
                let o = texts(out@);
                let k = choose|k: int| 0 <= k < o.len() && o[k] == x;
                if keep && k == before.len() {
                    assert(t1[i as int] == x);
                } else {
                    assert(before[k] == x);
                    assert(before.contains(x));
                    let j = choose|j: int| 0 <= j < t0.len() && t0[j] == x;
                    assert(t1[j] == x);
                }
            }
            if t1.contains(x) && x != p@ {
                let j = choose|j: int| 0 <= j < t1.len() && t1[j] == x;
                if j < i {
                    assert(t0[j] == x);
                    assert(before.contains(x));
                    let k = choose|k: int| 0 <= k < before.len() && before[k] == x;
                    assert(texts(out@)[k] == x);
                } else {
                    assert(texts(out@)[before.len() as int] == x);
                }
            }
        }
        i = i + 1;
    }
    assert(t.take(v@.len() as int) =~= t);
    assert(texts(out@).to_set() =~= t.to_set().remove(p@));
    out
}

impl StatusTreeComponent {
    /// Show the status entries `entries`: staged paths that no longer
    /// have an entry (committed or reverted elsewhere) are dropped, the
    /// rows are rebuilt and the selection stays on its path when it can.
    pub fn update(&mut self, entries: Vec<StatusEntry>)
        requires
            old(self).wf(),
        ensures
            final(self).wf(),
            final(self)@ == refreshed(
                PaneState {
                    entries: entries@,
                    staged: old(self)@.staged.intersect(entry_paths(entries@).to_set()),
                    pending: false,
                    ..old(self)@
                },
                selected_path(old(self)@),
            ),
    {
        self.pending = false;
        let mut present: Vec<String> = Vec::new();
        let mut i: usize = 0;
        while i < entries.len()
            invariant
                i <= entries@.len(),
                texts(present@) == entry_paths(entries@).take(i as int),
            decreases entries.len() - i,
        {
            let ghost before = texts(present@);
            present.push(entries[i].path.clone());
            assert(texts(present@) =~= before.push(entries@[i as int].path@));
            assert(entry_paths(entries@).take(i + 1) =~= entry_paths(entries@).take(i as int).push(entries@[i as int].path@));
            i = i + 1;
        }
        assert(entry_paths(entries@).take(entries@.len() as int) =~= entry_paths(entries@));
        let present_set = PathSet::from_paths(present.as_slice());
        self.staged.retain_in(&present_set);
        self.entries = entries;
        self.rebuild_visible();
    }

    /// Whether the pane shows no rows.
    pub fn is_empty(&self) -> (b: bool)
        ensures
            b == (self@.visible.len() == 0),
    {
        self.visible.len() == 0
    }

    /// Number of currently visible tree items (files + dirs).
    pub fn visible_len(&self) -> (n: usize)
        ensures
            n == self@.visible.len(),
    {
        self.visible.len()
    }

    /// The active path-substring filter (empty = no filtering).
    pub fn filter(&self) -> (f: &str)
        ensures
            f@ == self@.filter,
    {
        self.filter.as_str()
    }

    /// Set the path-substring filter and rebuild the visible list. Called
    /// live while typing in the filter popup, and with an empty string to
    /// clear the filter.
    pub fn set_filter(&mut self, filter: String)
        requires
            old(self).wf(),
        ensures
            final(self).wf(),
            final(self)@ == refreshed(PaneState { filter: filter@, ..old(self)@ }, selected_path(old(self)@)),
    {
        self.filter = filter;
        self.rebuild_visible();
    }

    /// Move the selection by `delta` rows, staying on a row.
    fn move_selection(&mut self, delta: isize)
        requires
            old(self).wf(),
        ensures
            final(self).wf(),
            final(self)@ == (PaneState { selection: moved_selection(old(self)@, delta as int), ..old(self)@ }),
    {
        let len = self.visible.len();
        if len == 0 {
            return;
        }
        let sel = self.selection;
        let target: usize = if delta < 0 {
            let d: usize = ((-(delta + 1)) as usize) + 1;
            if sel >= d {
                sel - d
            } else {
                0
            }
        } else {
            let d: usize = delta as usize;
            if d >= len - sel {
                len
            } else {
                sel + d
            }
        };
        self.selection = crate::ui::clamp_index(target, len);
    }

    /// Collapse (`expand` false) or expand the selected row, when it is a
    /// directory.
    fn collapse_or_expand(&mut self, expand: bool)
        requires
            old(self).wf(),
        ensures
            final(self).wf(),
            final(self)@ == folded(old(self)@, expand),
    {
        if self.selection >= self.visible.len() {
            return;
        }
        let is_dir = match self.visible[self.selection].kind {
            TreeItemKind::Dir { .. } => true,
            TreeItemKind::File { .. } => false,
        };
        if !is_dir {
            return;
        }
        let p = self.visible[self.selection].path.clone();
        if expand {
            if !contains_text(self.expanded.as_slice(), &p) {
                let ghost before = texts(self.expanded@);
                self.expanded.push(p);
                proof {
                    lemma_to_set_push(before, self.visible@[self.selection as int].path@);
                    assert(texts(self.expanded@) =~= before.push(self.visible@[self.selection as int].path@));
                }
            } else {
                assert(texts(self.expanded@).to_set() =~= texts(self.expanded@).to_set().insert(p@));
            }
        } else {
            self.expanded = without_text(&self.expanded, &p);
        }
        self.rebuild_visible();
    }
}


/// The views of (status, path) pairs.
pub open spec fn pair_views(v: Seq<(char, String)>) -> Seq<(char, Seq<char>)> {
    v.map_values(|x: (char, String)| (x.0, x.1@))
}

/// The order key of the pair at position `i` with path `p`: the path's
/// chars (each code plus one), a terminating 0, then the position (high
/// and low half). Lexicographic order on these keys is order by path,
/// char by char, a path before its extensions; equal paths keep their
/// positions' order.
pub open spec fn order_key(p: Seq<char>, i: int) -> Seq<u32> {
    p.map_values(|c: char| (c as u32 + 1) as u32) + seq![
        0u32,
        (i / 0x1_0000_0000) as u32,
        (i % 0x1_0000_0000) as u32,
    ]
}

/// `r` lists `items` in the order `ord` (positions in `items`), with
/// keys strictly ascending.
pub open spec fn sorted_with(items: Seq<(char, Seq<char>)>, r: Seq<(char, Seq<char>)>, ord: Seq<int>) -> bool {
    &&& ord.len() == items.len()
    &&& r.len() == items.len()
    &&& forall|k: int|
        0 <= k < ord.len() ==> 0 <= #[trigger] ord[k] < items.len() && r[k] == items[ord[k]]
    &&& forall|k: int, l: int|
        0 <= k < l < ord.len() ==> lex_lt(
            order_key(items[#[trigger] ord[k]].1, ord[k]),
            order_key(items[#[trigger] ord[l]].1, ord[l]),
        )
}

/// `r` is `items` sorted by path (see [`order_key`]): each item once,
/// keys strictly ascending.
pub open spec fn sorted_by_path(items: Seq<(char, Seq<char>)>, r: Seq<(char, Seq<char>)>) -> bool {
    exists|ord: Seq<int>| #[trigger] sorted_with(items, r, ord)
}

/// `order_key(p, i)`, computed.
fn order_key_of(p: &String, i: usize) -> (r: Vec<u32>)
    ensures
        r@ == order_key(p@, i as int),
{
    let v = chars_of(p.as_str());
    let mut out: Vec<u32> = Vec::new();
    let mut j: usize = 0;
    while j < v.len()
        invariant
            j <= v@.len(),
            v@ == p@,
            out@ == v@.take(j as int).map_values(|c: char| (c as u32 + 1) as u32),
        decreases v.len() - j,
    {
        let c = v[j];
        proof {
            vstd::utf8::char_is_scalar(c);
        }
        out.push(c as u32 + 1);
        assert(v@.take(j + 1) =~= v@.take(j as int).push(c));
        assert(out@ =~= v@.take(j + 1).map_values(|c: char| (c as u32 + 1) as u32));
        j = j + 1;
    }
    assert(v@.take(j as int) =~= v@);
    let iu = i as u64;
    out.push(0);
    out.push((iu / 0x1_0000_0000) as u32);
    out.push((iu % 0x1_0000_0000) as u32);
    assert(out@ =~= order_key(p@, i as int));
    out
}

/// Order keys of different positions differ.
proof fn lemma_order_key_distinct(p: Seq<char>, i: int, q: Seq<char>, j: int)
    requires
        0 <= i <= u64::MAX,
        0 <= j <= u64::MAX,
        i != j,
    ensures
        order_key(p, i) != order_key(q, j),
{
    let a = order_key(p, i);
    let b = order_key(q, j);
    if a == b {
        assert(a.len() == b.len());
        assert(p.len() == q.len());
        assert(a[a.len() - 2] == b[b.len() - 2]);
        assert(a[a.len() - 1] == b[b.len() - 1]);
        assert((i / 0x1_0000_0000) < 0x1_0000_0000);
        assert((j / 0x1_0000_0000) < 0x1_0000_0000);
        assert(i / 0x1_0000_0000 == j / 0x1_0000_0000);
        assert(i % 0x1_0000_0000 == j % 0x1_0000_0000);
        assert(i == 0x1_0000_0000 * (i / 0x1_0000_0000) + i % 0x1_0000_0000);
        assert(j == 0x1_0000_0000 * (j / 0x1_0000_0000) + j % 0x1_0000_0000);
    }
}

/// `items` sorted by path (see [`sorted_by_path`]).
fn sort_pairs(items: Vec<(char, String)>) -> (r: Vec<(char, String)>)
    ensures
        sorted_by_path(pair_views(items@), pair_views(r@)),
{
    let ghost iv = pair_views(items@);
    let mut keys: Vec<Vec<u32>> = Vec::new();
    let mut idx: Vec<usize> = Vec::new();
    let mut i: usize = 0;
    while i < items.len()
        invariant
            i <= items@.len(),
            iv == pair_views(items@),
            keys@.len() == i,
            forall|k: int| 0 <= k < i ==> (#[trigger] keys@[k])@ == order_key(iv[k].1, k),
            idx@ == range_seq(i as nat),
        decreases items.len() - i,
    {
        let key = order_key_of(&items[i].1, i);
        keys.push(key);
        idx.push(i);
        assert(idx@ =~= range_seq((i + 1) as nat));
        i = i + 1;
    }
    proof {
        assert forall|k: int| 0 <= k < idx@.len() implies #[trigger] idx@[k] < key_views(keys@).len() by {}
    }
    let n = idx.len();
    let order = sort_by_keys(&keys, idx);
    proof {
        lemma_permutation_distinct(order@, n as nat);
    }
    let mut out: Vec<(char, String)> = Vec::new();
    let mut s: usize = 0;
    while s < order.len()
        invariant
            iv == pair_views(items@),
            n == items@.len(),
            order@.len() == n,
            forall|k: int| 0 <= k < n ==> (#[trigger] keys@[k])@ == order_key(iv[k].1, k),
            keys@.len() == n,
            forall|k: int| 0 <= k < order@.len() ==> #[trigger] order@[k] < n,
            s <= order@.len(),
            out@.len() == s,
            forall|k: int| 0 <= k < s ==> pair_views(out@)[k] == iv[#[trigger] order@[k] as int],
        decreases order.len() - s,
    {
        let o = order[s];
        let item = (items[o].0, items[o].1.clone());
        out.push(item);
        assert(pair_views(out@)[s as int] == iv[o as int]);
        s = s + 1;
    }
    proof {
        let ord = order@.map_values(|u: usize| u as int);
        let rv = pair_views(out@);
        assert forall|k: int, l: int| 0 <= k < l < ord.len() implies lex_lt(
            order_key(iv[#[trigger] ord[k]].1, ord[k]),
            order_key(iv[#[trigger] ord[l]].1, ord[l]),
        ) by {
            assert(lex_le(key_views(keys@)[order@[k] as int], key_views(keys@)[order@[l] as int]));
            assert(order@[k] != order@[l]);
            lemma_order_key_distinct(iv[ord[k]].1, ord[k], iv[ord[l]].1, ord[l]);
        }
        assert forall|k: int| 0 <= k < ord.len() implies 0 <= #[trigger] ord[k] < iv.len() && rv[k] == iv[ord[k]] by {}
        assert(sorted_with(iv, rv, ord));
    }
    out
}

/// The index of the first entry whose path is `q`, if any.
pub open spec fn first_entry(ps: Seq<Seq<char>>, q: Seq<char>) -> Option<int>
    decreases ps.len(),
{
    if ps.len() == 0 {
        None
    } else {
        match first_entry(ps.drop_last(), q) {
            Some(i) => Some(i),
            None => if ps.last() == q {
                Some(ps.len() - 1)
            } else {
                None
            },
        }
    }
}

/// The status char of the first entry with path `p`, or `none` when there
/// is no such entry.
pub open spec fn status_of(es: Seq<StatusEntry>, p: Seq<char>, none: char) -> char {
    match first_entry(entry_paths(es), p) {
        Some(i) => es[i].status,
        None => none,
    }
}

/// The (status, path) pairs of the file entries of `es`, in entry order.
pub open spec fn file_pairs(es: Seq<StatusEntry>) -> Seq<(char, Seq<char>)>
    decreases es.len(),
{
    if es.len() == 0 {
        Seq::empty()
    } else {
        let rest = file_pairs(es.drop_last());
        if es.last().is_dir {
            rest
        } else {
            rest.push((es.last().status, es.last().path@))
        }
    }
}

impl StatusTreeComponent {
    /// The status of the first entry with path `p`, or `none`.
    fn status_or(&self, p: &str, none: char) -> (c: char)
        ensures
            c == status_of(self@.entries, p@, none),
    {
        let ghost ps = entry_paths(self@.entries);
        let target = p.to_owned();
        let mut i: usize = 0;
        while i < self.entries.len()
            invariant
                i <= self.entries@.len(),
                ps == entry_paths(self@.entries),
                target@ == p@,
                first_entry(ps.take(i as int), p@) is None,
            decreases self.entries.len() - i,
        {
            assert(ps.take(i + 1).drop_last() =~= ps.take(i as int));
            if string_eq(&self.entries[i].path, &target) {
                proof {
                    lemma_first_entry_prefix(ps, i as int + 1, p@);
                }
                return self.entries[i].status;
            }
            i = i + 1;
        }
        assert(ps.take(ps.len() as int) =~= ps);
        none
    }

    /// Status char of a path, ' ' when the path has no status entry.
    pub fn status_char(&self, path: &str) -> (c: char)
        ensures
            c == status_of(self@.entries, path@, ' '),
    {
        self.status_or(path, ' ')
    }

    /// All changed files as (status char, path), sorted by path.
    pub fn changed_files(&self) -> (r: Vec<(char, String)>)
        ensures
            sorted_by_path(file_pairs(self@.entries), pair_views(r@)),
    {
        let mut v: Vec<(char, String)> = Vec::new();
        let mut i: usize = 0;
        while i < self.entries.len()
            invariant
                i <= self.entries@.len(),
                pair_views(v@) == file_pairs(self@.entries.take(i as int)),
            decreases self.entries.len() - i,
        {
            let e = &self.entries[i];
            assert(self.entries@.take(i + 1).drop_last() =~= self.entries@.take(i as int));
            assert(self.entries@.take(i + 1).last() == *e);
            if !e.is_dir {
                let ghost before = pair_views(v@);
                v.push((e.status, e.path.clone()));
                assert(pair_views(v@) =~= before.push((e.status, e.path@)));
            }
            i = i + 1;
        }
        assert(self.entries@.take(self.entries@.len() as int) =~= self.entries@);
        sort_pairs(v)
    }

    /// Staged files as (status char, path), sorted by path; `?` for a
    /// staged path without a status entry.
    pub fn staged_files(&self) -> (r: Vec<(char, String)>)
        requires
            self.wf(),
        ensures
            exists|order: Seq<Seq<char>>|
                {
                    &&& order.to_set() == self@.staged
                    &&& strictly_sorted(order)
                    &&& pair_views(r@) == order.map_values(|p: Seq<char>| (status_of(self@.entries, p, '?'), p))
                },
    {
        let list = self.staged.as_slice();
        let ghost st = texts(list@);
        proof {
            self.staged.lemma_list();
        }
        let mut v: Vec<(char, String)> = Vec::new();
        let mut i: usize = 0;
        while i < list.len()
            invariant
                i <= list@.len(),
                st == texts(list@),
                pair_views(v@) == st.take(i as int).map_values(|p: Seq<char>| (status_of(self@.entries, p, '?'), p)),
            decreases list.len() - i,
        {
            let p = &list[i];
            let s = self.status_or(p.as_str(), '?');
            let ghost before = pair_views(v@);
            v.push((s, p.clone()));
            assert(st.take(i + 1) =~= st.take(i as int).push(p@));
            assert(pair_views(v@) =~= before.push((s, p@)));
            assert(pair_views(v@) =~= st.take(i + 1).map_values(|p: Seq<char>| (status_of(self@.entries, p, '?'), p)));
            i = i + 1;
        }
        assert(st.take(st.len() as int) =~= st);
        v
    }
}

proof fn lemma_first_entry_prefix(ps: Seq<Seq<char>>, n: int, p: Seq<char>)
    requires
        0 < n <= ps.len(),
        first_entry(ps.take(n - 1), p) is None,
        ps[n - 1] == p,
    ensures
        first_entry(ps, p) == Some(n - 1),
    decreases ps.len(),
{
    if ps.len() > n {
        assert(ps.drop_last().take(n - 1) =~= ps.take(n - 1));
        lemma_first_entry_prefix(ps.drop_last(), n, p);
    } else {
        assert(ps.drop_last() =~= ps.take(n - 1));
    }
}


// ---------------------------------------------------------------------
// Keys
// ---------------------------------------------------------------------

/// What a key press does in the tree pane.
#[derive(Clone, Copy, Debug)]
pub enum TreeAction {
    Up,
    Down,
    PageUp,
    PageDown,
    Home,
    End,
    Collapse,
    Expand,
    Open,
    ToggleStage,
    StageAll,
    UnstageAll,
    Add,
    Revert,
    Resolve,
    Commit,
    UpdateWc,
    Filter,
    Escape,
    DiffFull,
    Blame,
    FileHistory,
    Refresh,
    Help,
    TabLog,
    TabStatus,
    RevisionDiff,
}

/// The action of the key press `k` in the tree pane: the first binding
/// that matches, in this order.
pub open spec fn tree_action(k: KeyEvent) -> Option<TreeAction> {
    if binds(k, KeyAction::MoveUp) {
        Some(TreeAction::Up)
    } else if binds(k, KeyAction::MoveDown) {
        Some(TreeAction::Down)
    } else if binds(k, KeyAction::PageUp) {
        Some(TreeAction::PageUp)
    } else if binds(k, KeyAction::PageDown) {
        Some(TreeAction::PageDown)
    } else if binds(k, KeyAction::Home) {
        Some(TreeAction::Home)
    } else if binds(k, KeyAction::End) {
        Some(TreeAction::End)
    } else if binds(k, KeyAction::MoveLeft) {
        Some(TreeAction::Collapse)
    } else if binds(k, KeyAction::MoveRight) {
        Some(TreeAction::Expand)
    } else if binds(k, KeyAction::Enter) {
        Some(TreeAction::Open)
    } else if binds(k, KeyAction::ToggleStage) {
        Some(TreeAction::ToggleStage)
    } else if binds(k, KeyAction::StageAll) {
        Some(TreeAction::StageAll)
    } else if binds(k, KeyAction::UnstageAll) {
        Some(TreeAction::UnstageAll)
    } else if binds(k, KeyAction::AddFiles) {
        Some(TreeAction::Add)
    } else if binds(k, KeyAction::RevertFiles) {
        Some(TreeAction::Revert)
    } else if binds(k, KeyAction::ResolveConflict) {
        Some(TreeAction::Resolve)
    } else if binds(k, KeyAction::Commit) {
        Some(TreeAction::Commit)
    } else if binds(k, KeyAction::UpdateWc) {
        Some(TreeAction::UpdateWc)
    } else if binds(k, KeyAction::Filter) {
        Some(TreeAction::Filter)
    } else if binds(k, KeyAction::Escape) {
        Some(TreeAction::Escape)
    } else if binds(k, KeyAction::DiffFull) {
        Some(TreeAction::DiffFull)
    } else if binds(k, KeyAction::Blame) {
        Some(TreeAction::Blame)
    } else if binds(k, KeyAction::FileHistory) {
        Some(TreeAction::FileHistory)
    } else if binds(k, KeyAction::Refresh) {
        Some(TreeAction::Refresh)
    } else if binds(k, KeyAction::Help) {
        Some(TreeAction::Help)
    } else if binds(k, KeyAction::SwitchTabLog) {
        Some(TreeAction::TabLog)
    } else if binds(k, KeyAction::SwitchTabStatus) {
        Some(TreeAction::TabStatus)
    } else if binds(k, KeyAction::OpenRevisionDiff) {
        Some(TreeAction::RevisionDiff)
    } else {
        None
    }
}

/// The action of the key press `k` (see [`tree_action`]).
fn tree_action_of(k: &KeyEvent) -> (a: Option<TreeAction>)
    ensures
        a == tree_action(*k),
{
    if key_match(k, KeyAction::MoveUp) {
        Some(TreeAction::Up)
    } else if key_match(k, KeyAction::MoveDown) {
        Some(TreeAction::Down)
    } else if key_match(k, KeyAction::PageUp) {
        Some(TreeAction::PageUp)
    } else if key_match(k, KeyAction::PageDown) {
        Some(TreeAction::PageDown)
    } else if key_match(k, KeyAction::Home) {
        Some(TreeAction::Home)
    } else if key_match(k, KeyAction::End) {
        Some(TreeAction::End)
    } else if key_match(k, KeyAction::MoveLeft) {
        Some(TreeAction::Collapse)
    } else if key_match(k, KeyAction::MoveRight) {
        Some(TreeAction::Expand)
    } else if key_match(k, KeyAction::Enter) {
        Some(TreeAction::Open)
    } else if key_match(k, KeyAction::ToggleStage) {
        Some(TreeAction::ToggleStage)
    } else if key_match(k, KeyAction::StageAll) {
        Some(TreeAction::StageAll)
    } else if key_match(k, KeyAction::UnstageAll) {
        Some(TreeAction::UnstageAll)
    } else if key_match(k, KeyAction::AddFiles) {
        Some(TreeAction::Add)
    } else if key_match(k, KeyAction::RevertFiles) {
        Some(TreeAction::Revert)
    } else if key_match(k, KeyAction::ResolveConflict) {
        Some(TreeAction::Resolve)
    } else if key_match(k, KeyAction::Commit) {
        Some(TreeAction::Commit)
    } else if key_match(k, KeyAction::UpdateWc) {
        Some(TreeAction::UpdateWc)
    } else if key_match(k, KeyAction::Filter) {
        Some(TreeAction::Filter)
    } else if key_match(k, KeyAction::Escape) {
        Some(TreeAction::Escape)
    } else if key_match(k, KeyAction::DiffFull) {
        Some(TreeAction::DiffFull)
    } else if key_match(k, KeyAction::Blame) {
        Some(TreeAction::Blame)
    } else if key_match(k, KeyAction::FileHistory) {
        Some(TreeAction::FileHistory)
    } else if key_match(k, KeyAction::Refresh) {
        Some(TreeAction::Refresh)
    } else if key_match(k, KeyAction::Help) {
        Some(TreeAction::Help)
    } else if key_match(k, KeyAction::SwitchTabLog) {
        Some(TreeAction::TabLog)
    } else if key_match(k, KeyAction::SwitchTabStatus) {
        Some(TreeAction::TabStatus)
    } else if key_match(k, KeyAction::OpenRevisionDiff) {
        Some(TreeAction::RevisionDiff)
    } else {
        None
    }
}

// ---------------------------------------------------------------------
// What the pane asks of the app
// ---------------------------------------------------------------------

/// A request the tree pane queues for the app, by value.
pub enum PaneRequest {
    /// Show this message
    Info(Seq<char>),
    /// `svn add` these paths
    Add(Seq<Seq<char>>),
    /// Ask before reverting these paths
    ConfirmRevert(Seq<Seq<char>>),
    /// Ask before marking this path resolved
    ConfirmResolve(Seq<char>),
    /// Ask before updating the working copy
    ConfirmUpdate,
    /// Diff the selected file
    FileDiff,
    /// Blame this file
    Blame(Seq<char>),
    /// History of the selected file
    FileHistory,
    /// Focus the commit message
    OpenCommit,
    /// Open the filter popup
    OpenFilter,
    /// Reload the status
    Refresh,
    /// Show the key help
    Help,
    /// Switch to this tab
    Switch(Tab),
}

/// The queued event `ev` is the request `r`.
pub open spec fn is_request(ev: InternalEvent, r: PaneRequest) -> bool {
    match r {
        PaneRequest::Info(m) => ev matches InternalEvent::ShowInfoMsg(s) && s@ == m,
        PaneRequest::Add(ps) => ev matches InternalEvent::AddFiles(v) && texts(v@) == ps,
        PaneRequest::ConfirmRevert(ps) => ev matches InternalEvent::Confirm(ConfirmAction::Revert(v))
            && texts(v@) == ps,
        PaneRequest::ConfirmResolve(p) => ev matches InternalEvent::Confirm(ConfirmAction::Resolve(s))
            && s@ == p,
        PaneRequest::ConfirmUpdate => ev matches InternalEvent::Confirm(ConfirmAction::Update),
        PaneRequest::FileDiff => ev is RequestFileDiff,
        PaneRequest::Blame(p) => ev matches InternalEvent::RequestBlame(s) && s@ == p,
        PaneRequest::FileHistory => ev is RequestFileHistory,
        PaneRequest::OpenCommit => ev is OpenCommit,
        PaneRequest::OpenFilter => ev is OpenStatusFilter,
        PaneRequest::Refresh => ev is RefreshStatus,
        PaneRequest::Help => ev is OpenHelp,
        PaneRequest::Switch(t) => ev matches InternalEvent::SwitchTab(u) && u == t,
    }
}

/// `new_q` is `old_q` followed by the requests `reqs`, in order.
pub open spec fn requested(old_q: Seq<InternalEvent>, new_q: Seq<InternalEvent>, reqs: Seq<PaneRequest>) -> bool {
    &&& new_q.len() == old_q.len() + reqs.len()
    &&& new_q.take(old_q.len() as int) == old_q
    &&& forall|i: int| 0 <= i < reqs.len() ==> is_request(#[trigger] new_q[old_q.len() + i], reqs[i])
}

/// `p` counts as unversioned: its entry says `?`, or (when `missing_ok`)
/// it has no entry.
pub open spec fn is_unversioned(es: Seq<StatusEntry>, p: Seq<char>, missing_ok: bool) -> bool {
    match entry_by_path(es, p) {
        Some(e) => e.status == '?',
        None => missing_ok,
    }
}

/// The paths of `ps` that count as unversioned, in order.
pub open spec fn unversioned_paths(es: Seq<StatusEntry>, ps: Seq<Seq<char>>, missing_ok: bool) -> Seq<Seq<char>>
    decreases ps.len(),
{
    if ps.len() == 0 {
        Seq::empty()
    } else {
        let rest = unversioned_paths(es, ps.drop_last(), missing_ok);
        if is_unversioned(es, ps.last(), missing_ok) {
            rest.push(ps.last())
        } else {
            rest
        }
    }
}

/// The paths of `ps` with an entry that is not `?`, in order.
pub open spec fn versioned_paths(es: Seq<StatusEntry>, ps: Seq<Seq<char>>) -> Seq<Seq<char>>
    decreases ps.len(),
{
    if ps.len() == 0 {
        Seq::empty()
    } else {
        let rest = versioned_paths(es, ps.drop_last());
        if !is_unversioned(es, ps.last(), true) {
            rest.push(ps.last())
        } else {
            rest
        }
    }
}

/// The paths staging everything stages: the stageable file entries.
pub open spec fn stage_all_paths(es: Seq<StatusEntry>) -> Seq<Seq<char>>
    decreases es.len(),
{
    if es.len() == 0 {
        Seq::empty()
    } else {
        let rest = stage_all_paths(es.drop_last());
        let e = es.last();
        if !e.is_dir && spec_stageable(e) {
            rest.push(e.path@)
        } else {
            rest
        }
    }
}

/// The paths staging everything has `svn add`ed: the stageable file
/// entries with status `?`.
pub open spec fn stage_all_unversioned(es: Seq<StatusEntry>) -> Seq<Seq<char>>
    decreases es.len(),
{
    if es.len() == 0 {
        Seq::empty()
    } else {
        let rest = stage_all_unversioned(es.drop_last());
        let e = es.last();
        if !e.is_dir && spec_stageable(e) && e.status == '?' {
            rest.push(e.path@)
        } else {
            rest
        }
    }
}

/// The number of file entries staging everything skips.
pub open spec fn stage_all_skipped(es: Seq<StatusEntry>) -> nat
    decreases es.len(),
{
    if es.len() == 0 {
        0
    } else {
        stage_all_skipped(es.drop_last()) + if !es.last().is_dir && !spec_stageable(es.last()) {
            1nat
        } else {
            0nat
        }
    }
}

/// The message after staging everything skipped `n` files.
pub open spec fn skipped_msg(n: nat) -> Seq<char> {
    "Skipped "@ + decimal(n) + " missing/obstructed/conflicted file(s)"@
}

/// The message when nothing at the selection can be reverted.
pub open spec fn nothing_to_revert_msg() -> Seq<char> {
    "No versioned files to revert"@
}

/// The file entries staging everything takes.
pub open spec fn stage_all_takes(e: StatusEntry) -> bool {
    !e.is_dir && spec_stageable(e)
}

proof fn lemma_stage_all_paths(es: Seq<StatusEntry>)
    ensures
        forall|p: Seq<char>| #[trigger] stage_all_paths(es).contains(p) <==> exists|i: int|
            0 <= i < es.len() && stage_all_takes(es[i]) && es[i].path@ == p,
    decreases es.len(),
{
    if es.len() > 0 {
        let init = es.drop_last();
        lemma_stage_all_paths(init);
        assert forall|p: Seq<char>| #[trigger] stage_all_paths(es).contains(p) <==> exists|i: int|
            0 <= i < es.len() && stage_all_takes(es[i]) && es[i].path@ == p by {
            if stage_all_paths(es).contains(p) {
                if stage_all_paths(init).contains(p) {
                    let i = choose|i: int| 0 <= i < init.len() && stage_all_takes(init[i]) && init[i].path@ == p;
                    assert(es[i] == init[i]);
                } else {
                    let r = stage_all_paths(init);
                    let k = choose|k: int| 0 <= k < stage_all_paths(es).len() && stage_all_paths(es)[k] == p;
                    if k < r.len() {
                        assert(r[k] == p);
                    }
                    assert(es[es.len() - 1] == es.last());
                }
            }
            if exists|i: int| 0 <= i < es.len() && stage_all_takes(es[i]) && es[i].path@ == p {
                let i = choose|i: int| 0 <= i < es.len() && stage_all_takes(es[i]) && es[i].path@ == p;
                if i < es.len() - 1 {
                    assert(init[i] == es[i]);
                    assert(stage_all_paths(init).contains(p));
                    let r = stage_all_paths(init);
                    let k = choose|k: int| 0 <= k < r.len() && r[k] == p;
                    if stage_all_takes(es.last()) {
                        assert(r.push(es.last().path@)[k] == p);
                    }
                } else {
                    let r = stage_all_paths(init);
                    assert(r.push(es.last().path@)[r.len() as int] == p);
                }
            }
        }
    }
}

proof fn lemma_stage_all_unversioned(es: Seq<StatusEntry>)
    ensures
        forall|p: Seq<char>| #[trigger] stage_all_unversioned(es).contains(p) <==> exists|i: int|
            0 <= i < es.len() && stage_all_takes(es[i]) && es[i].status == '?' && es[i].path@ == p,
        stage_all_unversioned(es).len() > 0 <==> exists|i: int|
            0 <= i < es.len() && stage_all_takes(es[i]) && es[i].status == '?',
    decreases es.len(),
{
    if es.len() > 0 {
        let init = es.drop_last();
        let r = stage_all_unversioned(init);
        lemma_stage_all_unversioned(init);
        let last_in = stage_all_takes(es.last()) && es.last().status == '?';
        assert forall|p: Seq<char>| #[trigger] stage_all_unversioned(es).contains(p) <==> exists|i: int|
            0 <= i < es.len() && stage_all_takes(es[i]) && es[i].status == '?' && es[i].path@ == p by {
            if stage_all_unversioned(es).contains(p) {
                let k = choose|k: int| 0 <= k < stage_all_unversioned(es).len() && stage_all_unversioned(es)[k] == p;
                if k < r.len() {
                    assert(r[k] == p);
                    assert(r.contains(p));
                    let i = choose|i: int| 0 <= i < init.len() && stage_all_takes(init[i]) && init[i].status == '?' && init[i].path@ == p;
                    assert(es[i] == init[i]);
                } else {
                    assert(es[es.len() - 1] == es.last());
                }
            }
            if exists|i: int| 0 <= i < es.len() && stage_all_takes(es[i]) && es[i].status == '?' && es[i].path@ == p {
                let i = choose|i: int| 0 <= i < es.len() && stage_all_takes(es[i]) && es[i].status == '?' && es[i].path@ == p;
                if i < es.len() - 1 {
                    assert(init[i] == es[i]);
                    assert(r.contains(p));
                    let k = choose|k: int| 0 <= k < r.len() && r[k] == p;
                    if last_in {
                        assert(r.push(es.last().path@)[k] == p);
                    }
                } else {
                    assert(r.push(es.last().path@)[r.len() as int] == p);
                }
            }
        }
        if exists|i: int| 0 <= i < es.len() && stage_all_takes(es[i]) && es[i].status == '?' {
            let i = choose|i: int| 0 <= i < es.len() && stage_all_takes(es[i]) && es[i].status == '?';
            if i < es.len() - 1 {
                assert(init[i] == es[i]);
            }
        }
        if r.len() > 0 {
            let i = choose|i: int| 0 <= i < init.len() && stage_all_takes(init[i]) && init[i].status == '?';
            assert(es[i] == init[i]);
        }
    }
}

proof fn lemma_stage_all_skipped(es: Seq<StatusEntry>)
    ensures
        stage_all_skipped(es) > 0 <==> exists|i: int| 0 <= i < es.len() && !es[i].is_dir && !spec_stageable(es[i]),
    decreases es.len(),
{
    if es.len() > 0 {
        let init = es.drop_last();
        lemma_stage_all_skipped(init);
        if exists|i: int| 0 <= i < es.len() && !es[i].is_dir && !spec_stageable(es[i]) {
            let i = choose|i: int| 0 <= i < es.len() && !es[i].is_dir && !spec_stageable(es[i]);
            if i < es.len() - 1 {
                assert(init[i] == es[i]);
            }
        }
        if stage_all_skipped(init) > 0 {
            let i = choose|i: int| 0 <= i < init.len() && !init[i].is_dir && !spec_stageable(init[i]);
            assert(es[i] == init[i]);
        }
    }
}

/// Staging everything: the staged set gains exactly the paths of the file
/// entries that can be staged (not missing, obstructed or conflicted); an
/// `svn add` of the unversioned ones among them, in the entries' order, is
/// asked for exactly when there are any; then a message tells of the
/// skipped files exactly when some file entry cannot be staged. Nothing
/// else is asked for, and the key is used.
pub proof fn lemma_stage_all(s: PaneState)
    ensures
        ({
            let (s2, reqs, used) = pane_step(s, TreeAction::StageAll);
            let es = s.entries;
            let adds = exists|i: int| 0 <= i < es.len() && stage_all_takes(es[i]) && es[i].status == '?';
            let skips = exists|i: int| 0 <= i < es.len() && !es[i].is_dir && !spec_stageable(es[i]);
            &&& used
            &&& s2 == (PaneState { staged: s2.staged, ..s })
            &&& forall|p: Seq<char>| #[trigger] s2.staged.contains(p) <==> (s.staged.contains(p) || exists|i: int|
                0 <= i < es.len() && stage_all_takes(es[i]) && es[i].path@ == p)
            &&& forall|p: Seq<char>| #[trigger] stage_all_unversioned(es).contains(p) <==> exists|i: int|
                0 <= i < es.len() && stage_all_takes(es[i]) && es[i].status == '?' && es[i].path@ == p
            &&& reqs.len() == (if adds { 1int } else { 0 }) + (if skips { 1int } else { 0 })
            &&& adds ==> reqs[0] == PaneRequest::Add(stage_all_unversioned(es))
            &&& skips ==> reqs.last() == PaneRequest::Info(skipped_msg(stage_all_skipped(es)))
        }),
{
    let es = s.entries;
    lemma_stage_all_paths(es);
    lemma_stage_all_unversioned(es);
    lemma_stage_all_skipped(es);
    let (s2, reqs, used) = pane_step(s, TreeAction::StageAll);
    assert forall|p: Seq<char>| #[trigger] s2.staged.contains(p) <==> (s.staged.contains(p) || exists|i: int|
        0 <= i < es.len() && stage_all_takes(es[i]) && es[i].path@ == p) by {
        assert(stage_all_paths(es).to_set().contains(p) == stage_all_paths(es).contains(p));
    }
}

/// The request a `svn add` of `ps` makes, if any.
pub open spec fn add_request(ps: Seq<Seq<char>>) -> Seq<PaneRequest> {
    if ps.len() > 0 {
        seq![PaneRequest::Add(ps)]
    } else {
        Seq::empty()
    }
}

/// What the key action `a` does to the pane `s`: the new pane (its queue
/// aside), the requests queued, and whether the key was used.
pub open spec fn pane_step(s: PaneState, a: TreeAction) -> (PaneState, Seq<PaneRequest>, bool) {
    let row = if 0 <= s.selection < s.visible.len() {
        Some(s.visible[s.selection])
    } else {
        None
    };
    match a {
        TreeAction::Up => (PaneState { selection: moved_selection(s, -1), ..s }, Seq::empty(), true),
        TreeAction::Down => (PaneState { selection: moved_selection(s, 1), ..s }, Seq::empty(), true),
        TreeAction::PageUp => (PaneState { selection: moved_selection(s, -20), ..s }, Seq::empty(), true),
        TreeAction::PageDown => (PaneState { selection: moved_selection(s, 20), ..s }, Seq::empty(), true),
        TreeAction::Home => (PaneState { selection: 0, ..s }, Seq::empty(), true),
        TreeAction::End => (
            PaneState {
                selection: if s.visible.len() == 0 {
                    0
                } else {
                    s.visible.len() - 1
                },
                ..s
            },
            Seq::empty(),
            true,
        ),
        TreeAction::Collapse => (folded(s, false), Seq::empty(), true),
        TreeAction::Expand => (folded(s, true), Seq::empty(), true),
        TreeAction::Open => match row {
            Some(item) => if item.kind is Dir {
                (folded(s, true), Seq::empty(), true)
            } else {
                (s, seq![PaneRequest::FileDiff], true)
            },
            None => (s, Seq::empty(), true),
        },
        TreeAction::ToggleStage => {
            let (s2, added, removed) = toggle_at_selection(s);
            let msg = if selection_paths(s).len() > 0 && added.len() == 0 && removed.len() == 0 {
                seq![PaneRequest::Info(nothing_stageable_msg())]
            } else {
                Seq::empty()
            };
            (s2, msg + add_request(unversioned_paths(s.entries, added, false)), true)
        },
        TreeAction::StageAll => {
            let n = stage_all_skipped(s.entries);
            (
                PaneState { staged: s.staged.union(stage_all_paths(s.entries).to_set()), ..s },
                add_request(stage_all_unversioned(s.entries)) + if n > 0 {
                    seq![PaneRequest::Info(skipped_msg(n))]
                } else {
                    Seq::empty()
                },
                true,
            )
        },
        TreeAction::UnstageAll => (PaneState { staged: Set::empty(), ..s }, Seq::empty(), true),
        TreeAction::Add => (s, add_request(unversioned_paths(s.entries, selection_paths(s), true)), true),
        TreeAction::Revert => {
            let v = versioned_paths(s.entries, selection_paths(s));
            (
                s,
                if v.len() > 0 {
                    seq![PaneRequest::ConfirmRevert(v)]
                } else {
                    seq![PaneRequest::Info(nothing_to_revert_msg())]
                },
                true,
            )
        },
        TreeAction::Resolve => (
            s,
            match selected_entry(s) {
                Some(e) => if e.spec_is_conflicted() {
                    seq![PaneRequest::ConfirmResolve(e.path@)]
                } else {
                    Seq::empty()
                },
                None => Seq::empty(),
            },
            true,
        ),
        TreeAction::Commit => (s, seq![PaneRequest::OpenCommit], true),
        TreeAction::UpdateWc => (s, seq![PaneRequest::ConfirmUpdate], true),
        TreeAction::Filter => (s, seq![PaneRequest::OpenFilter], true),
        TreeAction::Escape => if s.filter.len() == 0 {
            (s, Seq::empty(), false)
        } else {
            (refreshed(PaneState { filter: Seq::empty(), ..s }, selected_path(s)), Seq::empty(), true)
        },
        TreeAction::DiffFull => (
            s,
            if selected_entry(s) is Some {
                seq![PaneRequest::FileDiff]
            } else {
                Seq::empty()
            },
            true,
        ),
        TreeAction::Blame => (
            s,
            match selected_entry(s) {
                Some(e) => if !e.is_dir {
                    seq![PaneRequest::Blame(e.path@)]
                } else {
                    Seq::empty()
                },
                None => Seq::empty(),
            },
            true,
        ),
        TreeAction::FileHistory => (
            s,
            match selected_entry(s) {
                Some(e) => if !e.is_dir {
                    seq![PaneRequest::FileHistory]
                } else {
                    Seq::empty()
                },
                None => Seq::empty(),
            },
            true,
        ),
        TreeAction::Refresh => (s, seq![PaneRequest::Refresh], true),
        TreeAction::Help => (s, seq![PaneRequest::Help], true),
        TreeAction::TabLog => (s, seq![PaneRequest::Switch(Tab::Log)], true),
        TreeAction::TabStatus => (s, seq![PaneRequest::Switch(Tab::Status)], true),
        TreeAction::RevisionDiff => (s, Seq::empty(), true),
    }
}

/// What the input event `ev` does to the pane `s` (see [`pane_step`]);
/// anything but a bound key press is left alone.
pub open spec fn pane_event(s: PaneState, ev: Event) -> (PaneState, Seq<PaneRequest>, bool) {
    match ev {
        Event::Key(k) => match tree_action(k) {
            Some(a) => pane_step(s, a),
            None => (s, Seq::empty(), false),
        },
        _ => (s, Seq::empty(), false),
    }
}


proof fn lemma_requested_none(q: Seq<InternalEvent>)
    ensures
        requested(q, q, Seq::empty()),
{
    assert(q.take(q.len() as int) =~= q);
}

proof fn lemma_requested_one(q: Seq<InternalEvent>, ev: InternalEvent, r: PaneRequest)
    requires
        is_request(ev, r),
    ensures
        requested(q, q.push(ev), seq![r]),
{
    assert(q.push(ev).take(q.len() as int) =~= q);
    assert(q.push(ev)[q.len() as int] == ev);
}

proof fn lemma_requested_append(
    q0: Seq<InternalEvent>,
    q1: Seq<InternalEvent>,
    q2: Seq<InternalEvent>,
    r1: Seq<PaneRequest>,
    r2: Seq<PaneRequest>,
)
    requires
        requested(q0, q1, r1),
        requested(q1, q2, r2),
    ensures
        requested(q0, q2, r1 + r2),
{
    assert(q2.take(q0.len() as int) =~= q1.take(q0.len() as int));
    assert forall|i: int| 0 <= i < (r1 + r2).len() implies is_request(#[trigger] q2[q0.len() + i], (r1 + r2)[i]) by {
        if i < r1.len() {
            assert(q2[q0.len() + i] == q2.take(q1.len() as int)[q0.len() + i]);
            assert(q1[q0.len() + i] == q2[q0.len() + i]);
        } else {
            assert(q2[q0.len() + i] == q2[q1.len() + (i - r1.len())]);
        }
    }
}

impl StatusTreeComponent {
    /// Whether `p` counts as unversioned (see [`is_unversioned`]).
    fn unversioned(&self, p: &String, missing_ok: bool) -> (b: bool)
        ensures
            b == is_unversioned(self@.entries, p@, missing_ok),
    {
        match self.entry_by_path(p) {
            Some(e) => e.status == '?',
            None => missing_ok,
        }
    }

    /// The paths of `paths` that count as unversioned.
    fn unversioned_of(&self, paths: &Vec<String>, missing_ok: bool) -> (r: Vec<String>)
        ensures
            texts(r@) == unversioned_paths(self@.entries, texts(paths@), missing_ok),
    {
        let ghost es = self@.entries;
        let mut out: Vec<String> = Vec::new();
        let mut i: usize = 0;
        while i < paths.len()
            invariant
                i <= paths@.len(),
                es == self@.entries,
                texts(out@) == unversioned_paths(es, texts(paths@).take(i as int), missing_ok),
            decreases paths.len() - i,
        {
            assert(texts(paths@).take(i + 1).drop_last() =~= texts(paths@).take(i as int));
            assert(texts(paths@).take(i + 1).last() == paths@[i as int]@);
            if self.unversioned(&paths[i], missing_ok) {
                let ghost before = texts(out@);
                out.push(paths[i].clone());
                assert(texts(out@) =~= before.push(paths@[i as int]@));
            }
            i = i + 1;
        }
        assert(texts(paths@).take(paths@.len() as int) =~= texts(paths@));
        out
    }

    /// The paths of `paths` with an entry that is not `?`.
    fn versioned_of(&self, paths: &Vec<String>) -> (r: Vec<String>)
        ensures
            texts(r@) == versioned_paths(self@.entries, texts(paths@)),
    {
        let ghost es = self@.entries;
        let mut out: Vec<String> = Vec::new();
        let mut i: usize = 0;
        while i < paths.len()
            invariant
                i <= paths@.len(),
                es == self@.entries,
                texts(out@) == versioned_paths(es, texts(paths@).take(i as int)),
            decreases paths.len() - i,
        {
            assert(texts(paths@).take(i + 1).drop_last() =~= texts(paths@).take(i as int));
            assert(texts(paths@).take(i + 1).last() == paths@[i as int]@);
            if !self.unversioned(&paths[i], true) {
                let ghost before = texts(out@);
                out.push(paths[i].clone());
                assert(texts(out@) =~= before.push(paths@[i as int]@));
            }
            i = i + 1;
        }
        assert(texts(paths@).take(paths@.len() as int) =~= texts(paths@));
        out
    }

    /// Queue `ev`, which is the request `r`.
    fn request(&mut self, ev: InternalEvent, Ghost(r): Ghost<PaneRequest>)
        requires
            old(self).wf(),
            is_request(ev, r),
        ensures
            final(self).wf(),
            final(self)@ == (PaneState { queue: final(self)@.queue, ..old(self)@ }),
            requested(old(self)@.queue, final(self)@.queue, seq![r]),
    {
        let ghost q0 = self@.queue;
        self.queue.push(ev);
        proof {
            lemma_requested_one(q0, ev, r);
        }
    }

    /// Queue `svn add` of `paths`, when there are any.
    fn request_add(&mut self, paths: Vec<String>)
        requires
            old(self).wf(),
        ensures
            final(self).wf(),
            final(self)@ == (PaneState { queue: final(self)@.queue, ..old(self)@ }),
            requested(old(self)@.queue, final(self)@.queue, add_request(texts(paths@))),
    {
        if paths.len() > 0 {
            let ghost ps = texts(paths@);
            self.request(InternalEvent::AddFiles(paths), Ghost(PaneRequest::Add(ps)));
        } else {
            proof {
                lemma_requested_none(self@.queue);
                assert(add_request(texts(paths@)) =~= Seq::<PaneRequest>::empty());
            }
        }
    }

    /// Stage every stageable file entry; queue `svn add` for the
    /// unversioned ones and a message counting the files skipped.
    fn stage_all(&mut self)
        requires
            old(self).wf(),
        ensures
            final(self).wf(),
            ({
                let (s2, reqs, used) = pane_step(old(self)@, TreeAction::StageAll);
                &&& final(self)@ == (PaneState { queue: final(self)@.queue, ..s2 })
                &&& requested(old(self)@.queue, final(self)@.queue, reqs)
            }),
    {
        let mut all: Vec<String> = Vec::new();
        let mut needs_add: Vec<String> = Vec::new();
        let mut skipped: usize = 0;
        let mut i: usize = 0;
        while i < self.entries.len()
            invariant
                i <= self.entries@.len(),
                skipped <= i,
                texts(all@) == stage_all_paths(self@.entries.take(i as int)),
                texts(needs_add@) == stage_all_unversioned(self@.entries.take(i as int)),
                skipped == stage_all_skipped(self@.entries.take(i as int)),
            decreases self.entries.len() - i,
        {
            let e = &self.entries[i];
            assert(self.entries@.take(i + 1).drop_last() =~= self.entries@.take(i as int));
            assert(self.entries@.take(i + 1).last() == *e);
            if !e.is_dir {
                if !stageable(e) {
                    skipped = skipped + 1;
                } else {
                    if e.status == '?' {
                        let ghost before = texts(needs_add@);
                        needs_add.push(e.path.clone());
                        assert(texts(needs_add@) =~= before.push(e.path@));
                    }
                    let ghost before = texts(all@);
                    all.push(e.path.clone());
                    assert(texts(all@) =~= before.push(e.path@));
                }
            }
            i = i + 1;
        }
        assert(self.entries@.take(self.entries@.len() as int) =~= self.entries@);
        let ghost q0 = self@.queue;
        self.set_staged(all.as_slice());
        self.request_add(needs_add);
        let ghost q1 = self@.queue;
        if skipped > 0 {
            let mut msg = "Skipped ".to_owned();
            crate::text::push_decimal(&mut msg, skipped as u64);
            crate::text::push_str(&mut msg, " missing/obstructed/conflicted file(s)");
            let ghost m = msg@;
            self.request(InternalEvent::ShowInfoMsg(msg), Ghost(PaneRequest::Info(m)));
            proof {
                lemma_requested_append(q0, q1, self@.queue, add_request(texts(needs_add@)), seq![PaneRequest::Info(m)]);
            }
        } else {
            proof {
                lemma_requested_none(q1);
                lemma_requested_append(q0, q1, q1, add_request(texts(needs_add@)), Seq::empty());
                assert(add_request(texts(needs_add@)) + Seq::<PaneRequest>::empty() =~= add_request(texts(needs_add@)));
            }
        }
    }

    /// Toggle the stage at the selection and queue `svn add` for the
    /// newly staged paths whose entry says `?`.
    fn toggle_and_add(&mut self)
        requires
            old(self).wf(),
        ensures
            final(self).wf(),
            ({
                let (s2, reqs, used) = pane_step(old(self)@, TreeAction::ToggleStage);
                &&& final(self)@ == (PaneState { queue: final(self)@.queue, ..s2 })
                &&& requested(old(self)@.queue, final(self)@.queue, reqs)
            }),
    {
        let ghost s0 = self@;
        let (added, _) = self.toggle_stage_at_selection();
        let ghost q1 = self@.queue;
        let ghost msg = if selection_paths(s0).len() > 0 && texts(added@).len() == 0 && toggle_at_selection(s0).2.len() == 0 {
            seq![PaneRequest::Info(nothing_stageable_msg())]
        } else {
            Seq::<PaneRequest>::empty()
        };
        proof {
            if selection_paths(s0).len() > 0 && texts(added@).len() == 0 && toggle_at_selection(s0).2.len() == 0 {
                let m = q1.last();
                assert(q1 == s0.queue.push(m));
                lemma_requested_one(s0.queue, m, PaneRequest::Info(nothing_stageable_msg()));
            } else {
                lemma_requested_none(s0.queue);
            }
        }
        let needs_add = self.unversioned_of(&added, false);
        self.request_add(needs_add);
        proof {
            lemma_requested_append(s0.queue, q1, self@.queue, msg, add_request(texts(needs_add@)));
        }
    }

    /// Carry out the key action `a` (see [`pane_step`]).
    #[verifier::spinoff_prover]
    fn act(&mut self, a: TreeAction) -> (used: bool)
        requires
            old(self).wf(),
        ensures
            final(self).wf(),
            ({
                let (s2, reqs, u) = pane_step(old(self)@, a);
                &&& final(self)@ == (PaneState { queue: final(self)@.queue, ..s2 })
                &&& requested(old(self)@.queue, final(self)@.queue, reqs)
                &&& used == u
            }),
    {
        proof {
            lemma_requested_none(self@.queue);
        }
        match a {
            TreeAction::Up => self.move_selection(-1),
            TreeAction::Down => self.move_selection(1),
            TreeAction::PageUp => self.move_selection(-20),
            TreeAction::PageDown => self.move_selection(20),
            TreeAction::Home => {
                self.selection = 0;
                proof {
                    assert(self.visible@.len() == 0 ==> item_views(self.visible@).len() == 0);
                }
            },
            TreeAction::End => {
                self.selection = if self.visible.len() == 0 {
                    0
                } else {
                    self.visible.len() - 1
                };
            },
            TreeAction::Collapse => self.collapse_or_expand(false),
            TreeAction::Expand => self.collapse_or_expand(true),
            TreeAction::Open => {
                if self.selection < self.visible.len() {
                    let is_dir = match self.visible[self.selection].kind {
                        TreeItemKind::Dir { .. } => true,
                        TreeItemKind::File { .. } => false,
                    };
                    if is_dir {
                        self.collapse_or_expand(true);
                    } else {
                        self.request(InternalEvent::RequestFileDiff, Ghost(PaneRequest::FileDiff));
                    }
                }
            },
            TreeAction::ToggleStage => self.toggle_and_add(),
            TreeAction::StageAll => self.stage_all(),
            TreeAction::UnstageAll => self.clear_staged(),
            TreeAction::Add => {
                let paths = self.paths_at_selection();
                let u = self.unversioned_of(&paths, true);
                self.request_add(u);
            },
            TreeAction::Revert => {
                let paths = self.paths_at_selection();
                let v = self.versioned_of(&paths);
                if v.len() > 0 {
                    let ghost vs = texts(v@);
                    self.request(InternalEvent::Confirm(ConfirmAction::Revert(v)), Ghost(PaneRequest::ConfirmRevert(vs)));
                } else {
                    let msg = "No versioned files to revert".to_owned();
                    self.request(InternalEvent::ShowInfoMsg(msg), Ghost(PaneRequest::Info(nothing_to_revert_msg())));
                }
            },
            TreeAction::Resolve => {
                let target = match self.selection_entry() {
                    Some(e) => if e.is_conflicted() {
                        Some(e.path.clone())
                    } else {
                        None
                    },
                    None => None,
                };
                match target {
                    Some(p) => {
                        let ghost pv = p@;
                        self.request(InternalEvent::Confirm(ConfirmAction::Resolve(p)), Ghost(PaneRequest::ConfirmResolve(pv)));
                    },
                    None => {},
                }
            },
            TreeAction::Commit => self.request(InternalEvent::OpenCommit, Ghost(PaneRequest::OpenCommit)),
            TreeAction::UpdateWc => self.request(InternalEvent::Confirm(ConfirmAction::Update), Ghost(PaneRequest::ConfirmUpdate)),
            TreeAction::Filter => self.request(InternalEvent::OpenStatusFilter, Ghost(PaneRequest::OpenFilter)),
            TreeAction::Escape => {
                if self.filter.as_str().is_empty() {
                    return false;
                }
                self.set_filter(String::new());
            },
            TreeAction::DiffFull => {
                if self.selection_entry().is_some() {
                    self.request(InternalEvent::RequestFileDiff, Ghost(PaneRequest::FileDiff));
                }
            },
            TreeAction::Blame => {
                let target = match self.selection_entry() {
                    Some(e) => if !e.is_dir {
                        Some(e.path.clone())
                    } else {
                        None
                    },
                    None => None,
                };
                match target {
                    Some(p) => {
                        let ghost pv = p@;
                        self.request(InternalEvent::RequestBlame(p), Ghost(PaneRequest::Blame(pv)));
                    },
                    None => {},
                }
            },
            TreeAction::FileHistory => {
                let file = match self.selection_entry() {
                    Some(e) => !e.is_dir,
                    None => false,
                };
                if file {
                    self.request(InternalEvent::RequestFileHistory, Ghost(PaneRequest::FileHistory));
                }
            },
            TreeAction::Refresh => self.request(InternalEvent::RefreshStatus, Ghost(PaneRequest::Refresh)),
            TreeAction::Help => self.request(InternalEvent::OpenHelp, Ghost(PaneRequest::Help)),
            TreeAction::TabLog => self.request(InternalEvent::SwitchTab(Tab::Log), Ghost(PaneRequest::Switch(Tab::Log))),
            TreeAction::TabStatus => self.request(InternalEvent::SwitchTab(Tab::Status), Ghost(PaneRequest::Switch(Tab::Status))),
            TreeAction::RevisionDiff => {},
        }
        true
    }

    /// Handle an input event: navigation, folding, staging, and requests
    /// for the app (see [`pane_event`]). Keys the pane has no use for are
    /// left unconsumed.
    pub fn event(&mut self, ev: &Event) -> (r: Result<EventState, String>)
        requires
            old(self).wf(),
        ensures
            final(self).wf(),
            ({
                let (s2, reqs, used) = pane_event(old(self)@, *ev);
                &&& final(self)@ == (PaneState { queue: final(self)@.queue, ..s2 })
                &&& requested(old(self)@.queue, final(self)@.queue, reqs)
                &&& (r matches Ok(st) && st.consumed == used)
            }),
    {
        proof {
            lemma_requested_none(self@.queue);
        }
        let k = match ev {
            Event::Key(k) => k,
            _ => return Ok(EventState::not_consumed()),
        };
        match tree_action_of(k) {
            Some(a) => {
                if self.act(a) {
                    Ok(EventState::consumed())
                } else {
                    Ok(EventState::not_consumed())
                }
            },
            None => Ok(EventState::not_consumed()),
        }
    }
}

} // verus!
