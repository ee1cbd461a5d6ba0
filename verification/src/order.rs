//! Ordering of process snapshots: a total order per sort key with ties
//! broken by snapshot position, and a verified stable sort built on it.

use vstd::prelude::*;
use vstd::relations::{sorted_by, total_ordering};

use crate::app::{ProcessInfo, SortBy, SortOrder};

verus! {

/// Strict lexicographic order on character sequences, by code point; a
/// proper prefix comes first.
pub open spec fn lex_lt(a: Seq<char>, b: Seq<char>) -> bool
    decreases a.len(),
{
    if b.len() == 0 {
        false
    } else if a.len() == 0 {
        true
    } else if a[0] < b[0] {
        true
    } else if b[0] < a[0] {
        false
    } else {
        lex_lt(a.drop_first(), b.drop_first())
    }
}

pub proof fn lemma_lex_lt_irreflexive(a: Seq<char>)
    ensures
        !lex_lt(a, a),
    decreases a.len(),
{
    if a.len() > 0 {
        lemma_lex_lt_irreflexive(a.drop_first());
    }
}

pub proof fn lemma_lex_lt_connected(a: Seq<char>, b: Seq<char>)
    requires
        !lex_lt(a, b),
        !lex_lt(b, a),
    ensures
        a == b,
    decreases a.len(),
{
    if b.len() == 0 {
        if a.len() > 0 {
            assert(lex_lt(b, a));
        }
        assert(a =~= b);
    } else {
        if a.len() == 0 {
            assert(lex_lt(a, b));
        }
        if a[0] < b[0] {
            assert(lex_lt(a, b));
        }
        if b[0] < a[0] {
            assert(lex_lt(b, a));
        }
        assert(a[0] == b[0]);
        if lex_lt(a.drop_first(), b.drop_first()) {
            assert(lex_lt(a, b));
        }
        if lex_lt(b.drop_first(), a.drop_first()) {
            assert(lex_lt(b, a));
        }
        lemma_lex_lt_connected(a.drop_first(), b.drop_first());
        assert(a.drop_first().len() == b.drop_first().len());
        assert forall|i: int| 0 <= i < a.len() implies a[i] == b[i] by {
            if i > 0 {
                assert(a.drop_first()[i - 1] == a[i]);
                assert(b.drop_first()[i - 1] == b[i]);
            }
        }
        assert(a =~= b);
    }
}

pub proof fn lemma_lex_lt_transitive(a: Seq<char>, b: Seq<char>, c: Seq<char>)
    requires
        lex_lt(a, b),
        lex_lt(b, c),
    ensures
        lex_lt(a, c),
    decreases a.len(),
{
    assert(c.len() > 0);
    if a.len() == 0 {
    } else {
        assert(b.len() > 0);
        if !(a[0] < c[0]) && !(c[0] < a[0]) {
            assert(a[0] == c[0]);
            assert(a[0] == b[0] && b[0] == c[0]);
            lemma_lex_lt_transitive(a.drop_first(), b.drop_first(), c.drop_first());
        }
    }
}

/// Strict order between two snapshot entries under the given key.
pub open spec fn key_lt(a: ProcessInfo, b: ProcessInfo, key: SortBy) -> bool {
    match key {
        SortBy::Pid => a.pid < b.pid,
        SortBy::Name => lex_lt(a.name@, b.name@),
        SortBy::Cpu => a.cpu < b.cpu,
        SortBy::Memory => a.memory < b.memory,
    }
}

/// Equality of the sort key of two snapshot entries.
pub open spec fn key_eq(a: ProcessInfo, b: ProcessInfo, key: SortBy) -> bool {
    match key {
        SortBy::Pid => a.pid == b.pid,
        SortBy::Name => a.name@ == b.name@,
        SortBy::Cpu => a.cpu == b.cpu,
        SortBy::Memory => a.memory == b.memory,
    }
}

/// Order on snapshot positions: by the entries' keys, with equal keys
/// broken by position, so that sorting by it is stable.
pub open spec fn idx_le(s: Seq<ProcessInfo>, key: SortBy, i: usize, j: usize) -> bool {
    ||| key_lt(s[i as int], s[j as int], key)
    ||| (key_eq(s[i as int], s[j as int], key) && i <= j)
}

/// `idx_le` as a binary relation on positions.
pub open spec fn index_le(s: Seq<ProcessInfo>, key: SortBy) -> spec_fn(usize, usize) -> bool {
    |i: usize, j: usize| idx_le(s, key, i, j)
}

/// Position order with a position tie-break is a total order.
pub proof fn lemma_index_le_total(s: Seq<ProcessInfo>, key: SortBy)
    ensures
        total_ordering(index_le(s, key)),
{
    let leq = index_le(s, key);
    assert forall|i: usize| #[trigger] leq(i, i) by {
        assert(key_eq(s[i as int], s[i as int], key));
    }
    assert forall|i: usize, j: usize| #[trigger] leq(i, j) && #[trigger] leq(j, i) implies i
        == j by {
        let a = s[i as int];
        let b = s[j as int];
        if key_lt(a, b, key) && key_lt(b, a, key) {
            if key == SortBy::Name {
                lemma_lex_lt_transitive(a.name@, b.name@, a.name@);
                lemma_lex_lt_irreflexive(a.name@);
            }
            assert(false);
        } else if key_lt(a, b, key) && key_eq(b, a, key) {
            if key == SortBy::Name {
                lemma_lex_lt_irreflexive(a.name@);
            }
            assert(false);
        } else if key_lt(b, a, key) && key_eq(a, b, key) {
            if key == SortBy::Name {
                lemma_lex_lt_irreflexive(a.name@);
            }
            assert(false);
        }
    }
    assert forall|i: usize, j: usize, k: usize| #[trigger] leq(i, j) && #[trigger] leq(j, k)
        implies leq(i, k) by {
        let a = s[i as int];
        let b = s[j as int];
        let c = s[k as int];
        if key_lt(a, b, key) && key_lt(b, c, key) && key == SortBy::Name {
            lemma_lex_lt_transitive(a.name@, b.name@, c.name@);
        }
    }
    assert forall|i: usize, j: usize| #[trigger] leq(i, j) || #[trigger] leq(j, i) by {
        let a = s[i as int];
        let b = s[j as int];
        if !key_lt(a, b, key) && !key_lt(b, a, key) && !key_eq(a, b, key) {
            if key == SortBy::Name {
                lemma_lex_lt_connected(a.name@, b.name@);
            }
            assert(false);
        }
    }
}

/// The positions `0, 1, ..., n - 1` in order.
pub open spec fn identity_perm(n: nat) -> Seq<usize> {
    Seq::new(n, |i: int| i as usize)
}

/// The snapshot's positions, stably sorted by the current key: by the
/// entries' keys, equal keys kept in snapshot order.
pub open spec fn sorted_ids(s: Seq<ProcessInfo>, key: SortBy) -> Seq<usize> {
    identity_perm(s.len()).sort_by(index_le(s, key))
}

/// The snapshot's process identifiers in ascending stable key order.
pub open spec fn ascending_pids(s: Seq<ProcessInfo>, key: SortBy) -> Seq<u64> {
    sorted_ids(s, key).map_values(|i: usize| s[i as int].pid)
}

/// What one resort shows: the snapshot's identifiers in ascending stable
/// key order, reversed as a whole when the direction is descending.
pub open spec fn resort_spec(s: Seq<ProcessInfo>, key: SortBy, dir: SortOrder) -> Seq<u64> {
    match dir {
        SortOrder::Asc => ascending_pids(s, key),
        SortOrder::Desc => ascending_pids(s, key).reverse(),
    }
}

/// The sorted positions are exactly `0 .. n`, each once, and are sorted
/// by the stable position order.
pub proof fn lemma_sorted_ids_ensures(s: Seq<ProcessInfo>, key: SortBy)
    ensures
        sorted_ids(s, key).len() == s.len(),
        forall|k: int|
            0 <= k < s.len() ==> 0 <= #[trigger] sorted_ids(s, key)[k] < s.len(),
        sorted_ids(s, key).to_multiset() == identity_perm(s.len()).to_multiset(),
        sorted_by(sorted_ids(s, key), index_le(s, key)),
{
    broadcast use vstd::seq_lib::group_to_multiset_ensures;

    let leq = index_le(s, key);
    let id = identity_perm(s.len());
    let out = sorted_ids(s, key);
    lemma_index_le_total(s, key);
    id.lemma_sort_by_ensures(leq);
    assert(out.to_multiset() == id.to_multiset());
    assert(out.len() == out.to_multiset().len());
    assert(id.len() == id.to_multiset().len());
    assert forall|k: int| 0 <= k < s.len() implies 0 <= #[trigger] out[k] < s.len() by {
        assert(out.contains(out[k]));
        if out[k] >= s.len() {
            assert(forall|j: int| 0 <= j < id.len() ==> #[trigger] id[j] != out[k]);
            assert(!id.contains(out[k]));
        }
    }
}

/// Each position occurs exactly once among the sorted positions: the
/// result is a permutation of the snapshot's positions.
pub proof fn lemma_sorted_ids_injective(s: Seq<ProcessInfo>, key: SortBy)
    requires
        s.len() <= usize::MAX,
    ensures
        forall|p: int, q: int|
            0 <= p < q < sorted_ids(s, key).len() ==> #[trigger] sorted_ids(s, key)[p]
                != #[trigger] sorted_ids(s, key)[q],
{
    broadcast use vstd::seq_lib::group_to_multiset_ensures;

    let out = sorted_ids(s, key);
    lemma_sorted_ids_ensures(s, key);
    assert forall|p: int, q: int| 0 <= p < q < out.len() implies #[trigger] out[p]
        != #[trigger] out[q] by {
        if out[p] == out[q] {
            let v = out[p];
            lemma_identity_count(s.len(), v);
            assert(out.remove(p).to_multiset() == out.to_multiset().remove(v));
            assert(out.remove(p)[q - 1] == v);
            assert(out.remove(p).contains(v));
            assert(out.remove(p).to_multiset().count(v) > 0);
            assert(out.to_multiset().count(v) >= 2);
            assert(identity_perm(s.len()).to_multiset().count(v) <= 1);
        }
    }
}

proof fn lemma_identity_count(n: nat, v: usize)
    requires
        n <= usize::MAX,
    ensures
        identity_perm(n).to_multiset().count(v) == if (v as nat) < n {
            1int
        } else {
            0int
        },
    decreases n,
{
    broadcast use vstd::seq_lib::group_to_multiset_ensures;
    broadcast use vstd::multiset::group_multiset_axioms;

    if n == 0 {
        assert(identity_perm(0) =~= Seq::<usize>::empty());
        assert(!identity_perm(0).contains(v));
        assert(identity_perm(0).to_multiset().count(v) == 0);
    } else {
        let m = (n - 1) as nat;
        lemma_identity_count(m, v);
        assert(identity_perm(n) =~= identity_perm(m).push((n - 1) as usize));
        vstd::seq_lib::to_multiset_build(identity_perm(m), (n - 1) as usize);
    }
}

/// Reversing the direction yields the exact reverse of the ascending
/// sequence, for every key and every snapshot.
pub proof fn lemma_resort_reverse(s: Seq<ProcessInfo>, key: SortBy)
    ensures
        resort_spec(s, key, SortOrder::Desc) == resort_spec(s, key, SortOrder::Asc).reverse(),
{
}

fn exec_key_le(s: &Vec<ProcessInfo>, key: SortBy, i: usize, j: usize) -> (r: bool)
    requires
        i < s@.len(),
        j < s@.len(),
    ensures
        r == idx_le(s@, key, i, j),
{
    let a = &s[i];
    let b = &s[j];
    match key {
        SortBy::Pid => {
            if a.pid < b.pid {
                true
            } else if a.pid == b.pid {
                i <= j
            } else {
                false
            }
        },
        SortBy::Name => {
            proof {
                assert(a.name@.skip(0) =~= a.name@);
                assert(b.name@.skip(0) =~= b.name@);
            }
            let alen = a.name.as_str().unicode_len();
            let blen = b.name.as_str().unicode_len();
            if lex_lt_from(a.name.as_str(), b.name.as_str(), 0, alen, blen) {
                true
            } else if a.name == b.name {
                i <= j
            } else {
                false
            }
        },
        SortBy::Cpu => {
            if a.cpu < b.cpu {
                true
            } else if a.cpu == b.cpu {
                i <= j
            } else {
                false
            }
        },
        SortBy::Memory => {
            if a.memory < b.memory {
                true
            } else if a.memory == b.memory {
                i <= j
            } else {
                false
            }
        },
    }
}

fn lex_lt_from(a: &str, b: &str, i: usize, alen: usize, blen: usize) -> (r: bool)
    requires
        alen == a@.len(),
        blen == b@.len(),
        i <= alen,
        i <= blen,
    ensures
        r == lex_lt(a@.skip(i as int), b@.skip(i as int)),
    decreases alen - i,
{
    proof {
        assert(a@.skip(i as int).len() == alen - i);
        assert(b@.skip(i as int).len() == blen - i);
    }
    if i == blen {
        false
    } else if i == alen {
        true
    } else {
        let ca = a.get_char(i);
        let cb = b.get_char(i);
        proof {
            assert(a@.skip(i as int)[0] == a@[i as int]);
            assert(b@.skip(i as int)[0] == b@[i as int]);
        }
        if ca < cb {
            true
        } else if cb < ca {
            false
        } else {
            let r = lex_lt_from(a, b, i + 1, alen, blen);
            proof {
                assert(a@.skip(i as int).drop_first() =~= a@.skip(i + 1));
                assert(b@.skip(i as int).drop_first() =~= b@.skip(i + 1));
            }
            r
        }
    }
}

fn find_insert_pos(s: &Vec<ProcessInfo>, key: SortBy, ids: &Vec<usize>, x: usize) -> (pos: usize)
    requires
        x < s@.len(),
        forall|k: int| 0 <= k < ids@.len() ==> #[trigger] ids@[k] < s@.len(),
    ensures
        pos <= ids@.len(),
        forall|k: int| 0 <= k < pos ==> idx_le(s@, key, #[trigger] ids@[k], x),
        pos < ids@.len() ==> !idx_le(s@, key, ids@[pos as int], x),
{
    let mut pos: usize = 0;
    while pos < ids.len()
        invariant
            pos <= ids@.len(),
            x < s@.len(),
            forall|k: int| 0 <= k < ids@.len() ==> #[trigger] ids@[k] < s@.len(),
            forall|k: int| 0 <= k < pos ==> idx_le(s@, key, #[trigger] ids@[k], x),
        decreases ids@.len() - pos,
    {
        if !exec_key_le(s, key, ids[pos], x) {
            return pos;
        }
        pos = pos + 1;
    }
    pos
}

/// Stable insertion sort of the snapshot's positions by the current key.
pub fn sort_indices(s: &Vec<ProcessInfo>, key: SortBy) -> (ids: Vec<usize>)
    ensures
        ids@ == sorted_ids(s@, key),
{
    broadcast use vstd::seq_lib::group_to_multiset_ensures;

    let ghost leq = index_le(s@, key);
    proof {
        lemma_index_le_total(s@, key);
    }
    let n = s.len();
    let mut ids: Vec<usize> = Vec::new();
    proof {
        assert(ids@.to_multiset() =~= identity_perm(0).to_multiset()) by {
            assert(identity_perm(0) =~= Seq::<usize>::empty());
        }
    }
    let mut i: usize = 0;
    while i < n
        invariant
            i <= n,
            n == s@.len(),
            ids@.len() == i,
            forall|k: int| 0 <= k < ids@.len() ==> #[trigger] ids@[k] < i,
            ids@.to_multiset() == identity_perm(i as nat).to_multiset(),
            sorted_by(ids@, leq),
            leq == index_le(s@, key),
            total_ordering(leq),
        decreases n - i,
    {
        let pos = find_insert_pos(s, key, &ids, i);
        let ghost ids0 = ids@;
        ids.insert(pos, i);
        proof {
            let ids1 = ids0.insert(pos as int, i);
            assert(ids@ == ids1);
            assert forall|k: int| 0 <= k < ids1.len() implies #[trigger] ids1[k] < i + 1 by {
                if k < pos {
                    assert(ids1[k] == ids0[k]);
                } else if k == pos {
                } else {
                    assert(ids1[k] == ids0[k - 1]);
                }
            }
            assert(identity_perm((i + 1) as nat) =~= identity_perm(i as nat).push(i));
            vstd::seq_lib::to_multiset_insert(ids0, pos as int, i);
            vstd::seq_lib::to_multiset_build(identity_perm(i as nat), i);
            assert(ids1.to_multiset() =~= identity_perm((i + 1) as nat).to_multiset());
            assert forall|p: int, q: int| 0 <= p < q < ids1.len() implies #[trigger] leq(
                ids1[p],
                ids1[q],
            ) by {
                if q < pos {
                    assert(ids1[p] == ids0[p] && ids1[q] == ids0[q]);
                } else if q == pos {
                    assert(ids1[p] == ids0[p]);
                    assert(leq(ids0[p], i));
                } else {
                    // q > pos
                    if p < pos {
                        assert(ids1[p] == ids0[p] && ids1[q] == ids0[q - 1]);
                    } else if p == pos {
                        assert(ids1[q] == ids0[q - 1]);
                        assert(!leq(ids0[pos as int], i));
                        assert(leq(i, ids0[pos as int]));
                        if q - 1 > pos {
                            assert(leq(ids0[pos as int], ids0[q - 1]));
                        }
                    } else {
                        assert(ids1[p] == ids0[p - 1] && ids1[q] == ids0[q - 1]);
                    }
                }
            }
        }
        i = i + 1;
    }
    proof {
        let id = identity_perm(n as nat);
        id.lemma_sort_by_ensures(leq);
        vstd::seq_lib::lemma_sorted_unique(ids@, id.sort_by(leq), leq);
        assert(ids@ == sorted_ids(s@, key));
    }
    ids
}

} // verus!
