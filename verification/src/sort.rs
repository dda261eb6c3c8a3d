//! A stable insertion sort by character-sequence keys, used wherever the
//! library orders things the way std's stable `sort` / `sort_by` would.
use vstd::prelude::*;
use crate::text::{
    chars_lt, lemma_seq_lt_asymmetric, lemma_seq_lt_irreflexive, lemma_seq_lt_total,
    lemma_seq_lt_transitive, seq_le, seq_lt,
};

verus! {

/// The character sequences held by a vector of keys.
pub open spec fn key_seqs(ks: Seq<Vec<char>>) -> Seq<Seq<char>> {
    ks.map_values(|k: Vec<char>| k@)
}

/// `p` is a permutation of `0..n`.
pub open spec fn is_perm(p: Seq<int>, n: nat) -> bool {
    &&& p.len() == n
    &&& forall|i: int| 0 <= i < n ==> 0 <= #[trigger] p[i] < n
    &&& forall|i: int, j: int| 0 <= i < j < n ==> #[trigger] p[i] != #[trigger] p[j]
    &&& forall|v: int| 0 <= v < n ==> #[trigger] perm_hits(p, v)
}

/// Some position of `p` holds `v`.
pub open spec fn perm_hits(p: Seq<int>, v: int) -> bool {
    exists|k: int| 0 <= k < p.len() && #[trigger] p[k] == v
}

/// The keys are in non-decreasing order.
pub open spec fn keys_sorted(keys: Seq<Seq<char>>) -> bool {
    forall|i: int, j: int| 0 <= i < j < keys.len() ==> seq_le(#[trigger] keys[i], #[trigger] keys[j])
}

/// `p` witnesses that `(out, out_keys)` is the stable sort of `(inp, in_keys)`:
/// a permutation of the input, ordered by key, with equal keys kept in their
/// input order.
pub open spec fn stable_sort_witness<T>(
    p: Seq<int>,
    out: Seq<T>,
    out_keys: Seq<Seq<char>>,
    inp: Seq<T>,
    in_keys: Seq<Seq<char>>,
) -> bool {
    &&& in_keys.len() == inp.len()
    &&& out.len() == inp.len()
    &&& out_keys.len() == inp.len()
    &&& is_perm(p, inp.len())
    &&& forall|i: int| 0 <= i < out.len() ==> #[trigger] out[i] == inp[p[i]]
    &&& forall|i: int| 0 <= i < out.len() ==> #[trigger] out_keys[i] == in_keys[p[i]]
    &&& keys_sorted(out_keys)
    &&& forall|i: int, j: int|
        0 <= i < j < out.len() && out_keys[i] == out_keys[j] ==> #[trigger] p[i] < #[trigger] p[j]
}

/// `(out, out_keys)` is the stable sort of `(inp, in_keys)`.
pub open spec fn is_stable_sort<T>(
    out: Seq<T>,
    out_keys: Seq<Seq<char>>,
    inp: Seq<T>,
    in_keys: Seq<Seq<char>>,
) -> bool {
    exists|p: Seq<int>| stable_sort_witness(p, out, out_keys, inp, in_keys)
}

proof fn lemma_le_transitive(a: Seq<char>, b: Seq<char>, c: Seq<char>)
    requires
        seq_le(a, b),
        seq_le(b, c),
    ensures
        seq_le(a, c),
{
    if seq_lt(c, a) {
        lemma_seq_lt_total(a, b);
        lemma_seq_lt_total(b, c);
        if seq_lt(a, b) {
            lemma_seq_lt_transitive(c, a, b);
        }
    }
}

proof fn lemma_lt_implies_le(a: Seq<char>, b: Seq<char>)
    requires
        seq_lt(a, b),
    ensures
        seq_le(a, b),
        a != b,
{
    lemma_seq_lt_asymmetric(a, b);
    lemma_seq_lt_irreflexive(a);
}

/// Sorts `items` by `keys` (element `i` of `items` has key `keys[i]`),
/// stably, moving both vectors together. The ghost result is the permutation.
pub fn stable_sort_by_keys<T>(items: &mut Vec<T>, keys: &mut Vec<Vec<char>>) -> (perm: Ghost<Seq<int>>)
    requires
        old(items)@.len() == old(keys)@.len(),
    ensures
        stable_sort_witness(
            perm@,
            final(items)@,
            key_seqs(final(keys)@),
            old(items)@,
            key_seqs(old(keys)@),
        ),
{
    let n = items.len();
    let ghost oi = items@;
    let ghost ok = key_seqs(keys@);
    let ghost mut p: Seq<int> = Seq::new(n as nat, |k: int| k);
    let ghost mut q: Seq<int> = Seq::new(n as nat, |k: int| k);
    let mut i: usize = 0;
    while i < n
        invariant
            n == oi.len(),
            ok.len() == n,
            items@.len() == n,
            keys@.len() == n,
            0 <= i <= n,
            p.len() == n,
            q.len() == n,
            forall|v: int| 0 <= v < n ==> 0 <= #[trigger] q[v] < n && p[q[v]] == v,
            forall|v: int| 0 <= v < i ==> #[trigger] q[v] < i,
            forall|k: int| 0 <= k < n ==> #[trigger] items@[k] == oi[p[k]],
            forall|k: int| 0 <= k < n ==> #[trigger] key_seqs(keys@)[k] == ok[p[k]],
            forall|k: int| i <= k < n ==> #[trigger] p[k] == k,
            forall|k: int| 0 <= k < i ==> 0 <= #[trigger] p[k] < i,
            forall|a: int, b: int| 0 <= a < b < i ==> #[trigger] p[a] != #[trigger] p[b],
            forall|a: int, b: int|
                0 <= a < b < i ==> seq_le(#[trigger] key_seqs(keys@)[a], #[trigger] key_seqs(keys@)[b]),
            forall|a: int, b: int|
                0 <= a < b < i && key_seqs(keys@)[a] == key_seqs(keys@)[b] ==> #[trigger] p[a]
                    < #[trigger] p[b],
        decreases n - i,
    {
        let ghost kk = key_seqs(keys@);
        let ghost ki = kk[i as int];
        let mut j: usize = i;
        while j > 0 && chars_lt(&keys[i], &keys[j - 1])
            invariant
                0 <= j <= i < n,
                keys@.len() == n,
                kk == key_seqs(keys@),
                ki == kk[i as int],
                forall|m: int| j <= m < i ==> seq_lt(ki, #[trigger] kk[m]),
            decreases j,
        {
            j = j - 1;
        }
        let ghost pi = p[i as int];
        let ghost vi = items@;
        let ghost vk = keys@;
        let x = items.remove(i);
        items.insert(j, x);
        let kx = keys.remove(i);
        keys.insert(j, kx);
        proof {
            let np = p.remove(i as int).insert(j as int, pi);
            let nk = key_seqs(keys@);
            assert(items@ == vi.remove(i as int).insert(j as int, vi[i as int]));
            assert(keys@ == vk.remove(i as int).insert(j as int, vk[i as int]));
            assert forall|m: int| 0 <= m < n implies {
                &&& #[trigger] nk[m] == (if m < j {
                    kk[m]
                } else if m == j {
                    ki
                } else if m <= i {
                    kk[m - 1]
                } else {
                    kk[m]
                })
                &&& items@[m] == (if m < j {
                    vi[m]
                } else if m == j {
                    vi[i as int]
                } else if m <= i {
                    vi[m - 1]
                } else {
                    vi[m]
                })
                &&& np[m] == (if m < j {
                    p[m]
                } else if m == j {
                    pi
                } else if m <= i {
                    p[m - 1]
                } else {
                    p[m]
                })
            } by {
                if m < j {
                } else if m == j {
                } else if m <= i {
                } else {
                }
            }
            assert(pi == i);
            // ordering of the new prefix [0, i]
            assert forall|a: int, b: int| 0 <= a < b < i + 1 implies seq_le(
                #[trigger] nk[a],
                #[trigger] nk[b],
            ) by {
                if a == j {
                    lemma_lt_implies_le(ki, kk[b - 1]);
                } else if b == j {
                    if j > 0 {
                        lemma_seq_lt_total(ki, kk[j - 1]);
                        if a < j - 1 {
                            lemma_le_transitive(kk[a], kk[j - 1], ki);
                        }
                    }
                } else if a < j && b > j {
                    if a < b - 1 {
                    }
                }
            }
            assert forall|a: int, b: int|
                0 <= a < b < i + 1 && nk[a] == nk[b] implies #[trigger] np[a] < #[trigger] np[b] by {
                if a == j {
                    lemma_lt_implies_le(ki, kk[b - 1]);
                }
            }
            assert forall|a: int, b: int| 0 <= a < b < i + 1 implies #[trigger] np[a]
                != #[trigger] np[b] by {
                if a == j {
                } else if b == j {
                } else {
                }
            }
            let nq = Seq::new(n as nat, |v: int| if v == i {
                j as int
            } else if q[v] >= j && q[v] < i {
                q[v] + 1
            } else {
                q[v]
            });
            assert forall|v: int| 0 <= v < n implies 0 <= #[trigger] nq[v] < n && np[nq[v]] == v by {
                if v == i {
                } else if v < i {
                    assert(q[v] < i);
                    assert(p[q[v]] == v);
                } else {
                    assert(p[v] == v);
                    if q[v] != v {
                        assert(p[q[v]] == v);
                        assert(q[v] < n);
                    }
                    assert(q[v] == v) by {
                        if q[v] < i {
                            assert(p[q[v]] < i);
                        } else if q[v] != v {
                            assert(p[q[v]] == q[v]);
                        }
                    }
                }
            }
            assert forall|v: int| 0 <= v < i + 1 implies #[trigger] nq[v] < i + 1 by {
                if v < i {
                    assert(q[v] < i);
                }
            }
            p = np;
            q = nq;
        }
        i = i + 1;
    }
    proof {
        assert(key_seqs(keys@).len() == n);
        assert forall|v: int| 0 <= v < n implies #[trigger] perm_hits(p, v) by {
            assert(p[q[v]] == v);
        }
    }
    Ghost(p)
}

} // verus!
