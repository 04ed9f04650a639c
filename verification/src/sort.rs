//! Ordering the indices `0..N` by the keys of the records they stand for.

use crate::order::{ascending, lemma_ascending_unique, lemma_leq_reflexive, SortKey};
use crate::permutation::{
    identity_permutation, is_permutation, lemma_permutation_onto, lemma_permuted_multiset,
    permuted,
};
use vstd::prelude::*;

verus! {

/// `keys` holds, for each index it covers, a key that `f` returns for that index.
pub open spec fn keys_of<K, F: FnMut(usize) -> K>(f: F, keys: Seq<K>) -> bool {
    forall|i: usize| i < keys.len() ==> call_ensures(f, (i,), #[trigger] keys[i as int])
}

/// The key of the record whose index stands at position `a` of `v`.
spec fn key_at<K>(v: Seq<usize>, keys: Seq<K>, a: int) -> K {
    keys[v[a] as int]
}

/// The positions `0..end` of `v` form a binary max-heap as far as the parents
/// from `lo` on are concerned: no position whose parent is `lo` or later has
/// a key that sorts after its parent's.
spec fn heap_from<K: SortKey>(v: Seq<usize>, keys: Seq<K>, lo: int, end: int) -> bool {
    forall|c: int|
        0 < c < end && lo <= (c - 1) / 2 ==> (#[trigger] key_at(v, keys, c)).leq(
            key_at(v, keys, (c - 1) / 2),
        )
}

/// As `heap_from`, but the key at `hole` may sort before its children's. In
/// exchange the children of `hole` are in order with the parent of `hole`, so
/// that either of them can move up into `hole`.
spec fn heap_except<K: SortKey>(
    v: Seq<usize>,
    keys: Seq<K>,
    lo: int,
    end: int,
    hole: int,
) -> bool {
    &&& forall|c: int|
        0 < c < end && lo <= (c - 1) / 2 && (c - 1) / 2 != hole ==> (#[trigger] key_at(
            v,
            keys,
            c,
        )).leq(key_at(v, keys, (c - 1) / 2))
    &&& hole > lo ==> forall|c: int|
        0 < c < end && (c - 1) / 2 == hole ==> (#[trigger] key_at(v, keys, c)).leq(
            key_at(v, keys, (hole - 1) / 2),
        )
}

/// In a heap no key sorts after the root's.
proof fn lemma_heap_root_max<K: SortKey>(v: Seq<usize>, keys: Seq<K>, end: int, a: int)
    requires
        heap_from(v, keys, 0, end),
        0 <= a < end,
    ensures
        key_at(v, keys, a).leq(key_at(v, keys, 0)),
    decreases a,
{
    if a == 0 {
        lemma_leq_reflexive(key_at(v, keys, 0));
    } else {
        let up: int = (a - 1) / 2;
        lemma_heap_root_max(v, keys, end, up);
        assert(key_at(v, keys, a).leq(key_at(v, keys, up)));
        K::lemma_leq_transitive(key_at(v, keys, a), key_at(v, keys, up), key_at(v, keys, 0));
    }
}

/// Where two permutations differ only inside `lo..end`, each entry that one of
/// them has inside these bounds the other has inside them too.
proof fn lemma_rearranged_inside(old_v: Seq<usize>, new_v: Seq<usize>, lo: int, end: int, a: int)
    requires
        is_permutation(old_v),
        is_permutation(new_v),
        old_v.len() == new_v.len(),
        forall|b: int| 0 <= b < old_v.len() && !(lo <= b < end) ==> new_v[b] == old_v[b],
        0 <= lo <= a < end <= old_v.len(),
    ensures
        exists|b: int| lo <= b < end && old_v[b] == new_v[a],
{
    lemma_permutation_onto(old_v, new_v[a] as int);
    let b: int = choose|b: int| 0 <= b < old_v.len() && old_v[b] == new_v[a];
    if !(lo <= b < end) {
        assert(new_v[b] == new_v[a]);
        assert(false);
    }
}

/// Exchanges the entries at `i` and `j`.
fn swap_entries(v: &mut Vec<usize>, i: usize, j: usize)
    requires
        i < old(v)@.len(),
        j < old(v)@.len(),
    ensures
        final(v)@ == old(v)@.update(i as int, old(v)@[j as int]).update(
            j as int,
            old(v)@[i as int],
        ),
        is_permutation(old(v)@) ==> is_permutation(final(v)@),
{
    let at_i: usize = v[i];
    let at_j: usize = v[j];
    v[i] = at_j;
    v[j] = at_i;
}

/// Lets the entry at `root` sink until no child's key sorts after its own,
/// which makes a heap of `root` and all that hangs below it in `0..end`.
fn sift_down<K: SortKey>(v: &mut Vec<usize>, keys: &[K], root: usize, end: usize)
    requires
        old(v)@.len() == keys@.len(),
        is_permutation(old(v)@),
        root < end <= old(v)@.len(),
        heap_except(old(v)@, keys@, root as int, end as int, root as int),
    ensures
        final(v)@.len() == old(v)@.len(),
        is_permutation(final(v)@),
        forall|a: int|
            0 <= a < old(v)@.len() && !(root <= a < end) ==> final(v)@[a] == old(v)@[a],
        heap_from(final(v)@, keys@, root as int, end as int),
{
    let mut k: usize = root;
    while k < end / 2
        invariant
            root <= k < end <= v@.len(),
            v@.len() == keys@.len(),
            v@.len() == old(v)@.len(),
            is_permutation(v@),
            forall|a: int| 0 <= a < v@.len() && !(root <= a < end) ==> v@[a] == old(v)@[a],
            heap_except(v@, keys@, root as int, end as int, k as int),
        decreases end - k,
    {
        let left: usize = 2 * k + 1;
        let right: usize = left + 1;
        let mut child: usize = left;
        if right < end && !keys[v[right]].is_leq(&keys[v[left]]) {
            child = right;
        }
        let ghost other: int = if child == left {
            right as int
        } else {
            left as int
        };
        proof {
            // The chosen child's key is the later of the two.
            if right < end {
                K::lemma_leq_total(key_at(v@, keys@, left as int), key_at(v@, keys@, right as int));
                assert(key_at(v@, keys@, other).leq(key_at(v@, keys@, child as int)));
            }
        }
        if keys[v[child]].is_leq(&keys[v[k]]) {
            proof {
                assert forall|c: int|
                    0 < c < end && root <= (c - 1) / 2 implies (#[trigger] key_at(
                    v@,
                    keys@,
                    c,
                )).leq(key_at(v@, keys@, (c - 1) / 2)) by {
                    if (c - 1) / 2 == k {
                        if c != child {
                            assert(c == other);
                            K::lemma_leq_transitive(
                                key_at(v@, keys@, other),
                                key_at(v@, keys@, child as int),
                                key_at(v@, keys@, k as int),
                            );
                        }
                    }
                }
            }
            return ;
        }
        let ghost before = v@;
        proof {
            K::lemma_leq_total(
                key_at(before, keys@, child as int),
                key_at(before, keys@, k as int),
            );
        }
        swap_entries(v, k, child);
        proof {
            let after = v@;
            assert forall|c: int|
                0 < c < end && root <= (c - 1) / 2 && (c - 1) / 2 != child implies (
            #[trigger] key_at(after, keys@, c)).leq(key_at(after, keys@, (c - 1) / 2)) by {
                let up: int = (c - 1) / 2;
                if up == k {
                    if c != child {
                        assert(c == other);
                    }
                } else if c == k {
                    assert(key_at(before, keys@, child as int).leq(key_at(before, keys@, up)));
                } else {
                    assert(key_at(before, keys@, c).leq(key_at(before, keys@, up)));
                }
            }
            assert forall|c: int| 0 < c < end && (c - 1) / 2 == child implies (#[trigger] key_at(
                after,
                keys@,
                c,
            )).leq(key_at(after, keys@, (child - 1) / 2)) by {
                assert(key_at(before, keys@, c).leq(key_at(before, keys@, child as int)));
            }
        }
        k = child;
    }
}

/// Orders the indices `0..keys.len()` by their keys.
///
/// The result is a permutation of these indices, and the keys taken in its
/// order never decrease. Indices whose keys are equal come out in no
/// particular order.
pub fn permutations_unstable<K: SortKey>(keys: &[K]) -> (permutations: Vec<usize>)
    ensures
        permutations@.len() == keys@.len(),
        is_permutation(permutations@),
        ascending(permuted(keys@, permutations@)),
{
    let len: usize = keys.len();
    let mut v: Vec<usize> = identity_permutation(len);
    let mut start: usize = len / 2;
    while start > 0
        invariant
            start <= len / 2,
            len == keys@.len(),
            v@.len() == len,
            is_permutation(v@),
            heap_from(v@, keys@, start as int, len as int),
        decreases start,
    {
        start -= 1;
        sift_down(&mut v, keys, start, len);
    }
    let mut end: usize = len;
    while end > 1
        invariant
            end <= len,
            len == keys@.len(),
            v@.len() == len,
            is_permutation(v@),
            heap_from(v@, keys@, 0, end as int),
            forall|a: int, b: int|
                end <= a <= b < len ==> (#[trigger] key_at(v@, keys@, a)).leq(
                    #[trigger] key_at(v@, keys@, b),
                ),
            forall|a: int, b: int|
                0 <= a < end <= b < len ==> (#[trigger] key_at(v@, keys@, a)).leq(
                    #[trigger] key_at(v@, keys@, b),
                ),
        decreases end,
    {
        let ghost heap = v@;
        end -= 1;
        swap_entries(&mut v, 0, end);
        let ghost swapped = v@;
        proof {
            assert forall|c: int|
                0 < c < end && 1 <= (c - 1) / 2 implies (#[trigger] key_at(swapped, keys@, c)).leq(
                key_at(swapped, keys@, (c - 1) / 2),
            ) by {
                assert(key_at(heap, keys@, c).leq(key_at(heap, keys@, (c - 1) / 2)));
            }
        }
        sift_down(&mut v, keys, 0, end);
        proof {
            let top: K = key_at(heap, keys@, 0);
            assert(key_at(v@, keys@, end as int) == top);
            // The heap's root now stands behind everything that is left in the heap.
            assert forall|a: int| 0 <= a < end implies (#[trigger] key_at(v@, keys@, a)).leq(
                top,
            ) by {
                lemma_rearranged_inside(swapped, v@, 0, end as int, a);
                let b: int = choose|b: int| 0 <= b < end && swapped[b] == v@[a];
                if b == 0 {
                    lemma_heap_root_max(heap, keys@, end + 1, end as int);
                } else {
                    lemma_heap_root_max(heap, keys@, end + 1, b);
                }
            }
            lemma_leq_reflexive(top);
            assert forall|b: int| end < b < len implies top.leq(
                #[trigger] key_at(v@, keys@, b),
            ) by {
                assert(key_at(heap, keys@, 0).leq(key_at(heap, keys@, b)));
            }
            assert forall|a: int, b: int| 0 <= a < end <= b < len implies (#[trigger] key_at(
                v@,
                keys@,
                a,
            )).leq(#[trigger] key_at(v@, keys@, b)) by {
                if b > end {
                    K::lemma_leq_transitive(key_at(v@, keys@, a), top, key_at(v@, keys@, b));
                }
            }
            assert forall|a: int, b: int| end <= a <= b < len implies (#[trigger] key_at(
                v@,
                keys@,
                a,
            )).leq(#[trigger] key_at(v@, keys@, b)) by {
                if a > end {
                    assert(key_at(heap, keys@, a).leq(key_at(heap, keys@, b)));
                }
            }
        }
    }
    proof {
        let sorted = permuted(keys@, v@);
        assert forall|a: int, b: int| 0 <= a <= b < sorted.len() implies (#[trigger] sorted[a]).leq(
            #[trigger] sorted[b],
        ) by {
            assert(sorted[a] == key_at(v@, keys@, a));
            assert(sorted[b] == key_at(v@, keys@, b));
            if a == b {
                lemma_leq_reflexive(sorted[a]);
            }
        }
    }
    v
}

/// Which of several sorting permutations is used makes no difference: any
/// two permutations that put the same keys in ascending order give the same
/// arrangement of them, though they may place equal keys differently.
pub proof fn lemma_sorting_permutations_agree<K: SortKey>(
    keys: Seq<K>,
    p: Seq<usize>,
    q: Seq<usize>,
)
    requires
        is_permutation(p),
        is_permutation(q),
        p.len() == keys.len(),
        q.len() == keys.len(),
        ascending(permuted(keys, p)),
        ascending(permuted(keys, q)),
    ensures
        permuted(keys, p) == permuted(keys, q),
{
    lemma_permuted_multiset(keys, p);
    lemma_permuted_multiset(keys, q);
    lemma_ascending_unique(permuted(keys, p), permuted(keys, q));
}

/// Orders the indices `0..len` by the keys that `f` gives for them.
///
/// `f` is called once for each index, in ascending order. The result is a
/// permutation of `0..len`, and the keys that these calls returned, taken in
/// its order, never decrease. Indices whose keys are equal come out in no
/// particular order.
pub fn permutations_unstable_by_key<F, K>(len: usize, mut f: F) -> (permutations: Vec<usize>) where
    F: FnMut(usize) -> K,
    K: SortKey,

    requires
        forall|i: usize| i < len ==> call_requires(f, (i,)),
    ensures
        permutations@.len() == len,
        is_permutation(permutations@),
        exists|keys: Seq<K>|
            keys.len() == len && #[trigger] keys_of(f, keys) && ascending(
                permuted(keys, permutations@),
            ),
{
    let ghost key_fn = f;
    let mut keys: Vec<K> = Vec::with_capacity(len);
    let mut i: usize = 0;
    while i < len
        invariant
            i <= len,
            keys@.len() == i,
            f == key_fn,
            forall|i: usize| i < len ==> call_requires(key_fn, (i,)),
            keys_of(key_fn, keys@),
        decreases len - i,
    {
        let key: K = f(i);
        keys.push(key);
        i += 1;
    }
    permutations_unstable(keys.as_slice())
}

} // verus!
