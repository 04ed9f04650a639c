//! Permutations of `0..N`, and what applying one does to a sequence.

use vstd::prelude::*;

verus! {

/// `p` is a permutation of `0..p.len()`: every entry is an index below its
/// length, and no index occurs twice.
pub open spec fn is_permutation(p: Seq<usize>) -> bool {
    &&& forall|j: int| 0 <= j < p.len() ==> (#[trigger] p[j]) < p.len()
    &&& forall|i: int, j: int| 0 <= i < j < p.len() ==> p[i] != p[j]
}

/// Every entry of `p` is an index below `n`.
pub open spec fn indices_below(p: Seq<usize>, n: nat) -> bool {
    forall|j: int| 0 <= j < p.len() ==> (#[trigger] p[j]) < n
}

/// The sequence that holds, at each position `j`, the element of `s` at
/// position `p[j]`.
pub open spec fn permuted<T>(s: Seq<T>, p: Seq<usize>) -> Seq<T> {
    Seq::new(p.len(), |j: int| s[p[j] as int])
}

/// The permutation that moves nothing: `0, 1, .., n - 1`.
pub open spec fn identity(n: nat) -> Seq<usize> {
    Seq::new(n, |j: int| j as usize)
}

/// The identity is a permutation.
pub proof fn lemma_identity_is_permutation(n: nat)
    requires
        n <= usize::MAX,
    ensures
        is_permutation(identity(n)),
{
}

/// Applying the identity permutation leaves a sequence as it is.
pub proof fn lemma_permuted_identity<T>(s: Seq<T>)
    requires
        s.len() <= usize::MAX,
    ensures
        permuted(s, identity(s.len())) == s,
{
    assert(permuted(s, identity(s.len())) =~= s);
}

/// A permutation reaches every index: each `v` below its length stands at
/// some position.
pub proof fn lemma_permutation_onto(p: Seq<usize>, v: int)
    requires
        is_permutation(p),
        0 <= v < p.len(),
    ensures
        exists|j: int| 0 <= j < p.len() && p[j] == v,
    decreases p.len(),
{
    let n: int = p.len() - 1;
    let last: int = p[n] as int;
    if last != v {
        let q = without_last(p);
        lemma_without_last(p);
        let w: int = if v > last {
            v - 1
        } else {
            v
        };
        lemma_permutation_onto(q, w);
        let j: int = choose|j: int| 0 <= j < q.len() && q[j] == w;
        assert(p[j] == v);
    }
}

/// `p` without its last entry, the larger indices moved down by one so that
/// the rest is again a permutation.
spec fn without_last(p: Seq<usize>) -> Seq<usize>
    recommends
        p.len() > 0,
{
    let last = p[p.len() - 1];
    Seq::new(
        (p.len() - 1) as nat,
        |j: int|
            if p[j] > last {
                (p[j] - 1) as usize
            } else {
                p[j]
            },
    )
}

/// Taking the last entry out of a permutation leaves a permutation.
proof fn lemma_without_last(p: Seq<usize>)
    requires
        is_permutation(p),
        p.len() > 0,
    ensures
        is_permutation(without_last(p)),
        without_last(p).len() == p.len() - 1,
{
    let q = without_last(p);
    let n = p.len() - 1;
    let last = p[n];
    assert forall|j: int| 0 <= j < q.len() implies (#[trigger] q[j]) < q.len() by {
        assert(p[j] != p[n]);
        assert(p[j] < p.len());
    }
    assert forall|i: int, j: int| 0 <= i < j < q.len() implies q[i] != q[j] by {
        assert(p[i] != p[j]);
        assert(p[i] != p[n]);
        assert(p[j] != p[n]);
    }
}

/// Applying a permutation moves elements and nothing else: the result holds
/// the same elements as the sequence it was applied to, each as often.
pub proof fn lemma_permuted_multiset<T>(s: Seq<T>, p: Seq<usize>)
    requires
        is_permutation(p),
        p.len() == s.len(),
    ensures
        permuted(s, p).to_multiset() == s.to_multiset(),
    decreases p.len(),
{
    broadcast use vstd::multiset::group_multiset_axioms;

    let t = permuted(s, p);
    if p.len() == 0 {
        assert(t =~= s);
    } else {
        let n = p.len() - 1;
        let last = p[n] as int;
        let q = without_last(p);
        let rest = s.remove(last);
        lemma_without_last(p);
        lemma_permuted_multiset(rest, q);
        assert(permuted(rest, q) =~= t.drop_last()) by {
            assert forall|j: int| 0 <= j < n implies permuted(rest, q)[j] == t[j] by {
                assert(p[j] != p[n]);
            }
        }
        assert(t =~= t.drop_last().push(s[last]));
        vstd::seq_lib::to_multiset_build(t.drop_last(), s[last]);
        vstd::seq_lib::to_multiset_remove(s, last);
        s.to_multiset_ensures();
        assert(s.to_multiset().count(s[last]) > 0);
        assert(t.to_multiset() =~= s.to_multiset());
    }
}

/// Builds the identity permutation of `0..len`.
pub fn identity_permutation(len: usize) -> (permutations: Vec<usize>)
    ensures
        permutations@ == identity(len as nat),
        is_permutation(permutations@),
{
    let mut permutations: Vec<usize> = Vec::with_capacity(len);
    let mut i: usize = 0;
    while i < len
        invariant
            i <= len,
            permutations@ == identity(i as nat),
        decreases len - i,
    {
        permutations.push(i);
        assert(permutations@ =~= identity((i + 1) as nat));
        i += 1;
    }
    permutations
}

/// Decides whether `permutations` is a permutation of `0..permutations.len()`.
///
/// A sequence of indices that comes from elsewhere is checked here once,
/// before it is applied.
pub fn validate_permutation(permutations: &[usize]) -> (valid: bool)
    ensures
        valid == is_permutation(permutations@),
{
    let len: usize = permutations.len();
    let mut seen: Vec<bool> = vec![false; len];
    let mut j: usize = 0;
    while j < len
        invariant
            j <= len,
            len == permutations@.len(),
            seen@.len() == len,
            forall|k: int| 0 <= k < j ==> (#[trigger] permutations@[k]) < len,
            forall|i: int, k: int| 0 <= i < k < j ==> permutations@[i] != permutations@[k],
            forall|v: int|
                0 <= v < len ==> (#[trigger] seen@[v] <==> exists|k: int|
                    0 <= k < j && permutations@[k] == v),
        decreases len - j,
    {
        let index: usize = permutations[j];
        if index >= len {
            return false;
        }
        if seen[index] {
            proof {
                let k: int = choose|k: int| 0 <= k < j && permutations@[k] == index;
                assert(permutations@[k] == permutations@[j as int]);
            }
            return false;
        }
        let ghost marked = seen@;
        seen[index] = true;
        proof {
            assert forall|v: int| 0 <= v < len implies (#[trigger] seen@[v] <==> exists|k: int|
                0 <= k < j + 1 && permutations@[k] == v) by {
                if v == index {
                    assert(permutations@[j as int] == v);
                } else if marked[v] {
                    let k: int = choose|k: int| 0 <= k < j && permutations@[k] == v;
                    assert(0 <= k < j + 1 && permutations@[k] == v);
                } else if exists|k: int| 0 <= k < j + 1 && permutations@[k] == v {
                    let k: int = choose|k: int| 0 <= k < j + 1 && permutations@[k] == v;
                    assert(0 <= k < j && permutations@[k] == v);
                }
            }
        }
        j += 1;
    }
    true
}

/// Cloning a value of type `T` gives that value again, as it does for the
/// integer types, for `bool`, and for a struct of such fields that derives
/// `Clone` and `Copy`.
pub open spec fn clone_is_exact<T: Clone>() -> bool {
    forall|a: T, b: T| cloned(a, b) ==> a == b
}

/// Reorders `vec` by `permutations`: afterwards position `j` holds a clone of
/// what position `permutations[j]` held before.
///
/// The indices have to be in range. Where a clone of an element is that
/// element again, the result is `permuted`; then a permutation keeps the
/// elements of `vec`, each as often as before, and the identity changes
/// nothing.
pub fn apply_permutations<T: Clone>(permutations: &[usize], vec: &mut Vec<T>)
    requires
        permutations@.len() == old(vec)@.len(),
        indices_below(permutations@, old(vec)@.len()),
    ensures
        final(vec)@.len() == old(vec)@.len(),
        forall|j: int|
            0 <= j < permutations@.len() ==> cloned(
                old(vec)@[permutations@[j] as int],
                #[trigger] final(vec)@[j],
            ),
        clone_is_exact::<T>() ==> final(vec)@ == permuted(old(vec)@, permutations@),
        clone_is_exact::<T>() && is_permutation(permutations@) ==> final(vec)@.to_multiset()
            == old(vec)@.to_multiset(),
        clone_is_exact::<T>() && permutations@ == identity(permutations@.len()) ==> final(vec)@
            == old(vec)@,
{
    let len: usize = permutations.len();
    let mut new: Vec<T> = Vec::with_capacity(len);
    let mut j: usize = 0;
    while j < len
        invariant
            j <= len,
            len == permutations@.len(),
            len == vec@.len(),
            indices_below(permutations@, vec@.len()),
            new@.len() == j,
            forall|k: int|
                0 <= k < j ==> cloned(vec@[permutations@[k] as int], #[trigger] new@[k]),
        decreases len - j,
    {
        let i: usize = permutations[j];
        let elem: T = vec[i].clone();
        new.push(elem);
        j += 1;
    }
    proof {
        if clone_is_exact::<T>() {
            assert(new@ =~= permuted(vec@, permutations@));
            if is_permutation(permutations@) {
                lemma_permuted_multiset(vec@, permutations@);
            }
            if permutations@ == identity(permutations@.len()) {
                lemma_permuted_identity(vec@);
            }
        }
    }
    *vec = new;
}

} // verus!
