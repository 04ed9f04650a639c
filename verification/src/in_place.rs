//! Applying a permutation without a second vector, one cycle at a time.

use crate::permutation::{
    is_permutation, lemma_permutation_onto, lemma_permuted_multiset, permuted,
};
use vstd::prelude::*;

verus! {

/// The position at which `p` holds each index: `inverse(p)[v]` is where `v`
/// stands in `p`.
pub open spec fn inverse(p: Seq<usize>) -> Seq<int> {
    Seq::new(p.len(), |v: int| choose|j: int| 0 <= j < p.len() && p[j] == v)
}

/// The inverse of a permutation undoes it, on either side.
pub proof fn lemma_inverse(p: Seq<usize>)
    requires
        is_permutation(p),
    ensures
        inverse(p).len() == p.len(),
        forall|v: int|
            0 <= v < p.len() ==> 0 <= (#[trigger] inverse(p)[v]) < p.len() && p[inverse(p)[v]]
                == v,
        forall|j: int| 0 <= j < p.len() ==> inverse(p)[(#[trigger] p[j]) as int] == j,
{
    assert forall|v: int| 0 <= v < p.len() implies 0 <= (#[trigger] inverse(p)[v]) < p.len()
        && p[inverse(p)[v]] == v by {
        lemma_permutation_onto(p, v);
    }
    assert forall|j: int| 0 <= j < p.len() implies inverse(p)[(#[trigger] p[j]) as int] == j by {
        let back: int = inverse(p)[p[j] as int];
        assert(p[back] == p[j]);
    }
}

/// How many positions are not marked yet.
spec fn unmarked(done: Seq<bool>) -> nat
    decreases done.len(),
{
    if done.len() == 0 {
        0
    } else if done.last() {
        unmarked(done.drop_last())
    } else {
        unmarked(done.drop_last()) + 1
    }
}

/// Marking a position that was not marked leaves one fewer to mark.
proof fn lemma_mark(done: Seq<bool>, j: int)
    requires
        0 <= j < done.len(),
        !done[j],
    ensures
        unmarked(done.update(j, true)) + 1 == unmarked(done),
    decreases done.len(),
{
    let marked = done.update(j, true);
    if j == done.len() - 1 {
        assert(marked.drop_last() =~= done.drop_last());
    } else {
        lemma_mark(done.drop_last(), j);
        assert(marked.drop_last() =~= done.drop_last().update(j, true));
    }
}

/// Reorders `vec` by `permutations` where it stands: afterwards position `j`
/// holds what position `permutations[j]` held before, as after
/// `apply_permutations`.
///
/// The elements move along the cycles of the permutation, one cycle after
/// the other. A mark per position tells which cycles are done; the elements
/// themselves need no second vector.
pub fn apply_permutations_in_place<T: Copy>(permutations: &[usize], vec: &mut Vec<T>)
    requires
        permutations@.len() == old(vec)@.len(),
        is_permutation(permutations@),
    ensures
        final(vec)@ == permuted(old(vec)@, permutations@),
        final(vec)@.len() == old(vec)@.len(),
        final(vec)@.to_multiset() == old(vec)@.to_multiset(),
{
    let len: usize = permutations.len();
    let ghost p = permutations@;
    let ghost back = inverse(p);
    let ghost initial = vec@;
    let mut done: Vec<bool> = vec![false; len];
    let mut start: usize = 0;
    while start < len
        invariant
            start <= len,
            p == permutations@,
            is_permutation(p),
            back == inverse(p),
            len == p.len(),
            initial.len() == len,
            vec@.len() == len,
            done@.len() == len,
            forall|k: int| 0 <= k < start ==> done@[k],
            forall|k: int| 0 <= k < len && done@[k] ==> done@[#[trigger] back[k]],
            forall|k: int| 0 <= k < len && done@[k] ==> #[trigger] vec@[k] == initial[p[k] as int],
            forall|k: int| 0 <= k < len && !done@[k] ==> #[trigger] vec@[k] == initial[k],
        decreases len - start,
    {
        if !done[start] {
            let first: T = vec[start];
            let mut j: usize = start;
            loop
                invariant_except_break
                    j < len,
                    !done@[j as int],
                    j != start ==> done@[start as int] && done@[back[j as int]],
                    forall|k: int|
                        0 <= k < len && k != start && done@[k] ==> done@[#[trigger] back[k]],
                    forall|k: int|
                        0 <= k < len && !done@[k] && k != j ==> #[trigger] vec@[k] == initial[k],
                invariant
                    start < len,
                    p == permutations@,
                    is_permutation(p),
                    back == inverse(p),
                    len == p.len(),
                    initial.len() == len,
                    vec@.len() == len,
                    done@.len() == len,
                    first == initial[start as int],
                    forall|k: int| 0 <= k < start ==> done@[k],
                    forall|k: int|
                        0 <= k < len && done@[k] ==> #[trigger] vec@[k] == initial[p[k] as int],
                ensures
                    done@[start as int],
                    forall|k: int| 0 <= k < len && done@[k] ==> done@[#[trigger] back[k]],
                    forall|k: int| 0 <= k < len && !done@[k] ==> #[trigger] vec@[k] == initial[k],
                decreases unmarked(done@),
            {
                let next: usize = permutations[j];
                proof {
                    lemma_inverse(p);
                    lemma_mark(done@, j as int);
                    assert(back[next as int] == j);
                    if next != start {
                        // The cycle has not closed, so `next` is still to be visited.
                        assert(!done@[next as int]);
                        assert(next != j);
                    }
                }
                let ghost marks = done@;
                let ghost values = vec@;
                done[j] = true;
                if next == start {
                    vec[j] = first;
                    proof {
                        assert forall|k: int|
                            0 <= k < len && done@[k] implies done@[#[trigger] back[k]] by {
                            if k == j {
                                assert(j != start ==> marks[back[j as int]]);
                            } else if k == start {
                            } else {
                                assert(marks[k]);
                                assert(marks[back[k]]);
                            }
                        }
                        assert forall|k: int| 0 <= k < len && done@[k] implies #[trigger] vec@[k]
                            == initial[p[k] as int] by {
                            if k != j {
                                assert(values[k] == initial[p[k] as int]);
                            }
                        }
                        assert forall|k: int| 0 <= k < len && !done@[k] implies #[trigger] vec@[k]
                            == initial[k] by {
                            assert(values[k] == initial[k]);
                        }
                    }
                    break ;
                }
                let moved: T = vec[next];
                vec[j] = moved;
                proof {
                    assert(values[next as int] == initial[next as int]);
                    assert forall|k: int|
                        0 <= k < len && k != start && done@[k] implies done@[
                    #[trigger] back[k]] by {
                        if k != j {
                            assert(marks[k]);
                            assert(marks[back[k]]);
                        }
                    }
                    assert forall|k: int| 0 <= k < len && done@[k] implies #[trigger] vec@[k]
                        == initial[p[k] as int] by {
                        if k != j {
                            assert(values[k] == initial[p[k] as int]);
                        }
                    }
                    assert forall|k: int|
                        0 <= k < len && !done@[k] && k != next implies #[trigger] vec@[k]
                        == initial[k] by {
                        assert(values[k] == initial[k]);
                    }
                }
                j = next;
            }
        }
        start += 1;
    }
    proof {
        assert forall|k: int| 0 <= k < len implies vec@[k] == permuted(initial, p)[k] by {
            assert(done@[k]);
            assert(vec@[k] == initial[p[k] as int]);
        }
        assert(vec@ =~= permuted(initial, p));
        lemma_permuted_multiset(initial, p);
    }
}

} // verus!
