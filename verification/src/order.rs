//! Sort keys and the total order they carry.

use vstd::prelude::*;

verus! {

/// A type of sort keys: values under a total order.
///
/// `leq` is the order itself; the three proof functions are the laws every
/// implementation has to prove of it, and `is_leq` decides it at run time.
pub trait SortKey: Sized {
    /// `self` sorts no later than `other`.
    spec fn leq(self, other: Self) -> bool;

    /// Any two keys are comparable.
    proof fn lemma_leq_total(a: Self, b: Self)
        ensures
            a.leq(b) || b.leq(a),
    ;

    /// The order is transitive.
    proof fn lemma_leq_transitive(a: Self, b: Self, c: Self)
        requires
            a.leq(b),
            b.leq(c),
        ensures
            a.leq(c),
    ;

    /// Keys that sort no later than each other are the same key.
    proof fn lemma_leq_antisymmetric(a: Self, b: Self)
        requires
            a.leq(b),
            b.leq(a),
        ensures
            a == b,
    ;

    /// Decides `leq`.
    fn is_leq(&self, other: &Self) -> (r: bool)
        ensures
            r == (*self).leq(*other),
    ;
}

impl SortKey for u8 {
    open spec fn leq(self, other: Self) -> bool {
        self <= other
    }

    proof fn lemma_leq_total(a: Self, b: Self) {
    }

    proof fn lemma_leq_transitive(a: Self, b: Self, c: Self) {
    }

    proof fn lemma_leq_antisymmetric(a: Self, b: Self) {
    }

    fn is_leq(&self, other: &Self) -> (r: bool) {
        *self <= *other
    }
}

impl SortKey for u16 {
    open spec fn leq(self, other: Self) -> bool {
        self <= other
    }

    proof fn lemma_leq_total(a: Self, b: Self) {
    }

    proof fn lemma_leq_transitive(a: Self, b: Self, c: Self) {
    }

    proof fn lemma_leq_antisymmetric(a: Self, b: Self) {
    }

    fn is_leq(&self, other: &Self) -> (r: bool) {
        *self <= *other
    }
}

impl SortKey for u32 {
    open spec fn leq(self, other: Self) -> bool {
        self <= other
    }

    proof fn lemma_leq_total(a: Self, b: Self) {
    }

    proof fn lemma_leq_transitive(a: Self, b: Self, c: Self) {
    }

    proof fn lemma_leq_antisymmetric(a: Self, b: Self) {
    }

    fn is_leq(&self, other: &Self) -> (r: bool) {
        *self <= *other
    }
}

/// `false` sorts before `true`.
impl SortKey for bool {
    open spec fn leq(self, other: Self) -> bool {
        !self || other
    }

    proof fn lemma_leq_total(a: Self, b: Self) {
    }

    proof fn lemma_leq_transitive(a: Self, b: Self, c: Self) {
    }

    proof fn lemma_leq_antisymmetric(a: Self, b: Self) {
    }

    fn is_leq(&self, other: &Self) -> (r: bool) {
        !*self || *other
    }
}

impl SortKey for u64 {
    open spec fn leq(self, other: Self) -> bool {
        self <= other
    }

    proof fn lemma_leq_total(a: Self, b: Self) {
    }

    proof fn lemma_leq_transitive(a: Self, b: Self, c: Self) {
    }

    proof fn lemma_leq_antisymmetric(a: Self, b: Self) {
    }

    fn is_leq(&self, other: &Self) -> (r: bool) {
        *self <= *other
    }
}

impl SortKey for usize {
    open spec fn leq(self, other: Self) -> bool {
        self <= other
    }

    proof fn lemma_leq_total(a: Self, b: Self) {
    }

    proof fn lemma_leq_transitive(a: Self, b: Self, c: Self) {
    }

    proof fn lemma_leq_antisymmetric(a: Self, b: Self) {
    }

    fn is_leq(&self, other: &Self) -> (r: bool) {
        *self <= *other
    }
}

/// A borrowed key is ordered as the key it borrows.
impl<'a, K: SortKey> SortKey for &'a K {
    open spec fn leq(self, other: Self) -> bool {
        (*self).leq(*other)
    }

    proof fn lemma_leq_total(a: Self, b: Self) {
        K::lemma_leq_total(*a, *b);
    }

    proof fn lemma_leq_transitive(a: Self, b: Self, c: Self) {
        K::lemma_leq_transitive(*a, *b, *c);
    }

    proof fn lemma_leq_antisymmetric(a: Self, b: Self) {
        K::lemma_leq_antisymmetric(*a, *b);
    }

    fn is_leq(&self, other: &Self) -> (r: bool) {
        (**self).is_leq(*other)
    }
}

/// Pairs are ordered by their first parts, and by their second parts where
/// the first are equal.
impl<A: SortKey, B: SortKey> SortKey for (A, B) {
    open spec fn leq(self, other: Self) -> bool {
        self.0.leq(other.0) && (other.0.leq(self.0) ==> self.1.leq(other.1))
    }

    proof fn lemma_leq_total(a: Self, b: Self) {
        A::lemma_leq_total(a.0, b.0);
        B::lemma_leq_total(a.1, b.1);
    }

    proof fn lemma_leq_transitive(a: Self, b: Self, c: Self) {
        A::lemma_leq_transitive(a.0, b.0, c.0);
        if c.0.leq(a.0) {
            A::lemma_leq_transitive(c.0, a.0, b.0);
            A::lemma_leq_transitive(b.0, c.0, a.0);
            B::lemma_leq_transitive(a.1, b.1, c.1);
        }
    }

    proof fn lemma_leq_antisymmetric(a: Self, b: Self) {
        A::lemma_leq_antisymmetric(a.0, b.0);
        B::lemma_leq_antisymmetric(a.1, b.1);
    }

    fn is_leq(&self, other: &Self) -> (r: bool) {
        if !self.0.is_leq(&other.0) {
            false
        } else if !other.0.is_leq(&self.0) {
            true
        } else {
            self.1.is_leq(&other.1)
        }
    }
}

/// Five keys side by side are ordered from left to right: by the first,
/// then by the second where the first are equal, and so on.
impl<A: SortKey, B: SortKey, C: SortKey, D: SortKey, E: SortKey> SortKey for (A, B, C, D, E) {
    open spec fn leq(self, other: Self) -> bool {
        (self.0, (self.1, (self.2, (self.3, self.4)))).leq(
            (other.0, (other.1, (other.2, (other.3, other.4)))),
        )
    }

    proof fn lemma_leq_total(a: Self, b: Self) {
        <(A, (B, (C, (D, E))))>::lemma_leq_total(
            (a.0, (a.1, (a.2, (a.3, a.4)))),
            (b.0, (b.1, (b.2, (b.3, b.4)))),
        );
    }

    proof fn lemma_leq_transitive(a: Self, b: Self, c: Self) {
        <(A, (B, (C, (D, E))))>::lemma_leq_transitive(
            (a.0, (a.1, (a.2, (a.3, a.4)))),
            (b.0, (b.1, (b.2, (b.3, b.4)))),
            (c.0, (c.1, (c.2, (c.3, c.4)))),
        );
    }

    proof fn lemma_leq_antisymmetric(a: Self, b: Self) {
        <(A, (B, (C, (D, E))))>::lemma_leq_antisymmetric(
            (a.0, (a.1, (a.2, (a.3, a.4)))),
            (b.0, (b.1, (b.2, (b.3, b.4)))),
        );
    }

    fn is_leq(&self, other: &Self) -> (r: bool) {
        if !self.0.is_leq(&other.0) {
            false
        } else if !other.0.is_leq(&self.0) {
            true
        } else if !self.1.is_leq(&other.1) {
            false
        } else if !other.1.is_leq(&self.1) {
            true
        } else if !self.2.is_leq(&other.2) {
            false
        } else if !other.2.is_leq(&self.2) {
            true
        } else if !self.3.is_leq(&other.3) {
            false
        } else if !other.3.is_leq(&self.3) {
            true
        } else {
            self.4.is_leq(&other.4)
        }
    }
}

/// The keys of `s` never decrease from left to right.
pub open spec fn ascending<K: SortKey>(s: Seq<K>) -> bool {
    forall|a: int, b: int| 0 <= a <= b < s.len() ==> (#[trigger] s[a]).leq(#[trigger] s[b])
}

/// Every key sorts no later than itself.
pub proof fn lemma_leq_reflexive<K: SortKey>(a: K)
    ensures
        a.leq(a),
{
    K::lemma_leq_total(a, a);
}

/// There is one ascending arrangement of a collection of keys: two ascending
/// sequences that hold the same keys, each as often as the other, are equal.
pub proof fn lemma_ascending_unique<K: SortKey>(x: Seq<K>, y: Seq<K>)
    requires
        ascending(x),
        ascending(y),
        x.to_multiset() == y.to_multiset(),
    ensures
        x == y,
{
    let leq = |a: K, b: K| a.leq(b);
    assert(vstd::relations::total_ordering(leq)) by {
        assert forall|a: K| #[trigger] leq(a, a) by {
            K::lemma_leq_total(a, a);
        }
        assert forall|a: K, b: K| #[trigger] leq(a, b) && #[trigger] leq(b, a) implies a == b by {
            K::lemma_leq_antisymmetric(a, b);
        }
        assert forall|a: K, b: K, c: K| #[trigger] leq(a, b) && #[trigger] leq(b, c) implies leq(
            a,
            c,
        ) by {
            K::lemma_leq_transitive(a, b, c);
        }
        assert forall|a: K, b: K| #[trigger] leq(a, b) || #[trigger] leq(b, a) by {
            K::lemma_leq_total(a, b);
        }
    }
    assert(vstd::relations::sorted_by(x, leq));
    assert(vstd::relations::sorted_by(y, leq));
    vstd::seq_lib::lemma_sorted_unique(x, y, leq);
}

} // verus!
