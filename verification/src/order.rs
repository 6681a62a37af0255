//! A total order on content items. A block keeps its content sorted in
//! ascending natural order, so the item type must supply a comparison whose
//! specification-level relation is a total order that respects equality.

use vstd::prelude::*;

verus! {

use core::cmp::Ordering;

/// A total order over a type, with an executable three-way comparison that
/// agrees with the specification-level relation `le`. A comparison that
/// answers `Equal` must only do so on equal values, so the order admits no
/// two distinct values that compare as equal.
pub trait TotalOrder: Sized {
    /// The specification-level "less than or equal" relation.
    spec fn le(self, other: Self) -> bool;

    /// Any two values are comparable.
    proof fn lemma_le_total(a: Self, b: Self)
        ensures
            a.le(b) || b.le(a),
    ;

    /// The relation is transitive.
    proof fn lemma_le_transitive(a: Self, b: Self, c: Self)
        requires
            a.le(b),
            b.le(c),
        ensures
            a.le(c),
    ;

    /// Values below each other are equal.
    proof fn lemma_le_antisymmetric(a: Self, b: Self)
        requires
            a.le(b),
            b.le(a),
        ensures
            a == b,
    ;

    /// Three-way comparison agreeing with `le`.
    fn cmp_with(&self, other: &Self) -> (c: Ordering)
        ensures
            c == Ordering::Less ==> self.le(*other) && *self != *other,
            c == Ordering::Equal ==> *self == *other,
            c == Ordering::Greater ==> other.le(*self) && *self != *other,
    ;
}

/// A sequence is strictly ascending under the natural order: earlier entries
/// are below later ones and no entry repeats.
pub open spec fn strictly_sorted<T: TotalOrder>(s: Seq<T>) -> bool {
    forall|i: int, j: int|
        0 <= i < j < s.len() ==> (#[trigger] s[i].le(s[j])) && s[i] != s[j]
}

/// A strictly sorted sequence is the canonical form of its set of items: two
/// strictly sorted sequences holding the same set are the same sequence.
pub proof fn lemma_strictly_sorted_unique<T: TotalOrder>(s1: Seq<T>, s2: Seq<T>)
    requires
        strictly_sorted(s1),
        strictly_sorted(s2),
        s1.to_set() == s2.to_set(),
    ensures
        s1 == s2,
    decreases s1.len(),
{
    if s1.len() == 0 {
        if s2.len() > 0 {
            assert(s2.contains(s2[0]));
            assert(s2.to_set().contains(s2[0]));
            assert(s1.to_set().contains(s2[0]));
            assert(s1.contains(s2[0]));
            assert(false);
        }
        assert(s1 =~= s2);
    } else {
        assert(s1.contains(s1[0]));
        assert(s1.to_set().contains(s1[0]));
        assert(s2.to_set().contains(s1[0]));
        assert(s2.contains(s1[0]));
        assert(s2.len() > 0);
        assert(s2.contains(s2[0]));
        assert(s2.to_set().contains(s2[0]));
        assert(s1.to_set().contains(s2[0]));
        assert(s1.contains(s2[0]));
        assert(s1[0] == s2[0]) by {
            let i = choose|i: int| 0 <= i < s2.len() && s2[i] == s1[0];
            if i > 0 {
                assert(s2[0].le(s2[i]) && s2[0] != s2[i]);
            } else {
                T::lemma_le_total(s2[0], s2[0]);
            }
            assert(s2[0].le(s1[0]));
            let j = choose|j: int| 0 <= j < s1.len() && s1[j] == s2[0];
            if j > 0 {
                assert(s1[0].le(s1[j]) && s1[0] != s1[j]);
            } else {
                T::lemma_le_total(s1[0], s1[0]);
            }
            assert(s1[0].le(s2[0]));
            T::lemma_le_antisymmetric(s1[0], s2[0]);
        }
        let t1 = s1.skip(1);
        let t2 = s2.skip(1);
        assert(strictly_sorted(t1)) by {
            assert forall|p: int, q: int| 0 <= p < q < t1.len() implies (#[trigger] t1[p].le(
                t1[q],
            )) && t1[p] != t1[q] by {
                assert(t1[p] == s1[p + 1] && t1[q] == s1[q + 1]);
            }
        }
        assert(strictly_sorted(t2)) by {
            assert forall|p: int, q: int| 0 <= p < q < t2.len() implies (#[trigger] t2[p].le(
                t2[q],
            )) && t2[p] != t2[q] by {
                assert(t2[p] == s2[p + 1] && t2[q] == s2[q + 1]);
            }
        }
        lemma_skip_first_to_set(s1);
        lemma_skip_first_to_set(s2);
        assert(t1.to_set() =~= t2.to_set());
        lemma_strictly_sorted_unique(t1, t2);
        assert(s1 =~= s2) by {
            assert(s1.len() == t1.len() + 1 && s2.len() == t2.len() + 1);
            assert forall|j: int| 0 <= j < s1.len() implies s1[j] == s2[j] by {
                if j > 0 {
                    assert(t1[j - 1] == s1[j] && t2[j - 1] == s2[j]);
                }
            }
        }
    }
}

/// Dropping the first entry of a strictly sorted sequence removes exactly
/// that entry from its set of items.
proof fn lemma_skip_first_to_set<T: TotalOrder>(s: Seq<T>)
    requires
        strictly_sorted(s),
        s.len() > 0,
    ensures
        s.skip(1).to_set() == s.to_set().remove(s[0]),
{
    let t = s.skip(1);
    assert(t.to_set() =~= s.to_set().remove(s[0])) by {
        assert forall|x: T| t.contains(x) implies s.contains(x) && x != s[0] by {
            let k = choose|k: int| 0 <= k < t.len() && t[k] == x;
            assert(s[k + 1] == x);
            assert(s[0].le(s[k + 1]) && s[0] != s[k + 1]);
        }
        assert forall|x: T| s.contains(x) && x != s[0] implies t.contains(x) by {
            let k = choose|k: int| 0 <= k < s.len() && s[k] == x;
            assert(k > 0);
            assert(t[k - 1] == x);
        }
    }
}

} // verus!
