//! Ascending order, and the one fact about it everything else leans on.

use vstd::prelude::*;
use vstd::relations::sorted_by;

verus! {

broadcast use {vstd::seq_lib::group_to_multiset_ensures, vstd::multiset::group_multiset_axioms};

/// Every element no larger than any element after it.
pub open spec fn is_ascending(s: Seq<i64>) -> bool {
    forall|i: int, j: int| 0 <= i <= j < s.len() ==> s[i] <= s[j]
}

/// The order `sort_unstable` puts integers in.
pub open spec fn int_leq(a: i64, b: i64) -> bool {
    a <= b
}

/// A sequence's elements in ascending order.
pub open spec fn ascending(s: Seq<i64>) -> Seq<i64> {
    s.sort_by(|a: i64, b: i64| int_leq(a, b))
}

/// Two ascending sequences holding the same elements are the same sequence.
pub proof fn lemma_ascending_unique(a: Seq<i64>, b: Seq<i64>)
    requires
        is_ascending(a),
        is_ascending(b),
        a.to_multiset() == b.to_multiset(),
    ensures
        a == b,
    decreases a.len(),
{
    assert(a.len() == a.to_multiset().len());
    assert(b.len() == b.to_multiset().len());
    if a.len() == 0 {
        assert(a =~= b);
    } else {
        let x = a.last();
        let y = b.last();
        assert(a.contains(x)) by {
            assert(a[a.len() - 1] == x);
        }
        assert(b.contains(y)) by {
            assert(b[b.len() - 1] == y);
        }
        assert(a.to_multiset().count(x) > 0);
        assert(b.to_multiset().count(x) > 0);
        assert(b.contains(x));
        assert(b.to_multiset().count(y) > 0);
        assert(a.to_multiset().count(y) > 0);
        assert(a.contains(y));
        let i = choose|i: int| 0 <= i < b.len() && b[i] == x;
        let j = choose|j: int| 0 <= j < a.len() && a[j] == y;
        assert(x <= y);
        assert(y <= x);
        let a0 = a.drop_last();
        let b0 = b.drop_last();
        assert(a =~= a0.push(x));
        assert(b =~= b0.push(y));
        assert(a0.to_multiset().insert(x) == b0.to_multiset().insert(x));
        assert(a0.to_multiset() =~= a0.to_multiset().insert(x).remove(x));
        assert(b0.to_multiset() =~= b0.to_multiset().insert(x).remove(x));
        lemma_ascending_unique(a0, b0);
    }
}

/// `ascending` really is ascending, and keeps every element.
pub proof fn lemma_ascending(s: Seq<i64>)
    ensures
        is_ascending(ascending(s)),
        ascending(s).to_multiset() == s.to_multiset(),
{
    let leq = |a: i64, b: i64| int_leq(a, b);
    s.lemma_sort_by_ensures(leq);
    let t = ascending(s);
    assert(sorted_by(t, leq));
    assert forall|i: int, j: int| 0 <= i <= j < t.len() implies t[i] <= t[j] by {
        if i < j {
            assert(leq(t[i], t[j]));
        }
    }
}

/// Whatever sort produced `t`, if it is ascending and a permutation of `s`
/// it is `ascending(s)`.
pub proof fn lemma_is_ascending_of(s: Seq<i64>, t: Seq<i64>)
    requires
        is_ascending(t),
        t.to_multiset() == s.to_multiset(),
    ensures
        t == ascending(s),
{
    lemma_ascending(s);
    lemma_ascending_unique(t, ascending(s));
}

/// `slice::sort_unstable` sorts in ascending order and keeps every element.
#[verifier::external_body]
pub fn sort_ascending(v: &mut Vec<i64>)
    ensures
        is_ascending(final(v)@),
        final(v)@.to_multiset() == old(v)@.to_multiset(),
{
    v.sort_unstable();
}

} // verus!
