//! Sums of integer sequences, and the small lemmas the flow calculators
//! need about them.

use vstd::prelude::*;

verus! {

/// Sum of a sequence of mathematical integers.
pub open spec fn sum_int(s: Seq<int>) -> int
    decreases s.len(),
{
    if s.len() == 0 {
        0
    } else {
        sum_int(s.drop_last()) + s.last()
    }
}

/// A sequence of `u64` values read as mathematical integers.
pub open spec fn int_seq(s: Seq<u64>) -> Seq<int> {
    s.map_values(|x: u64| x as int)
}

/// A sum of nonnegative terms is nonnegative.
pub proof fn lemma_sum_nonneg(s: Seq<int>)
    requires
        forall|i: int| 0 <= i < s.len() ==> s[i] >= 0,
    ensures
        sum_int(s) >= 0,
    decreases s.len(),
{
    if s.len() > 0 {
        lemma_sum_nonneg(s.drop_last());
    }
}

/// Scaling every term scales the sum.
pub proof fn lemma_sum_scale(s: Seq<int>, k: int)
    ensures
        sum_int(s.map_values(|x: int| x * k)) == sum_int(s) * k,
    decreases s.len(),
{
    let scaled = s.map_values(|x: int| x * k);
    if s.len() == 0 {
        assert(scaled.len() == 0);
    } else {
        lemma_sum_scale(s.drop_last(), k);
        assert(scaled.drop_last() =~= s.drop_last().map_values(|x: int| x * k));
        assert(scaled.last() == s.last() * k);
        assert(sum_int(scaled) == sum_int(s.drop_last()) * k + s.last() * k);
        assert((sum_int(s.drop_last()) + s.last()) * k
            == sum_int(s.drop_last()) * k + s.last() * k) by (nonlinear_arith);
    }
}

/// In a sequence of nonnegative terms, every term is at most the sum.
pub proof fn lemma_sum_elem_bound(s: Seq<int>, i: int)
    requires
        forall|j: int| 0 <= j < s.len() ==> s[j] >= 0,
        0 <= i < s.len(),
    ensures
        s[i] <= sum_int(s),
    decreases s.len(),
{
    if i == s.len() - 1 {
        lemma_sum_nonneg(s.drop_last());
    } else {
        lemma_sum_elem_bound(s.drop_last(), i);
    }
}

/// Appending one term adds it to the sum.
pub proof fn lemma_sum_push(s: Seq<int>, x: int)
    ensures
        sum_int(s.push(x)) == sum_int(s) + x,
{
    assert(s.push(x).drop_last() =~= s);
}

} // verus!
