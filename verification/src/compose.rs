//! The recursive density composer.
//!
//! The net-occupancy density after station `i` follows the linear recurrence
//! `net(0, x) = board(0, x)` and, for `i > 0`,
//! `net(i, x) = net(i-1, x) * (1 - p_i) + board(i, x) * p_i`
//! where `p_i` is station `i`'s boarding proportion. Unfolded, `net(i, x)`
//! is a convex combination of the stations' boarding densities; this module
//! computes those combination weights exactly, as integer numerators over
//! one shared denominator per station. Because every boarding density
//! integrates to one, the net density integrates to one exactly when the
//! weights sum to one — which `lemma_weights_sum_to_one` proves they always
//! do.

use vstd::prelude::*;
use crate::ratio::Ratio;
use crate::errors::OverflowError;
use crate::sums::{sum_int, int_seq, lemma_sum_nonneg, lemma_sum_elem_bound, lemma_sum_scale,
    lemma_sum_push};

verus! {

/// Numerators of the weights that the recurrence puts on the boarding
/// densities of stations `0..i` at station `i`; `props[j]` is station `j`'s
/// boarding proportion (`props[0]` is never read: at the first station the
/// whole occupancy is its own boarding density).
pub open spec fn spec_weight_nums(props: Seq<Ratio>, i: int) -> Seq<int>
    decreases i,
{
    if i <= 0 {
        seq![1int]
    } else {
        let p = props[i];
        spec_weight_nums(props, i - 1).map_values(|n: int| n * (p.den - p.num))
            .push(spec_weight_den(props, i - 1) * p.num)
    }
}

/// The shared denominator of station `i`'s weights.
pub open spec fn spec_weight_den(props: Seq<Ratio>, i: int) -> int
    decreases i,
{
    if i <= 0 {
        1
    } else {
        spec_weight_den(props, i - 1) * props[i].den
    }
}

/// Law: at every station the composition weights sum to exactly the shared
/// denominator — the net density is a convex combination of boarding
/// densities whose coefficients sum to one, so it integrates to one by
/// construction.
pub proof fn lemma_weights_sum_to_one(props: Seq<Ratio>, i: int)
    ensures
        sum_int(spec_weight_nums(props, i)) == spec_weight_den(props, i),
    decreases i,
{
    if i <= 0 {
        reveal_with_fuel(sum_int, 2);
        assert(seq![1int].drop_last() =~= Seq::<int>::empty());
        assert(sum_int(seq![1int]) == sum_int(Seq::<int>::empty()) + 1);
    } else {
        let p = props[i];
        let prev = spec_weight_nums(props, i - 1);
        let prev_den = spec_weight_den(props, i - 1);
        let k: int = p.den - p.num;
        let mapped = prev.map_values(|n: int| n * (p.den - p.num));
        lemma_weights_sum_to_one(props, i - 1);
        lemma_sum_scale(prev, k);
        assert(mapped =~= prev.map_values(|x: int| x * k));
        assert(sum_int(mapped) == prev_den * k);
        lemma_sum_push(mapped, prev_den * p.num);
        assert(spec_weight_nums(props, i) =~= mapped.push(prev_den * p.num));
        assert(sum_int(spec_weight_nums(props, i)) == prev_den * k + prev_den * p.num);
        assert(prev_den * k + prev_den * p.num == prev_den * p.den) by (nonlinear_arith)
            requires k == p.den - p.num;
    }
}

/// Law: at the first station the net density is the boarding density
/// itself — the weight on station 0 is one, over denominator one.
pub proof fn lemma_first_station_weights(props: Seq<Ratio>)
    ensures
        spec_weight_nums(props, 0) == seq![1int],
        spec_weight_den(props, 0) == 1,
{
}

/// Every weight numerator is nonnegative, and the denominator positive,
/// when the proportions are proportions.
pub proof fn lemma_weights_nonneg(props: Seq<Ratio>, i: int)
    requires
        forall|j: int| 1 <= j <= i ==> (#[trigger] props[j]).is_proportion(),
    ensures
        forall|k: int| 0 <= k < spec_weight_nums(props, i).len()
            ==> #[trigger] spec_weight_nums(props, i)[k] >= 0,
        spec_weight_den(props, i) >= 1,
    decreases i,
{
    if i > 0 {
        let p = props[i];
        let prev = spec_weight_nums(props, i - 1);
        let prev_den = spec_weight_den(props, i - 1);
        lemma_weights_nonneg(props, i - 1);
        assert(prev_den * p.den >= 1 * 1) by (nonlinear_arith)
            requires prev_den >= 1, p.den >= 1;
        assert forall|k: int| 0 <= k < spec_weight_nums(props, i).len()
            implies #[trigger] spec_weight_nums(props, i)[k] >= 0 by {
            if k < prev.len() {
                assert(prev[k] * (p.den - p.num) >= 0) by (nonlinear_arith)
                    requires prev[k] >= 0, p.den >= p.num;
            } else {
                assert(prev_den * p.num >= 0) by (nonlinear_arith)
                    requires prev_den >= 1, p.num >= 0;
            }
        }
    }
}

/// Law: each single weight is at most the shared denominator — every
/// station contributes a proportion in `[0, 1]` of the net density.
pub proof fn lemma_weight_in_unit(props: Seq<Ratio>, i: int, k: int)
    requires
        forall|j: int| 1 <= j <= i ==> (#[trigger] props[j]).is_proportion(),
        0 <= k < spec_weight_nums(props, i).len(),
    ensures
        0 <= spec_weight_nums(props, i)[k] <= spec_weight_den(props, i),
{
    lemma_weights_nonneg(props, i);
    lemma_weights_sum_to_one(props, i);
    lemma_sum_elem_bound(spec_weight_nums(props, i), k);
}

/// The composition weights of one station: `nums[j] / den` is the weight of
/// station `j`'s boarding density in this station's net-occupancy density.
#[derive(Clone, Debug)]
pub struct DensityWeights {
    pub nums: Vec<u64>,
    pub den: u64,
}

impl DensityWeights {
    /// The weights of station `i` under proportions `props`.
    pub open spec fn models(self, props: Seq<Ratio>, i: int) -> bool {
        &&& int_seq(self.nums@) == spec_weight_nums(props, i)
        &&& self.den == spec_weight_den(props, i)
    }
}

/// Compose the per-station weight vectors for a whole line from its
/// boarding proportions; `props[i]` is station `i`'s proportion and
/// `props[0]` is ignored. Fails exactly when some station's shared
/// denominator no longer fits in a machine word.
pub fn compose_weights(props: &Vec<Ratio>) -> (r: Result<Vec<DensityWeights>, OverflowError>)
    requires
        props@.len() >= 1,
        forall|i: int| 1 <= i < props@.len() ==> (#[trigger] props@[i]).is_proportion(),
    ensures
        match r {
            Ok(ws) => {
                &&& ws@.len() == props@.len()
                &&& forall|i: int| 0 <= i < ws@.len() ==> (#[trigger] ws@[i]).models(props@, i)
            },
            Err(_) => exists|i: int|
                1 <= i < props@.len() && #[trigger] spec_weight_den(props@, i) > u64::MAX,
        },
{
    let ghost pseq = props@;
    let mut ws: Vec<DensityWeights> = Vec::new();
    let mut first_nums: Vec<u64> = Vec::new();
    first_nums.push(1);
    proof {
        assert(int_seq(first_nums@) =~= spec_weight_nums(pseq, 0));
    }
    ws.push(DensityWeights { nums: first_nums, den: 1 });
    let mut i: usize = 1;
    while i < props.len()
        invariant
            1 <= i <= pseq.len(),
            props@ == pseq,
            forall|j: int| 1 <= j < pseq.len() ==> (#[trigger] pseq[j]).is_proportion(),
            ws@.len() == i,
            forall|j: int| 0 <= j < i ==> (#[trigger] ws@[j]).models(pseq, j),
        decreases pseq.len() - i,
    {
        let p = props[i];
        let den: u64 = ws[i - 1].den;
        let ghost prev_nums = ws@[i - 1].nums@;
        let new_den = match den.checked_mul(p.den) {
            Some(d) => d,
            None => {
                proof {
                    assert(spec_weight_den(pseq, i as int) == den * p.den);
                }
                return Err(OverflowError);
            },
        };
        proof {
            lemma_weights_sum_to_one(pseq, i - 1);
            lemma_weights_nonneg(pseq, i - 1);
            assert forall|k: int| 0 <= k < prev_nums.len()
                implies #[trigger] prev_nums[k] <= den by {
                assert(int_seq(prev_nums)[k] == prev_nums[k] as int);
                lemma_sum_elem_bound(int_seq(prev_nums), k);
            }
        }
        let mut new_nums: Vec<u64> = Vec::new();
        let n_prev: usize = ws[i - 1].nums.len();
        let mut j: usize = 0;
        while j < n_prev
            invariant
                j <= prev_nums.len(),
                n_prev == prev_nums.len(),
                i < ws@.len() + 1,
                ws@.len() >= 1,
                i >= 1,
                ws@[i - 1].nums@ == prev_nums,
                ws@[i - 1].den == den,
                new_nums@.len() == j,
                forall|k: int| 0 <= k < j
                    ==> #[trigger] new_nums@[k] as int == prev_nums[k] * (p.den - p.num),
                p.is_proportion(),
                forall|k: int| 0 <= k < prev_nums.len() ==> #[trigger] prev_nums[k] <= den,
                den * p.den <= u64::MAX,
            decreases prev_nums.len() - j,
        {
            proof {
                assert(prev_nums[j as int] * (p.den - p.num) <= den * p.den)
                    by (nonlinear_arith)
                    requires
                        prev_nums[j as int] <= den,
                        p.num <= p.den,
                        0 <= p.den,
                        0 <= prev_nums[j as int],
                ;
            }
            let v: u64 = ws[i - 1].nums[j] * (p.den - p.num);
            new_nums.push(v);
            j = j + 1;
        }
        proof {
            assert(den * p.num <= den * p.den) by (nonlinear_arith)
                requires p.num <= p.den, 0 <= den;
            assert(den * p.num >= 0) by (nonlinear_arith)
                requires 0 <= den, 0 <= p.num;
        }
        new_nums.push(den * p.num);
        proof {
            assert(int_seq(new_nums@) =~= spec_weight_nums(pseq, i as int));
        }
        ws.push(DensityWeights { nums: new_nums, den: new_den });
        i = i + 1;
    }
    Ok(ws)
}

} // verus!
