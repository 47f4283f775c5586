//! The population propagator: the Monte-Carlo counterpart of the density
//! composer.
//!
//! Each station holds a finite multiset of passenger positions. Moving to
//! the next station, a given number of passengers alight — modelled as a
//! uniformly random subset of the previous population, chosen without
//! replacement — and a freshly sampled boarding batch joins the rest. The
//! bookkeeping is exact: it fails, rather than clamps, when the data says
//! more passengers alight than are present.

use vstd::prelude::*;
use vstd::seq_lib::group_to_multiset_ensures;
use vstd::multiset::group_multiset_axioms;
use crate::mixture::BoardingData;
use crate::mixture::spec_boarding_concat;
use crate::mixture::sum_boarding_types;
use crate::errors::DataError;

verus! {

/// Relies on rand::Rng::gen_range with the range `0..n` on the thread-local
/// generator: it returns a value of the range and panics only when the
/// range is empty, which the precondition rules out. Nothing is assumed
/// about which value comes back.
#[verifier::external_body]
fn random_below(n: usize) -> (r: usize)
    requires
        0 < n,
    ensures
        r < n,
{
    rand::Rng::gen_range(&mut rand::thread_rng(), 0..n)
}

/// Copy a vector of positions.
fn copy_positions(xs: &Vec<u32>) -> (r: Vec<u32>)
    ensures
        r@ == xs@,
{
    let mut r: Vec<u32> = Vec::new();
    let mut i: usize = 0;
    while i < xs.len()
        invariant
            i <= xs@.len(),
            r@ == xs@.take(i as int),
        decreases xs@.len() - i,
    {
        r.push(xs[i]);
        proof {
            assert(xs@.take(i + 1) =~= xs@.take(i as int).push(xs@[i as int]));
        }
        i = i + 1;
    }
    proof {
        assert(xs@.take(xs@.len() as int) =~= xs@);
    }
    r
}

/// Draw `k` positions from `xs` uniformly at random, without replacement,
/// by a partial shuffle: what comes back is a size-`k` sub-multiset of `xs`.
pub fn draw_without_replacement(xs: &Vec<u32>, k: usize) -> (r: Vec<u32>)
    requires
        k <= xs@.len(),
    ensures
        r@.len() == k,
        r@.to_multiset().subset_of(xs@.to_multiset()),
{
    broadcast use group_to_multiset_ensures;
    broadcast use group_multiset_axioms;

    let mut pool = copy_positions(xs);
    let mut picked: Vec<u32> = Vec::new();
    let mut t: usize = 0;
    while t < k
        invariant
            t <= k,
            k <= xs@.len(),
            picked@.len() == t,
            pool@.len() == xs@.len() - t,
            picked@.to_multiset().add(pool@.to_multiset()) == xs@.to_multiset(),
        decreases k - t,
    {
        broadcast use group_to_multiset_ensures;
        broadcast use group_multiset_axioms;

        let j = random_below(pool.len());
        let ghost old_pool = pool@;
        let ghost old_picked = picked@;
        let v = pool.swap_remove(j);
        picked.push(v);
        proof {
            let u = old_pool.update(j as int, old_pool.last());
            assert(pool@ =~= u.drop_last());
            assert(u.drop_last() =~= u.remove(u.len() - 1));
            assert(u.last() == old_pool.last());
            assert(old_pool.contains(old_pool[j as int]));
            assert(old_pool.to_multiset().count(v) > 0);
            assert(pool@.to_multiset() =~= old_pool.to_multiset().remove(v));
            assert(picked@.to_multiset() =~= old_picked.to_multiset().insert(v));
            assert(picked@.to_multiset().add(pool@.to_multiset()) =~= old_picked.to_multiset().add(
                old_pool.to_multiset()));
        }
        t = t + 1;
    }
    proof {
        assert forall|v: u32| picked@.to_multiset().count(v) <= xs@.to_multiset().count(v) by {
            assert(picked@.to_multiset().add(pool@.to_multiset()).count(v)
                == picked@.to_multiset().count(v) + pool@.to_multiset().count(v));
        }
    }
    picked
}

/// One station's step of the propagation: the boarding batches drawn there,
/// how many passengers alighted, the continuing subset of the previous
/// population, and the whole resulting population.
#[derive(Clone, Debug)]
pub struct Accumulator {
    pub boarding_data: Vec<BoardingData>,
    pub n_passengers_alighting: i64,
    pub remaining_xs: Vec<u32>,
    pub all_xs: Vec<u32>,
}

/// Advance the population by one station: `n_alighting` passengers leave
/// `prev` (a uniformly random subset stays), and the station's boarding
/// batches join. Fails exactly when `n_alighting` is negative or exceeds
/// the passengers present, reporting both counts.
pub fn propagate_station(prev: &Vec<u32>, n_alighting: i64, boarding_data: Vec<BoardingData>)
    -> (r: Result<Accumulator, DataError>)
    ensures
        match r {
            Ok(acc) => {
                &&& 0 <= n_alighting <= prev@.len()
                &&& acc.boarding_data == boarding_data
                &&& acc.n_passengers_alighting == n_alighting
                &&& acc.remaining_xs@.len() == prev@.len() - n_alighting
                &&& acc.remaining_xs@.to_multiset().subset_of(prev@.to_multiset())
                &&& acc.all_xs@ == acc.remaining_xs@ + spec_boarding_concat(boarding_data@)
                &&& acc.all_xs@.len() == acc.remaining_xs@.len() + spec_boarding_concat(
                    boarding_data@).len()
            },
            Err(e) => {
                &&& !(0 <= n_alighting <= prev@.len())
                &&& e.present == prev@.len()
                &&& e.alighting == n_alighting
            },
        },
{
    if n_alighting < 0 || n_alighting as u64 > prev.len() as u64 {
        return Err(DataError { present: prev.len() as u64, alighting: n_alighting });
    }
    let n_alighting_count: usize = n_alighting as usize;
    let n_remaining: usize = prev.len() - n_alighting_count;
    let remaining = draw_without_replacement(prev, n_remaining);
    let mut all = copy_positions(&remaining);
    let mut batch = sum_boarding_types(&boarding_data);
    all.append(&mut batch);
    Ok(Accumulator {
        boarding_data,
        n_passengers_alighting: n_alighting,
        remaining_xs: remaining,
        all_xs: all,
    })
}

/// Size of the population after station `i`, by the count recurrence: what
/// was there before, less the alighting count, plus the boarding batch.
pub open spec fn spec_population_len(
    batches: Seq<Vec<BoardingData>>,
    alights: Seq<i64>,
    i: int,
) -> int
    decreases i + 1,
{
    if i < 0 {
        0
    } else {
        spec_population_len(batches, alights, i - 1) - alights[i] + spec_boarding_concat(
            batches[i]@).len()
    }
}

/// The alighting count at station `i` is consistent with what is aboard.
pub open spec fn spec_step_ok(batches: Seq<Vec<BoardingData>>, alights: Seq<i64>, i: int) -> bool {
    0 <= alights[i] <= spec_population_len(batches, alights, i - 1)
}

/// Propagate a population along the whole line: station 0's population is
/// its boarding batch alone, and every later station applies
/// `propagate_station` to its predecessor's population. Fails exactly at
/// the first station whose alighting count is inconsistent.
#[verifier::loop_isolation(false)]
pub fn propagate_line(batches: Vec<Vec<BoardingData>>, alightings: &Vec<i64>)
    -> (r: Result<Vec<Accumulator>, DataError>)
    requires
        batches@.len() == alightings@.len(),
    ensures
        match r {
            Ok(accs) => {
                &&& accs@.len() == batches@.len()
                &&& forall|i: int| 0 <= i < accs@.len()
                    ==> spec_step_ok(batches@, alightings@, i)
                &&& forall|i: int| 0 <= i < accs@.len()
                    ==> (#[trigger] accs@[i]).all_xs@.len() == spec_population_len(
                        batches@, alightings@, i)
                &&& forall|i: int| 0 <= i < accs@.len()
                    ==> (#[trigger] accs@[i]).boarding_data == batches@[i]
                &&& forall|i: int| 0 <= i < accs@.len()
                    ==> (#[trigger] accs@[i]).n_passengers_alighting == alightings@[i]
                &&& forall|i: int| 0 <= i < accs@.len()
                    ==> (#[trigger] accs@[i]).all_xs@ == accs@[i].remaining_xs@
                        + spec_boarding_concat(batches@[i]@)
                &&& forall|i: int| 1 <= i < accs@.len()
                    ==> (#[trigger] accs@[i]).remaining_xs@.to_multiset().subset_of(
                        accs@[i - 1].all_xs@.to_multiset())
            },
            Err(e) => exists|i: int| {
                &&& 0 <= i < batches@.len()
                &&& !(#[trigger] spec_step_ok(batches@, alightings@, i))
                &&& (forall|j: int| 0 <= j < i ==> spec_step_ok(batches@, alightings@, j))
                &&& e.alighting == alightings@[i]
                &&& e.present == spec_population_len(batches@, alightings@, i - 1)
            },
        },
{
    let ghost bseq = batches@;
    let ghost aseq = alightings@;
    let n = batches.len();
    let empty: Vec<u32> = Vec::new();
    let mut rest = batches;
    let mut accs: Vec<Accumulator> = Vec::new();
    let mut i: usize = 0;
    while i < n
        invariant
            i <= n,
            n == bseq.len(),
            aseq.len() == bseq.len(),
            alightings@ == aseq,
            rest@ == bseq.skip(i as int),
            empty@.len() == 0,
            accs@.len() == i,
            forall|j: int| 0 <= j < i ==> spec_step_ok(bseq, aseq, j),
            forall|j: int| 0 <= j < i
                ==> (#[trigger] accs@[j]).all_xs@.len() == spec_population_len(bseq, aseq, j),
            forall|j: int| 0 <= j < i ==> (#[trigger] accs@[j]).boarding_data == bseq[j],
            forall|j: int| 0 <= j < i
                ==> (#[trigger] accs@[j]).n_passengers_alighting == aseq[j],
            forall|j: int| 0 <= j < i
                ==> (#[trigger] accs@[j]).all_xs@ == accs@[j].remaining_xs@
                    + spec_boarding_concat(bseq[j]@),
            forall|j: int| 1 <= j < i
                ==> (#[trigger] accs@[j]).remaining_xs@.to_multiset().subset_of(
                    accs@[j - 1].all_xs@.to_multiset()),
        decreases n - i,
    {
        let batch = rest.remove(0);
        proof {
            assert(batch == bseq[i as int]);
            assert(rest@ =~= bseq.skip(i + 1));
        }
        let step = if i == 0 {
            propagate_station(&empty, alightings[i], batch)
        } else {
            propagate_station(&accs[i - 1].all_xs, alightings[i], batch)
        };
        proof {
            if i == 0 {
                assert(spec_population_len(bseq, aseq, -1) == 0);
            } else {
                assert(accs@[i - 1].all_xs@.len() == spec_population_len(bseq, aseq, i - 1));
            }
        }
        match step {
            Ok(acc) => {
                proof {
                    assert(spec_step_ok(bseq, aseq, i as int));
                    assert(acc.all_xs@.len() == spec_population_len(bseq, aseq, i as int));
                }
                accs.push(acc);
            },
            Err(e) => {
                proof {
                    let gi = i as int;
                    assert(!spec_step_ok(bseq, aseq, gi));
                    assert(e.alighting == aseq[gi]);
                    assert(e.present == spec_population_len(bseq, aseq, gi - 1));
                    assert(exists|ii: int| {
                        &&& 0 <= ii < bseq.len()
                        &&& !(#[trigger] spec_step_ok(bseq, aseq, ii))
                        &&& (forall|j: int| 0 <= j < ii ==> spec_step_ok(bseq, aseq, j))
                        &&& e.alighting == aseq[ii]
                        &&& e.present == spec_population_len(bseq, aseq, ii - 1)
                    });
                }
                return Err(e);
            },
        }
        i = i + 1;
    }
    Ok(accs)
}

} // verus!
