//! The stair mixture model.
//!
//! A platform runs from position 0 to position 100; the library holds
//! positions in integer thousandths, so the platform spans `0..=POS_MAX`.
//! Each stair yields a three-part mixture: a wide ("far") and a narrow
//! ("close") Beta-shaped component centred at the stair, and a uniform
//! baseline, weighted 0.6 / 0.3 / 0.1. The Beta components are parameterized
//! by mode and concentration; this module computes the resulting shape
//! parameters exactly as ratios, and splits a sample budget into the three
//! per-component batch sizes.

use vstd::prelude::*;
use crate::ratio::Ratio;

verus! {

/// Number of position units per platform-scale point.
pub const POS_SCALE: u32 = 1000;

/// Platform end position: 100 points, in thousandths.
pub const POS_MAX: u32 = 100 * POS_SCALE;

/// Where a stair at or below platform position 0 is clamped to (0.01 points).
pub const CLAMP_LOW: u32 = 10;

/// Where a stair at or beyond platform position 100 is clamped to (99.9 points).
pub const CLAMP_HIGH: u32 = 99_900;

/// Concentration of the wide boarding component.
pub const FAR_CONCENTRATION: u32 = 7;

/// Concentration of the narrow boarding component.
pub const CLOSE_CONCENTRATION: u32 = 20;

/// Stairs of one station, in platform order.
#[derive(Clone, Debug)]
pub struct StationStairs {
    pub station_name: String,
    /// Stair positions in thousandths of a platform point.
    pub stair_locations: Vec<u32>,
}

impl StationStairs {
    /// Every stair position lies on the platform.
    pub open spec fn wf(self) -> bool {
        forall|i: int|
            0 <= i < self.stair_locations@.len() ==> self.stair_locations@[i] <= POS_MAX
    }
}

/// What `clamp` maps a raw position to.
pub open spec fn spec_clamp(x: int) -> int {
    if x <= 0 {
        CLAMP_LOW as int
    } else if x >= POS_MAX {
        CLAMP_HIGH as int
    } else {
        x
    }
}

/// Clamp a raw stair position into the open platform interval, so that a
/// stair at either platform end still yields a valid mixture mode.
pub fn clamp(x: i64) -> (r: u32)
    ensures
        r == spec_clamp(x as int),
        0 < r < POS_MAX,
{
    if x <= 0 {
        CLAMP_LOW
    } else if x >= POS_MAX as i64 {
        CLAMP_HIGH
    } else {
        x as u32
    }
}

/// Clamp a sampled position into the closed platform interval.
pub fn clamp_sample(x: i64) -> (r: u32)
    ensures
        x < 0 ==> r == 0,
        x > POS_MAX ==> r == POS_MAX,
        0 <= x <= POS_MAX ==> r == x,
        r <= POS_MAX,
{
    if x < 0 {
        0
    } else if x > POS_MAX as i64 {
        POS_MAX
    } else {
        x as u32
    }
}

/// Shape parameters of one Beta-like component, as exact ratios.
#[derive(Clone, Copy, Debug, PartialEq, Eq, Structural)]
pub struct BetaShape {
    pub alpha: Ratio,
    pub beta: Ratio,
}

impl BetaShape {
    /// Both shape parameters are positive ratios.
    pub open spec fn wf(self) -> bool {
        self.alpha.wf() && self.beta.wf() && self.alpha.num >= 1 && self.beta.num >= 1
    }
}

/// Shape parameters of a mode-and-concentration Beta: `alpha` is
/// `mode * (concentration - 2) + 1` and `beta` is `concentration - alpha`,
/// with the mode equal to `stair / POS_MAX`.
pub fn beta_params(stair: u32, concentration: u32) -> (s: BetaShape)
    requires
        0 < stair < POS_MAX,
        concentration >= 2,
    ensures
        s.alpha.den == POS_MAX && s.beta.den == POS_MAX,
        s.alpha.num == stair * (concentration - 2) + POS_MAX,
        s.beta.num == (POS_MAX - stair) * (concentration - 2) + POS_MAX,
        s.alpha.num + s.beta.num == concentration * POS_MAX,
        s.wf(),
{
    let c2: u64 = (concentration - 2) as u64;
    proof {
        assert((stair as u64) * c2 <= 100_000u64 * 0xFFFF_FFFFu64) by (nonlinear_arith)
            requires
                stair as u64 <= 100_000u64,
                c2 <= 0xFFFF_FFFFu64,
        ;
        assert(((POS_MAX - stair) as u64) * c2 <= 100_000u64 * 0xFFFF_FFFFu64)
            by (nonlinear_arith)
            requires
                (POS_MAX - stair) as u64 <= 100_000u64,
                c2 <= 0xFFFF_FFFFu64,
        ;
    }
    let alpha_num: u64 = (stair as u64) * c2 + POS_MAX as u64;
    let beta_num: u64 = ((POS_MAX - stair) as u64) * c2 + POS_MAX as u64;
    proof {
        assert(stair * (concentration - 2) + (POS_MAX - stair) * (concentration - 2)
            == POS_MAX * (concentration - 2)) by (nonlinear_arith);
        assert(POS_MAX * (concentration - 2) + 2 * POS_MAX == concentration * POS_MAX)
            by (nonlinear_arith);
    }
    BetaShape {
        alpha: Ratio { num: alpha_num, den: POS_MAX as u64 },
        beta: Ratio { num: beta_num, den: POS_MAX as u64 },
    }
}

/// The two Beta-shaped components of one stair's mixture; the third
/// component is uniform over the platform and needs no parameters.
#[derive(Clone, Copy, Debug, PartialEq, Eq, Structural)]
pub struct StairMixture {
    /// Clamped stair position the mixture is centred at, in thousandths.
    pub mode_pos: u32,
    pub far: BetaShape,
    pub close: BetaShape,
}

/// Build the mixture parameters for one stair. The raw position may lie at
/// or beyond either platform end; it is clamped first, so every input yields
/// well-formed shape parameters.
pub fn stair_mixture(stair: i64) -> (m: StairMixture)
    ensures
        m.mode_pos == spec_clamp(stair as int),
        0 < m.mode_pos < POS_MAX,
        m.far == spec_beta_shape(m.mode_pos as int, FAR_CONCENTRATION as int),
        m.close == spec_beta_shape(m.mode_pos as int, CLOSE_CONCENTRATION as int),
        m.far.wf() && m.close.wf(),
{
    let pos = clamp(stair);
    StairMixture {
        mode_pos: pos,
        far: beta_params(pos, FAR_CONCENTRATION),
        close: beta_params(pos, CLOSE_CONCENTRATION),
    }
}

/// The mixture parameters of every stair of one station, in stair order.
pub fn station_mixtures(station: &StationStairs) -> (r: Vec<StairMixture>)
    ensures
        r@.len() == station.stair_locations@.len(),
        forall|i: int| 0 <= i < r@.len() ==> (#[trigger] r@[i]).mode_pos == spec_clamp(
            station.stair_locations@[i] as int),
        forall|i: int| 0 <= i < r@.len() ==> (#[trigger] r@[i]).far == spec_beta_shape(
            r@[i].mode_pos as int, FAR_CONCENTRATION as int),
        forall|i: int| 0 <= i < r@.len() ==> (#[trigger] r@[i]).close == spec_beta_shape(
            r@[i].mode_pos as int, CLOSE_CONCENTRATION as int),
{
    let mut r: Vec<StairMixture> = Vec::new();
    let mut i: usize = 0;
    while i < station.stair_locations.len()
        invariant
            i <= station.stair_locations@.len(),
            r@.len() == i,
            forall|k: int| 0 <= k < i ==> (#[trigger] r@[k]).mode_pos == spec_clamp(
                station.stair_locations@[k] as int),
            forall|k: int| 0 <= k < i ==> (#[trigger] r@[k]).far == spec_beta_shape(
                r@[k].mode_pos as int, FAR_CONCENTRATION as int),
            forall|k: int| 0 <= k < i ==> (#[trigger] r@[k]).close == spec_beta_shape(
                r@[k].mode_pos as int, CLOSE_CONCENTRATION as int),
        decreases station.stair_locations@.len() - i,
    {
        r.push(stair_mixture(station.stair_locations[i] as i64));
        i = i + 1;
    }
    r
}

/// The shape parameters `beta_params` computes, as a spec-level value.
pub open spec fn spec_beta_shape(stair: int, concentration: int) -> BetaShape {
    BetaShape {
        alpha: Ratio {
            num: (stair * (concentration - 2) + POS_MAX) as u64,
            den: POS_MAX as u64,
        },
        beta: Ratio {
            num: ((POS_MAX - stair) * (concentration - 2) + POS_MAX) as u64,
            den: POS_MAX as u64,
        },
    }
}

/// Rounded `k` tenths of `n`: `round(n * k / 10)` with half rounded up.
pub open spec fn spec_round_tenths(k: int, n: int) -> int {
    (k * n + 5) / 10
}

/// Split a per-stair sample budget into the far, close and uniform batch
/// sizes, in the fixed mixture weights 0.6, 0.3 and 0.1 (each rounded).
pub fn batch_split(n: u32) -> (r: (u32, u32, u32))
    ensures
        r.0 == spec_round_tenths(6, n as int),
        r.1 == spec_round_tenths(3, n as int),
        r.2 == spec_round_tenths(1, n as int),
{
    let far: u64 = (6 * n as u64 + 5) / 10;
    let close: u64 = (3 * n as u64 + 5) / 10;
    let uniform: u64 = (n as u64 + 5) / 10;
    (far as u32, close as u32, uniform as u32)
}

/// Sampled boarding positions at one stair, one vector per mixture
/// component, in thousandths of a platform point.
#[derive(Clone, Debug)]
pub struct BoardingData {
    pub stair_location: u32,
    pub beta_far: Vec<u32>,
    pub beta_close: Vec<u32>,
    pub uniform: Vec<u32>,
}

impl BoardingData {
    /// The three component batches of one stair, in order.
    pub open spec fn all_samples(self) -> Seq<u32> {
        self.beta_far@ + self.beta_close@ + self.uniform@
    }
}

/// The boarding samples of a whole station: every stair's three batches,
/// concatenated in stair order.
pub open spec fn spec_boarding_concat(bds: Seq<BoardingData>) -> Seq<u32>
    decreases bds.len(),
{
    if bds.len() == 0 {
        Seq::empty()
    } else {
        spec_boarding_concat(bds.drop_last()) + bds.last().all_samples()
    }
}

/// Flatten the per-stair boarding batches of one station into a single
/// vector of positions.
pub fn sum_boarding_types(boarding: &Vec<BoardingData>) -> (r: Vec<u32>)
    ensures
        r@ == spec_boarding_concat(boarding@),
{
    let mut acc: Vec<u32> = Vec::new();
    let mut i: usize = 0;
    while i < boarding.len()
        invariant
            i <= boarding@.len(),
            acc@ == spec_boarding_concat(boarding@.take(i as int)),
        decreases boarding@.len() - i,
    {
        let bd = &boarding[i];
        let mut j: usize = 0;
        while j < bd.beta_far.len()
            invariant
                j <= bd.beta_far@.len(),
                acc@ == spec_boarding_concat(boarding@.take(i as int))
                    + bd.beta_far@.take(j as int),
            decreases bd.beta_far@.len() - j,
        {
            acc.push(bd.beta_far[j]);
            proof {
                assert(bd.beta_far@.take(j + 1) =~= bd.beta_far@.take(j as int).push(
                    bd.beta_far@[j as int]));
            }
            j = j + 1;
        }
        proof {
            assert(bd.beta_far@.take(bd.beta_far@.len() as int) =~= bd.beta_far@);
        }
        let mut j: usize = 0;
        while j < bd.beta_close.len()
            invariant
                j <= bd.beta_close@.len(),
                acc@ == spec_boarding_concat(boarding@.take(i as int)) + bd.beta_far@
                    + bd.beta_close@.take(j as int),
            decreases bd.beta_close@.len() - j,
        {
            acc.push(bd.beta_close[j]);
            proof {
                assert(bd.beta_close@.take(j + 1) =~= bd.beta_close@.take(j as int).push(
                    bd.beta_close@[j as int]));
            }
            j = j + 1;
        }
        proof {
            assert(bd.beta_close@.take(bd.beta_close@.len() as int) =~= bd.beta_close@);
        }
        let mut j: usize = 0;
        while j < bd.uniform.len()
            invariant
                j <= bd.uniform@.len(),
                acc@ == spec_boarding_concat(boarding@.take(i as int)) + bd.beta_far@
                    + bd.beta_close@ + bd.uniform@.take(j as int),
            decreases bd.uniform@.len() - j,
        {
            acc.push(bd.uniform[j]);
            proof {
                assert(bd.uniform@.take(j + 1) =~= bd.uniform@.take(j as int).push(
                    bd.uniform@[j as int]));
            }
            j = j + 1;
        }
        proof {
            assert(bd.uniform@.take(bd.uniform@.len() as int) =~= bd.uniform@);
            assert(boarding@.take(i + 1).drop_last() =~= boarding@.take(i as int));
            assert(boarding@.take(i + 1).last() == boarding@[i as int]);
            assert(acc@ =~= spec_boarding_concat(boarding@.take(i + 1)));
        }
        i = i + 1;
    }
    proof {
        assert(boarding@.take(boarding@.len() as int) =~= boarding@);
    }
    acc
}

} // verus!
