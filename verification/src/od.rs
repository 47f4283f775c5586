//! Origin-destination passenger counts.
//!
//! The OD table gives, for pairs of stations, how many passengers travel
//! from one to the other. Only rows whose `stations` column is the empty
//! list marker count; a pair may be recorded in either orientation, and an
//! absent pair means zero passengers. From the table the module derives,
//! per station: how many passengers alight there, how many board there, and
//! which fraction of those aboard after the station just boarded — the
//! boarding proportion that drives the density composer.

use vstd::prelude::*;
use crate::ratio::Ratio;

verus! {

/// One row of the origin-destination table.
#[derive(Clone, Debug)]
pub struct OdRow {
    pub index: i32,
    pub from_station_code: String,
    pub to_station_code: String,
    pub count: i64,
    pub stations: Vec<String>,
}

/// The names of a station list, as character sequences.
pub open spec fn stations_view(stations: Seq<&str>) -> Seq<Seq<char>> {
    stations.map_values(|s: &str| s@)
}

/// Whether a row records the station pair `{from, to}` (in either
/// orientation) with the empty intermediate-station marker.
pub open spec fn od_pair_matches(row: OdRow, from: Seq<char>, to: Seq<char>) -> bool {
    &&& row.stations@.len() == 1
    &&& row.stations@[0]@ == "[]"@
    &&& ((row.from_station_code@ == from && row.to_station_code@ == to)
        || (row.to_station_code@ == from && row.from_station_code@ == to))
}

/// Count of the first row from index `i` on that records `{from, to}`, or
/// zero when none does.
pub open spec fn od_count_from(rows: Seq<OdRow>, i: int, from: Seq<char>, to: Seq<char>) -> int
    decreases rows.len() - i,
{
    if i < 0 || i >= rows.len() {
        0
    } else if od_pair_matches(rows[i], from, to) {
        rows[i].count as int
    } else {
        od_count_from(rows, i + 1, from, to)
    }
}

/// Passengers recorded travelling between `from` and `to`: the count of
/// the first matching row, or zero when the pair is absent.
pub open spec fn od_count(rows: Seq<OdRow>, from: Seq<char>, to: Seq<char>) -> int {
    od_count_from(rows, 0, from, to)
}

/// Every row's count is nonnegative.
pub open spec fn od_counts_nonneg(rows: Seq<OdRow>) -> bool {
    forall|r: int| 0 <= r < rows.len() ==> (#[trigger] rows[r]).count >= 0
}

/// A pair count is nonnegative when every row's count is.
pub proof fn lemma_od_count_nonneg(rows: Seq<OdRow>, i: int, from: Seq<char>, to: Seq<char>)
    requires
        od_counts_nonneg(rows),
    ensures
        od_count_from(rows, i, from, to) >= 0,
    decreases rows.len() - i,
{
    if 0 <= i < rows.len() && !od_pair_matches(rows[i], from, to) {
        lemma_od_count_nonneg(rows, i + 1, from, to);
    }
}

/// Look up the count for `{from, to}`: the count of the first matching row,
/// or zero when the pair is absent.
pub fn od_count_lookup(rows: &[OdRow], from: &str, to: &str) -> (r: i64)
    ensures
        r as int == od_count(rows@, from@, to@),
{
    let marker: String = "[]".to_owned();
    let from_s: String = from.to_owned();
    let to_s: String = to.to_owned();
    let mut i: usize = 0;
    while i < rows.len()
        invariant
            i <= rows@.len(),
            od_count_from(rows@, 0, from@, to@) == od_count_from(rows@, i as int, from@, to@),
            marker@ == "[]"@,
            from_s@ == from@,
            to_s@ == to@,
        decreases rows@.len() - i,
    {
        let row = &rows[i];
        let has_marker = row.stations.len() == 1 && row.stations[0] == marker;
        let forward = row.from_station_code == from_s && row.to_station_code == to_s;
        let reverse = row.to_station_code == from_s && row.from_station_code == to_s;
        if has_marker && (forward || reverse) {
            proof {
                assert(od_pair_matches(rows@[i as int], from@, to@));
            }
            return row.count;
        }
        proof {
            assert(!od_pair_matches(rows@[i as int], from@, to@));
        }
        i = i + 1;
    }
    0
}

/// Column `idx` of row `f` after the row is reversed and zero-padded on
/// the right.
pub open spec fn padded_at(xs: Seq<Vec<i64>>, f: int, idx: int) -> int {
    if idx < xs[f]@.len() {
        xs[f]@[xs[f]@.len() - 1 - idx] as int
    } else {
        0
    }
}

/// Sum of column `idx` over the first `f_end` reversed-and-padded rows.
pub open spec fn col_sum(xs: Seq<Vec<i64>>, idx: int, f_end: int) -> int
    decreases f_end,
{
    if f_end <= 0 {
        0
    } else {
        col_sum(xs, idx, f_end - 1) + padded_at(xs, f_end - 1, idx)
    }
}

/// Every element of every row is nonnegative.
pub open spec fn all_counts_nonneg(xs: Seq<Vec<i64>>) -> bool {
    forall|f: int, k: int|
        0 <= f < xs.len() && 0 <= k < xs[f]@.len() ==> (#[trigger] xs[f]@[k]) >= 0
}

/// Column sums of nonnegative rows are nonnegative and grow with the
/// number of rows taken.
pub proof fn lemma_col_sum_mono(xs: Seq<Vec<i64>>, idx: int, a: int, b: int)
    requires
        all_counts_nonneg(xs),
        0 <= idx,
        0 <= a <= b <= xs.len(),
    ensures
        0 <= col_sum(xs, idx, a) <= col_sum(xs, idx, b),
    decreases b,
{
    if b > 0 {
        if a == b {
            lemma_col_sum_mono(xs, idx, a - 1, b - 1);
        } else {
            lemma_col_sum_mono(xs, idx, a, b - 1);
        }
    }
}

/// Sum the columns of the reversed-and-padded rows, widest row first:
/// entry `j` of the result is the sum of column `max_i - 1 - j`. Fed the
/// per-origin destination counts of an OD table, where row `f` lists the
/// counts towards stations `f+1, f+2, ...`, this yields, in station order,
/// the total passengers alighting at stations `1, 2, ...`.
#[verifier::loop_isolation(false)]
pub fn transpose_sum(max_i: usize, xs: &[Vec<i64>]) -> (r: Vec<i64>)
    requires
        all_counts_nonneg(xs@),
        forall|idx: int| 0 <= idx < max_i
            ==> #[trigger] col_sum(xs@, idx, xs@.len() as int) <= i64::MAX,
    ensures
        r@.len() == max_i,
        forall|j: int| 0 <= j < max_i
            ==> #[trigger] r@[j] == col_sum(xs@, max_i - 1 - j, xs@.len() as int),
{
    let mut out: Vec<i64> = Vec::new();
    let mut j: usize = 0;
    while j < max_i
        invariant
            j <= max_i,
            out@.len() == j,
            forall|q: int| 0 <= q < j
                ==> #[trigger] out@[q] == col_sum(xs@, max_i - 1 - q, xs@.len() as int),
        decreases max_i - j,
    {
        let idx = max_i - 1 - j;
        let mut s: i64 = 0;
        let mut f: usize = 0;
        while f < xs.len()
            invariant
                f <= xs@.len(),
                s == col_sum(xs@, idx as int, f as int),
            decreases xs@.len() - f,
        {
            proof {
                lemma_col_sum_mono(xs@, idx as int, f as int, f + 1);
                lemma_col_sum_mono(xs@, idx as int, f + 1, xs@.len() as int);
            }
            let row = &xs[f];
            if idx < row.len() {
                let pos = row.len() - 1 - idx;
                s = s + row[pos];
            }
            f = f + 1;
        }
        out.push(s);
        j = j + 1;
    }
    out
}

/// Passengers alighting at station `t` who boarded at one of the first
/// `f_end` stations.
pub open spec fn alight_sum(rows: Seq<OdRow>, st: Seq<Seq<char>>, f_end: int, t: int) -> int
    decreases f_end,
{
    if f_end <= 0 {
        0
    } else {
        alight_sum(rows, st, f_end - 1, t) + od_count(rows, st[f_end - 1], st[t])
    }
}

/// Total passengers alighting at station `t`: everyone travelling there
/// from an earlier station.
pub open spec fn alighting_at(rows: Seq<OdRow>, st: Seq<Seq<char>>, t: int) -> int {
    alight_sum(rows, st, t, t)
}

/// Summing a column of the per-origin count rows totals the passengers
/// alighting at one station: column `idx` collects, from every origin
/// before it, the count towards station `len - 1 - idx`.
proof fn lemma_col_sum_is_alight(
    xs: Seq<Vec<i64>>,
    rows: Seq<OdRow>,
    st: Seq<Seq<char>>,
    idx: int,
    f_end: int,
)
    requires
        xs.len() == st.len(),
        forall|f: int| 0 <= f < xs.len() ==> (#[trigger] xs[f]@).len() == xs.len() - 1 - f,
        forall|f: int, k: int| 0 <= f < xs.len() && 0 <= k < xs[f]@.len()
            ==> (#[trigger] xs[f]@[k]) == od_count(rows, st[f], st[f + 1 + k]),
        0 <= idx < xs.len() - 1,
        0 <= f_end <= xs.len(),
    ensures
        col_sum(xs, idx, f_end) == alight_sum(
            rows,
            st,
            if f_end <= xs.len() - 1 - idx { f_end } else { xs.len() - 1 - idx },
            xs.len() - 1 - idx,
        ),
    decreases f_end,
{
    if f_end > 0 {
        lemma_col_sum_is_alight(xs, rows, st, idx, f_end - 1);
        let t = xs.len() - 1 - idx;
        let f = f_end - 1;
        if f < t {
            assert(xs[f]@.len() == xs.len() - 1 - f);
            assert(idx < xs[f]@.len());
            assert(padded_at(xs, f, idx) == xs[f]@[xs[f]@.len() - 1 - idx]);
            assert(f + 1 + (xs[f]@.len() - 1 - idx) == t);
            assert(padded_at(xs, f, idx) == od_count(rows, st[f], st[t]));
        } else {
            assert(idx >= xs[f]@.len());
            assert(padded_at(xs, f, idx) == 0);
        }
    }
}

/// Per-station alighting totals of an OD table: entry 0 is zero (nobody
/// alights at the first station) and entry `t` is the number of passengers
/// travelling from any earlier station to station `t`.
#[verifier::loop_isolation(false)]
pub fn parse_od(od_pairs: &[OdRow], stations: &[&str]) -> (r: Vec<i64>)
    requires
        stations@.len() >= 1,
        od_counts_nonneg(od_pairs@),
        forall|t: int| 1 <= t < stations@.len()
            ==> #[trigger] alighting_at(od_pairs@, stations_view(stations@), t) <= i64::MAX,
    ensures
        r@.len() == stations@.len(),
        r@[0] == 0,
        forall|t: int| 1 <= t < stations@.len()
            ==> #[trigger] r@[t] == alighting_at(od_pairs@, stations_view(stations@), t),
{
    let n = stations.len();
    let ghost st = stations_view(stations@);
    proof {
        assert(forall|f: int| 0 <= f < n ==> st[f] == (#[trigger] stations@[f])@);
    }
    // counts from every station to every later station in line order
    let mut xs: Vec<Vec<i64>> = Vec::new();
    let mut f: usize = 0;
    while f < n
        invariant
            f <= n,
            xs@.len() == f,
            forall|g: int| 0 <= g < f ==> (#[trigger] xs@[g]@).len() == n - 1 - g,
            forall|g: int, k: int| 0 <= g < f && 0 <= k < xs@[g]@.len()
                ==> (#[trigger] xs@[g]@[k]) == od_count(od_pairs@, st[g], st[g + 1 + k]),
        decreases n - f,
    {
        let mut row_counts: Vec<i64> = Vec::new();
        let mut t: usize = f + 1;
        while t < n
            invariant
                f + 1 <= t <= n,
                row_counts@.len() == t - f - 1,
                forall|k: int| 0 <= k < row_counts@.len()
                    ==> (#[trigger] row_counts@[k]) == od_count(od_pairs@, st[f as int],
                        st[f + 1 + k]),
            decreases n - t,
        {
            row_counts.push(od_count_lookup(od_pairs, stations[f], stations[t]));
            t = t + 1;
        }
        xs.push(row_counts);
        f = f + 1;
    }
    // one count per ordered pair: origin `g`'s row covers exactly the
    // stations after it
    assert(xs@.len() == stations@.len());
    assert(forall|g: int| 0 <= g < xs@.len() ==> (#[trigger] xs@[g]@).len() == n - 1 - g);
    proof {
        assert forall|g: int, k: int| 0 <= g < xs@.len() && 0 <= k < xs@[g]@.len()
            implies (#[trigger] xs@[g]@[k]) >= 0 by {
            lemma_od_count_nonneg(od_pairs@, 0, st[g], st[g + 1 + k]);
        }
        assert(all_counts_nonneg(xs@));
        assert forall|idx: int| 0 <= idx < n - 1
            implies #[trigger] col_sum(xs@, idx, xs@.len() as int) <= i64::MAX by {
            lemma_col_sum_is_alight(xs@, od_pairs@, st, idx, n as int);
            assert(col_sum(xs@, idx, n as int) == alighting_at(od_pairs@, st, n - 1 - idx));
        }
    }
    let transposed = transpose_sum(n - 1, &xs);
    let mut r: Vec<i64> = Vec::new();
    r.push(0);
    let mut rest = transposed;
    r.append(&mut rest);
    proof {
        assert forall|t: int| 1 <= t < n
            implies #[trigger] r@[t] == alighting_at(od_pairs@, st, t) by {
            let idx = n - 1 - t;
            lemma_col_sum_is_alight(xs@, od_pairs@, st, idx, n as int);
            assert(r@[t] == col_sum(xs@, idx, n as int));
        }
    }
    r
}

/// Passengers who boarded at station `f` and are still aboard when the
/// train leaves station `i`: their destinations lie after `i` (counted up
/// to `t_end`).
pub open spec fn span_sum(rows: Seq<OdRow>, st: Seq<Seq<char>>, f: int, i: int, t_end: int) -> int
    decreases t_end - i,
{
    if t_end <= i + 1 {
        0
    } else {
        span_sum(rows, st, f, i, t_end - 1) + od_count(rows, st[f], st[t_end - 1])
    }
}

/// Passengers boarding at station `i`: those travelling to any later one.
pub open spec fn boarding_at(rows: Seq<OdRow>, st: Seq<Seq<char>>, i: int) -> int {
    span_sum(rows, st, i, i, st.len() as int)
}

/// Passengers aboard when the train leaves station `i`, among those who
/// boarded at the first `f_end` stations.
pub open spec fn aboard_sum(rows: Seq<OdRow>, st: Seq<Seq<char>>, i: int, f_end: int) -> int
    decreases f_end,
{
    if f_end <= 0 {
        0
    } else {
        aboard_sum(rows, st, i, f_end - 1) + span_sum(rows, st, f_end - 1, i, st.len() as int)
    }
}

/// Everyone aboard when the train leaves station `i`.
pub open spec fn aboard_after(rows: Seq<OdRow>, st: Seq<Seq<char>>, i: int) -> int {
    aboard_sum(rows, st, i, i + 1)
}

/// The boarding proportion at station `i`: new boarders over everyone
/// aboard after the station, and zero when nobody is aboard.
pub open spec fn spec_od_proportion(rows: Seq<OdRow>, st: Seq<Seq<char>>, i: int) -> Ratio {
    let b = boarding_at(rows, st, i);
    let d = aboard_after(rows, st, i);
    if d > 0 {
        Ratio { num: b as u64, den: d as u64 }
    } else {
        Ratio { num: 0u64, den: 1u64 }
    }
}

/// Span sums of nonnegative counts are nonnegative.
pub proof fn lemma_span_nonneg(rows: Seq<OdRow>, st: Seq<Seq<char>>, f: int, i: int, t_end: int)
    requires
        od_counts_nonneg(rows),
    ensures
        0 <= span_sum(rows, st, f, i, t_end),
    decreases t_end - i,
{
    if t_end > i + 1 {
        lemma_span_nonneg(rows, st, f, i, t_end - 1);
        lemma_od_count_nonneg(rows, 0, st[f], st[t_end - 1]);
    }
}

/// Span sums of nonnegative counts grow with `t_end`.
pub proof fn lemma_span_mono(
    rows: Seq<OdRow>,
    st: Seq<Seq<char>>,
    f: int,
    i: int,
    a: int,
    b: int,
)
    requires
        od_counts_nonneg(rows),
        a <= b,
    ensures
        0 <= span_sum(rows, st, f, i, a) <= span_sum(rows, st, f, i, b),
    decreases b - a,
{
    if a == b {
        lemma_span_nonneg(rows, st, f, i, a);
    } else {
        lemma_span_mono(rows, st, f, i, a, b - 1);
        if b > i + 1 {
            lemma_od_count_nonneg(rows, 0, st[f], st[b - 1]);
        }
    }
}

/// Aboard sums of nonnegative counts are nonnegative and grow with `f_end`.
pub proof fn lemma_aboard_mono(rows: Seq<OdRow>, st: Seq<Seq<char>>, i: int, a: int, b: int)
    requires
        od_counts_nonneg(rows),
        a <= b,
    ensures
        0 <= aboard_sum(rows, st, i, a) <= aboard_sum(rows, st, i, b),
    decreases b - a, b,
{
    if b <= 0 {
    } else if a == b {
        lemma_aboard_mono(rows, st, i, a - 1, b - 1);
        lemma_span_nonneg(rows, st, b - 1, i, st.len() as int);
    } else {
        lemma_aboard_mono(rows, st, i, a, b - 1);
        lemma_span_nonneg(rows, st, b - 1, i, st.len() as int);
    }
}

/// One origin's still-aboard count is at most the whole aboard sum that
/// includes it.
pub proof fn lemma_span_le_aboard(rows: Seq<OdRow>, st: Seq<Seq<char>>, i: int, f: int, f_end: int)
    requires
        od_counts_nonneg(rows),
        0 <= f < f_end,
    ensures
        span_sum(rows, st, f, i, st.len() as int) <= aboard_sum(rows, st, i, f_end),
    decreases f_end,
{
    if f == f_end - 1 {
        lemma_aboard_mono(rows, st, i, 0, f_end - 1);
    } else {
        lemma_span_le_aboard(rows, st, i, f, f_end - 1);
        lemma_span_nonneg(rows, st, f_end - 1, i, st.len() as int);
    }
}

/// Law: every OD-derived boarding proportion lies in the unit interval —
/// the new boarders are among those aboard after the station.
pub proof fn lemma_od_proportion_in_unit(rows: Seq<OdRow>, st: Seq<Seq<char>>, i: int)
    requires
        od_counts_nonneg(rows),
        0 <= i,
        aboard_after(rows, st, i) <= u64::MAX,
    ensures
        spec_od_proportion(rows, st, i).is_proportion(),
{
    lemma_span_nonneg(rows, st, i, i, st.len() as int);
    lemma_span_le_aboard(rows, st, i, i, i + 1);
}

/// Passengers boarding at `f` and still aboard when the train leaves `i`.
#[verifier::loop_isolation(false)]
fn span_lookup(od_pairs: &[OdRow], stations: &[&str], f: usize, i: usize) -> (s: i64)
    requires
        f <= i < stations@.len(),
        od_counts_nonneg(od_pairs@),
        span_sum(od_pairs@, stations_view(stations@), f as int, i as int,
            stations@.len() as int) <= i64::MAX,
    ensures
        s == span_sum(od_pairs@, stations_view(stations@), f as int, i as int,
            stations@.len() as int),
        s >= 0,
{
    let n = stations.len();
    let ghost st = stations_view(stations@);
    proof {
        lemma_span_mono(od_pairs@, st, f as int, i as int, i + 1, n as int);
    }
    let mut s: i64 = 0;
    let mut t: usize = i + 1;
    while t < n
        invariant
            i + 1 <= t <= n,
            s == span_sum(od_pairs@, st, f as int, i as int, t as int),
        decreases n - t,
    {
        proof {
            lemma_span_mono(od_pairs@, st, f as int, i as int, t as int, t + 1);
            lemma_span_mono(od_pairs@, st, f as int, i as int, t + 1, n as int);
            lemma_od_count_nonneg(od_pairs@, 0, st[f as int], st[t as int]);
        }
        s = s + od_count_lookup(od_pairs, stations[f], stations[t]);
        t = t + 1;
    }
    proof {
        lemma_span_mono(od_pairs@, st, f as int, i as int, i + 1, n as int);
    }
    s
}

/// Per-station flow statistics of one OD table: absolute boarding and
/// alighting counts, and the boarding proportion, computed once from one
/// source so the two representations cannot diverge.
#[derive(Clone, Debug)]
pub struct OdFlow {
    /// Passengers boarding at each station.
    pub boarding: Vec<i64>,
    /// Passengers alighting at each station (zero at the first).
    pub alighting: Vec<i64>,
    /// Fraction of those aboard after each station who just boarded there.
    pub proportions: Vec<Ratio>,
}

/// Compute boarding counts, alighting counts and boarding proportions for
/// every station of the line from the OD table.
#[verifier::loop_isolation(false)]
pub fn od_flow(od_pairs: &[OdRow], stations: &[&str]) -> (r: OdFlow)
    requires
        stations@.len() >= 1,
        od_counts_nonneg(od_pairs@),
        forall|t: int| 1 <= t < stations@.len()
            ==> #[trigger] alighting_at(od_pairs@, stations_view(stations@), t) <= i64::MAX,
        forall|i: int| 0 <= i < stations@.len()
            ==> #[trigger] aboard_after(od_pairs@, stations_view(stations@), i) <= i64::MAX,
    ensures
        r.boarding@.len() == stations@.len(),
        r.alighting@.len() == stations@.len(),
        r.proportions@.len() == stations@.len(),
        forall|i: int| 0 <= i < stations@.len()
            ==> #[trigger] r.boarding@[i] == boarding_at(od_pairs@, stations_view(stations@), i),
        r.alighting@[0] == 0,
        forall|t: int| 1 <= t < stations@.len()
            ==> #[trigger] r.alighting@[t] == alighting_at(od_pairs@, stations_view(stations@), t),
        forall|i: int| 0 <= i < stations@.len()
            ==> #[trigger] r.proportions@[i] == spec_od_proportion(od_pairs@,
                stations_view(stations@), i),
        forall|i: int| 0 <= i < stations@.len()
            ==> (#[trigger] r.proportions@[i]).is_proportion(),
{
    let n = stations.len();
    let ghost st = stations_view(stations@);
    let alighting = parse_od(od_pairs, stations);
    let mut boarding: Vec<i64> = Vec::new();
    let mut proportions: Vec<Ratio> = Vec::new();
    let mut i: usize = 0;
    while i < n
        invariant
            i <= n,
            boarding@.len() == i,
            proportions@.len() == i,
            forall|q: int| 0 <= q < i
                ==> #[trigger] boarding@[q] == boarding_at(od_pairs@, st, q),
            forall|q: int| 0 <= q < i
                ==> #[trigger] proportions@[q] == spec_od_proportion(od_pairs@, st, q),
            forall|q: int| 0 <= q < i
                ==> (#[trigger] proportions@[q]).is_proportion(),
        decreases n - i,
    {
        proof {
            lemma_span_le_aboard(od_pairs@, st, i as int, i as int, i + 1);
            assert(aboard_after(od_pairs@, st, i as int) <= i64::MAX);
            assert(span_sum(od_pairs@, st, i as int, i as int, n as int) <= i64::MAX);
        }
        let b = span_lookup(od_pairs, stations, i, i);
        let mut d: i64 = 0;
        let mut f: usize = 0;
        while f <= i
            invariant
                f <= i + 1,
                d == aboard_sum(od_pairs@, st, i as int, f as int),
            decreases i + 1 - f,
        {
            proof {
                lemma_aboard_mono(od_pairs@, st, i as int, f as int, f + 1);
                lemma_aboard_mono(od_pairs@, st, i as int, f + 1, i + 1);
                lemma_span_le_aboard(od_pairs@, st, i as int, f as int, i + 1);
                assert(aboard_after(od_pairs@, st, i as int) <= i64::MAX);
                assert(span_sum(od_pairs@, st, f as int, i as int, n as int) <= i64::MAX);
                lemma_span_nonneg(od_pairs@, st, f as int, i as int, n as int);
            }
            d = d + span_lookup(od_pairs, stations, f, i);
            f = f + 1;
        }
        boarding.push(b);
        if d > 0 {
            proof {
                lemma_od_proportion_in_unit(od_pairs@, st, i as int);
            }
            proportions.push(Ratio { num: b as u64, den: d as u64 });
        } else {
            proof {
                lemma_od_proportion_in_unit(od_pairs@, st, i as int);
            }
            proportions.push(Ratio { num: 0, den: 1 });
        }
        i = i + 1;
    }
    OdFlow { boarding, alighting, proportions }
}


/// Removing the nearest destination from a span: passengers from `f`
/// still aboard past station `i` are those still aboard past `i + 1`
/// plus those alighting at `i + 1`.
proof fn lemma_span_drop_dest(rows: Seq<OdRow>, st: Seq<Seq<char>>, f: int, i: int, t_end: int)
    ensures
        span_sum(rows, st, f, i, t_end) == span_sum(rows, st, f, i + 1, t_end)
            + if t_end >= i + 2 { od_count(rows, st[f], st[i + 1]) } else { 0 },
    decreases t_end - i,
{
    if t_end <= i + 1 {
        assert(span_sum(rows, st, f, i, t_end) == 0);
        assert(span_sum(rows, st, f, i + 1, t_end) == 0);
    } else if t_end == i + 2 {
        assert(span_sum(rows, st, f, i, i + 1) == 0);
        assert(span_sum(rows, st, f, i, i + 2)
            == span_sum(rows, st, f, i, i + 1) + od_count(rows, st[f], st[i + 1]));
        assert(span_sum(rows, st, f, i + 1, i + 2) == 0);
    } else {
        lemma_span_drop_dest(rows, st, f, i, t_end - 1);
        assert(span_sum(rows, st, f, i, t_end)
            == span_sum(rows, st, f, i, t_end - 1) + od_count(rows, st[f], st[t_end - 1]));
        assert(span_sum(rows, st, f, i + 1, t_end)
            == span_sum(rows, st, f, i + 1, t_end - 1) + od_count(rows, st[f], st[t_end - 1]));
    }
}

/// The same, summed over the first `f_end` origins: what they have aboard
/// past station `i + 1` is what they had aboard past `i`, less what
/// alights at `i + 1`.
proof fn lemma_aboard_drop_dest(rows: Seq<OdRow>, st: Seq<Seq<char>>, i: int, f_end: int)
    requires
        i + 2 <= st.len(),
    ensures
        aboard_sum(rows, st, i + 1, f_end) == aboard_sum(rows, st, i, f_end)
            - alight_sum(rows, st, f_end, i + 1),
    decreases f_end,
{
    if f_end > 0 {
        lemma_aboard_drop_dest(rows, st, i, f_end - 1);
        lemma_span_drop_dest(rows, st, f_end - 1, i, st.len() as int);
    }
}

/// Law: the occupancy is conserved station by station — the passengers
/// aboard after a station are those aboard after its predecessor, plus
/// its boarders, less its alighters.
pub proof fn lemma_aboard_recurrence(rows: Seq<OdRow>, st: Seq<Seq<char>>, i: int)
    requires
        0 <= i < st.len(),
    ensures
        aboard_after(rows, st, i) == aboard_sum(rows, st, i - 1, i)
            + boarding_at(rows, st, i) - alighting_at(rows, st, i),
{
    lemma_aboard_drop_dest(rows, st, i - 1, i);
}

/// Law: the two proportion sources agree. Feeding the link-load
/// calculator the per-station boarding and alighting totals of an OD
/// table gives, at every station, the same running occupancy and the same
/// boarding proportion that the OD calculator derives directly.
pub proof fn lemma_od_matches_link_load(
    rows: Seq<OdRow>,
    st: Seq<Seq<char>>,
    b: Seq<i64>,
    a: Seq<i64>,
    i: int,
)
    requires
        od_counts_nonneg(rows),
        b.len() == st.len(),
        a.len() == st.len(),
        forall|j: int| 0 <= j < st.len() ==> b[j] == boarding_at(rows, st, j),
        forall|j: int| 0 <= j < st.len() ==> a[j] == alighting_at(rows, st, j),
        0 <= i < st.len(),
    ensures
        crate::linkload::spec_cumulative(b, a, i) == aboard_after(rows, st, i),
        crate::linkload::spec_link_prop(b, a, i) == spec_od_proportion(rows, st, i),
    decreases i + 1,
{
    lemma_aboard_recurrence(rows, st, i);
    if i == 0 {
        assert(crate::linkload::spec_cumulative(b, a, -1) == 0);
        assert(aboard_sum(rows, st, -1, 0) == 0);
    } else {
        lemma_od_matches_link_load(rows, st, b, a, i - 1);
        assert(aboard_after(rows, st, i - 1) == aboard_sum(rows, st, i - 1, i));
    }
    assert(crate::linkload::spec_cumulative(b, a, i)
        == crate::linkload::spec_cumulative(b, a, i - 1) + b[i] - a[i]);
    assert(crate::linkload::spec_cumulative(b, a, i) == aboard_after(rows, st, i));
    lemma_span_nonneg(rows, st, i, i, st.len() as int);
    assert(b[i] >= 0);
    let c = crate::linkload::spec_cumulative(b, a, i);
    if c > 0 {
        assert(b[i] as u64 == boarding_at(rows, st, i) as u64);
        assert(c as u64 == aboard_after(rows, st, i) as u64);
    }
}
} // verus!
