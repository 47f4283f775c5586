//! Link-load tables: per-station cumulative boarding and alighting totals.
//!
//! The external table arrives as rows of text cells, grouped by line: a
//! blank row opens a new group, the group's first row names the line, and
//! summary rows are dropped. Numeric cells carry thousands separators
//! (`1,234`); a malformed cell is a fatal parse error. From one line's
//! boarding and alighting totals the module computes the running net
//! occupancy and each station's boarding proportion, guarding the
//! division when nobody remains aboard.

use vstd::prelude::*;
use crate::ratio::Ratio;
use crate::errors::ParseError;
use crate::errors::DataError;
use crate::errors::LinkLoadError;
use crate::od::stations_view;

verus! {

/// The character is a decimal digit.
pub open spec fn is_digit(c: char) -> bool {
    48 <= c as int <= 57
}

/// Its numeric value.
pub open spec fn digit_val(c: char) -> int {
    c as int - 48
}

/// The sequence with every comma removed.
pub open spec fn strip_commas(s: Seq<char>) -> Seq<char>
    decreases s.len(),
{
    if s.len() == 0 {
        Seq::empty()
    } else if s.last() == ',' {
        strip_commas(s.drop_last())
    } else {
        strip_commas(s.drop_last()).push(s.last())
    }
}

/// Every character is a decimal digit.
pub open spec fn all_digits(s: Seq<char>) -> bool {
    forall|i: int| 0 <= i < s.len() ==> is_digit(#[trigger] s[i])
}

/// The number that a digit sequence denotes, most significant first.
pub open spec fn digits_value(s: Seq<char>) -> int
    decreases s.len(),
{
    if s.len() == 0 {
        0
    } else {
        digits_value(s.drop_last()) * 10 + digit_val(s.last())
    }
}

/// A field parses to `v` exactly when, commas removed, it is a nonempty
/// digit string denoting `v`.
pub open spec fn spec_count_of(s: Seq<char>) -> int {
    digits_value(strip_commas(s))
}

/// Stripping commas keeps every other character.
proof fn lemma_strip_keeps(s: Seq<char>, k: int)
    requires
        0 <= k < s.len(),
        s[k] != ',',
    ensures
        strip_commas(s).contains(s[k]),
    decreases s.len(),
{
    if k == s.len() - 1 {
        assert(strip_commas(s) == strip_commas(s.drop_last()).push(s.last()));
        assert(strip_commas(s).last() == s[k]);
    } else {
        lemma_strip_keeps(s.drop_last(), k);
        let e = s[k];
        assert(s.drop_last()[k] == e);
        if s.last() == ',' {
        } else {
            let inner = strip_commas(s.drop_last());
            let w = choose|w: int| 0 <= w < inner.len() && inner[w] == e;
            assert(strip_commas(s)[w] == e);
        }
    }
}

/// Stripping commas from a digits-and-commas sequence leaves digits only.
proof fn lemma_strip_digits(s: Seq<char>)
    requires
        forall|k: int| 0 <= k < s.len() ==> (#[trigger] s[k]) == ',' || is_digit(s[k]),
    ensures
        all_digits(strip_commas(s)),
    decreases s.len(),
{
    if s.len() > 0 {
        assert(forall|k: int| 0 <= k < s.drop_last().len()
            ==> (#[trigger] s.drop_last()[k]) == ',' || is_digit(s.drop_last()[k]));
        lemma_strip_digits(s.drop_last());
        if s.last() != ',' {
            let r = strip_commas(s);
            assert(r == strip_commas(s.drop_last()).push(s.last()));
            assert(forall|i: int| 0 <= i < r.len() - 1
                ==> is_digit(#[trigger] r[i]));
            assert(is_digit(r[r.len() - 1]));
        }
    }
}

/// A digit string denotes a nonnegative number.
proof fn lemma_digits_value_nonneg(s: Seq<char>)
    requires
        all_digits(s),
    ensures
        digits_value(s) >= 0,
    decreases s.len(),
{
    if s.len() > 0 {
        assert(all_digits(s.drop_last()));
        lemma_digits_value_nonneg(s.drop_last());
    }
}

/// Over a digits-and-commas sequence, the value of a stripped prefix never
/// exceeds the value of the whole stripped sequence.
proof fn lemma_digits_prefix_mono(s: Seq<char>, j: int)
    requires
        forall|k: int| 0 <= k < s.len() ==> (#[trigger] s[k]) == ',' || is_digit(s[k]),
        0 <= j <= s.len(),
    ensures
        digits_value(strip_commas(s.take(j))) <= digits_value(strip_commas(s)),
    decreases s.len() - j,
{
    if j == s.len() {
        assert(s.take(j) =~= s);
    } else {
        lemma_digits_prefix_mono(s, j + 1);
        assert(s.take(j + 1).drop_last() =~= s.take(j));
        assert(s.take(j + 1).last() == s[j]);
        if s[j] == ',' {
            assert(strip_commas(s.take(j + 1)) == strip_commas(s.take(j)));
        } else {
            let pre = strip_commas(s.take(j));
            assert(strip_commas(s.take(j + 1)) == pre.push(s[j]));
            assert(forall|k: int| 0 <= k < s.take(j).len()
                ==> (#[trigger] s.take(j)[k]) == ',' || is_digit(s.take(j)[k]));
            lemma_strip_digits(s.take(j));
            lemma_digits_value_nonneg(pre);
            assert(pre.push(s[j]).drop_last() =~= pre);
            assert(digits_value(pre.push(s[j])) == digits_value(pre) * 10 + digit_val(s[j]));
            assert(digits_value(pre) * 10 >= digits_value(pre)) by (nonlinear_arith)
                requires digits_value(pre) >= 0;
        }
    }
}

/// Read a numeric field with optional thousands separators: the number its
/// digits denote. Fails exactly when, commas removed, the field is empty,
/// holds a non-digit, or denotes a number too large for the machine word.
#[verifier::loop_isolation(false)]
pub fn parse_count(field: &str) -> (r: Result<i64, ParseError>)
    ensures
        match r {
            Ok(v) => {
                &&& strip_commas(field@).len() > 0
                &&& all_digits(strip_commas(field@))
                &&& v == spec_count_of(field@)
                &&& 0 <= v <= i64::MAX
            },
            Err(_) => {
                ||| strip_commas(field@).len() == 0
                ||| !all_digits(strip_commas(field@))
                ||| spec_count_of(field@) > i64::MAX
            },
        },
{
    let n = field.unicode_len();
    let mut i: usize = 0;
    let mut has_digit = false;
    while i < n
        invariant
            i <= n,
            forall|k: int| 0 <= k < i ==> (#[trigger] field@[k]) == ',' || is_digit(field@[k]),
            has_digit == (strip_commas(field@.take(i as int)).len() > 0),
        decreases n - i,
    {
        let c = field.get_char(i);
        let u = c as u32;
        proof {
            assert(field@.take(i + 1).drop_last() =~= field@.take(i as int));
            assert(field@.take(i + 1).last() == field@[i as int]);
        }
        if c == ',' {
        } else if 48 <= u && u <= 57 {
            has_digit = true;
        } else {
            proof {
                lemma_strip_keeps(field@, i as int);
                let e = field@[i as int];
                let stripped = strip_commas(field@);
                let w = choose|w: int| 0 <= w < stripped.len() && stripped[w] == e;
                assert(!is_digit(stripped[w]));
                assert(!all_digits(stripped));
            }
            return Err(ParseError);
        }
        i = i + 1;
    }
    proof {
        assert(field@.take(n as int) =~= field@);
    }
    if !has_digit {
        return Err(ParseError);
    }
    proof {
        lemma_strip_digits(field@);
    }
    let mut v: i64 = 0;
    let mut j: usize = 0;
    while j < n
        invariant
            j <= n,
            0 <= v,
            v == digits_value(strip_commas(field@.take(j as int))),
        decreases n - j,
    {
        let c = field.get_char(j);
        let u = c as u32;
        proof {
            assert(field@.take(j + 1).drop_last() =~= field@.take(j as int));
            assert(field@.take(j + 1).last() == field@[j as int]);
        }
        if c != ',' {
            proof {
                let pre = strip_commas(field@.take(j as int));
                assert(strip_commas(field@.take(j + 1)) == pre.push(field@[j as int]));
                assert(pre.push(field@[j as int]).drop_last() =~= pre);
                assert(digits_value(strip_commas(field@.take(j + 1)))
                    == v * 10 + digit_val(field@[j as int]));
                assert(is_digit(field@[j as int]));
                lemma_digits_prefix_mono(field@, j + 1);
            }
            let d = (u - 48) as i64;
            let scaled = match v.checked_mul(10) {
                Some(x) => x,
                None => {
                    return Err(ParseError);
                },
            };
            let total = match scaled.checked_add(d) {
                Some(x) => x,
                None => {
                    return Err(ParseError);
                },
            };
            v = total;
        }
        j = j + 1;
    }
    proof {
        assert(field@.take(n as int) =~= field@);
    }
    Ok(v)
}

/// A table row, abstractly: its cells' characters.
pub open spec fn is_blank_row(row: Seq<Seq<char>>) -> bool {
    forall|c: int| 0 <= c < row.len() ==> (#[trigger] row[c]).len() == 0
}

/// A summary row: its first cell is the total marker.
pub open spec fn is_total_row(row: Seq<Seq<char>>, marker: Seq<char>) -> bool {
    row.len() > 0 && row[0] == marker
}

/// How the raw rows fall into line groups: a blank row opens a new group,
/// a summary row is dropped, any other row joins the latest group. Rows
/// before the first blank row join an initial group.
pub open spec fn spec_groups(rows: Seq<Seq<Seq<char>>>, marker: Seq<char>)
    -> Seq<Seq<Seq<Seq<char>>>>
    decreases rows.len(),
{
    if rows.len() == 0 {
        seq![Seq::<Seq<Seq<char>>>::empty()]
    } else {
        let prev = spec_groups(rows.drop_last(), marker);
        let row = rows.last();
        if is_blank_row(row) {
            prev.push(Seq::empty())
        } else if is_total_row(row, marker) {
            prev
        } else {
            prev.update(prev.len() - 1, prev.last().push(row))
        }
    }
}

/// There is always at least one group.
pub proof fn lemma_groups_nonempty(rows: Seq<Seq<Seq<char>>>, marker: Seq<char>)
    ensures
        spec_groups(rows, marker).len() >= 1,
    decreases rows.len(),
{
    if rows.len() > 0 {
        lemma_groups_nonempty(rows.drop_last(), marker);
    }
}

/// Copy one row of cells.
fn copy_row(row: &Vec<String>) -> (r: Vec<String>)
    ensures
        r.deep_view() == row.deep_view(),
{
    let mut r: Vec<String> = Vec::new();
    let mut i: usize = 0;
    while i < row.len()
        invariant
            i <= row@.len(),
            r@.len() == i,
            forall|k: int| 0 <= k < i ==> (#[trigger] r@[k])@ == row@[k]@,
        decreases row@.len() - i,
    {
        r.push(row[i].clone());
        i = i + 1;
    }
    proof {
        assert(r.deep_view() =~= row.deep_view());
    }
    r
}

/// Whether every cell of the row is empty.
fn row_is_blank(row: &Vec<String>) -> (b: bool)
    ensures
        b == is_blank_row(row.deep_view()),
{
    let mut i: usize = 0;
    while i < row.len()
        invariant
            i <= row@.len(),
            forall|c: int| 0 <= c < i ==> (#[trigger] row@[c])@.len() == 0,
        decreases row@.len() - i,
    {
        if !row[i].as_str().is_empty() {
            proof {
                assert(row.deep_view()[i as int].len() > 0);
            }
            return false;
        }
        i = i + 1;
    }
    proof {
        assert forall|c: int| 0 <= c < row.deep_view().len()
            implies (#[trigger] row.deep_view()[c]).len() == 0 by {
            assert(row@[c]@.len() == 0);
        }
    }
    true
}

/// Split the raw table rows into per-line groups: a blank row opens a new
/// group and summary rows (first cell equal to `total_marker`) are
/// dropped.
#[verifier::loop_isolation(false)]
pub fn group_link_records(records: &Vec<Vec<String>>, total_marker: &str)
    -> (r: Vec<Vec<Vec<String>>>)
    ensures
        r.deep_view() == spec_groups(records.deep_view(), total_marker@),
{
    let ghost rws = records.deep_view();
    let marker: String = total_marker.to_owned();
    let mut done: Vec<Vec<Vec<String>>> = Vec::new();
    let mut current: Vec<Vec<String>> = Vec::new();
    let mut i: usize = 0;
    proof {
        assert(rws.take(0int) =~= Seq::<Seq<Seq<char>>>::empty());
        assert(done.deep_view().push(current.deep_view())
            =~~= spec_groups(rws.take(0int), marker@));
    }
    while i < records.len()
        invariant
            i <= records@.len(),
            marker@ == total_marker@,
            done.deep_view().push(current.deep_view()) == spec_groups(rws.take(i as int),
                marker@),
        decreases records@.len() - i,
    {
        let row = &records[i];
        proof {
            assert(rws.take(i + 1).drop_last() =~= rws.take(i as int));
            assert(rws[i as int] == records@[i as int].deep_view());
            assert(rws.take(i + 1).last() == rws[i as int]);
        }
        let ghost before_done = done.deep_view();
        let ghost before_current = current.deep_view();
        if row_is_blank(row) {
            done.push(current);
            current = Vec::new();
            proof {
                assert(done.deep_view() =~~= before_done.push(before_current));
                assert(current.deep_view() =~~= Seq::<Seq<Seq<char>>>::empty());
                assert(done.deep_view().push(current.deep_view())
                    =~~= spec_groups(rws.take(i + 1), marker@));
            }
        } else if row.len() > 0 && row[0] == marker {
            proof {
                assert(rws[i as int][0] == row@[0int]@);
                assert(is_total_row(rws[i as int], marker@));
            }
        } else {
            proof {
                if row.len() > 0 {
                    assert(rws[i as int][0] == row@[0int]@);
                }
                assert(!is_total_row(rws[i as int], marker@));
            }
            current.push(copy_row(row));
            proof {
                assert(current.deep_view() =~~= before_current.push(rws[i as int]));
                let prev = before_done.push(before_current);
                lemma_groups_nonempty(rws.take(i as int), marker@);
                assert(spec_groups(rws.take(i + 1), marker@)
                    =~~= prev.update(prev.len() - 1, prev.last().push(rws[i as int])));
                assert(done.deep_view().push(current.deep_view())
                    =~~= spec_groups(rws.take(i + 1), marker@));
            }
        }
        i = i + 1;
    }
    proof {
        assert(rws.take(records@.len() as int) =~= rws);
    }
    done.push(current);
    done
}

/// A group records the line when its header row's first cell names it.
pub open spec fn line_matches(g: Seq<Seq<Seq<char>>>, name: Seq<char>) -> bool {
    g.len() > 0 && g[0].len() > 0 && g[0][0] == name
}

/// The station rows of the first group, from index `i` on, whose header
/// names the line.
pub open spec fn spec_find_line(
    groups: Seq<Seq<Seq<Seq<char>>>>,
    name: Seq<char>,
    i: int,
) -> Option<Seq<Seq<Seq<char>>>>
    decreases groups.len() - i,
{
    if i < 0 || i >= groups.len() {
        None
    } else if line_matches(groups[i], name) {
        Some(groups[i].drop_first())
    } else {
        spec_find_line(groups, name, i + 1)
    }
}

/// Pick one line's station rows out of the grouped table: the rows after
/// the header of the first group whose header names the line.
#[verifier::loop_isolation(false)]
pub fn find_line(groups: Vec<Vec<Vec<String>>>, name: &str) -> (r: Option<Vec<Vec<String>>>)
    ensures
        match r {
            Some(rows) => spec_find_line(groups.deep_view(), name@, 0)
                == Some(rows.deep_view()),
            None => spec_find_line(groups.deep_view(), name@, 0) is None,
        },
{
    let ghost gv = groups.deep_view();
    let name_s: String = name.to_owned();
    let mut gs = groups;
    let n = gs.len();
    let mut i: usize = 0;
    while i < n
        invariant
            i <= n,
            n == gv.len(),
            gs.deep_view() == gv,
            spec_find_line(gv, name@, 0) == spec_find_line(gv, name@, i as int),
        decreases n - i,
    {
        let g = &gs[i];
        proof {
            assert(gv[i as int] == g.deep_view());
        }
        let hit = g.len() > 0 && g[0].len() > 0 && g[0][0] == name_s;
        proof {
            if g.len() > 0 {
                assert(gv[i as int][0] == g@[0int].deep_view());
                if g@[0int]@.len() > 0 {
                    assert(gv[i as int][0][0] == g@[0int]@[0int]@);
                }
            }
            assert(hit == line_matches(gv[i as int], name@));
        }
        if hit {
            let mut found = gs.swap_remove(i);
            proof {
                assert(found.deep_view() == gv[i as int]);
            }
            found.remove(0);
            proof {
                assert(found.deep_view() =~~= gv[i as int].drop_first());
            }
            return Some(found);
        }
        i = i + 1;
    }
    None
}

/// The row belongs to one of the line's stations: its first cell is a
/// station name.
pub open spec fn row_in_stations(row: Seq<Seq<char>>, st: Seq<Seq<char>>) -> bool {
    row.len() > 0 && st.contains(row[0])
}

/// The rows whose first cell names one of the given stations, in order.
pub open spec fn spec_station_rows(rows: Seq<Seq<Seq<char>>>, st: Seq<Seq<char>>)
    -> Seq<Seq<Seq<char>>>
    decreases rows.len(),
{
    if rows.len() == 0 {
        Seq::empty()
    } else if row_in_stations(rows.last(), st) {
        spec_station_rows(rows.drop_last(), st).push(rows.last())
    } else {
        spec_station_rows(rows.drop_last(), st)
    }
}

/// Whether a cell equals one of the station names.
fn station_contains(stations: &[&str], cell: &String) -> (b: bool)
    ensures
        b == stations_view(stations@).contains(cell@),
{
    let mut j: usize = 0;
    while j < stations.len()
        invariant
            j <= stations@.len(),
            forall|k: int| 0 <= k < j ==> stations_view(stations@)[k] != cell@,
        decreases stations@.len() - j,
    {
        let s: String = stations[j].to_owned();
        if s == *cell {
            proof {
                assert(stations_view(stations@)[j as int] == cell@);
            }
            return true;
        }
        j = j + 1;
    }
    proof {
        assert forall|k: int| 0 <= k < stations_view(stations@).len()
            implies stations_view(stations@)[k] != cell@ by {}
    }
    false
}

/// Keep the rows that belong to the given stations, in table order.
#[verifier::loop_isolation(false)]
pub fn filter_station_rows(rows: &Vec<Vec<String>>, stations: &[&str]) -> (r: Vec<Vec<String>>)
    ensures
        r.deep_view() == spec_station_rows(rows.deep_view(), stations_view(stations@)),
{
    let ghost rv = rows.deep_view();
    let ghost stv = stations_view(stations@);
    let mut out: Vec<Vec<String>> = Vec::new();
    let mut i: usize = 0;
    proof {
        assert(rv.take(0int) =~= Seq::<Seq<Seq<char>>>::empty());
        assert(out.deep_view() =~~= spec_station_rows(rv.take(0int), stv));
    }
    while i < rows.len()
        invariant
            i <= rows@.len(),
            out.deep_view() == spec_station_rows(rv.take(i as int), stv),
        decreases rows@.len() - i,
    {
        let row = &rows[i];
        proof {
            assert(rv[i as int] == row.deep_view());
            assert(rv.take(i + 1).drop_last() =~= rv.take(i as int));
            assert(rv.take(i + 1).last() == rv[i as int]);
        }
        let keep = row.len() > 0 && station_contains(stations, &row[0]);
        proof {
            if row.len() > 0 {
                assert(rv[i as int][0] == row@[0int]@);
            }
            assert(keep == row_in_stations(rv[i as int], stv));
        }
        if keep {
            out.push(copy_row(row));
            proof {
                assert(out.deep_view() =~~= spec_station_rows(rv.take(i + 1), stv));
            }
        }
        i = i + 1;
    }
    proof {
        assert(rv.take(rows@.len() as int) =~= rv);
    }
    out
}

/// Net passengers aboard after station `i`: the running sum of boardings
/// less alightings.
pub open spec fn spec_cumulative(b: Seq<i64>, a: Seq<i64>, i: int) -> int
    decreases i + 1,
{
    if i < 0 {
        0
    } else {
        spec_cumulative(b, a, i - 1) + b[i] - a[i]
    }
}

/// Total boardings over the first `i` stations.
pub open spec fn spec_board_prefix(b: Seq<i64>, i: int) -> int
    decreases i + 1,
{
    if i <= 0 {
        0
    } else {
        spec_board_prefix(b, i - 1) + b[i - 1]
    }
}

/// Boarding prefixes of nonnegative counts are nonnegative and monotone.
pub proof fn lemma_board_prefix_mono(b: Seq<i64>, x: int, y: int)
    requires
        forall|i: int| 0 <= i < b.len() ==> #[trigger] b[i] >= 0,
        0 <= x <= y <= b.len(),
    ensures
        0 <= spec_board_prefix(b, x) <= spec_board_prefix(b, y),
    decreases y,
{
    if y > 0 {
        if x == y {
            lemma_board_prefix_mono(b, x - 1, y - 1);
        } else {
            lemma_board_prefix_mono(b, x, y - 1);
        }
    }
}

/// The alighting count at station `i` does not exceed the passengers
/// aboard just before it.
pub open spec fn spec_link_ok(b: Seq<i64>, a: Seq<i64>, i: int) -> bool {
    a[i] <= spec_cumulative(b, a, i - 1)
}

/// The boarding proportion at station `i`: its boardings over the net
/// passengers aboard after it, and zero when nobody remains aboard.
pub open spec fn spec_link_prop(b: Seq<i64>, a: Seq<i64>, i: int) -> Ratio {
    let c = spec_cumulative(b, a, i);
    if c > 0 {
        Ratio { num: b[i] as u64, den: c as u64 }
    } else {
        Ratio { num: 0u64, den: 1u64 }
    }
}

/// Law: at a station after which nobody remains aboard — the final stop,
/// when the counts balance — the boarding proportion is zero.
pub proof fn lemma_terminal_proportion_zero(b: Seq<i64>, a: Seq<i64>, i: int)
    requires
        spec_cumulative(b, a, i) == 0,
    ensures
        spec_link_prop(b, a, i) == (Ratio { num: 0u64, den: 1u64 }),
        spec_link_prop(b, a, i).is_zero(),
{
}

/// Turn per-station boarding and alighting totals into boarding
/// proportions: at each station, boardings over the net passengers aboard
/// after it, with an empty train giving proportion zero. Fails exactly at
/// the first station whose alighting count exceeds the passengers aboard,
/// reporting both counts.
#[verifier::loop_isolation(false)]
pub fn link_load_proportions(boardings: &Vec<i64>, alightings: &Vec<i64>)
    -> (r: Result<Vec<Ratio>, DataError>)
    requires
        boardings@.len() == alightings@.len(),
        forall|i: int| 0 <= i < boardings@.len() ==> #[trigger] boardings@[i] >= 0,
        forall|i: int| 0 <= i < alightings@.len() ==> #[trigger] alightings@[i] >= 0,
        spec_board_prefix(boardings@, boardings@.len() as int) <= i64::MAX,
    ensures
        match r {
            Ok(props) => {
                &&& props@.len() == boardings@.len()
                &&& forall|i: int| 0 <= i < props@.len()
                    ==> #[trigger] props@[i] == spec_link_prop(boardings@, alightings@, i)
                &&& forall|i: int| 0 <= i < props@.len()
                    ==> spec_link_ok(boardings@, alightings@, i)
                &&& forall|i: int| 0 <= i < props@.len()
                    ==> (#[trigger] props@[i]).is_proportion()
            },
            Err(e) => exists|i: int| {
                &&& 0 <= i < boardings@.len()
                &&& !(#[trigger] spec_link_ok(boardings@, alightings@, i))
                &&& (forall|j: int| 0 <= j < i ==> spec_link_ok(boardings@, alightings@, j))
                &&& e.present == spec_cumulative(boardings@, alightings@, i - 1)
                &&& e.alighting == alightings@[i]
            },
        },
{
    let ghost b = boardings@;
    let ghost a = alightings@;
    let n = boardings.len();
    let mut props: Vec<Ratio> = Vec::new();
    let mut cum: i64 = 0;
    let mut i: usize = 0;
    while i < n
        invariant
            i <= n,
            props@.len() == i,
            cum == spec_cumulative(b, a, i - 1),
            0 <= cum <= spec_board_prefix(b, i as int),
            forall|j: int| 0 <= j < i ==> spec_link_ok(b, a, j),
            forall|j: int| 0 <= j < i ==> #[trigger] props@[j] == spec_link_prop(b, a, j),
            forall|j: int| 0 <= j < i ==> (#[trigger] props@[j]).is_proportion(),
        decreases n - i,
    {
        proof {
            lemma_board_prefix_mono(b, i as int, i + 1);
            lemma_board_prefix_mono(b, i + 1, n as int);
        }
        if alightings[i] > cum {
            proof {
                let gi = i as int;
                assert(!spec_link_ok(b, a, gi));
                assert(exists|ii: int| {
                    &&& 0 <= ii < b.len()
                    &&& !(#[trigger] spec_link_ok(b, a, ii))
                    &&& (forall|j: int| 0 <= j < ii ==> spec_link_ok(b, a, j))
                    &&& cum as u64 == spec_cumulative(b, a, ii - 1)
                    &&& a[gi] == a[ii]
                });
            }
            return Err(DataError { present: cum as u64, alighting: alightings[i] });
        }
        let rem = cum - alightings[i];
        let new_cum = rem + boardings[i];
        if new_cum > 0 {
            props.push(Ratio { num: boardings[i] as u64, den: new_cum as u64 });
        } else {
            props.push(Ratio { num: 0, den: 1 });
        }
        cum = new_cum;
        i = i + 1;
    }
    Ok(props)
}

/// The station row has at least the boarding and alighting columns, both
/// readable as counts that fit the machine word.
pub open spec fn row_counts_ok(row: Seq<Seq<char>>) -> bool {
    &&& row.len() >= 3
    &&& strip_commas(row[1]).len() > 0
    &&& all_digits(strip_commas(row[1]))
    &&& spec_count_of(row[1]) <= i64::MAX
    &&& strip_commas(row[2]).len() > 0
    &&& all_digits(strip_commas(row[2]))
    &&& spec_count_of(row[2]) <= i64::MAX
}

/// Column `c` of the rows, read as counts.
pub open spec fn spec_col_counts(rows: Seq<Seq<Seq<char>>>, c: int) -> Seq<i64> {
    rows.map_values(|row: Seq<Seq<char>>| spec_count_of(row[c]) as i64)
}

/// One line's boarding proportions from the raw link-load table: group
/// the rows by line, pick the line, keep its station rows, read the
/// boarding and alighting columns (second and third cells), and turn the
/// totals into per-station proportions. Fails when the line is absent,
/// when a station row is short or holds a malformed count, or when the
/// counts are inconsistent.
#[verifier::loop_isolation(false)]
pub fn calc_proportion_of_boarders(
    records: &Vec<Vec<String>>,
    line_name: &str,
    total_marker: &str,
    stations: &[&str],
) -> (r: Result<Vec<Ratio>, LinkLoadError>)
    requires
        spec_find_line(spec_groups(records.deep_view(), total_marker@), line_name@, 0)
            matches Some(rows) ==> spec_board_prefix(
                spec_col_counts(spec_station_rows(rows, stations_view(stations@)), 1),
                spec_station_rows(rows, stations_view(stations@)).len() as int,
            ) <= i64::MAX,
    ensures
        ({
            let lr = spec_find_line(spec_groups(records.deep_view(), total_marker@),
                line_name@, 0);
            match r {
                Ok(props) => {
                    &&& lr is Some
                    &&& {
                        let sel = spec_station_rows(lr.unwrap(), stations_view(stations@));
                        let bb = spec_col_counts(sel, 1);
                        let aa = spec_col_counts(sel, 2);
                        &&& forall|i: int| 0 <= i < sel.len()
                            ==> row_counts_ok(#[trigger] sel[i])
                        &&& props@.len() == sel.len()
                        &&& forall|i: int| 0 <= i < props@.len()
                            ==> #[trigger] props@[i] == spec_link_prop(bb, aa, i)
                        &&& forall|i: int| 0 <= i < props@.len()
                            ==> (#[trigger] props@[i]).is_proportion()
                    }
                },
                Err(LinkLoadError::MissingLine) => lr is None,
                Err(LinkLoadError::Parse(_)) => {
                    &&& lr is Some
                    &&& {
                        let sel = spec_station_rows(lr.unwrap(), stations_view(stations@));
                        exists|i: int| 0 <= i < sel.len()
                            && !row_counts_ok(#[trigger] sel[i])
                    }
                },
                Err(LinkLoadError::Data(e)) => {
                    &&& lr is Some
                    &&& {
                        let sel = spec_station_rows(lr.unwrap(), stations_view(stations@));
                        let bb = spec_col_counts(sel, 1);
                        let aa = spec_col_counts(sel, 2);
                        exists|i: int| {
                            &&& 0 <= i < bb.len()
                            &&& !(#[trigger] spec_link_ok(bb, aa, i))
                            &&& (forall|j: int| 0 <= j < i ==> spec_link_ok(bb, aa, j))
                            &&& e.present == spec_cumulative(bb, aa, i - 1)
                            &&& e.alighting == aa[i]
                        }
                    }
                },
            }
        }),
{
    let groups = group_link_records(records, total_marker);
    let line_rows = match find_line(groups, line_name) {
        Some(x) => x,
        None => {
            return Err(LinkLoadError::MissingLine);
        },
    };
    let sel_rows = filter_station_rows(&line_rows, stations);
    let ghost sel = sel_rows.deep_view();
    let mut b: Vec<i64> = Vec::new();
    let mut a: Vec<i64> = Vec::new();
    let mut i: usize = 0;
    while i < sel_rows.len()
        invariant
            i <= sel_rows@.len(),
            b@.len() == i,
            a@.len() == i,
            forall|k: int| 0 <= k < i ==> row_counts_ok(#[trigger] sel[k]),
            forall|k: int| 0 <= k < i ==> #[trigger] b@[k] == spec_count_of(sel[k][1]),
            forall|k: int| 0 <= k < i ==> #[trigger] a@[k] == spec_count_of(sel[k][2]),
        decreases sel_rows@.len() - i,
    {
        let row = &sel_rows[i];
        proof {
            assert(sel[i as int] == row.deep_view());
        }
        if row.len() < 3 {
            return Err(LinkLoadError::Parse(ParseError));
        }
        proof {
            assert(sel[i as int][1] == row@[1int]@);
            assert(sel[i as int][2] == row@[2int]@);
        }
        let bi = match parse_count(row[1].as_str()) {
            Ok(v) => v,
            Err(pe) => {
                return Err(LinkLoadError::Parse(pe));
            },
        };
        let ai = match parse_count(row[2].as_str()) {
            Ok(v) => v,
            Err(pe) => {
                return Err(LinkLoadError::Parse(pe));
            },
        };
        b.push(bi);
        a.push(ai);
        i = i + 1;
    }
    proof {
        assert(b@ =~= spec_col_counts(sel, 1));
        assert(a@ =~= spec_col_counts(sel, 2));
        assert forall|k: int| 0 <= k < b@.len() implies #[trigger] b@[k] >= 0 by {
            lemma_digits_value_nonneg(strip_commas(sel[k][1]));
        }
        assert forall|k: int| 0 <= k < a@.len() implies #[trigger] a@[k] >= 0 by {
            lemma_digits_value_nonneg(strip_commas(sel[k][2]));
        }
    }
    match link_load_proportions(&b, &a) {
        Ok(props) => Ok(props),
        Err(e) => Err(LinkLoadError::Data(e)),
    }
}

} // verus!
