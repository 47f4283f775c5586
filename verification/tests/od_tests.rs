use platform_flow::od::{parse_od, transpose_sum, od_flow, OdRow};
use platform_flow::ratio::Ratio;

fn input() -> Vec<Vec<i64>> {
    vec![vec![1, 5, 2, 7], vec![9, 3, 7], vec![6, 2], vec![7]]
}

#[test]
fn test_transpose_sum() {
    let xs = input();
    let res = transpose_sum(xs[0].len(), &xs);
    assert_eq!(res, vec![1, 14, 11, 23])
}

fn od_row(from: &str, to: &str, count: i64) -> OdRow {
    OdRow {
        index: 0,
        from_station_code: from.to_string(),
        to_station_code: to.to_string(),
        count,
        stations: vec!["[]".to_string()],
    }
}

#[test]
fn test_parse_od_three_stations() {
    let rows = vec![od_row("a", "b", 10), od_row("a", "c", 10), od_row("b", "c", 10)];
    let stations = vec!["a", "b", "c"];
    let alighters = parse_od(&rows, &stations);
    assert_eq!(alighters, vec![0, 10, 20]);
}

#[test]
fn test_parse_od_reversed_pair_and_missing_pair() {
    // a pair recorded in the flipped orientation still counts; an absent
    // pair counts as zero
    let rows = vec![od_row("b", "a", 4)];
    let stations = vec!["a", "b", "c"];
    let alighters = parse_od(&rows, &stations);
    assert_eq!(alighters, vec![0, 4, 0]);
}

#[test]
fn test_parse_od_ignores_rows_without_marker() {
    let mut row = od_row("a", "b", 9);
    row.stations = vec!["x".to_string()];
    let stations = vec!["a", "b"];
    let alighters = parse_od(&vec![row], &stations);
    assert_eq!(alighters, vec![0, 0]);
}

#[test]
fn test_od_flow_counts_and_proportions() {
    let rows = vec![od_row("a", "b", 10), od_row("a", "c", 10), od_row("b", "c", 10)];
    let stations = vec!["a", "b", "c"];
    let flow = od_flow(&rows, &stations);
    assert_eq!(flow.boarding, vec![20, 10, 0]);
    assert_eq!(flow.alighting, vec![0, 10, 20]);
    // first station: everyone aboard just boarded
    assert_eq!(flow.proportions[0], Ratio { num: 20, den: 20 });
    // second station: 10 boarders among 20 aboard
    assert_eq!(flow.proportions[1], Ratio { num: 10, den: 20 });
    // terminal station: nobody aboard afterwards
    assert_eq!(flow.proportions[2], Ratio { num: 0, den: 1 });
    for p in &flow.proportions {
        assert!(p.num <= p.den && p.den >= 1);
    }
}

#[test]
fn test_od_and_link_load_proportions_agree() {
    // feeding the link-load calculator the OD table's own totals gives the
    // same proportions the OD calculator derives directly
    let rows = vec![od_row("a", "b", 10), od_row("a", "c", 10), od_row("b", "c", 10)];
    let stations = vec!["a", "b", "c"];
    let flow = od_flow(&rows, &stations);
    let via_link_load =
        platform_flow::linkload::link_load_proportions(&flow.boarding, &flow.alighting)
            .unwrap();
    assert_eq!(via_link_load, flow.proportions);
}
