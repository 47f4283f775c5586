use platform_flow::linkload::{
    parse_count, group_link_records, find_line, filter_station_rows, link_load_proportions,
    calc_proportion_of_boarders,
};
use platform_flow::ratio::Ratio;
use platform_flow::errors::LinkLoadError;

fn row(cells: &[&str]) -> Vec<String> {
    cells.iter().map(|c| c.to_string()).collect()
}

#[test]
fn test_parse_count_plain_and_with_commas() {
    assert_eq!(parse_count("0").unwrap(), 0);
    assert_eq!(parse_count("1234").unwrap(), 1234);
    assert_eq!(parse_count("1,234").unwrap(), 1234);
    assert_eq!(parse_count("12,345,678").unwrap(), 12_345_678);
}

#[test]
fn test_parse_count_malformed() {
    assert!(parse_count("").is_err());
    assert!(parse_count(",").is_err());
    assert!(parse_count("12a4").is_err());
    assert!(parse_count("-5").is_err());
    assert!(parse_count("12.5").is_err());
    // one digit beyond the machine word
    assert!(parse_count("92233720368547758070").is_err());
}

fn sample_table() -> Vec<Vec<String>> {
    vec![
        row(&["north line", "", ""]),
        row(&["alpha", "100", "0"]),
        row(&["beta", "50", "30"]),
        row(&["total", "150", "30"]),
        row(&["", "", ""]),
        row(&["south line", "", ""]),
        row(&["gamma", "20", "0"]),
        row(&["delta", "0", "20"]),
    ]
}

#[test]
fn test_group_link_records_splits_on_blank_rows() {
    let groups = group_link_records(&sample_table(), "total");
    assert_eq!(groups.len(), 2);
    assert_eq!(groups[0].len(), 3);
    assert_eq!(groups[0][0][0], "north line");
    // the summary row is dropped
    assert!(groups[0].iter().all(|r| r[0] != "total"));
    assert_eq!(groups[1].len(), 3);
    assert_eq!(groups[1][0][0], "south line");
}

#[test]
fn test_find_line_returns_station_rows() {
    let groups = group_link_records(&sample_table(), "total");
    let rows = find_line(groups, "south line").unwrap();
    assert_eq!(rows.len(), 2);
    assert_eq!(rows[0][0], "gamma");
    assert_eq!(rows[1][0], "delta");
    let groups = group_link_records(&sample_table(), "total");
    assert!(find_line(groups, "west line").is_none());
}

#[test]
fn test_filter_station_rows_keeps_known_stations() {
    let rows = vec![row(&["alpha", "1", "2"]), row(&["other", "3", "4"]), row(&["beta", "5", "6"])];
    let kept = filter_station_rows(&rows, &["alpha", "beta"]);
    assert_eq!(kept.len(), 2);
    assert_eq!(kept[0][0], "alpha");
    assert_eq!(kept[1][0], "beta");
}

#[test]
fn test_link_load_proportions_with_terminal_zero() {
    // two stations: 100 board then all 100 alight at the terminal
    let boardings: Vec<i64> = vec![100, 0];
    let alightings: Vec<i64> = vec![0, 100];
    let props = link_load_proportions(&boardings, &alightings).unwrap();
    assert_eq!(props[0], Ratio { num: 100, den: 100 });
    // no cumulative passengers remain: the proportion is zero, not a
    // division error
    assert_eq!(props[1], Ratio { num: 0, den: 1 });
}

#[test]
fn test_link_load_proportions_middle_station() {
    let boardings: Vec<i64> = vec![100, 50, 0];
    let alightings: Vec<i64> = vec![0, 30, 120];
    let props = link_load_proportions(&boardings, &alightings).unwrap();
    // 50 boarders among 100 - 30 + 50 = 120 aboard
    assert_eq!(props[1], Ratio { num: 50, den: 120 });
    for p in &props {
        assert!(p.num <= p.den && p.den >= 1);
    }
}

#[test]
fn test_link_load_proportions_inconsistent_counts() {
    let boardings: Vec<i64> = vec![10, 5];
    let alightings: Vec<i64> = vec![0, 12];
    let err = link_load_proportions(&boardings, &alightings).unwrap_err();
    assert_eq!(err.present, 10);
    assert_eq!(err.alighting, 12);
}

#[test]
fn test_calc_proportion_of_boarders_whole_pipeline() {
    let props = calc_proportion_of_boarders(
        &sample_table(),
        "north line",
        "total",
        &["alpha", "beta"],
    )
    .unwrap();
    assert_eq!(props.len(), 2);
    assert_eq!(props[0], Ratio { num: 100, den: 100 });
    // 50 boarders among 100 - 30 + 50 = 120 aboard after beta
    assert_eq!(props[1], Ratio { num: 50, den: 120 });
}

#[test]
fn test_calc_proportion_of_boarders_missing_line() {
    let r = calc_proportion_of_boarders(&sample_table(), "west line", "total", &["alpha"]);
    assert!(matches!(r, Err(LinkLoadError::MissingLine)));
}

#[test]
fn test_calc_proportion_of_boarders_malformed_field() {
    let mut table = sample_table();
    table[1][1] = "1x0".to_string();
    let r = calc_proportion_of_boarders(&table, "north line", "total", &["alpha", "beta"]);
    assert!(matches!(r, Err(LinkLoadError::Parse(_))));
}
