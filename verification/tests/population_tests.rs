use platform_flow::population::{draw_without_replacement, propagate_station, propagate_line};
use platform_flow::mixture::BoardingData;

fn batch(stair: u32, far: Vec<u32>, close: Vec<u32>, uniform: Vec<u32>) -> BoardingData {
    BoardingData { stair_location: stair, beta_far: far, beta_close: close, uniform }
}

#[test]
fn test_draw_without_replacement_is_subset() {
    let xs: Vec<u32> = vec![10, 20, 30, 40, 50, 60];
    let picked = draw_without_replacement(&xs, 4);
    assert_eq!(picked.len(), 4);
    // the source has no duplicates, so the draw must not either
    let mut seen: Vec<u32> = vec![];
    for p in &picked {
        assert!(xs.contains(p));
        assert!(!seen.contains(p));
        seen.push(*p);
    }
}

#[test]
fn test_draw_without_replacement_whole_pool() {
    let xs: Vec<u32> = vec![7, 7, 9];
    let mut picked = draw_without_replacement(&xs, 3);
    picked.sort();
    assert_eq!(picked, vec![7, 7, 9]);
}

#[test]
fn test_propagate_station_counts() {
    let prev: Vec<u32> = (0..50).map(|i| i * 1000).collect();
    let b = batch(30_000, vec![1, 2, 3], vec![4, 5], vec![6]);
    let acc = propagate_station(&prev, 10, vec![b]).unwrap();
    assert_eq!(acc.n_passengers_alighting, 10);
    assert_eq!(acc.remaining_xs.len(), 40);
    // the whole population is the continuing subset plus the boarding batch
    assert_eq!(acc.all_xs.len(), acc.remaining_xs.len() + 6);
    for x in &acc.remaining_xs {
        assert!(prev.contains(x));
    }
    assert_eq!(&acc.all_xs[40..], &[1, 2, 3, 4, 5, 6]);
}

#[test]
fn test_propagate_station_over_alighting_fails() {
    let prev: Vec<u32> = vec![1, 2];
    let err = propagate_station(&prev, 3, vec![]).unwrap_err();
    assert_eq!(err.present, 2);
    assert_eq!(err.alighting, 3);
    let err = propagate_station(&prev, -1, vec![]).unwrap_err();
    assert_eq!(err.alighting, -1);
}

#[test]
fn test_propagate_line_sizes() {
    // three stations: 50 board at the first (30 far / 15 close / 5 uniform),
    // 10 board at the second, nobody at the third; 10 alight at the second
    // and 20 at the third
    let batches = vec![
        vec![batch(30_000, vec![30_000; 30], vec![30_000; 15], vec![50_000; 5])],
        vec![batch(50_000, vec![50_000; 6], vec![50_000; 3], vec![50_000; 1])],
        vec![],
    ];
    let alightings: Vec<i64> = vec![0, 10, 20];
    let accs = propagate_line(batches, &alightings).unwrap();
    assert_eq!(accs.len(), 3);
    assert_eq!(accs[0].all_xs.len(), 50);
    assert_eq!(accs[1].all_xs.len(), 50 - 10 + 10);
    assert_eq!(accs[2].all_xs.len(), 50 - 20);
    // each station's population is its continuing subset plus its batch
    assert_eq!(accs[1].remaining_xs.len(), 40);
    assert_eq!(accs[2].remaining_xs.len(), 30);
}

#[test]
fn test_propagate_line_reports_first_inconsistency() {
    let batches = vec![
        vec![batch(30_000, vec![10_000; 5], vec![], vec![])],
        vec![],
    ];
    let alightings: Vec<i64> = vec![0, 9];
    let err = propagate_line(batches, &alightings).unwrap_err();
    assert_eq!(err.present, 5);
    assert_eq!(err.alighting, 9);
}

#[test]
fn test_draw_without_replacement_none() {
    let xs: Vec<u32> = vec![5, 6];
    assert!(draw_without_replacement(&xs, 0).is_empty());
}

#[test]
fn test_propagate_station_empty_everything() {
    let prev: Vec<u32> = vec![];
    let acc = propagate_station(&prev, 0, vec![]).unwrap();
    assert!(acc.remaining_xs.is_empty());
    assert!(acc.all_xs.is_empty());
}
