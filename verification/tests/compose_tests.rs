use platform_flow::compose::compose_weights;
use platform_flow::ratio::Ratio;

#[test]
fn test_first_station_weights_are_identity() {
    // at the first station the net density is the boarding density itself
    let props = vec![Ratio { num: 1, den: 1 }];
    let ws = compose_weights(&props).unwrap();
    assert_eq!(ws.len(), 1);
    assert_eq!(ws[0].nums, vec![1]);
    assert_eq!(ws[0].den, 1);
}

#[test]
fn test_three_station_weights() {
    // proportions: station 1 takes 1/2, station 2 takes 0 (terminal)
    let props = vec![
        Ratio { num: 1, den: 1 },
        Ratio { num: 10, den: 20 },
        Ratio { num: 0, den: 1 },
    ];
    let ws = compose_weights(&props).unwrap();
    assert_eq!(ws.len(), 3);
    // station 1: half the occupancy stayed, half just boarded
    assert_eq!(ws[1].nums, vec![10, 10]);
    assert_eq!(ws[1].den, 20);
    // station 2: nobody boarded, earlier weights carry over
    assert_eq!(ws[2].nums, vec![10, 10, 0]);
    assert_eq!(ws[2].den, 20);
}

#[test]
fn test_weights_sum_to_denominator() {
    // the weights of every station form a convex combination
    let props = vec![
        Ratio { num: 1, den: 1 },
        Ratio { num: 3, den: 7 },
        Ratio { num: 2, den: 5 },
        Ratio { num: 1, den: 3 },
    ];
    let ws = compose_weights(&props).unwrap();
    for w in &ws {
        let total: u64 = w.nums.iter().sum();
        assert_eq!(total, w.den);
        for n in &w.nums {
            assert!(*n <= w.den);
        }
    }
}

#[test]
fn test_compose_overflow_reported() {
    // denominators multiply station by station; a huge one overflows
    let props = vec![
        Ratio { num: 1, den: 1 },
        Ratio { num: 1, den: u64::MAX },
        Ratio { num: 1, den: 2 },
    ];
    assert!(compose_weights(&props).is_err());
}
