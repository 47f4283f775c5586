use platform_flow::mixture::{
    clamp, clamp_sample, beta_params, stair_mixture, batch_split, sum_boarding_types,
    station_mixtures, BoardingData, StationStairs, POS_MAX,
};

#[test]
fn test_clamp_degenerate_ends() {
    // a stair at either platform end must still give a valid mixture mode
    assert_eq!(clamp(0), 10);
    assert_eq!(clamp(-250), 10);
    assert_eq!(clamp(100_000), 99_900);
    assert_eq!(clamp(2_000_000), 99_900);
    assert_eq!(clamp(50_000), 50_000);
}

#[test]
fn test_clamp_sample_closed_interval() {
    assert_eq!(clamp_sample(-3), 0);
    assert_eq!(clamp_sample(100_001), POS_MAX);
    assert_eq!(clamp_sample(42_000), 42_000);
}

#[test]
fn test_beta_params_mode_and_concentration() {
    // stair at 30.0: mode 0.3, far concentration 7 gives alpha 2.5, beta 4.5
    let far = beta_params(30_000, 7);
    assert_eq!(far.alpha.num, 250_000);
    assert_eq!(far.alpha.den, 100_000);
    assert_eq!(far.beta.num, 450_000);
    assert_eq!(far.beta.den, 100_000);
    // close concentration 20 gives alpha 6.4, beta 13.6
    let close = beta_params(30_000, 20);
    assert_eq!(close.alpha.num, 640_000);
    assert_eq!(close.beta.num, 1_360_000);
    // alpha + beta == concentration, exactly
    assert_eq!(far.alpha.num + far.beta.num, 7 * 100_000);
    assert_eq!(close.alpha.num + close.beta.num, 20 * 100_000);
}

#[test]
fn test_stair_mixture_clamps_before_parameterizing() {
    // a stair at exactly 0 or 100 platform points must not produce a
    // degenerate mode
    let at_zero = stair_mixture(0);
    assert_eq!(at_zero.mode_pos, 10);
    assert!(at_zero.far.alpha.num >= 1 && at_zero.far.beta.num >= 1);
    let at_end = stair_mixture(100_000);
    assert_eq!(at_end.mode_pos, 99_900);
    assert!(at_end.close.alpha.num >= 1 && at_end.close.beta.num >= 1);
}

#[test]
fn test_batch_split_weights() {
    // a budget of 50 splits 30 far, 15 close, 5 uniform
    assert_eq!(batch_split(50), (30, 15, 5));
    assert_eq!(batch_split(200), (120, 60, 20));
    assert_eq!(batch_split(0), (0, 0, 0));
    // rounding goes to the nearest count
    assert_eq!(batch_split(3), (2, 1, 0));
}

#[test]
fn test_sum_boarding_types_concatenates_in_order() {
    let boarding = vec![
        BoardingData {
            stair_location: 30_000,
            beta_far: vec![1, 2],
            beta_close: vec![3],
            uniform: vec![4],
        },
        BoardingData {
            stair_location: 70_000,
            beta_far: vec![5],
            beta_close: vec![],
            uniform: vec![6, 7],
        },
    ];
    assert_eq!(sum_boarding_types(&boarding), vec![1, 2, 3, 4, 5, 6, 7]);
}

#[test]
fn test_station_mixtures_per_stair() {
    let st = StationStairs {
        station_name: "alpha".to_string(),
        stair_locations: vec![30_000, 0, 100_000],
    };
    let ms = station_mixtures(&st);
    assert_eq!(ms.len(), 3);
    assert_eq!(ms[0].mode_pos, 30_000);
    assert_eq!(ms[1].mode_pos, 10);
    assert_eq!(ms[2].mode_pos, 99_900);
    assert_eq!(ms[0].far, stair_mixture(30_000).far);
}
