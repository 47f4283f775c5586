use platform_flow::compose::{compose_weights, DensityWeights};
use platform_flow::mixture::{stair_mixture, batch_split, clamp_sample, StairMixture};
use platform_flow::od::{od_flow, OdRow};
use platform_flow::ratio::Ratio;
use rand::Rng;
use rand_distr::Distribution;
use statrs::distribution::Continuous;

fn as_f64(r: Ratio) -> f64 {
    r.num as f64 / r.den as f64
}

/// The three-part mixture density of one stair, over the unit interval.
fn stair_density(m: &StairMixture, u: f64) -> f64 {
    let far = statrs::distribution::Beta::new(as_f64(m.far.alpha), as_f64(m.far.beta)).unwrap();
    let close =
        statrs::distribution::Beta::new(as_f64(m.close.alpha), as_f64(m.close.beta)).unwrap();
    let uniform = statrs::distribution::Uniform::new(0.0, 1.0).unwrap();
    0.6 * far.pdf(u) + 0.3 * close.pdf(u) + 0.1 * uniform.pdf(u)
}

/// One station's boarding density: the average of its stairs' densities.
fn boarding_density(stairs: &[i64], u: f64) -> f64 {
    let total: f64 = stairs.iter().map(|s| stair_density(&stair_mixture(*s), u)).sum();
    total / stairs.len() as f64
}

/// The net-occupancy density after one station, from the exact weights.
fn net_density(weights: &DensityWeights, stations: &[Vec<i64>], u: f64) -> f64 {
    let mut y = 0.0;
    for (j, n) in weights.nums.iter().enumerate() {
        y += (*n as f64 / weights.den as f64) * boarding_density(&stations[j], u);
    }
    y
}

fn scenario_weights() -> Vec<DensityWeights> {
    let rows = vec![
        OdRow {
            index: 0,
            from_station_code: "a".to_string(),
            to_station_code: "b".to_string(),
            count: 10,
            stations: vec!["[]".to_string()],
        },
        OdRow {
            index: 1,
            from_station_code: "a".to_string(),
            to_station_code: "c".to_string(),
            count: 10,
            stations: vec!["[]".to_string()],
        },
        OdRow {
            index: 2,
            from_station_code: "b".to_string(),
            to_station_code: "c".to_string(),
            count: 10,
            stations: vec!["[]".to_string()],
        },
    ];
    let flow = od_flow(&rows, &["a", "b", "c"]);
    compose_weights(&flow.proportions).unwrap()
}

#[test]
fn test_net_density_integrates_to_one() {
    // stairs at 30 and 70, at 50, and at 10 platform points (thousandths)
    let stations: Vec<Vec<i64>> = vec![vec![30_000, 70_000], vec![50_000], vec![10_000]];
    let weights = scenario_weights();
    for w in &weights {
        let mut integral = 0.0;
        for k in 1..=100 {
            let u = k as f64 / 100.0;
            integral += net_density(w, &stations, u - 0.005) * 0.01;
        }
        assert!((integral - 1.0).abs() < 1e-2, "integral was {integral}");
    }
}

#[test]
fn test_net_density_is_weighted_blend() {
    // with OD counts 0->1: 10, 0->2: 10, 1->2: 10 the recurrence gives the
    // third station's density weights 1/2, 1/2 and 0
    let stations: Vec<Vec<i64>> = vec![vec![30_000, 70_000], vec![50_000], vec![10_000]];
    let weights = scenario_weights();
    assert_eq!(weights[2].nums, vec![10, 10, 0]);
    assert_eq!(weights[2].den, 20);
    for k in 0..=20 {
        let u = 0.025 + k as f64 * 0.045;
        let lhs = net_density(&weights[2], &stations, u);
        let rhs = 0.5 * boarding_density(&stations[0], u) + 0.5 * boarding_density(
            &stations[1], u);
        assert!((lhs - rhs).abs() < 1e-9);
    }
}

#[test]
fn test_first_station_net_density_is_boarding_density() {
    let stations: Vec<Vec<i64>> = vec![vec![30_000, 70_000], vec![50_000], vec![10_000]];
    let weights = scenario_weights();
    for k in 0..=20 {
        let u = 0.025 + k as f64 * 0.045;
        let lhs = net_density(&weights[0], &stations, u);
        let rhs = boarding_density(&stations[0], u);
        assert!((lhs - rhs).abs() < 1e-12);
    }
}

/// Gaussian-kernel density estimate with Scott's-rule bandwidth.
fn kde_at(points: &[f64], multiplier: f64, x: f64) -> f64 {
    let n = points.len() as f64;
    let h = n.powf(-0.2) * multiplier;
    let sum: f64 = points
        .iter()
        .map(|p| (-0.5 * ((x - p) / h).powi(2)).exp() / (2.0 * std::f64::consts::PI).sqrt())
        .sum();
    sum / (n * h)
}

#[test]
fn test_kde_recovers_single_stair_peak() {
    // draw a large sample from the stair-30 mixture and estimate its
    // density: the estimated peak must come back near the stair
    let m = stair_mixture(30_000);
    let (n_far, n_close, n_uniform) = batch_split(10_000);
    let far = rand_distr::Beta::new(as_f64(m.far.alpha), as_f64(m.far.beta)).unwrap();
    let close = rand_distr::Beta::new(as_f64(m.close.alpha), as_f64(m.close.beta)).unwrap();
    let mut rng = rand::thread_rng();
    let mut points: Vec<f64> = Vec::new();
    for _ in 0..n_far {
        points.push(100.0 * far.sample(&mut rng));
    }
    for _ in 0..n_close {
        points.push(100.0 * close.sample(&mut rng));
    }
    for _ in 0..n_uniform {
        points.push(rng.gen_range(0.0..100.0));
    }
    // positions live on the platform's fixed-point scale
    let points: Vec<f64> = points
        .iter()
        .map(|p| clamp_sample((p * 1000.0).round() as i64) as f64 / 1000.0)
        .collect();
    let mut best_x = 0.0;
    let mut best_y = f64::MIN;
    for k in 0..=100 {
        let x = k as f64;
        let y = kde_at(&points, 3.0, x);
        if y > best_y {
            best_y = y;
            best_x = x;
        }
    }
    assert!((best_x - 30.0).abs() <= 3.0, "estimated peak at {best_x}");
}
