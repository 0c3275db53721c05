use mandel_view::escape::LaneCounter;
use mandel_view::raster::Raster;
use mandel_view::{ITER_LIMIT, NUM_LANES};

/// Lane masks of the escape-time iteration on `points`, handed to a counter
/// until it asks for no more.
fn run_group(points: &[(f64, f64)], counter: &mut LaneCounter) {
    let mut z: Vec<(f64, f64)> = points.to_vec();
    loop {
        let mask: Vec<bool> = z.iter().map(|&(r, i)| r * r + i * i <= 4.0).collect();
        if !counter.record(&mask) {
            break;
        }
        for (k, zk) in z.iter_mut().enumerate() {
            let (r, i) = *zk;
            let (rr, ii, ri) = (r * r, i * i, r * i);
            *zk = (points[k].0 + (rr - ii), points[k].1 + (ri + ri));
        }
    }
}

fn direct_count(cr: f64, ci: f64, limit: u32) -> u32 {
    let (mut r, mut i) = (cr, ci);
    let mut n = 0;
    for _ in 0..limit {
        let (rr, ii) = (r * r, i * i);
        if !(rr + ii <= 4.0) {
            break;
        }
        n += 1;
        let ri = r * i;
        r = cr + (rr - ii);
        i = ci + (ri + ri);
    }
    n
}

#[test]
fn fresh_counter_is_zero() {
    let c = LaneCounter::new();
    assert_eq!(c.counts(), &vec![0u32; NUM_LANES]);
    assert_eq!(c.limit(), ITER_LIMIT);
    assert!(!c.finished());
}

#[test]
fn zero_limit_counter_is_finished() {
    let c = LaneCounter::with_limit(0);
    assert!(c.finished());
}

#[test]
fn counts_follow_masks() {
    let mut c = LaneCounter::with_limit(10);
    let a = [true, false, true, false, true, false, true, false];
    let b = [true, true, false, false, false, false, false, false];
    assert!(c.record(&a));
    assert!(c.record(&b));
    assert_eq!(c.counts(), &vec![2, 1, 1, 0, 1, 0, 1, 0]);
    assert!(!c.finished());
}

#[test]
fn all_escaped_mask_stops_without_counting() {
    let mut c = LaneCounter::with_limit(10);
    assert!(c.record(&[true; 8]));
    assert!(!c.record(&[false; 8]));
    assert!(c.finished());
    assert_eq!(c.counts(), &vec![1; 8]);
}

#[test]
fn lane_active_throughout_reaches_ceiling() {
    let mut c = LaneCounter::new();
    let mut rounds = 0;
    let mut mask = [false; 8];
    mask[3] = true;
    while c.record(&mask) {
        rounds += 1;
    }
    assert_eq!(rounds + 1, ITER_LIMIT);
    assert_eq!(c.counts()[3], ITER_LIMIT);
    assert_eq!(c.counts()[0], 0);
}

#[test]
fn origin_is_in_the_set() {
    let mut c = LaneCounter::new();
    let points = [(0.0, 0.0); 8];
    run_group(&points, &mut c);
    assert!(c.counts().iter().all(|&n| n == ITER_LIMIT));
}

#[test]
fn two_escapes_after_one_iteration() {
    // |2|^2 equals the threshold, which still counts; the next value, 6, escapes.
    let mut c = LaneCounter::new();
    let mut points = [(0.0, 0.0); 8];
    points[0] = (2.0, 0.0);
    points[1] = (-2.5, 0.0);
    run_group(&points, &mut c);
    assert_eq!(c.counts()[0], 1);
    assert_eq!(c.counts()[1], 0);
    assert_eq!(c.counts()[2], ITER_LIMIT);
}

#[test]
fn counts_stay_within_ceiling() {
    let mut c = LaneCounter::new();
    let points: Vec<(f64, f64)> = (0..8).map(|k| (-0.75 + 0.01 * k as f64, 0.1)).collect();
    run_group(&points, &mut c);
    assert!(c.counts().iter().all(|&n| n <= ITER_LIMIT));
}

#[test]
fn small_grid_matches_formula() {
    let (min_x, min_y, max_x, max_y) = (-2.0f64, -1.5f64, 1.0f64, 1.5f64);
    let mut raster = Raster::new(4, 4);
    let dx = (max_x - min_x) / raster.width() as f64;
    let dy = (max_y - min_y) / raster.height() as f64;
    let counters: Vec<LaneCounter> = (0..raster.group_count())
        .map(|n| {
            let (x, y) = raster.group_origin(n);
            let points: Vec<(f64, f64)> = (0..NUM_LANES)
                .map(|k| (min_x + dx * (x + k) as f64, min_y + dy * y as f64))
                .collect();
            let mut c = LaneCounter::with_limit(50);
            run_group(&points, &mut c);
            c
        })
        .collect();
    raster.store_groups(&counters);
    let expected = [[0, 1, 1, 1], [0, 2, 5, 4], [50, 50, 50, 50], [0, 2, 5, 4]];
    for y in 0..4 {
        for x in 0..4 {
            let direct = direct_count(min_x + dx * x as f64, min_y + dy * y as f64, 50);
            assert_eq!(direct, expected[y][x]);
            assert_eq!(raster.count_at(x, y), expected[y][x]);
        }
    }
}
