//! The accumulator's behaviour over its public API, on concrete data.
//!
//! Samples are fixed-point values with six decimal places: one whole unit
//! is 1_000_000 ticks, so the domain `[0.0, 10.0)` is `[0, 10_000_000)`.

use hstats::{Bound, Fixed, Hstats, HstatsError};
use rand::SeedableRng;
use rand_distr::{Distribution, Normal};

const ONE: i64 = 1_000_000;

fn fx(raw: i64) -> Fixed {
    Fixed::new(raw)
}

fn finite_raw(b: Bound) -> i64 {
    match b {
        Bound::Finite(f) => f.raw(),
        _ => panic!("expected a finite bound"),
    }
}

fn to_f64(f: Fixed) -> f64 {
    f.raw() as f64 / ONE as f64
}

fn from_f64(x: f64) -> Fixed {
    fx((x * ONE as f64) as i64)
}

#[test]
fn test_new() {
    let hstats = Hstats::new(fx(0), fx(10 * ONE), 10).unwrap();

    assert_eq!(hstats.start().raw(), 0);
    assert_eq!(hstats.end().raw(), 10 * ONE);
    assert_eq!(hstats.bin_count(), 10);
    assert_eq!(hstats.bin_width().raw(), ONE);
    assert_eq!(hstats.bins().len(), 12);
}

#[test]
#[should_panic]
fn test_new_start_equal_end() {
    let _ = Hstats::new(fx(0), fx(0), 10).unwrap();
}

#[test]
#[should_panic]
fn test_new_bin_count_zero() {
    let _ = Hstats::new(fx(0), fx(10 * ONE), 0).unwrap();
}

#[test]
fn test_add() {
    let mut hstats = Hstats::new(fx(0), fx(10 * ONE), 10).unwrap();
    hstats.add(fx(5 * ONE));

    // `bins()` row 0 is the underflow range, so bin 5 is row 6.
    assert_eq!(hstats.bins()[6].2, 1);
    assert_eq!(hstats.count(), 1);
}

#[test]
fn test_add_underflow() {
    let mut hstats = Hstats::new(fx(0), fx(10 * ONE), 10).unwrap();
    hstats.add(fx(-ONE));
    hstats.add(fx(0));

    assert_eq!(hstats.bins()[0].2, 1);
    assert_eq!(hstats.count(), 2);
}

#[test]
fn test_add_overflow() {
    let mut hstats = Hstats::new(fx(0), fx(10 * ONE), 10).unwrap();
    hstats.add(fx(11 * ONE));
    hstats.add(fx(10 * ONE));

    assert_eq!(hstats.bins()[11].2, 2);
    assert_eq!(hstats.count(), 2);
}

#[test]
fn test_merge() {
    let mut hstats1 = Hstats::new(fx(0), fx(10 * ONE), 10).unwrap();
    hstats1.add(fx(5 * ONE));
    let mut hstats2 = Hstats::new(fx(0), fx(10 * ONE), 10).unwrap();
    hstats2.add(fx(6 * ONE));

    let merged = hstats1.merge(&hstats2).unwrap();
    assert_eq!(merged.bins()[6].2, 1);
    assert_eq!(merged.bins()[7].2, 1);
    assert_eq!(merged.count(), 2);
}

#[test]
#[should_panic]
fn test_merge_different_start() {
    let hstats1 = Hstats::new(fx(0), fx(10 * ONE), 10).unwrap();
    let hstats2 = Hstats::new(fx(ONE), fx(10 * ONE), 10).unwrap();

    let _ = hstats1.merge(&hstats2).unwrap();
}

#[test]
#[should_panic]
fn test_merge_different_end() {
    let hstats1 = Hstats::new(fx(0), fx(10 * ONE), 10).unwrap();
    let hstats2 = Hstats::new(fx(0), fx(11 * ONE), 10).unwrap();

    let _ = hstats1.merge(&hstats2).unwrap();
}

#[test]
#[should_panic]
fn test_merge_different_bin_count() {
    let hstats1 = Hstats::new(fx(0), fx(10 * ONE), 10).unwrap();
    let hstats2 = Hstats::new(fx(0), fx(10 * ONE), 11).unwrap();

    let _ = hstats1.merge(&hstats2).unwrap();
}

#[test]
fn stats_for_large_random_data() {
    const MEAN: f64 = 2.0;
    const STD_DEV: f64 = 3.0;
    const SEED: u64 = 42;
    const NUM_SAMPLES: usize = 10_000;
    const NUM_BINS: usize = 100;

    let mut hstats = Hstats::new(fx(-10 * ONE), fx(10 * ONE), NUM_BINS).unwrap();

    let mut rng = rand::rngs::StdRng::seed_from_u64(SEED);
    let normal = Normal::<f64>::new(MEAN, STD_DEV).unwrap();
    let random_data: Vec<f64> = (0..NUM_SAMPLES).map(|_x| normal.sample(&mut rng)).collect();

    random_data.iter().for_each(|v| hstats.add(from_f64(*v)));

    assert!((to_f64(hstats.std_dev()) - STD_DEV).abs() < 1.0e-2);
    assert!((to_f64(hstats.mean()) - MEAN).abs() < 1.0e-1);
    assert_eq!(hstats.count() as usize, random_data.len());

    let count_from_bins: u64 = hstats.bins().iter().map(|(_, _, c)| *c).sum();
    assert_eq!(count_from_bins as usize, random_data.len());
}

#[test]
fn stats_parallel() {
    const MEAN: f64 = 2.0;
    const STD_DEV: f64 = 3.0;
    const SEED: u64 = 42;
    const NUM_SAMPLES: usize = 10_000;
    const NUM_BINS: usize = 100;

    let mut rng = rand::rngs::StdRng::seed_from_u64(SEED);
    let normal = Normal::<f64>::new(MEAN, STD_DEV).unwrap();
    let random_data: Vec<f64> = (0..NUM_SAMPLES).map(|_x| normal.sample(&mut rng)).collect();

    let chunk_size = random_data.len() / 8;
    let hstats_list: Vec<Hstats> = random_data
        .chunks(chunk_size)
        .map(|chunk| {
            let mut hstats = Hstats::new(fx(-10 * ONE), fx(10 * ONE), NUM_BINS).unwrap();
            chunk.iter().for_each(|v| hstats.add(from_f64(*v)));
            hstats
        })
        .collect();

    let merged = hstats_list
        .into_iter()
        .reduce(|hstats1, hstats2| hstats1.merge(&hstats2).unwrap())
        .unwrap();

    assert!((to_f64(merged.std_dev()) - STD_DEV).abs() < 1.0e-2);
    assert!((to_f64(merged.mean()) - MEAN).abs() < 1.0e-1);
    assert_eq!(merged.count() as usize, random_data.len());
}

#[test]
fn construction_error_variants() {
    match Hstats::new(fx(3 * ONE), fx(3 * ONE), 10) {
        Err(HstatsError::InvalidRange { start, end }) => {
            assert_eq!(start.raw(), 3 * ONE);
            assert_eq!(end.raw(), 3 * ONE);
        }
        _ => panic!("equal bounds must be refused as an invalid range"),
    }
    assert!(matches!(
        Hstats::new(fx(2 * ONE), fx(ONE), 5),
        Err(HstatsError::InvalidRange { .. })
    ));
    assert!(matches!(
        Hstats::new(fx(0), fx(ONE), 0),
        Err(HstatsError::ZeroBinCount)
    ));
    let ok = Hstats::new(fx(0), fx(10 * ONE), 4).unwrap();
    assert_eq!(ok.bin_width().raw(), 10 * ONE / 4);
}

#[test]
fn merge_error_variants() {
    let a = Hstats::new(fx(0), fx(10 * ONE), 10).unwrap();
    let b = Hstats::new(fx(ONE), fx(10 * ONE), 10).unwrap();
    let c = Hstats::new(fx(0), fx(11 * ONE), 10).unwrap();
    let d = Hstats::new(fx(0), fx(10 * ONE), 11).unwrap();

    match a.merge(&b) {
        Err(HstatsError::StartMismatch {
            start_left,
            start_right,
        }) => {
            assert_eq!(start_left.raw(), 0);
            assert_eq!(start_right.raw(), ONE);
        }
        _ => panic!("differing starts must be refused"),
    }
    match a.merge(&c) {
        Err(HstatsError::EndMismatch { end_left, end_right }) => {
            assert_eq!(end_left.raw(), 10 * ONE);
            assert_eq!(end_right.raw(), 11 * ONE);
        }
        _ => panic!("differing ends must be refused"),
    }
    match a.merge(&d) {
        Err(HstatsError::BinCountMismatch {
            count_left,
            count_right,
        }) => {
            assert_eq!(count_left, 10);
            assert_eq!(count_right, 11);
        }
        _ => panic!("differing bin counts must be refused"),
    }
}

#[test]
fn boundary_classification() {
    let mut h = Hstats::new(fx(0), fx(10 * ONE), 10).unwrap();
    h.add(fx(-ONE));
    assert_eq!(h.bins()[0].2, 1);
    h.add(fx(0));
    assert_eq!(h.bins()[1].2, 1);
    assert_eq!(h.bins()[0].2, 1);
    h.add(fx(10 * ONE));
    assert_eq!(h.bins()[11].2, 1);
    assert_eq!(h.bins()[10].2, 0);
    h.add(fx(9_999_999));
    assert_eq!(h.bins()[10].2, 1);
}

#[test]
fn conservation_over_mixed_samples() {
    let mut h = Hstats::new(fx(-2 * ONE), fx(2 * ONE), 7).unwrap();
    let samples: [i64; 9] = [
        -3 * ONE,
        -2 * ONE,
        -1,
        0,
        1,
        1_999_999,
        2 * ONE,
        5 * ONE,
        -1_500_000,
    ];
    for s in samples.iter() {
        h.add(fx(*s));
    }
    let total: u64 = h.bins().iter().map(|(_, _, c)| *c).sum();
    assert_eq!(total, 9);
    assert_eq!(h.count(), 9);
}

#[test]
fn bins_structure() {
    let mut h = Hstats::new(fx(0), fx(10 * ONE), 3).unwrap();
    h.add(fx(-ONE));
    h.add(fx(-ONE));
    h.add(fx(12 * ONE));
    let rows = h.bins();
    assert_eq!(rows.len(), 5);
    assert_eq!(rows[0].0, Bound::NegInf);
    assert_eq!(finite_raw(rows[0].1), 0);
    assert_eq!(rows[0].2, 2);
    assert_eq!(rows[4].1, Bound::PosInf);
    assert_eq!(finite_raw(rows[4].0), 10 * ONE);
    assert_eq!(rows[4].2, 1);
    // interior ranges are contiguous: each upper bound is the next lower
    for i in 1..4 {
        assert_eq!(rows[i].0, rows[i - 1].1);
    }
    // width is 10/3 rounded down to the tick
    assert_eq!(finite_raw(rows[1].1), 3_333_333);
    assert_eq!(finite_raw(rows[3].1), 9_999_999);
}

#[test]
fn idempotent_accessors() {
    let mut h = Hstats::new(fx(-ONE), fx(ONE), 4).unwrap();
    h.add(fx(0));
    h.add(fx(ONE / 2));
    assert_eq!(h.start(), h.start());
    assert_eq!(h.end(), h.end());
    assert_eq!(h.bin_count(), h.bin_count());
    assert_eq!(h.bin_width(), h.bin_width());
    assert_eq!(h.bins(), h.bins());
    assert_eq!(h.count(), h.count());
    assert_eq!(h.min(), h.min());
    assert_eq!(h.max(), h.max());
    assert_eq!(h.mean(), h.mean());
    assert_eq!(h.std_dev(), h.std_dev());
}
