//! Exact values of the integer statistics, merge correctness on
//! partitions, and the formatting helpers.

use hstats::render::{bar_len, dec_string, format_fixed, pad_left, percent_string, repeat_str};
use hstats::{Fixed, Hstats, HstatsError, RunningStats};

const ONE: i64 = 1_000_000;

fn fx(raw: i64) -> Fixed {
    Fixed::new(raw)
}

/// A small deterministic generator, so the partition tests run on a fixed
/// but unstructured sample set.
fn lcg_samples(n: usize, seed: u64) -> Vec<i64> {
    let mut state = seed;
    let mut out = Vec::with_capacity(n);
    for _ in 0..n {
        state = state.wrapping_mul(6364136223846793005).wrapping_add(1442695040888963407);
        // ticks in [-4_000_000, 4_000_000)
        let t = (state >> 17) % 8_000_000;
        out.push(t as i64 - 4_000_000);
    }
    out
}

#[test]
fn running_stats_exact_values() {
    let mut s = RunningStats::new();
    assert_eq!(s.count(), 0);
    assert_eq!(s.mean().raw(), 0);
    assert_eq!(s.std_dev().raw(), 0);

    s.update(fx(2 * ONE));
    assert_eq!(s.count(), 1);
    assert_eq!(s.min().raw(), 2 * ONE);
    assert_eq!(s.max().raw(), 2 * ONE);
    assert_eq!(s.mean().raw(), 2 * ONE);
    assert_eq!(s.std_dev().raw(), 0);

    s.update(fx(4 * ONE));
    assert_eq!(s.count(), 2);
    assert_eq!(s.min().raw(), 2 * ONE);
    assert_eq!(s.max().raw(), 4 * ONE);
    assert_eq!(s.mean().raw(), 3 * ONE);
    // sample variance of {2, 4} is 2; sqrt(2) truncated to the tick
    assert_eq!(s.std_dev().raw(), 1_414_213);
}

#[test]
fn running_stats_mean_rounds_down() {
    let mut s = RunningStats::new();
    s.update(fx(0));
    s.update(fx(1));
    // exact mean is half a tick; the reported mean is its floor
    assert_eq!(s.mean().raw(), 0);

    let mut t = RunningStats::new();
    t.update(fx(0));
    t.update(fx(-1));
    assert_eq!(t.mean().raw(), -1);
}

#[test]
fn running_stats_merge_is_pooled() {
    let samples: [i64; 6] = [-3 * ONE, ONE, 2 * ONE, 2 * ONE, -ONE, 500_000];
    let mut whole = RunningStats::new();
    for v in samples.iter() {
        whole.update(fx(*v));
    }
    let mut left = RunningStats::new();
    let mut right = RunningStats::new();
    for v in samples[..2].iter() {
        left.update(fx(*v));
    }
    for v in samples[2..].iter() {
        right.update(fx(*v));
    }
    let merged = left.merge(&right);
    assert_eq!(merged.count(), whole.count());
    assert_eq!(merged.min(), whole.min());
    assert_eq!(merged.max(), whole.max());
    assert_eq!(merged.mean(), whole.mean());
    assert_eq!(merged.std_dev(), whole.std_dev());

    // merging with a fresh tracker changes nothing
    let e = RunningStats::new();
    assert_eq!(e.merge(&whole).mean(), whole.mean());
    assert_eq!(whole.merge(&e).std_dev(), whole.std_dev());
}

#[test]
fn partitioned_accumulation_matches_whole() {
    let samples = lcg_samples(300, 7);
    let new_acc = || Hstats::new(fx(-2 * ONE), fx(2 * ONE), 13).unwrap();

    let mut whole = new_acc();
    for v in samples.iter() {
        whole.add(fx(*v));
    }

    // three partitions of unequal size, merged in two different orders
    let mut parts: Vec<Hstats> = Vec::new();
    for chunk in [&samples[..50], &samples[50..220], &samples[220..]] {
        let mut h = new_acc();
        for v in chunk.iter() {
            h.add(fx(*v));
        }
        parts.push(h);
    }
    let left_fold = parts[0].merge(&parts[1]).unwrap().merge(&parts[2]).unwrap();
    let right_fold = parts[0].merge(&parts[1].merge(&parts[2]).unwrap()).unwrap();
    let swapped = parts[2].merge(&parts[0]).unwrap().merge(&parts[1]).unwrap();

    for merged in [&left_fold, &right_fold, &swapped] {
        assert_eq!(merged.bins(), whole.bins());
        assert_eq!(merged.count(), whole.count());
        assert_eq!(merged.min(), whole.min());
        assert_eq!(merged.max(), whole.max());
        assert_eq!(merged.mean(), whole.mean());
        assert_eq!(merged.std_dev(), whole.std_dev());
    }
}

#[test]
fn merge_is_commutative() {
    let mut a = Hstats::new(fx(0), fx(10 * ONE), 5).unwrap();
    let mut b = Hstats::new(fx(0), fx(10 * ONE), 5).unwrap();
    a.add(fx(ONE));
    a.add(fx(-ONE));
    b.add(fx(9 * ONE));
    b.add(fx(12 * ONE));
    let ab = a.merge(&b).unwrap();
    let ba = b.merge(&a).unwrap();
    assert_eq!(ab.bins(), ba.bins());
    assert_eq!(ab.count(), ba.count());
    assert_eq!(ab.min(), ba.min());
    assert_eq!(ab.max(), ba.max());
    assert_eq!(ab.mean(), ba.mean());
    assert_eq!(ab.std_dev(), ba.std_dev());
}

#[test]
fn display_config_does_not_change_values() {
    let mut h = Hstats::new(fx(0), fx(10 * ONE), 10).unwrap();
    h.add(fx(5 * ONE));
    let bins_before = h.bins();
    let mean_before = h.mean();
    let h = h.with_precision(4).with_bar_char("=");
    assert_eq!(h.bins(), bins_before);
    assert_eq!(h.mean(), mean_before);
    assert_eq!(h.count(), 1);
}

#[test]
fn decimal_formatting() {
    assert_eq!(dec_string(0), "0");
    assert_eq!(dec_string(7), "7");
    assert_eq!(dec_string(120), "120");
    assert_eq!(dec_string(98765), "98765");

    assert_eq!(format_fixed(fx(1_500_000), 2), "1.50");
    assert_eq!(format_fixed(fx(-1_234_567), 3), "-1.234");
    assert_eq!(format_fixed(fx(1_500_000), 0), "1");
    assert_eq!(format_fixed(fx(1_500_000), 8), "1.50000000");
    assert_eq!(format_fixed(fx(0), 2), "0.00");
    assert_eq!(format_fixed(fx(-1), 6), "-0.000001");
}

#[test]
fn bar_and_percent_helpers() {
    assert_eq!(bar_len(30, 60), 30);
    assert_eq!(bar_len(60, 60), 60);
    assert_eq!(bar_len(0, 60), 0);
    assert_eq!(bar_len(0, 0), 0);
    assert_eq!(bar_len(1, 3), 20);
    // rounds to the nearest glyph: 1/8 of sixty is 7.5
    assert_eq!(bar_len(1, 8), 8);
    // an out-of-range counter above every bin saturates at the cap
    assert_eq!(bar_len(100, 10), 60);

    assert_eq!(percent_string(1, 3), "33.33");
    assert_eq!(percent_string(3, 3), "100.00");
    assert_eq!(percent_string(0, 7), "0.00");

    assert_eq!(repeat_str("ab", 3), "ababab");
    assert_eq!(repeat_str("x", 0), "");
    assert_eq!(pad_left("42", 5), "   42");
    assert_eq!(pad_left("hello", 3), "hello");
}

#[test]
fn render_report() {
    let mut h = Hstats::new(fx(0), fx(4 * ONE), 4).unwrap();
    h.add(fx(500_000));
    h.add(fx(1_500_000));
    h.add(fx(1_700_000));
    h.add(fx(-ONE));
    let report = h.with_precision(1).with_bar_char("#").render();
    // columns are sized to the widest bound text: "Start" (5) and "End" (3)
    assert!(report.starts_with("Start | End\n------|-----\n"));
    // the fullest bin holds 2 of 4 samples: a full bar, half the total
    let full_bar = "#".repeat(60);
    assert!(report.contains(&format!("  1.0 | 2.0 | {} 2 (50.00%)\n", full_bar)));
    // the underflow row: scaled against the fullest bin, rounded
    let half_bar = "#".repeat(30);
    assert!(report.contains(&format!(" -inf | 0.0 | {} 1 (25.00%)\n", half_bar)));
    assert!(report.contains("Total Count: 4"));
    assert!(report.contains("Std Dev:"));
    assert_eq!(report.lines().count(), 10);
}

#[test]
fn render_summary_is_exact() {
    let mut h = Hstats::new(fx(0), fx(10 * ONE), 10).unwrap();
    h.add(fx(2 * ONE));
    h.add(fx(4 * ONE));
    let report = h.with_precision(1).render();
    assert!(report.ends_with("Total Count: 2 Min: 2.0 Max: 4.0 Mean: 3.0 Std Dev: 1.4\n"));
}

#[test]
fn error_messages_name_the_values() {
    let e = Hstats::new(fx(0), fx(0), 10).unwrap_err();
    assert_eq!(
        e.message(),
        "start (0.000000) must be less than end (0.000000)"
    );
    let e = Hstats::new(fx(0), fx(ONE), 0).unwrap_err();
    assert_eq!(e.message(), "bin_count (0) must be greater than 0");

    let a = Hstats::new(fx(0), fx(10 * ONE), 10).unwrap();
    let d = Hstats::new(fx(0), fx(10 * ONE), 11).unwrap();
    let e = a.merge(&d).unwrap_err();
    assert_eq!(e.message(), "Bin counts must be equal: 10 != 11");
    assert!(matches!(e, HstatsError::BinCountMismatch { .. }));
}
