use running_median::tracker::RunningMedian;

/// The median as a floating-point value, from the two middle samples that
/// the tracker reports.
fn median_value(t: &RunningMedian) -> f64 {
    match t.find_median() {
        Some((a, b)) => (a as f64 + b as f64) / 2.0,
        None => panic!("median of an empty stream is undefined"),
    }
}

/// The median computed the slow way: fully sort everything seen so far.
fn reference_median(values: &[i32]) -> f64 {
    let mut sorted_vals: Vec<i32> = values.to_vec();
    sorted_vals.sort();
    let n = sorted_vals.len();
    if n % 2 == 1 {
        sorted_vals[n / 2] as f64
    } else {
        (sorted_vals[n / 2 - 1] as f64 + sorted_vals[n / 2] as f64) / 2.0
    }
}

#[test]
fn single_value() {
    let mut t = RunningMedian::new();
    t.add(5);
    assert_eq!(median_value(&t), 5.0);
}

#[test]
fn two_values() {
    let mut t = RunningMedian::new();
    t.add(5);
    t.add(2);
    assert_eq!(t.find_median(), Some((2, 5)));
    assert_eq!(median_value(&t), 3.5);
}

#[test]
fn three_values() {
    let mut t = RunningMedian::new();
    t.add(5);
    t.add(2);
    t.add(8);
    assert_eq!(t.find_median(), Some((5, 5)));
    assert_eq!(median_value(&t), 5.0);
}

#[test]
fn ascending_run() {
    let mut t = RunningMedian::new();
    let expected = [1.0, 1.5, 2.0, 2.5, 3.0];
    for (i, v) in [1, 2, 3, 4, 5].into_iter().enumerate() {
        t.add(v);
        assert_eq!(median_value(&t), expected[i]);
    }
}

#[test]
fn constant_stream() {
    let mut t = RunningMedian::new();
    for _ in 0..1000 {
        t.add(7);
        assert_eq!(median_value(&t), 7.0);
    }
}

#[test]
fn empty_query_is_undefined() {
    let t = RunningMedian::new();
    assert!(t.find_median().is_none());
}

#[test]
fn query_is_idempotent() {
    let mut t = RunningMedian::new();
    for v in [3, 1, 4, 1, 5, 9, 2, 6] {
        t.add(v);
    }
    let first = t.find_median();
    let second = t.find_median();
    let third = t.find_median();
    assert_eq!(first, second);
    assert_eq!(second, third);
}

#[test]
fn matches_sorted_reference() {
    // A fixed linear-congruential stream keeps the test deterministic while
    // exercising arbitrary-looking insertions and duplicates.
    let mut state: u64 = 0x9E37_79B9_7F4A_7C15;
    let mut t = RunningMedian::new();
    let mut seen: Vec<i32> = Vec::new();
    for _ in 0..300 {
        state = state
            .wrapping_mul(6364136223846793005)
            .wrapping_add(1442695040888963407);
        let v = ((state >> 48) as i16) as i32;
        t.add(v);
        seen.push(v);
        assert_eq!(median_value(&t), reference_median(&seen));
    }
}

#[test]
fn duplicates_and_negatives() {
    let mut t = RunningMedian::new();
    let values = [-3, -3, 0, -7, 4, -3, 4];
    let mut seen: Vec<i32> = Vec::new();
    for v in values {
        t.add(v);
        seen.push(v);
        assert_eq!(median_value(&t), reference_median(&seen));
    }
    assert_eq!(median_value(&t), -3.0);
}

#[test]
fn extreme_values() {
    let mut t = RunningMedian::new();
    t.add(i32::MAX);
    assert_eq!(median_value(&t), i32::MAX as f64);
    t.add(i32::MAX);
    // Averaging the two middle samples happens outside the tracker, so the
    // extremes cannot overflow inside it.
    assert_eq!(t.find_median(), Some((i32::MAX, i32::MAX)));
    assert_eq!(median_value(&t), i32::MAX as f64);
    t.add(i32::MIN);
    assert_eq!(median_value(&t), i32::MAX as f64);
    t.add(i32::MIN);
    assert_eq!(t.find_median(), Some((i32::MIN, i32::MAX)));
    assert_eq!(median_value(&t), -0.5);
}
