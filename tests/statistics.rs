use entropy_scan::{
    at_least, entropy_outliers, interquartile_range, mean, median, variance, FileEntropy, Iqr,
    Ratio, Stats, ENTROPY_UNITS_PER_BIT,
};

const UNIT: f64 = ENTROPY_UNITS_PER_BIT as f64;

fn records(bits: &[f64]) -> Vec<FileEntropy> {
    bits.iter()
        .enumerate()
        .map(|(i, b)| FileEntropy::new(format!("file{i}"), (b * UNIT).round() as u32))
        .collect()
}

fn bits(r: Ratio) -> f64 {
    r.num as f64 / r.den as f64 / UNIT
}

fn squared_bits(r: Ratio) -> f64 {
    r.num as f64 / r.den as f64 / (UNIT * UNIT)
}

fn entropies(v: &[FileEntropy]) -> Vec<u32> {
    v.iter().map(|e| e.entropy).collect()
}

#[test]
fn empty_input_gives_no_value() {
    let data: Vec<FileEntropy> = Vec::new();
    assert!(mean(&data).is_none());
    assert!(median(&data).is_none());
    assert!(variance(&data).is_none());
    assert!(interquartile_range(&data).is_none());
    assert!(entropy_outliers(&data).is_none());
    assert!(Stats::summarize("t".to_string(), 3, &data).is_none());
}

#[test]
fn mean_median_variance_of_one_to_four() {
    let data = records(&[1.0, 2.0, 3.0, 4.0]);
    assert_eq!(bits(mean(&data).unwrap()), 2.5);
    assert_eq!(bits(median(&data).unwrap()), 2.5);
    assert_eq!(squared_bits(variance(&data).unwrap()), 1.25);
}

#[test]
fn exact_fractions_of_one_to_four() {
    let data = records(&[4.0, 1.0, 3.0, 2.0]);
    let u = ENTROPY_UNITS_PER_BIT as u128;
    assert_eq!(mean(&data), Some(Ratio { num: 10 * u, den: 4 }));
    assert_eq!(median(&data), Some(Ratio { num: 5 * u, den: 2 }));
    assert_eq!(variance(&data), Some(Ratio { num: 20 * u * u, den: 16 }));
}

#[test]
fn median_of_odd_count_is_middle_value() {
    let data = records(&[7.0, 1.0, 3.0]);
    assert_eq!(bits(median(&data).unwrap()), 3.0);
    assert_eq!(median(&data).unwrap().den, 1);
}

#[test]
fn variance_of_equal_values_is_zero() {
    let data = records(&[5.0, 5.0, 5.0]);
    assert_eq!(variance(&data).unwrap().num, 0);
}

#[test]
fn single_value_quartiles_and_no_outliers() {
    let data = records(&[6.5]);
    let x = data[0].entropy;
    assert_eq!(interquartile_range(&data), Some(Iqr { q1: x, q3: x, range: 0 }));
    assert!(entropy_outliers(&data).unwrap().is_empty());
    assert_eq!(bits(mean(&data).unwrap()), 6.5);
    assert_eq!(bits(median(&data).unwrap()), 6.5);
    assert_eq!(variance(&data).unwrap().num, 0);
}

#[test]
fn quartiles_of_even_count() {
    let data: Vec<FileEntropy> =
        [8u32, 1, 6, 3, 5, 2, 7, 4].iter().map(|&e| FileEntropy::new("p".to_string(), e)).collect();
    // positions 2 and 6 of 1..=8
    assert_eq!(interquartile_range(&data), Some(Iqr { q1: 2, q3: 6, range: 4 }));
}

#[test]
fn quartiles_of_odd_count() {
    let data: Vec<FileEntropy> =
        [50u32, 10, 40, 20, 30].iter().map(|&e| FileEntropy::new("p".to_string(), e)).collect();
    // (5 + 1) / 4 = 1, so positions 1 and 3
    assert_eq!(interquartile_range(&data), Some(Iqr { q1: 10, q3: 30, range: 20 }));
    let seven: Vec<FileEntropy> =
        (1u32..=7).rev().map(|e| FileEntropy::new("p".to_string(), e)).collect();
    assert_eq!(interquartile_range(&seven), Some(Iqr { q1: 2, q3: 6, range: 4 }));
}

#[test]
fn outliers_among_one_two_and_hundred() {
    let data = records(&[1.0, 2.0, 2.0, 2.0, 2.0, 2.0, 2.0, 2.0, 2.0, 100.0]);
    let iqr = interquartile_range(&data).unwrap();
    assert_eq!(iqr.range, 0);
    let out = entropy_outliers(&data).unwrap();
    let flagged: Vec<u32> = entropies(&out);
    assert!(flagged.contains(&(100 * ENTROPY_UNITS_PER_BIT)));
    // with both quartiles at 2 and a range of 0, the fences stand at 2 itself,
    // so 1 lies below the lower fence as well
    assert_eq!(flagged, vec![ENTROPY_UNITS_PER_BIT, 100 * ENTROPY_UNITS_PER_BIT]);
    assert_eq!(out[1].path, "file9");
}

#[test]
fn outliers_keep_input_order_and_use_fences() {
    let data: Vec<FileEntropy> = [100u32, 10, 11, 12, 13, 14, 15, 16, 0]
        .iter()
        .map(|&e| FileEntropy::new(format!("{e}"), e))
        .collect();
    // nine values: q1 at position 2 (10), q3 at position 6 (14), range 4;
    // fences at 10 - 6 = 4 and 14 + 6 = 20
    let iqr = interquartile_range(&data).unwrap();
    assert_eq!(iqr, Iqr { q1: 10, q3: 14, range: 4 });
    let out = entropy_outliers(&data).unwrap();
    assert_eq!(entropies(&out), vec![100, 0]);
}

#[test]
fn values_on_a_fence_are_not_outliers() {
    let data: Vec<FileEntropy> = [20u32, 10, 11, 12, 13, 14, 15, 16, 4]
        .iter()
        .map(|&e| FileEntropy::new("p".to_string(), e))
        .collect();
    let iqr = interquartile_range(&data).unwrap();
    assert_eq!(iqr, Iqr { q1: 10, q3: 14, range: 4 });
    assert!(entropy_outliers(&data).unwrap().is_empty());
}

#[test]
fn half_range_fences_are_exact() {
    // q1 = 10, q3 = 13, range 3: the upper fence stands at 13 + 4.5 = 17.5
    let inside: Vec<FileEntropy> =
        [17u32, 10, 13, 11].iter().map(|&e| FileEntropy::new("p".to_string(), e)).collect();
    assert_eq!(interquartile_range(&inside), Some(Iqr { q1: 10, q3: 13, range: 3 }));
    assert!(entropy_outliers(&inside).unwrap().is_empty());
    let outside: Vec<FileEntropy> =
        [18u32, 10, 13, 11].iter().map(|&e| FileEntropy::new("p".to_string(), e)).collect();
    assert_eq!(entropies(&entropy_outliers(&outside).unwrap()), vec![18]);
    let data2: Vec<FileEntropy> = [1u32, 10, 11, 12, 13, 14, 15, 16, 17, 18, 19, 40]
        .iter()
        .map(|&e| FileEntropy::new("p".to_string(), e))
        .collect();
    // twelve values: q1 at 3 (11), q3 at 9 (17), range 6, fences 2 and 26
    let out = entropy_outliers(&data2).unwrap();
    assert_eq!(entropies(&out), vec![1, 40]);
}

#[test]
fn min_entropy_filter_keeps_order() {
    let data: Vec<FileEntropy> =
        [5u32, 1, 9, 5].iter().map(|&e| FileEntropy::new(format!("{e}"), e)).collect();
    let kept = at_least(&data, 5);
    assert_eq!(entropies(&kept), vec![5, 9, 5]);
    assert_eq!(at_least(&data, 0).len(), 4);
    assert!(at_least(&data, 10).is_empty());
}

#[test]
fn summary_counts_found_and_scored_files() {
    let data = records(&[1.0, 2.0, 3.0, 4.0]);
    let st = Stats::summarize("dir".to_string(), 6, &data).unwrap();
    assert_eq!(st.target, "dir");
    assert_eq!(st.total, 6);
    assert_eq!(st.scored, 4);
    assert_eq!(bits(st.mean), 2.5);
    assert_eq!(bits(st.median), 2.5);
    assert_eq!(squared_bits(st.variance), 1.25);
    assert_eq!(st.iqr, 2 * ENTROPY_UNITS_PER_BIT);
}

#[test]
fn duplicate_copies_both_fields() {
    let e = FileEntropy::new("x/y".to_string(), 42);
    let d = e.duplicate();
    assert_eq!(d.path, "x/y");
    assert_eq!(d.entropy, 42);
}
