use ptp_stats::stats::summarize;

#[test]
fn known_series() {
    let series = vec![1i64, 2, 3, 4];
    let st = summarize(&series);
    assert_eq!(st.count, 4);
    assert_eq!(st.min, 1);
    assert_eq!(st.max, 4);
    assert_eq!(st.sum, 10);
    // Sample variance of 1..=4 is 5/3: numerator 20 over 4 * 3.
    assert_eq!(st.var_numer, Some(20));
    let mean = st.sum as f64 / st.count as f64;
    assert_eq!(mean, 2.5);
    let variance = st.var_numer.unwrap() as f64 / (st.count * (st.count - 1)) as f64;
    let std_dev = variance.sqrt();
    assert!((std_dev - (5.0f64 / 3.0).sqrt()).abs() < 1e-12);
}

#[test]
fn single_element_convention() {
    // One sample: the variance numerator is exactly zero, so the
    // reported standard deviation is zero.
    let series = vec![-42i64];
    let st = summarize(&series);
    assert_eq!(st.count, 1);
    assert_eq!(st.min, -42);
    assert_eq!(st.max, -42);
    assert_eq!(st.sum, -42);
    assert_eq!(st.var_numer, Some(0));
}

#[test]
fn scenario_single_line_stats() {
    // The single-line scenario: offsets [-42], delays [37].
    let offs = vec![-42i64];
    let dels = vec![37i64];
    let so = summarize(&offs);
    assert_eq!((so.sum, so.min, so.max, so.var_numer), (-42, -42, -42, Some(0)));
    let sd = summarize(&dels);
    assert_eq!((sd.sum, sd.min, sd.max, sd.var_numer), (37, 37, 37, Some(0)));
}

#[test]
fn mean_between_extrema() {
    let series = vec![-10i64, 0, 25, 7, -3];
    let st = summarize(&series);
    let n = st.count as i128;
    assert!(n * st.min as i128 <= st.sum);
    assert!(st.sum <= n * st.max as i128);
    assert!(st.var_numer.unwrap() >= 0);
}

#[test]
fn negative_series() {
    let series = vec![-5i64, -5, -5];
    let st = summarize(&series);
    assert_eq!(st.min, -5);
    assert_eq!(st.max, -5);
    assert_eq!(st.sum, -15);
    assert_eq!(st.var_numer, Some(0));
}

#[test]
fn extreme_series_exact_sum() {
    let series = vec![i64::MAX, i64::MAX, i64::MIN];
    let st = summarize(&series);
    assert_eq!(st.sum, 2 * (i64::MAX as i128) + (i64::MIN as i128));
    assert_eq!(st.min, i64::MIN);
    assert_eq!(st.max, i64::MAX);
    // The exact variance numerator exceeds the 128-bit range here.
    assert_eq!(st.var_numer, None);
}

#[test]
fn large_values_exact_variance() {
    // Large but representable: the exact numerator still fits.
    let a = 1_000_000_007i64;
    let b = -2_000_000_011i64;
    let series = vec![a, b];
    let st = summarize(&series);
    let sa = a as i128;
    let sb = b as i128;
    let expected = 2 * (sa * sa + sb * sb) - (sa + sb) * (sa + sb);
    assert_eq!(st.var_numer, Some(expected));
    assert!(expected >= 0);
}
