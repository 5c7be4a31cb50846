use ptp_stats::extract::extract;
use ptp_stats::extract::match_line;
use ptp_stats::extract::ExtractError;
use ptp_stats::extract::LineOutcome;

fn line(s: &str) -> Vec<u8> {
    s.as_bytes().to_vec()
}

const GOOD: &str = "2024-01-01T00:00:00-05:00 host ptp4l[123]: ptp4l[1000.500]: \
                    master offset -42 s2 freq 100 path delay 37";

#[test]
fn single_matching_line() {
    let lines = vec![line(GOOD)];
    let e = extract(&lines).unwrap();
    assert_eq!(e.offsets, vec![-42i64]);
    assert_eq!(e.delays, vec![37i64]);
}

#[test]
fn match_line_values() {
    assert!(matches!(match_line(&line(GOOD)), LineOutcome::Record(-42, 37)));
}

#[test]
fn empty_input() {
    let lines: Vec<Vec<u8>> = Vec::new();
    let e = extract(&lines).unwrap();
    assert!(e.offsets.is_empty());
    assert!(e.delays.is_empty());
}

#[test]
fn no_matching_lines() {
    let lines = vec![
        line(""),
        line("not a log line"),
        line("2024-01-01T00:00:00-05:00 host something else entirely"),
    ];
    let e = extract(&lines).unwrap();
    assert!(e.offsets.is_empty());
    assert!(e.delays.is_empty());
}

#[test]
fn anchored_at_line_start() {
    // The same line with anything before the timestamp must not match.
    let shifted = line(&format!(" {}", GOOD));
    assert!(matches!(match_line(&shifted), LineOutcome::Skip));
    let prefixed = line(&format!("x{}", GOOD));
    assert!(matches!(match_line(&prefixed), LineOutcome::Skip));
}

#[test]
fn partial_structure_does_not_match() {
    // Offset present but the delay section is missing.
    let l = line("2024-01-01T00:00:00-05:00 host ptp4l[123]: ptp4l[1000.500]: master offset -42 s2 freq 100");
    assert!(matches!(match_line(&l), LineOutcome::Skip));
    // Wrong keyword.
    let l2 = line("2024-01-01T00:00:00-05:00 host ptp4l[123]: ptp4l[1000.500]: master offset -42 s2 freq 100 path dely 37");
    assert!(matches!(match_line(&l2), LineOutcome::Skip));
    // Internal timestamp without a fractional part.
    let l3 = line("2024-01-01T00:00:00-05:00 host ptp4l[123]: ptp4l[1000]: master offset -42 s2 freq 100 path delay 37");
    assert!(matches!(match_line(&l3), LineOutcome::Skip));
}

#[test]
fn trailing_text_allowed() {
    let l = line(&format!("{} trailing words", GOOD));
    assert!(matches!(match_line(&l), LineOutcome::Record(-42, 37)));
}

#[test]
fn positive_signs_and_plus_timezone() {
    let l = line("2024-06-30T23:59:59+02:00 host9 ptp4l[1]: ptp4l[5.0]: master offset +5 s0 freq -7 path delay +9");
    assert!(matches!(match_line(&l), LineOutcome::Record(5, 9)));
}

#[test]
fn leading_zeros() {
    let l = line("2024-01-01T00:00:00-05:00 host ptp4l[123]: ptp4l[1000.500]: master offset -0000042 s2 freq 100 path delay 0037");
    assert!(matches!(match_line(&l), LineOutcome::Record(-42, 37)));
}

#[test]
fn file_order_and_parallel_lengths() {
    let lines = vec![
        line("noise"),
        line(GOOD),
        line("more noise"),
        line("2024-01-01T00:00:01-05:00 host ptp4l[123]: ptp4l[1001.500]: master offset 8 s2 freq 3 path delay 12"),
        line(""),
    ];
    let e = extract(&lines).unwrap();
    assert_eq!(e.offsets, vec![-42i64, 8]);
    assert_eq!(e.delays, vec![37i64, 12]);
    assert_eq!(e.offsets.len(), e.delays.len());
}

#[test]
fn extraction_is_pure() {
    let lines = vec![line(GOOD), line("junk"), line(GOOD)];
    let a = extract(&lines).unwrap();
    let b = extract(&lines).unwrap();
    assert_eq!(a.offsets, b.offsets);
    assert_eq!(a.delays, b.delays);
}

#[test]
fn value_out_of_range() {
    // Twenty significant digits never fit a 64-bit integer.
    let l = line("2024-01-01T00:00:00-05:00 host ptp4l[123]: ptp4l[1000.500]: master offset 99999999999999999999 s2 freq 100 path delay 37");
    assert!(matches!(match_line(&l), LineOutcome::OutOfRange));
    let lines = vec![l];
    assert!(matches!(extract(&lines), Err(ExtractError::ValueOutOfRange)));
}

#[test]
fn extreme_values_fit() {
    let l = line("2024-01-01T00:00:00-05:00 host ptp4l[123]: ptp4l[1000.500]: master offset -9223372036854775808 s2 freq 0 path delay 9223372036854775807");
    assert!(matches!(match_line(&l), LineOutcome::Record(i64::MIN, i64::MAX)));
}

#[test]
fn tabs_count_as_whitespace() {
    let l = line("2024-01-01T00:00:00-05:00\thost\tptp4l[123]:\tptp4l[1000.500]:\tmaster\toffset\t-42\ts2\tfreq\t100\tpath\tdelay\t37");
    assert!(matches!(match_line(&l), LineOutcome::Record(-42, 37)));
}
