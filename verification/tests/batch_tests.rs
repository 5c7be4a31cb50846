use ptp_stats::batch::machine_report;
use ptp_stats::batch::run_batch;
use ptp_stats::batch::MachineInput;
use ptp_stats::batch::MachineReport;

fn line(s: &str) -> Vec<u8> {
    s.as_bytes().to_vec()
}

const GOOD: &str = "2024-01-01T00:00:00-05:00 host ptp4l[123]: ptp4l[1000.500]: \
                    master offset -42 s2 freq 100 path delay 37";

#[test]
fn open_error_does_not_stop_the_batch() {
    // A missing log file for one machine is reported for that machine,
    // while the next machine is still processed normally.
    let inputs = vec![MachineInput::Unreadable, MachineInput::Lines(vec![line(GOOD)])];
    let reports = run_batch(&inputs);
    assert_eq!(reports.len(), 2);
    assert!(matches!(reports[0], MachineReport::OpenError));
    match &reports[1] {
        MachineReport::Data { offsets, delays, offset_stats, delay_stats } => {
            assert_eq!(offsets, &vec![-42i64]);
            assert_eq!(delays, &vec![37i64]);
            assert_eq!(offset_stats.sum, -42);
            assert_eq!(delay_stats.sum, 37);
        },
        _ => panic!("expected data for the second machine"),
    }
}

#[test]
fn no_valid_data_notice() {
    // A file with zero matching lines yields the no-data path: no
    // statistics, and nothing to plot.
    let inputs = vec![MachineInput::Lines(vec![line("only noise"), line("")])];
    let reports = run_batch(&inputs);
    assert_eq!(reports.len(), 1);
    assert!(matches!(reports[0], MachineReport::NoData));
}

#[test]
fn single_machine_report() {
    let inp = MachineInput::Lines(vec![line(GOOD)]);
    match machine_report(&inp) {
        MachineReport::Data { offsets, delays, offset_stats, delay_stats } => {
            assert_eq!(offsets, vec![-42i64]);
            assert_eq!(delays, vec![37i64]);
            assert_eq!(offset_stats.count, 1);
            assert_eq!(offset_stats.min, -42);
            assert_eq!(offset_stats.max, -42);
            assert_eq!(offset_stats.var_numer, Some(0));
            assert_eq!(delay_stats.min, 37);
            assert_eq!(delay_stats.max, 37);
        },
        _ => panic!("expected data"),
    }
}

#[test]
fn out_of_range_is_contained() {
    let bad = "2024-01-01T00:00:00-05:00 host ptp4l[123]: ptp4l[1000.500]: \
               master offset 99999999999999999999 s2 freq 100 path delay 37";
    let inputs = vec![
        MachineInput::Lines(vec![line(bad)]),
        MachineInput::Lines(vec![line(GOOD)]),
    ];
    let reports = run_batch(&inputs);
    assert_eq!(reports.len(), 2);
    assert!(matches!(reports[0], MachineReport::ValueOutOfRange));
    assert!(matches!(reports[1], MachineReport::Data { .. }));
}

#[test]
fn batch_keeps_order() {
    let inputs = vec![
        MachineInput::Lines(vec![line("noise")]),
        MachineInput::Unreadable,
        MachineInput::Lines(vec![line(GOOD)]),
    ];
    let reports = run_batch(&inputs);
    assert_eq!(reports.len(), 3);
    assert!(matches!(reports[0], MachineReport::NoData));
    assert!(matches!(reports[1], MachineReport::OpenError));
    assert!(matches!(reports[2], MachineReport::Data { .. }));
}
