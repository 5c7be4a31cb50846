use ptp_stats::chart::chart_spec;
use ptp_stats::chart::chart_title;
use ptp_stats::chart::delay_chart;
use ptp_stats::chart::offset_chart;
use ptp_stats::chart::plot_path;
use ptp_stats::chart::RenderError;

#[test]
fn deterministic_path_naming() {
    // Device "Beta", metric "Offset" -> "plots/beta-offset.png".
    let p = plot_path(&b"Beta".to_vec(), &b"Offset".to_vec());
    assert_eq!(p, b"plots/beta-offset.png".to_vec());
}

#[test]
fn path_lowercases_only_ascii_letters() {
    let p = plot_path(&b"Echo_2".to_vec(), &b"Delay".to_vec());
    assert_eq!(p, b"plots/echo_2-delay.png".to_vec());
}

#[test]
fn title_keeps_case() {
    let t = chart_title(&b"Beta".to_vec(), &b"Offset".to_vec());
    assert_eq!(t, b"Beta Offset".to_vec());
}

#[test]
fn chart_parameters() {
    let series = vec![-42i64, 5, 3];
    let c = chart_spec(&series, &b"Beta".to_vec(), &b"Offset".to_vec()).unwrap();
    assert_eq!(c.path, b"plots/beta-offset.png".to_vec());
    assert_eq!(c.title, b"Beta Offset".to_vec());
    assert_eq!((c.width, c.height), (640, 480));
    assert_eq!(c.x_max, 3);
    assert_eq!(c.y_min, -42);
    assert_eq!(c.y_max, 5);
}

#[test]
fn empty_series_is_refused() {
    let series: Vec<i64> = Vec::new();
    let r = chart_spec(&series, &b"Beta".to_vec(), &b"Offset".to_vec());
    assert!(matches!(r, Err(RenderError::EmptySeries)));
}

#[test]
fn metric_helpers() {
    let series = vec![7i64];
    let o = offset_chart(&series, &b"Charlie".to_vec()).unwrap();
    assert_eq!(o.path, b"plots/charlie-offset.png".to_vec());
    let d = delay_chart(&series, &b"Charlie".to_vec()).unwrap();
    assert_eq!(d.path, b"plots/charlie-delay.png".to_vec());
    assert_eq!(d.title, b"Charlie Delay".to_vec());
    assert!(matches!(
        offset_chart(&Vec::new(), &b"Charlie".to_vec()),
        Err(RenderError::EmptySeries)
    ));
}

#[test]
fn single_point_range() {
    let series = vec![-42i64];
    let c = chart_spec(&series, &b"Beta".to_vec(), &b"Offset".to_vec()).unwrap();
    assert_eq!(c.x_max, 1);
    assert_eq!(c.y_min, -42);
    assert_eq!(c.y_max, -42);
}
