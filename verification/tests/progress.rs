use appmanager::launcher::parse_release_row;
use appmanager::progress::{ReportThrottle, SpeedSpan};

const MS: u64 = 1_000_000;

#[test]
fn runtime_progress_is_reported_at_most_every_quarter_second() {
    let mut throttle = ReportThrottle::new(0);
    throttle.begin(1_000 * MS, 0);
    assert_eq!(throttle.update(1_000 * MS, 0, 100), Some((0, 0)));
    throttle.written(1_000 * MS);
    assert_eq!(throttle.update(1_100 * MS, 10, 100), None);
    assert_eq!(throttle.update(1_250 * MS, 20, 100), Some((250 * MS, 20)));
    throttle.written(1_250 * MS);
    assert_eq!(throttle.update(1_300 * MS, 100, 100), Some((300 * MS, 100)));
}

#[test]
fn a_restarted_transfer_starts_a_new_speed_span() {
    let mut throttle = ReportThrottle::new(0);
    throttle.begin(0, 0);
    assert!(throttle.update(0, 50, 0).is_some());
    throttle.written(0);
    assert_eq!(throttle.update(10 * MS, 5, 0), Some((0, 0)));
    throttle.written(10 * MS);
    assert_eq!(throttle.update(20 * MS, 6, 0), None);
}

#[test]
fn finishing_forces_the_last_report() {
    let mut throttle = ReportThrottle::new(0);
    throttle.begin(1_000 * MS, 0);
    assert!(throttle.update(1_000 * MS, 10, 0).is_some());
    throttle.written(1_000 * MS);
    throttle.finish(1_010 * MS);
    assert_eq!(throttle.update(1_010 * MS, 20, 0), Some((10 * MS, 10)));
}

#[test]
fn download_speed_is_measured_over_spans_longer_than_a_quarter_second() {
    let mut span = SpeedSpan::new(0);
    assert_eq!(span.measure(250 * MS, 100), None);
    assert_eq!(span.measure(500 * MS, 400), Some((500 * MS, 400)));
    assert_eq!(span.measure(600 * MS, 500), None);
    assert_eq!(span.measure(900 * MS, 300), Some((400 * MS, 0)));
}

#[test]
fn stable_release_rows_are_validated() {
    let digest = "0123456789ABCDEF0123456789abcdef";
    assert_eq!(
        parse_release_row(&format!("2024.05.01\thttps://github.com/PortsMaster/x.zip\t{digest}\n")),
        Ok((
            "2024.05.01".to_owned(),
            "https://github.com/PortsMaster/x.zip".to_owned(),
            "0123456789abcdef0123456789abcdef".to_owned()
        ))
    );
    for row in [
        format!("v 1\thttps://github.com/x\t{digest}"),
        format!("v1\thttp://github.com/x\t{digest}"),
        "v1\thttps://github.com/x\tabc".to_owned(),
        format!("v1\thttps://github.com/x\t{digest}\textra"),
        "v1\thttps://github.com/x\t0123456789abcdef0123456789abcdeg".to_owned(),
    ] {
        assert_eq!(parse_release_row(&row).unwrap_err(), "invalid stable release metadata", "{row}");
    }
}
