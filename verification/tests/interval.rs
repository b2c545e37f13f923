use oil::interval::TimeDelta;

#[test]
fn interval_hours_minutes_formats_right() {
    let dt = TimeDelta::Hm(1, 20);
    assert_eq!(&dt.to_string(), "1h20m");

    let dt = TimeDelta::Hm(0, 15);
    assert_eq!(&dt.to_string(), "15m");

    let dt = TimeDelta::Hm(5, 0);
    assert_eq!(&dt.to_string(), "5h");
}

#[test]
fn event_hours_minutes_formats_right() {
    let dt = TimeDelta::Hm(1, 20);
    assert_eq!(&dt.to_string(), "1h20m");

    let dt = TimeDelta::Hm(0, 15);
    assert_eq!(&dt.to_string(), "15m");

    let dt = TimeDelta::Hm(5, 0);
    assert_eq!(&dt.to_string(), "5h");
}
