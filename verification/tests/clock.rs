use wt::clock::{date, seconds_of, timestamp_of};
use wt::fsx::{epoch_seconds, timestamp};

#[test]
fn timestamps_use_one_rfc3339_utc_shape() {
    let value = timestamp().unwrap();
    assert_eq!(value.len(), 30);
    assert_eq!(&value[4..5], "-");
    assert_eq!(&value[7..8], "-");
    assert_eq!(&value[10..11], "T");
    assert_eq!(&value[19..20], ".");
    assert!(value.ends_with('Z'));
}

#[test]
fn a_time_is_written_to_the_nanosecond() {
    assert_eq!(timestamp_of(&Ok((0, 0))).unwrap(), "1970-01-01T00:00:00.000000000Z");
    assert_eq!(
        timestamp_of(&Ok((951_827_696, 7))).unwrap(),
        "2000-02-29T12:34:56.000000007Z"
    );
    assert_eq!(
        timestamp_of(&Ok((4_102_444_799, 999_999_999))).unwrap(),
        "2099-12-31T23:59:59.999999999Z"
    );
}

#[test]
fn timestamps_sort_as_the_times_they_write() {
    let times = [
        (0u64, 0u32),
        (0, 1),
        (1, 0),
        (86_399, 999_999_999),
        (86_400, 0),
        (951_782_400, 0),
        (4_102_444_800, 0),
    ];
    for pair in times.windows(2) {
        let before = timestamp_of(&Ok(pair[0])).unwrap();
        let after = timestamp_of(&Ok(pair[1])).unwrap();
        assert!(before < after, "{before} {after}");
        assert_eq!(before.len(), after.len());
    }
}

#[test]
fn leap_days_follow_the_gregorian_rule() {
    let day = |days: u64| {
        let d = date(days);
        (d.year, d.month, d.day)
    };
    assert_eq!(day(0), (1970, 1, 1));
    assert_eq!(day(11_016), (2000, 2, 29));
    assert_eq!(day(11_017), (2000, 3, 1));
    assert_eq!(day(47_540), (2100, 2, 28));
    assert_eq!(day(47_541), (2100, 3, 1));
}

#[test]
fn a_clock_before_the_epoch_has_no_timestamp() {
    let early: Result<(u64, u32), String> = Err(String::from("second time provided was later"));
    let error = timestamp_of(&early).unwrap_err();
    assert!(error.message.contains("second time provided was later"), "{}", error.message);
    assert_eq!(seconds_of(&early), 0);
    assert_eq!(seconds_of(&Ok((12, 999_999_999))), 12);
}

#[test]
fn the_clock_has_passed_the_day_this_was_written() {
    assert!(epoch_seconds() > 1_700_000_000);
    assert!(timestamp().unwrap() > timestamp_of(&Ok((1_700_000_000, 0))).unwrap());
}
