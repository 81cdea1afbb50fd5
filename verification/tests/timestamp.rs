use ark::timestamp::format_stamp;

#[test]
fn stamps_are_written_out() {
    assert_eq!(format_stamp(0), "1970-01-01T00:00:00.000Z");
    assert_eq!(format_stamp(1_767_323_045_678), "2026-01-02T03:04:05.678Z");
}

#[test]
fn leap_days_are_counted() {
    assert_eq!(format_stamp(951_782_400_000), "2000-02-29T00:00:00.000Z");
    assert_eq!(format_stamp(951_868_799_999), "2000-02-29T23:59:59.999Z");
    assert_eq!(format_stamp(951_868_800_000), "2000-03-01T00:00:00.000Z");
    assert_eq!(format_stamp(4_107_542_400_000), "2100-03-01T00:00:00.000Z");
    assert_eq!(format_stamp(1_735_689_599_999), "2024-12-31T23:59:59.999Z");
}

#[test]
fn days_far_ahead_have_stamps() {
    assert_eq!(format_stamp(253_402_300_800_000), "10000-01-01T00:00:00.000Z");
}

#[test]
fn later_stamps_come_later() {
    let times: [u64; 8] = [0, 999, 1000, 59_999, 60_000, 86_399_999, 86_400_000, 1_767_323_045_678];
    for pair in times.windows(2) {
        assert!(format_stamp(pair[0]) < format_stamp(pair[1]));
    }
    assert!(format_stamp(1_735_689_599_999) < format_stamp(1_735_689_600_000));
}
