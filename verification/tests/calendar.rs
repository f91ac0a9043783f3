use oxideye::calendar::{civil_from_days, epoch_days, format_date};
use oxideye::persist::resolve_snapshot_path;
use oxideye::types::StatsConfig;

#[test]
fn epoch_day_zero_is_new_year_1970() {
    assert_eq!(civil_from_days(0), (1970, 1, 1));
    assert_eq!(civil_from_days(364), (1970, 12, 31));
    assert_eq!(civil_from_days(365), (1971, 1, 1));
}

#[test]
fn handles_leap_days() {
    // 1972 is the first leap year after the epoch
    assert_eq!(civil_from_days(789), (1972, 2, 29));
    assert_eq!(civil_from_days(790), (1972, 3, 1));
    // 2000 is divisible by 400 and leaps
    assert_eq!(civil_from_days(11016), (2000, 2, 29));
    // 2100 is divisible by 100 only and does not
    assert_eq!(civil_from_days(47540), (2100, 2, 28));
    assert_eq!(civil_from_days(47541), (2100, 3, 1));
}

#[test]
fn whole_days_from_epoch_seconds() {
    assert_eq!(epoch_days(0), 0);
    assert_eq!(epoch_days(86399), 0);
    assert_eq!(epoch_days(86400), 1);
}

#[test]
fn formats_dates_with_padding() {
    assert_eq!(format_date(2024, 1, 2), "2024-01-02");
    assert_eq!(format_date(1970, 12, 31), "1970-12-31");
}

#[test]
fn resolves_the_segment_of_a_flush_time() {
    // 2024-01-02 00:00:00 UTC
    let (y, m, d) = civil_from_days(epoch_days(1_704_153_600));
    assert_eq!((y, m, d), (2024, 1, 2));
    let cfg = StatsConfig { dir: String::from("stats"), postfix: String::from("_log.json") };
    let path = resolve_snapshot_path(&cfg, format_date(y, m, d).as_str());
    assert_eq!(path, "stats/2024-01-02_log.json");
}
