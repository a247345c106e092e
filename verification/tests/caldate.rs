use rpg_top::caldate::{cal_date_utc, format_strftime, DEFAULT_TS_FORMAT};

#[test]
fn cal_date_utc_anchor_points() {
    // 1970-01-01T00:00:00Z
    let z = cal_date_utc(0);
    assert_eq!(
        (z.year, z.month, z.day, z.hour, z.minute, z.second),
        (1970, 1, 1, 0, 0, 0)
    );
    // 2023-11-14T22:13:20Z (1_700_000_000)
    let n = cal_date_utc(1_700_000_000);
    assert_eq!(
        (n.year, n.month, n.day, n.hour, n.minute, n.second),
        (2023, 11, 14, 22, 13, 20)
    );
    // Leap-year guard: 2020-02-29
    let leap = cal_date_utc(1_582_934_400);
    assert_eq!((leap.year, leap.month, leap.day), (2020, 2, 29));
}

#[test]
fn format_strftime_default_iso8601() {
    let s = format_strftime(DEFAULT_TS_FORMAT, 1_700_000_000);
    assert_eq!(s, "2023-11-14T22:13:20Z");
}

#[test]
fn format_strftime_subset_tokens() {
    let t = 1_700_000_000;
    assert_eq!(format_strftime("%F %T", t), "2023-11-14 22:13:20");
    assert_eq!(format_strftime("%H:%M:%S", t), "22:13:20");
    assert_eq!(format_strftime("%Y%m%d-%H%M%S", t), "20231114-221320");
    assert_eq!(format_strftime("%s", t), "1700000000");
    assert_eq!(format_strftime("%z %Z", t), "+0000 UTC");
    assert_eq!(format_strftime("100%%", t), "100%");
}

#[test]
fn format_strftime_unknown_token_passes_through() {
    assert_eq!(
        format_strftime("[%Q]", 0),
        "[%Q]",
        "unknown specifier should not be swallowed"
    );
    // A trailing bare % survives as a literal (no panic).
    assert_eq!(format_strftime("ends with %", 0), "ends with %");
}

#[test]
fn cal_date_before_the_epoch() {
    // One second before the epoch.
    let d = cal_date_utc(-1);
    assert_eq!(
        (d.year, d.month, d.day, d.hour, d.minute, d.second),
        (1969, 12, 31, 23, 59, 59)
    );
    // 1900-03-01: 1900 is not a leap year.
    let d = cal_date_utc(-2_203_891_200);
    assert_eq!((d.year, d.month, d.day), (1900, 3, 1));
    // 2000-02-29: 2000 is a leap year.
    let d = cal_date_utc(951_782_400);
    assert_eq!((d.year, d.month, d.day), (2000, 2, 29));
}

#[test]
fn cal_date_extremes_do_not_panic() {
    let hi = cal_date_utc(i64::MAX);
    assert_eq!((hi.hour, hi.minute, hi.second), (15, 30, 7));
    assert_eq!(hi.year, 292_277_026_596);
    let lo = cal_date_utc(i64::MIN);
    assert_eq!((lo.hour, lo.minute, lo.second), (8, 29, 52));
    assert!(lo.year < -292_000_000_000);
}

#[test]
fn format_strftime_pads_and_signs() {
    // Year 1 padded to four digits.
    assert_eq!(format_strftime("%Y-%m-%d", -62_135_596_800), "0001-01-01");
    // A year before 0 keeps its sign inside the width.
    assert_eq!(format_strftime("%Y", -62_198_755_200), "-001");
    assert_eq!(format_strftime("%s", -5), "-5");
    assert_eq!(format_strftime("%", 0), "%");
    assert_eq!(format_strftime("", 0), "");
}
