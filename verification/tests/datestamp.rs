use fop::datestamp::{
    decompose_utc, format_timestamp_utc, format_version_utc, is_leap_year, is_timestamp_line,
    is_version_line, seconds_or_epoch, stamp, timestamp_line_at, unix_now, update_timestamp_line,
    update_version_line, version_line_at,
};

#[test]
fn timestamp_lines_are_recognised_in_any_case() {
    assert!(is_timestamp_line("! Last modified: 30 Jan 2026 08:31 UTC"));
    assert!(is_timestamp_line("# LAST UPDATED: yesterday"));
    assert!(is_timestamp_line("xx last Modified:"));
    assert!(!is_timestamp_line("! Last modified"));
    assert!(!is_timestamp_line("! Version: 1"));
    assert!(!is_timestamp_line(""));
}

#[test]
fn version_lines_are_recognised_after_marks_and_space() {
    assert!(is_version_line("! Version: 202601300831"));
    assert!(is_version_line("  #!#  VERSION: 1"));
    assert!(is_version_line("version:"));
    assert!(!is_version_line("! Versio"));
    assert!(!is_version_line("! x Version: 1"));
    assert!(!is_version_line(""));
}

#[test]
fn timestamps_are_written_as_headers_state_them() {
    assert_eq!(format_timestamp_utc(0), "1 Jan 1970 00:00 UTC");
    assert_eq!(format_timestamp_utc(59), "1 Jan 1970 00:00 UTC");
    assert_eq!(format_timestamp_utc(1769761860), "30 Jan 2026 08:31 UTC");
    assert_eq!(format_timestamp_utc(951868740), "29 Feb 2000 23:59 UTC");
    assert_eq!(format_timestamp_utc(4107542400), "1 Mar 2100 00:00 UTC");
    assert_eq!(format_timestamp_utc(31492800), "31 Dec 1970 12:00 UTC");
    assert_eq!(format_timestamp_utc(1735689540), "31 Dec 2024 23:59 UTC");
    assert_eq!(format_timestamp_utc(1735689600), "1 Jan 2025 00:00 UTC");
    assert_eq!(format_timestamp_utc(68169600), "29 Feb 1972 00:00 UTC");
    assert_eq!(format_timestamp_utc(1740787200), "1 Mar 2025 00:00 UTC");
}

#[test]
fn versions_are_written_in_twelve_digits() {
    assert_eq!(format_version_utc(0), "197001010000");
    assert_eq!(format_version_utc(1769761860), "202601300831");
    assert_eq!(format_version_utc(1735689540), "202412312359");
}

#[test]
fn moments_name_a_day_of_the_calendar() {
    let m = decompose_utc(951868740);
    assert_eq!((m.year, m.month, m.day, m.hours, m.minutes), (2000, 1, 29, 23, 59));
    let m = decompose_utc(86399);
    assert_eq!((m.year, m.month, m.day, m.hours, m.minutes), (1970, 0, 1, 23, 59));
    assert!(is_leap_year(2000));
    assert!(is_leap_year(2024));
    assert!(!is_leap_year(1900));
    assert!(!is_leap_year(2025));
}

#[test]
fn header_lines_are_rewritten_for_a_moment() {
    assert_eq!(timestamp_line_at("! Last modified: old", 1769761860).unwrap(), "! Last modified: 30 Jan 2026 08:31 UTC");
    assert_eq!(timestamp_line_at("  # last UPDATED: old", 0).unwrap(), "# Last updated: 1 Jan 1970 00:00 UTC");
    assert!(timestamp_line_at("! Title", 0).is_none());
    assert_eq!(version_line_at("! Version: 1", 1769761860).unwrap(), "! Version: 202601300831");
    assert_eq!(version_line_at("# version: 1", 0).unwrap(), "# Version: 197001010000");
    assert!(version_line_at("! Title", 0).is_none());
}

#[test]
fn header_lines_are_rewritten_for_now() {
    let line = update_timestamp_line("! Last modified: old").unwrap();
    assert!(line.starts_with("! Last modified: "));
    assert!(line.ends_with(" UTC"));
    assert!(update_timestamp_line("! Title").is_none());
    let line = update_version_line("# Version: 1").unwrap();
    assert!(line.starts_with("# Version: 2"));
    assert_eq!(line.len(), "# Version: ".len() + 12);
    assert!(update_version_line("! Title").is_none());
}

#[test]
fn stamp_replaces_or_inserts_the_timestamp() {
    let s = stamp("[Adblock Plus 2.0]\n! Last modified: 1 Jan 2000 00:00 UTC\n||a.com^\n", false, 1769761860).unwrap();
    assert_eq!(s.content, "[Adblock Plus 2.0]\n! Last modified: 30 Jan 2026 08:31 UTC\n||a.com^\n");
    assert_eq!(s.old.unwrap(), "1 Jan 2000 00:00 UTC");
    assert_eq!(s.new, "30 Jan 2026 08:31 UTC");

    let s = stamp("[Adblock Plus 2.0]\r\n||a.com^", true, 0).unwrap();
    assert_eq!(s.content, "[Adblock Plus 2.0]\r\n# Last modified: 1 Jan 1970 00:00 UTC\r\n||a.com^");
    assert!(s.old.is_none());

    let s = stamp("one line", false, 0).unwrap();
    assert_eq!(s.content, "one line\n! Last modified: 1 Jan 1970 00:00 UTC");

    assert!(stamp("", false, 0).is_none());
    assert!(stamp("x\n! Last updated: 1 Jan 1970 00:00 UTC\n", false, 0).is_none());
}

#[test]
fn every_month_has_its_name_and_length() {
    let names = ["Jan", "Feb", "Mar", "Apr", "May", "Jun", "Jul", "Aug", "Sep", "Oct", "Nov", "Dec"];
    let lengths = [31u64, 28, 31, 30, 31, 30, 31, 31, 30, 31, 30, 31];
    let mut day: u64 = 365 * 3 + 1; // the first day of 1973
    for month in 0..12 {
        let first = format_timestamp_utc(day * 86400);
        assert_eq!(first, format!("1 {} 1973 00:00 UTC", names[month]));
        let last = format_timestamp_utc((day + lengths[month] - 1) * 86400 + 86399);
        assert_eq!(last, format!("{} {} 1973 23:59 UTC", lengths[month], names[month]));
        assert_eq!(format_version_utc(day * 86400), format!("1973{:02}010000", month + 1));
        day += lengths[month];
    }
    assert_eq!(format_timestamp_utc(day * 86400), "1 Jan 1974 00:00 UTC");
}

#[test]
fn a_clock_before_1970_counts_as_the_start_of_1970() {
    assert_eq!(seconds_or_epoch(None), 0);
    assert_eq!(seconds_or_epoch(Some(0)), 0);
    assert_eq!(seconds_or_epoch(Some(1769761860)), 1769761860);
    assert_eq!(seconds_or_epoch(Some(u64::MAX)), u64::MAX);
    // the clock of this machine shows a time after the year 2000
    assert!(unix_now() > 946684800);
    assert_eq!(format_timestamp_utc(seconds_or_epoch(None)), "1 Jan 1970 00:00 UTC");
}
