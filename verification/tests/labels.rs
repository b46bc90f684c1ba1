//! Short texts, addresses and file names.

use updown_bot::calendar::{file_stamp, fmt_countdown, fmt_ts};
use updown_bot::labels::{lead_phrase, sanitize};

#[test]
fn lead_phrase_signs() {
    assert_eq!(lead_phrase(700), "first leads by 700 ms");
    assert_eq!(lead_phrase(-300), "first TRAILS by 300 ms");
    assert_eq!(lead_phrase(0), "in sync (lag 0 ms)");
}

#[test]
fn labels_are_sanitized_for_filenames() {
    assert_eq!(sanitize("eu-west-2"), "eu-west-2");
    assert_eq!(sanitize("my vps #1!"), "my-vps--1-");
    assert_eq!(sanitize("dev_pc"), "dev_pc");
}

#[test]
fn file_stamp_is_compact_utc() {
    // 2026-06-11T08:30:00Z
    assert_eq!(file_stamp(1_781_166_600_000), "20260611-083000");
}

#[test]
fn countdown_formats() {
    assert_eq!(fmt_countdown(0), "00:00");
    assert_eq!(fmt_countdown(133_000), "02:13");
    assert_eq!(fmt_countdown(3_725_000), "1:02:05");
    assert_eq!(fmt_countdown(-95_000), "-01:35");
    // A span below zero has its sign though it is less than a second long.
    assert_eq!(fmt_countdown(-500), "-00:00");
    assert_eq!(fmt_countdown(500), "00:00");
}

#[test]
fn timestamp_formats_as_rfc3339() {
    assert_eq!(fmt_ts(1_781_166_600_000), "2026-06-11T08:30:00Z");
}
