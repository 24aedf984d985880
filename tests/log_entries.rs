use timestampr::command::{command_for, exit_status, Command, EXIT_FAILURE, EXIT_SUCCESS, EXIT_USAGE};
use timestampr::entry::{
    elapsed_seconds, entry_after, format_duration, format_entry, format_timestamp,
    parse_timestamp, start_entry, timestamp_entry, Instant, LogError,
};
use timestampr::scan::find_open_entry;

const JUL_1_0915: i64 = 1751361300;

fn at(unix_seconds: i64, offset_seconds: i32) -> Instant {
    Instant { unix_seconds, nanosecond: 0, offset_seconds }
}

fn text(v: Vec<u8>) -> String {
    String::from_utf8(v).unwrap()
}

#[test]
fn duration_fields_are_whole_unit_totals() {
    assert_eq!(text(format_duration(5400)), "01:90:5400");
}

#[test]
fn duration_zero_is_sentinel() {
    assert_eq!(text(format_duration(0)), "00:00:00");
}

#[test]
fn duration_small_values_are_zero_padded() {
    assert_eq!(text(format_duration(7)), "00:00:07");
    assert_eq!(text(format_duration(3661)), "01:61:3661");
    assert_eq!(text(format_duration(36000)), "10:600:36000");
}

#[test]
fn duration_negative_keeps_signs() {
    assert_eq!(text(format_duration(-90)), "00:-1:-90");
    assert_eq!(text(format_duration(-7200)), "-2:-120:-7200");
}

#[test]
fn entry_line_layout() {
    assert_eq!(text(format_entry(b"stamp", 61)), "stamp\t00:01:61\n");
}

#[test]
fn elapsed_rounds_toward_zero() {
    let start = at(100, 0);
    let later = Instant { unix_seconds: 103, nanosecond: 900_000_000, offset_seconds: 0 };
    assert_eq!(elapsed_seconds(&later, &start), 3);
    let earlier = Instant { unix_seconds: 97, nanosecond: 500_000_000, offset_seconds: 0 };
    assert_eq!(elapsed_seconds(&earlier, &start), -2);
}

#[test]
fn timestamp_formats_as_rfc2822() {
    let v = format_timestamp(&at(JUL_1_0915, 0)).unwrap();
    assert_eq!(text(v), "Tue, 01 Jul 2025 09:15:00 +0000");
    let v = format_timestamp(&at(JUL_1_0915, 3600)).unwrap();
    assert_eq!(text(v), "Tue, 01 Jul 2025 10:15:00 +0100");
}

#[test]
fn timestamp_format_rejects_early_years_and_offset_seconds() {
    assert_eq!(format_timestamp(&at(-2_300_000_000, 0)), Err(LogError::Format));
    assert_eq!(format_timestamp(&at(JUL_1_0915, 30)), Err(LogError::Format));
}

#[test]
fn timestamp_round_trip() {
    for (unix, offset) in [(JUL_1_0915, 0), (JUL_1_0915 + 12345, -18000), (0, 19800)] {
        let written = format_timestamp(&at(unix, offset)).unwrap();
        let back = parse_timestamp(&written).unwrap();
        assert_eq!(back.unix_seconds, unix);
        assert_eq!(back.offset_seconds, offset);
    }
}

#[test]
fn timestamp_parse_rejects_malformed_text() {
    assert_eq!(parse_timestamp(b"not a date"), Err(LogError::Parse));
    assert_eq!(parse_timestamp(b""), Err(LogError::Parse));
}

#[test]
fn start_entry_always_zero() {
    let line = start_entry(&at(JUL_1_0915, 0)).unwrap();
    assert_eq!(text(line), "Tue, 01 Jul 2025 09:15:00 +0000\t00:00:00\n");
}

#[test]
fn timestamp_on_empty_log_is_zero() {
    let line = timestamp_entry(b"", &at(JUL_1_0915, 0)).unwrap();
    assert_eq!(text(line), "Tue, 01 Jul 2025 09:15:00 +0000\t00:00:00\n");
}

#[test]
fn timestamp_skips_closed_line_and_matches_start() {
    let log = b"Tue, 01 Jul 2025 09:15:00 +0000\t00:00:00\nTue, 01 Jul 2025 14:45:10 +0000\t05:30:10\n";
    let before = log.to_vec();
    let line = timestamp_entry(log, &at(JUL_1_0915 + 7200, 0)).unwrap();
    assert_eq!(text(line.clone()), "Tue, 01 Jul 2025 11:15:00 +0000\t02:120:7200\n");
    assert_eq!(log.to_vec(), before);
    let mut appended = before.clone();
    appended.extend_from_slice(&line);
    assert!(appended.starts_with(&before));
    let lines: Vec<&str> = std::str::from_utf8(&appended).unwrap().lines().collect();
    assert_eq!(lines.len(), 3);
    assert_eq!(lines[0], "Tue, 01 Jul 2025 09:15:00 +0000\t00:00:00");
}

#[test]
fn timestamp_uses_most_recent_open_entry() {
    let log = b"Tue, 01 Jul 2025 08:00:00 +0000\t00:00:00\nTue, 01 Jul 2025 09:15:00 +0000\t00:00:00\n";
    let line = timestamp_entry(log, &at(JUL_1_0915 + 60, 0)).unwrap();
    assert_eq!(text(line), "Tue, 01 Jul 2025 09:16:00 +0000\t00:01:60\n");
}

#[test]
fn timestamp_before_start_gives_negative_duration() {
    let log = b"Tue, 01 Jul 2025 09:15:00 +0000\t00:00:00\n";
    let line = timestamp_entry(log, &at(JUL_1_0915 - 90, 0)).unwrap();
    assert_eq!(text(line), "Tue, 01 Jul 2025 09:13:30 +0000\t00:-1:-90\n");
}

#[test]
fn malformed_lines_are_skipped() {
    let log = b"Tue, 01 Jul 2025 09:15:00 +0000\t00:00:00\ngarbage without tab\n\nmore garbage";
    let line = timestamp_entry(log, &at(JUL_1_0915 + 5400, 0)).unwrap();
    assert_eq!(text(line), "Tue, 01 Jul 2025 10:45:00 +0000\t01:90:5400\n");
}

#[test]
fn malformed_selected_timestamp_is_parse_error() {
    let log = b"Tue, 01 Jul 2025 09:15:00 +0000\t00:00:00\nnot a date\t00:00:00\n";
    assert_eq!(timestamp_entry(log, &at(JUL_1_0915, 0)), Err(LogError::Parse));
}

#[test]
fn open_entry_scan_handles_crlf_and_last_line() {
    let log = b"a\t00:00:00\r\nb\t01:00:00\r\n";
    assert_eq!(find_open_entry(log), Some((0, 1)));
    let log = b"a\t00:00:00\nbc\t00:00:00";
    assert_eq!(find_open_entry(log), Some((11, 13)));
    assert_eq!(find_open_entry(b"a\t00:00:00\r"), None);
    assert_eq!(find_open_entry(b"a\t00:00:01\n"), None);
    assert_eq!(find_open_entry(b"a\tb\t00:00:00\n"), None);
    assert_eq!(find_open_entry(b""), None);
}

#[test]
fn entry_after_without_start_is_zero() {
    let now = at(JUL_1_0915, 0);
    assert_eq!(text(entry_after(&now, b"T", None)), "T\t00:00:00\n");
    assert_eq!(text(entry_after(&now, b"T", Some(at(JUL_1_0915 - 5400, 0)))), "T\t01:90:5400\n");
}

#[test]
fn commands_from_arguments() {
    assert_eq!(command_for(None), Command::Timestamp);
    assert_eq!(command_for(Some("start")), Command::Start);
    assert_eq!(command_for(Some("stop")), Command::Unknown);
    assert_eq!(command_for(Some("Start")), Command::Unknown);
    assert_eq!(command_for(Some("")), Command::Unknown);
}

#[test]
fn unknown_argument_exits_with_two_and_leaves_log() {
    let cmd = command_for(Some("bogus"));
    assert!(!cmd.touches_log());
    assert_eq!(exit_status(cmd, &Ok(())), EXIT_USAGE);
    assert_eq!(exit_status(cmd, &Err(LogError::Io)), 2);
}

#[test]
fn exit_status_of_known_commands() {
    assert!(Command::Start.touches_log());
    assert_eq!(exit_status(Command::Start, &Ok(())), EXIT_SUCCESS);
    assert_eq!(exit_status(Command::Timestamp, &Err(LogError::Parse)), EXIT_FAILURE);
}
