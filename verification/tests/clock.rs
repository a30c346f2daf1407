//! Times: alignment of logs, formats and jump inputs.

use mavlog::sync::{boot_to_unix_offset, median};
use mavlog::time::{
    datetime_jump, format_datetime, format_offset, offset_jump, parse_jump, seconds_text,
    to_milliseconds, TimeFormat,
};
use mavlog::tlog;

/// A tlog record: 8-byte big-endian unix-micros timestamp + a MAVLink frame.
fn record(ts_us: u64, frame: &[u8]) -> Vec<u8> {
    let mut r = ts_us.to_be_bytes().to_vec();
    r.extend_from_slice(frame);
    r
}

/// A v2 SYSTEM_TIME (msg id 2) frame: payload is time_unix_usec(u64) then
/// time_boot_ms(u32), little-endian. CRC bytes are not checked.
fn system_time(unix_us: u64, boot_ms: u32) -> Vec<u8> {
    let mut payload = unix_us.to_le_bytes().to_vec();
    payload.extend(boot_ms.to_le_bytes());
    let mut frame = vec![0xFD, payload.len() as u8, 0, 0, 0, 1, 1, 2, 0, 0];
    frame.extend(payload);
    frame.extend([0, 0]); // crc
    frame
}

#[test]
fn offset_from_system_time() {
    let mut data = record(10, &system_time(1_600_000_000_000_000, 5_000));
    // A second sample and a zero-unix (pre-lock) sample that must be ignored.
    data.extend(record(20, &system_time(1_600_000_001_000_000, 6_000)));
    data.extend(record(30, &system_time(0, 7_000)));
    let entries = tlog::parse(&data);

    let offset = boot_to_unix_offset(&entries, &data).unwrap();
    // Both valid samples agree: unix - boot_ms*1000.
    assert_eq!(offset, 1_600_000_000_000_000 - 5_000 * 1_000);
}

#[test]
fn no_system_time_yields_none() {
    // A lone HEARTBEAT (id 0), no SYSTEM_TIME.
    let hb = [0xFD, 9, 0, 0, 1, 1, 1, 0, 0, 0, 0, 0, 0, 0, 2, 3, 81, 4, 3, 0, 0];
    let data = record(1, &hb);
    let entries = tlog::parse(&data);
    assert_eq!(boot_to_unix_offset(&entries, &data), None);
}

#[test]
fn median_is_the_middle_sample() {
    assert_eq!(median(&[]), None);
    assert_eq!(median(&[5]), Some(5));
    assert_eq!(median(&[9, 1, 5]), Some(5));
    assert_eq!(median(&[9, 1, 5, 7]), Some(7));
    assert_eq!(median(&[-3, -3, 10]), Some(-3));
}

// 2024-07-17 07:06:40 UTC in microseconds.
const START_US: u64 = 1_721_200_000_000_000;

/// What the seconds of a jump input stand for, in microseconds.
fn micros(input: &str) -> Option<i64> {
    seconds_text(input).parse::<f64>().ok().map(|secs| (secs * 1e6).round() as i64)
}

fn jump(input: &str, format: TimeFormat) -> Result<u64, String> {
    parse_jump(input, format, START_US, micros(input))
}

#[test]
fn parses_offset_input() {
    assert_eq!(jump("42.5", TimeFormat::OffsetSecs).unwrap(), START_US + 42_500_000);
    assert_eq!(jump("T+1s", TimeFormat::OffsetSecs).unwrap(), START_US + 1_000_000);
    assert_eq!(jump("-5", TimeFormat::OffsetSecs).unwrap(), START_US - 5_000_000);
    assert!(jump("abc", TimeFormat::OffsetSecs).is_err());
}

#[test]
fn parses_datetime_input() {
    // Time-only inherits the log start's date.
    assert_eq!(jump("07:06:41", TimeFormat::DateTime).unwrap(), START_US + 1_000_000);
    assert_eq!(jump("07:06:41.250", TimeFormat::DateTime).unwrap(), START_US + 1_250_000);
    assert_eq!(jump("2024-07-17 07:06:41", TimeFormat::DateTime).unwrap(), START_US + 1_000_000);
    assert!(jump("07:06:41", TimeFormat::OffsetSecs).is_err());
    assert!(jump("nonsense", TimeFormat::DateTime).is_err());
}

#[test]
fn jump_errors_name_what_is_expected() {
    assert_eq!(jump("  ", TimeFormat::DateTime), Err("empty input".to_string()));
    assert_eq!(
        jump("abc", TimeFormat::OffsetSecs),
        Err("expected seconds, e.g. 42.5".to_string())
    );
    assert_eq!(
        jump("nonsense", TimeFormat::DateTime),
        Err("expected HH:MM:SS[.mmm] or YYYY-MM-DD HH:MM:SS".to_string())
    );
    assert_eq!(
        parse_jump("07:00", TimeFormat::DateTime, 1 << 63, None),
        Err("log start time invalid".to_string())
    );
}

#[test]
fn clock_times_without_seconds_are_taken() {
    assert_eq!(jump("07:07", TimeFormat::DateTime).unwrap(), START_US + 20_000_000);
}

#[test]
fn jumps_do_not_go_before_1970() {
    assert_eq!(offset_jump(Some(-5), 3), Ok(0));
    assert_eq!(offset_jump(Some(5), 3), Ok(8));
    assert_eq!(jump("1969-12-31 23:59:59", TimeFormat::DateTime), Ok(0));
    assert_eq!(datetime_jump(None, Some(86_400), Some((61, 500_000_000)), None), Ok(86_461_500_000));
    assert_eq!(datetime_jump(None, Some(-86_400), None, Some((60, 0))), Ok(0));
}

#[test]
fn seconds_are_what_stands_between_t_and_s() {
    assert_eq!(seconds_text(" T+4.5s "), "+4.5");
    assert_eq!(seconds_text("12"), "12");
    assert_eq!(seconds_text("Ts"), "");
}

#[test]
fn absolute_times_are_shown_in_utc() {
    assert_eq!(format_datetime(START_US), "2024-07-17 07:06:40.000");
    assert_eq!(format_datetime(START_US + 123_456), "2024-07-17 07:06:40.123");
    assert_eq!(format_datetime((1 << 63) - 1), "(9223372036854775807 us)");
}

#[test]
fn offsets_are_shown_in_milliseconds() {
    assert_eq!(format_offset(START_US + 1_500_000, START_US), "T+1.500s");
    assert_eq!(format_offset(START_US, START_US + 250_000), "T-0.250s");
    assert_eq!(format_offset(7, 7), "T+0.000s");
    for us in [499u64, 500, 501, 1_500, 2_500, 1_234_567, 999_999_999_999] {
        let want = format!("{:.3}", us as f64 / 1e6);
        let ms = to_milliseconds(us);
        assert_eq!(format!("{}.{:03}", ms / 1000, ms % 1000), want);
        assert_eq!(format_offset(us, 0), format!("T+{want}s"));
    }
}
