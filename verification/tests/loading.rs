//! Opening logs: format detection, merging and session files.

use mavlog::entry::LogSourceId;
use mavlog::load::{
    is_dataflash, is_session_file, merge_order, open_log, open_merged, open_pair, placement,
    MergeOrder,
};
use mavlog::path;
use mavlog::session::Session;
use mavlog::sync::SyncMethod;
use mavlog::time::TimeFormat;
use mavlog::value::{find_field, Field, Number, Real};

#[test]
fn autodetects_format() {
    // Extension wins, regardless of contents.
    assert!(is_dataflash("log.bin", &[0xFD, 0, 0]));
    assert!(is_dataflash("LOG.BIN", &[]));
    assert!(!is_dataflash("flight.tlog", &[0xA3, 0x95]));
    // Otherwise sniff the DataFlash magic.
    assert!(is_dataflash("mystery", &[0xA3, 0x95, 0x80]));
    assert!(!is_dataflash("mystery", &[0xFD, 9, 0]));
}

fn rec(t: u8, body: &[u8]) -> Vec<u8> {
    let mut r = vec![0xA3, 0x95, t];
    r.extend_from_slice(body);
    r
}

fn fixed(s: &str, w: usize) -> Vec<u8> {
    let mut v = s.as_bytes().to_vec();
    v.resize(w, 0);
    v
}

fn fmt(t: u8, len: u8, name: &str, format: &str, labels: &str) -> Vec<u8> {
    let mut b = vec![t, len];
    b.extend(fixed(name, 4));
    b.extend(fixed(format, 16));
    b.extend(fixed(labels, 64));
    b
}

fn trec(ts: u64, frame: &[u8]) -> Vec<u8> {
    let mut r = ts.to_be_bytes().to_vec();
    r.extend_from_slice(frame);
    r
}

const HB: &[u8] = &[0xFD, 9, 0, 0, 1, 1, 1, 0, 0, 0, 0, 0, 0, 0, 2, 3, 81, 4, 3, 0, 0];

/// SYSTEM_TIME (id 2): time_unix_usec=t0, time_boot_ms=0 -> offset = t0.
fn system_time(t0: u64) -> Vec<u8> {
    let mut payload = t0.to_le_bytes().to_vec();
    payload.extend(0u32.to_le_bytes());
    let mut st = vec![0xFD, payload.len() as u8, 0, 0, 0, 1, 1, 2, 0, 0];
    st.extend(&payload);
    st.extend([0, 0]);
    st
}

/// FMT-of-FMT + ATT FMT + one ATT at boot 1_000_000.
fn att_bin() -> Vec<u8> {
    let mut bin = rec(0x80, &fmt(0x80, 89, "FMT", "BBnNZ", "Type,Length,Name,Format,Columns"));
    bin.extend(rec(0x80, &fmt(2, 15, "ATT", "Qf", "TimeUS,Roll")));
    let mut att = 1_000_000u64.to_le_bytes().to_vec();
    att.extend(1.0f32.to_le_bytes());
    bin.extend(rec(2, &att));
    bin
}

/// A field as a double.
fn double(fields: &[Field], name: &str) -> f64 {
    match find_field(fields, name).unwrap().as_number().unwrap() {
        Number::Signed(i) => i as f64,
        Number::Unsigned(u) => u as f64,
        Number::Real(Real::Signed { raw, multiplier }) => raw as f64 * f64::from_bits(multiplier),
        Number::Real(Real::Unsigned { count, multiplier }) => {
            count as f64 * f64::from_bits(multiplier)
        }
        Number::Real(Real::Single { bits_32, multiplier }) => {
            f32::from_bits(bits_32) as f64 * f64::from_bits(multiplier)
        }
        Number::Real(Real::Double { bits_64, multiplier }) => {
            f64::from_bits(bits_64) * f64::from_bits(multiplier)
        }
    }
}

#[test]
fn loads_a_dataflash_file_end_to_end() {
    // A minimal .bin: FMT-of-FMT, a GPS FMT, and one GPS record.
    let mut data = rec(0x80, &fmt(0x80, 89, "FMT", "BBnNZ", "Type,Length,Name,Format,Columns"));
    data.extend(rec(0x80, &fmt(2, 20, "GPS", "QBLf", "TimeUS,Status,Lat,Alt")));
    let mut gps = 1_000_000u64.to_le_bytes().to_vec();
    gps.push(3);
    gps.extend((-350_000_000i32).to_le_bytes());
    gps.extend(12.5f32.to_le_bytes());
    data.extend(rec(2, &gps));

    let session = open_log("mavlog-e2e.bin".to_string(), data).ok().unwrap();

    // Detected as DataFlash: relative time, no ids, GPS type present.
    assert_eq!(session.time_format, TimeFormat::OffsetSecs);
    assert!(session.id_options.is_empty());
    assert!(session.type_options.iter().any(|t| t == "GPS"));

    let gps_entry = session.entries.iter().find(|e| e.name == "GPS").unwrap();
    assert_eq!(gps_entry.timestamp_us, 1_000_000);
    let v = session.decode_fields(gps_entry).unwrap();
    assert!((double(&v, "Lat") - (-35.0)).abs() < 1e-9);
    assert!((double(&v, "Alt") - 12.5).abs() < 1e-6);
    assert!(session.is_sound());
    assert_eq!(session.field_options("GPS"), vec!["Alt", "Lat", "Status", "TimeUS"]);
}

/// Merge two logs given in either order.
fn merged(a: &str, data_a: Vec<u8>, b: &str, data_b: Vec<u8>) -> Session {
    match merge_order(is_dataflash(a, &data_a), is_dataflash(b, &data_b)).unwrap() {
        MergeOrder::AsGiven => open_merged(a.to_string(), data_a, b.to_string(), data_b),
        MergeOrder::Swapped => open_merged(b.to_string(), data_b, a.to_string(), data_a),
    }
    .ok()
    .unwrap()
}

#[test]
fn merges_tlog_and_bin_time_synchronized() {
    let t0: u64 = 1_600_000_000_000_000;

    // --- tlog: SYSTEM_TIME (offset anchor) + two HEARTBEATs ---
    let mut tlog = trec(t0, &system_time(t0));
    tlog.extend(trec(t0, HB));
    tlog.extend(trec(t0 + 2_000_000, HB));

    // Argument order should not matter.
    let session = merged("mavlog-merge.bin", att_bin(), "mavlog-merge.tlog", tlog);

    // Aligned via SYSTEM_TIME; both logs now on the absolute axis.
    assert_eq!(session.time_format, TimeFormat::DateTime);
    assert_eq!(session.sync.as_ref().unwrap().method, SyncMethod::SystemTime);

    // Timestamps are globally ascending after the merge sort.
    let ts: Vec<u64> = session.entries.iter().map(|e| e.timestamp_us).collect();
    assert!(ts.windows(2).all(|w| w[0] <= w[1]));

    // The ATT record (boot 1_000_000 + offset t0) interleaves between the t0
    // group and the t0+2s HEARTBEAT, and decodes across the buffer join.
    let att = session.entries.iter().find(|e| e.name == "ATT").unwrap();
    assert_eq!(att.source, LogSourceId::Secondary);
    assert_eq!(att.timestamp_us, t0 + 1_000_000);
    assert!((double(&session.decode_fields(att).unwrap(), "Roll") - 1.0).abs() < 1e-6);

    // A tlog entry still decodes via the mavlink dialect.
    let hb_entry = session.entries.iter().find(|e| e.name == "HEARTBEAT").unwrap();
    assert_eq!(hb_entry.source, LogSourceId::Primary);
    let fields = session.decode_fields(hb_entry).unwrap();
    assert_eq!(find_field(&fields, "mavlink_version").unwrap().as_unsigned(), Some(3));

    // A manual nudge of +3s pushes the ATT past the t0+2s HEARTBEAT and the list
    // stays sorted; the bin entry still decodes across the join.
    let mut session = session;
    session.set_manual_offset(3_000_000);
    let ts: Vec<u64> = session.entries.iter().map(|e| e.timestamp_us).collect();
    assert!(ts.windows(2).all(|w| w[0] <= w[1]));
    let att = session.entries.iter().find(|e| e.name == "ATT").unwrap();
    assert_eq!(att.timestamp_us, t0 + 4_000_000);
    let last = session.entries.last().unwrap();
    assert_eq!(last.name, "ATT");
    assert!((double(&session.decode_fields(att).unwrap(), "Roll") - 1.0).abs() < 1e-6);
    assert!(session.is_sound());
}

#[test]
fn session_file_round_trips() {
    // Minimal tlog (SYSTEM_TIME anchor + HEARTBEAT) and bin (ATT).
    let t0: u64 = 1_600_000_000_000_000;
    let mut tlog = trec(t0, &system_time(t0));
    tlog.extend(trec(t0, HB));
    let open = || merged("mavlog-ses.tlog", tlog.clone(), "mavlog-ses.bin", att_bin());

    // Merge, mark the ATT message, save a session file.
    let mut session = open();
    let att_index = session.entries.iter().position(|e| e.name == "ATT").unwrap();
    session.marks.insert(att_index, "roll spike".to_string());
    let file = session.session_file().unwrap();
    assert_eq!(file.primary_path, "mavlog-ses.tlog");
    assert_eq!(file.secondary_path, "mavlog-ses.bin");

    // Reopen via the session file: the mark lands on the ATT message again.
    let mut reloaded = open();
    reloaded.restore(file);
    let att2 = reloaded.entries.iter().position(|e| e.name == "ATT").unwrap();
    assert_eq!(reloaded.marks.get(&att2).map(String::as_str), Some("roll spike"));
    assert!(reloaded.is_merged());
}

#[test]
fn marks_and_selection_follow_their_messages() {
    let t0: u64 = 1_600_000_000_000_000;
    let mut tlog = trec(t0, &system_time(t0));
    tlog.extend(trec(t0 + 2_000_000, HB));
    let mut s = merged("a.tlog", tlog, "a.bin", att_bin());
    let place = |s: &Session| s.entries.iter().position(|e| e.name == "ATT").unwrap();
    s.marks.insert(place(&s), "here".to_string());
    s.select_entry(place(&s));
    for offset in [5_000_000i64, -5_000_000, 0] {
        s.set_manual_offset(offset);
        let at = place(&s);
        assert_eq!(s.marks.get(&at).map(String::as_str), Some("here"));
        assert_eq!(s.marks.len(), 1);
        assert_eq!(s.selected_entry_index(), Some(at));
        assert_eq!(s.sync.unwrap().manual_offset_us, offset);
    }
    assert_eq!(s.entries[place(&s)].timestamp_us, t0 + 1_000_000);
}

#[test]
fn merged_sessions_name_their_sources() {
    let t0: u64 = 1_600_000_000_000_000;
    let s = merged("logs/a.tlog", trec(t0, &system_time(t0)), "logs/b.bin", att_bin());
    assert_eq!(s.source_tag(LogSourceId::Primary), Some("tlog"));
    assert_eq!(s.source_tag(LogSourceId::Secondary), Some("bin"));
    assert_eq!(s.source_name(LogSourceId::Primary).as_deref(), Some("a.tlog"));
    assert_eq!(s.source_name(LogSourceId::Secondary).as_deref(), Some("b.bin"));
    assert_eq!(
        s.sync_status().unwrap(),
        "Merged: bin aligned via SYSTEM_TIME (offset 1600000000.000s)"
    );
    let t = merged("a.tlog", trec(t0, HB), "b.bin", att_bin());
    assert_eq!(t.sync.unwrap().method, SyncMethod::ManualOnly);
    assert_eq!(
        t.sync_status().unwrap(),
        "Merged: no SYSTEM_TIME found \u{2014} align the logs manually"
    );
}

#[test]
fn logs_without_messages_are_refused() {
    assert_eq!(
        open_log("x.tlog".to_string(), vec![1, 2, 3]).err().unwrap(),
        "no log messages found in x.tlog"
    );
    assert_eq!(
        open_merged("a.tlog".to_string(), Vec::new(), "b.bin".to_string(), att_bin())
            .err()
            .unwrap(),
        "no log messages found in a.tlog or b.bin"
    );
}

#[test]
fn merging_takes_one_log_of_each_kind() {
    assert!(merge_order(true, true).is_none());
    assert!(merge_order(false, false).is_none());
    assert!(matches!(merge_order(false, true), Some(MergeOrder::AsGiven)));
    assert!(matches!(merge_order(true, false), Some(MergeOrder::Swapped)));
    assert_eq!(placement(Some(7)), (7, SyncMethod::SystemTime));
    assert_eq!(placement(None), (0, SyncMethod::ManualOnly));
}

#[test]
fn session_files_are_known_by_extension() {
    assert!(is_session_file("a/b.mavses"));
    assert!(is_session_file("B.MAVSES"));
    assert!(!is_session_file("mavses"));
    assert!(!is_session_file(".mavses"));
    assert!(!is_session_file("a.mavses/b.tlog"));
}

#[test]
fn file_names_are_the_last_components() {
    assert_eq!(path::label_of("a/b.tlog"), "b.tlog");
    assert_eq!(path::label_of("b.tlog"), "b.tlog");
    assert_eq!(path::label_of("a/b/"), "b");
    assert_eq!(path::label_of("a/b/."), "b");
    assert_eq!(path::label_of("a/.."), "a/..");
    assert_eq!(path::label_of("/"), "/");
    // A backslash separates components on some platforms only.
    assert_eq!(path::label_in("logs\\b.tlog", true), "b.tlog");
    assert_eq!(path::label_in("logs\\b.tlog", false), "logs\\b.tlog");
    let here = std::path::is_separator('\\');
    assert_eq!(path::label_of("logs\\b.tlog"), path::label_in("logs\\b.tlog", here));
}

#[test]
fn logs_are_found_relative_to_their_session_file() {
    assert_eq!(path::resolved("dir/s.mavses", "a.tlog"), "dir/a.tlog");
    assert_eq!(path::resolved("s.mavses", "a.tlog"), "a.tlog");
    assert_eq!(path::resolved("/s.mavses", "a.tlog"), "/a.tlog");
    assert_eq!(path::resolved("./s.mavses", "logs/a.tlog"), "./logs/a.tlog");
    assert_eq!(path::resolved("dir//./s.mavses", "a.tlog"), "dir/a.tlog");
    assert_eq!(path::resolved("dir/s.mavses", "/logs/a.tlog"), "/logs/a.tlog");
    assert_eq!(path::resolved("/", "a.tlog"), "a.tlog");
    assert_eq!(path::resolved_in("C:\\logs\\s.mavses", "a.tlog", true), "C:/logs/a.tlog");
    assert_eq!(path::resolved_in("C:\\logs\\s.mavses", "D:\\a.tlog", true), "D:\\a.tlog");
    assert_eq!(path::resolved_in("x\\s.mavses", "D:a", false), "D:a");
    // As the standard library has it.
    for s in ["dir/s.mavses", "s.mavses", "/s.mavses", "a/b/./s", "..", "a/../s", "//s", ".", ""] {
        let want = match std::path::Path::new(s).parent() {
            Some(dir) => dir.join("x/y.bin").to_str().unwrap().to_string(),
            None => "x/y.bin".to_string(),
        };
        assert_eq!(path::resolved(s, "x/y.bin"), want);
    }
}

#[test]
fn bin_messages_are_placed_by_their_own_time() {
    // Without SYSTEM_TIME the bin is unshifted: ATT stands at one second.
    let mut s = merged("a.tlog", trec(3_000_000, HB), "a.bin", att_bin());
    let time = |s: &Session| s.entries.iter().find(|e| e.name == "ATT").unwrap().timestamp_us;
    let order = |s: &Session| -> Vec<(u64, String)> {
        s.entries.iter().map(|e| (e.timestamp_us, e.name.clone())).collect()
    };
    let fresh = order(&s);
    assert_eq!(time(&s), 1_000_000);
    s.set_manual_offset(-5_000_000);
    assert_eq!(time(&s), 0);
    s.set_manual_offset(0);
    assert_eq!(time(&s), 1_000_000);
    assert_eq!(order(&s), fresh);
    s.set_manual_offset(2_000_000);
    assert_eq!(time(&s), 3_000_000);
    assert_eq!(s.entries[s.entries.len() - 1].name, "ATT"); // the tlog first
    assert!(s.is_traced() && s.is_sound());
}

#[test]
fn restored_session_files_bring_back_order_and_marks() {
    let t0: u64 = 1_600_000_000_000_000;
    let mut tlog = trec(t0, &system_time(t0));
    tlog.extend(trec(t0 + 1_500_000, HB));
    let open = || merged("a.tlog", tlog.clone(), "a.bin", att_bin());
    let mut s = open();
    s.set_manual_offset(1_000_000);
    let at = s.entries.iter().position(|e| e.name == "ATT").unwrap();
    s.marks.insert(at, "late".to_string());
    s.select_entry(at);
    let mut r = open();
    r.restore(s.session_file().unwrap());
    assert_eq!(r.entries[at].name, "ATT");
    assert_eq!(r.entries[at].timestamp_us, t0 + 2_000_000);
    assert_eq!(r.marks.get(&at).map(String::as_str), Some("late"));
    assert_eq!(r.selected_entry_index(), Some(at));
    assert_eq!(r.sync, s.sync);
    assert!(!r.is_dirty());
}

#[test]
fn logs_merge_in_either_order() {
    let t0: u64 = 1_600_000_000_000_000;
    let tlog = trec(t0, &system_time(t0));
    let both = [
        open_pair("a.tlog".to_string(), tlog.clone(), "b.bin".to_string(), att_bin()),
        open_pair("b.bin".to_string(), att_bin(), "a.tlog".to_string(), tlog.clone()),
    ];
    for s in &both {
        let s = s.as_ref().ok().unwrap();
        assert_eq!(s.path, "a.tlog");
        assert_eq!(s.secondary_path.as_deref(), Some("b.bin"));
        assert_eq!(s.entries.len(), 4);
        assert_eq!(s.entries[3].timestamp_us, t0 + 1_000_000);
        assert_eq!(s.log_places, vec![0, 1, 2, 3]);
        assert!(!s.is_dirty());
    }
    let complaint = "merging logs needs exactly one .tlog and one .bin";
    let twice = open_pair("a.tlog".to_string(), tlog.clone(), "b.tlog".to_string(), tlog.clone());
    assert_eq!(twice.err().unwrap(), complaint);
    let empty = open_pair("b.bin".to_string(), att_bin(), "a.tlog".to_string(), Vec::new());
    assert_eq!(empty.err().unwrap(), "no log messages found in a.tlog or b.bin");
}

#[test]
fn freshly_opened_logs_are_clean() {
    let mut s = open_log("a.bin".to_string(), att_bin()).ok().unwrap();
    assert_eq!(s.time_format, TimeFormat::OffsetSecs);
    assert!(!s.is_dirty());
    s.selected = 2;
    assert!(!s.is_dirty());
    s.time_format = TimeFormat::DateTime;
    assert!(s.is_dirty());
}

#[test]
fn only_the_last_manual_offset_decides() {
    let t0: u64 = 1_600_000_000_000_000;
    let mut tlog = trec(t0, &system_time(t0));
    tlog.extend(trec(t0 + 1_000_000, HB));
    tlog.extend(trec(t0 + 2_000_000, HB));
    let open = || merged("a.tlog", tlog.clone(), "a.bin", att_bin());
    let order = |s: &Session| -> Vec<(u64, String)> {
        s.entries.iter().map(|e| (e.timestamp_us, e.name.clone())).collect()
    };
    let mut s = open();
    // At the same time the tlog comes first.
    let names: Vec<String> = s.entries.iter().map(|e| e.name.clone()).collect();
    assert_eq!(names, ["SYSTEM_TIME", "FMT", "FMT", "HEARTBEAT", "ATT", "HEARTBEAT"]);
    let at = s.entries.iter().position(|e| e.name == "ATT").unwrap();
    s.marks.insert(at, "x".to_string());
    let fresh = order(&s);
    // Back and forth over the message at the same time.
    for offset in [-500_000i64, 700_000, 0] {
        s.set_manual_offset(offset);
    }
    assert_eq!(order(&s), fresh);
    assert_eq!(s.marks.get(&at).map(String::as_str), Some("x"));
    s.set_manual_offset(-500_000);
    s.set_manual_offset(1_000_000);
    let mut direct = open();
    direct.set_manual_offset(1_000_000);
    assert_eq!(order(&s), order(&direct));
}
