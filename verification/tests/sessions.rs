//! Sessions: filtering, selection, columns, marks and saved setups.

use std::collections::{BTreeMap, HashMap};

use mavlog::column::parse_columns;
use mavlog::entry::{EntryKind, LogEntry, LogSourceId, MavlinkVersion};
use mavlog::filter::parse_filters;
use mavlog::marks;
use mavlog::plot::{PlotDef, SeriesDef};
use mavlog::session::Session;
use mavlog::setup::{setup_path, Setup};
use mavlog::time::TimeFormat;
use mavlog::value::Piece;

fn entry(ts_us: u64, sysid: u8, name: &str) -> LogEntry {
    LogEntry {
        timestamp_us: ts_us,
        sysid: Some(sysid),
        compid: Some(1),
        payload: 0..0,
        name: name.to_string(),
        kind: EntryKind::Mavlink { msg_id: 0, version: MavlinkVersion::V2 },
        source: LogSourceId::Primary,
    }
}

fn session(path: &str) -> Session {
    let entries = vec![
        entry(1_000_000, 1, "HEARTBEAT"),
        entry(2_000_000, 1, "ATTITUDE"),
        entry(3_000_000, 2, "HEARTBEAT"),
        entry(4_000_000, 1, "VFR_HUD"),
    ];
    Session::new(path.to_string(), Vec::new(), entries, None)
}

#[test]
fn id_and_type_options_are_sorted_and_deduped() {
    let s = session("x");
    assert_eq!(s.id_options, vec![(1, 1), (2, 1)]);
    assert_eq!(
        s.type_options,
        vec!["ATTITUDE".to_string(), "HEARTBEAT".to_string(), "VFR_HUD".to_string()]
    );
}

#[test]
fn apply_filter_narrows_and_preserves_selection() {
    let mut s = session("x");
    s.selected = 3; // VFR_HUD
    s.filters = parse_filters("=HEARTBEAT").ok().unwrap();
    s.apply_filter();
    assert_eq!(s.filtered, vec![0, 2]);
    // Selection moves to the nearest surviving entry at or before the old.
    assert_eq!(s.selected_entry_index(), Some(2));
}

#[test]
fn filtering_selects_the_closest_message() {
    let mut s = session("x");
    s.entries[2].name = "ATTITUDE".to_string();
    s.entries[3].name = "HEARTBEAT".to_string();
    s.selected = 1;
    s.filters = parse_filters("=HEARTBEAT").ok().unwrap();
    s.apply_filter();
    assert_eq!(s.filtered, vec![0, 3]);
    assert_eq!(s.selected_entry_index(), Some(0));
    // Of two equally close ones the later one.
    let mut t = session("x");
    t.selected = 1;
    t.filters = parse_filters("=HEARTBEAT").ok().unwrap();
    t.apply_filter();
    assert_eq!(t.selected_entry_index(), Some(2));
}

#[test]
fn disabled_filters_do_not_narrow() {
    let mut s = session("x");
    // A single disabled filter matches nothing to hide: show everything.
    s.filters = parse_filters("!=HEARTBEAT").ok().unwrap();
    s.apply_filter();
    assert_eq!(s.filtered, vec![0, 1, 2, 3]);

    // With one enabled and one disabled, only the enabled one applies.
    s.filters = parse_filters("=HEARTBEAT, !=ATTITUDE").ok().unwrap();
    s.apply_filter();
    assert_eq!(s.filtered, vec![0, 2]);

    // Re-enabling the second filter widens the result.
    s.filters[1].enabled = true;
    s.apply_filter();
    assert_eq!(s.filtered, vec![0, 1, 2]);
}

#[test]
fn disabled_filters_roundtrip_through_sidecar() {
    let mut s = session("x");
    s.filters = parse_filters("=HEARTBEAT, !=ATTITUDE").ok().unwrap();
    s.rebuild_filter_text();
    assert_eq!(s.filter_text, "=HEARTBEAT, !=ATTITUDE");
    s.apply_filter();
    let saved = s.current_setup();
    s.save_setup(Ok(())).unwrap();

    let mut restored = session("x");
    restored.load_setup(Some(Ok(saved))).unwrap();
    assert_eq!(restored.filter_text, "=HEARTBEAT, !=ATTITUDE");
    assert!(restored.filters[0].enabled);
    assert!(!restored.filters[1].enabled);
    assert_eq!(restored.filtered, vec![0, 2]);
}

#[test]
fn jump_to_time_selects_first_at_or_after() {
    let mut s = session("x");
    s.jump_to_time(2_500_000);
    assert_eq!(s.selected_entry_index(), Some(2)); // ts 3_000_000
}

#[test]
fn jump_past_the_end_selects_the_last() {
    let mut s = session("x");
    s.jump_to_time(9_000_000);
    assert_eq!(s.selected_entry_index(), Some(3));
    s.jump_to_time(0);
    assert_eq!(s.selected_entry_index(), Some(0));
    // Nothing visible: the selection stays.
    s.selected = 1;
    s.filtered = Vec::new();
    s.jump_to_time(0);
    assert_eq!(s.selected, 1);
}

#[test]
fn select_entry_lands_on_nearest_visible() {
    let mut s = session("x");
    s.filters = parse_filters("=HEARTBEAT").ok().unwrap();
    s.apply_filter();
    assert_eq!(s.filtered, vec![0, 2]);
    // Entry 1 (ATTITUDE) is filtered out; the nearest visible at-or-after is
    // entry 2.
    s.select_entry(1);
    assert_eq!(s.selected_entry_index(), Some(2));
    // An exact visible entry selects itself.
    s.select_entry(0);
    assert_eq!(s.selected_entry_index(), Some(0));
}

#[test]
fn setup_roundtrips_through_sidecar() {
    let mut s = session("x");
    s.time_format = TimeFormat::OffsetSecs;
    s.filters = parse_filters("=HEARTBEAT").ok().unwrap();
    s.rebuild_filter_text();
    s.apply_filter();
    s.marks.insert(2, "mark2".to_string());
    s.marks.insert(999, "out of range".to_string()); // dropped on load
    s.selected = 1; // filtered[1] == entry 2
    let saved = s.current_setup();
    s.save_setup(Ok(())).unwrap();

    let mut restored = session("x");
    assert!(restored.load_setup(Some(Ok(saved))).unwrap().starts_with("Loaded setup"));
    assert_eq!(restored.time_format, TimeFormat::OffsetSecs);
    assert_eq!(restored.filter_text, "=HEARTBEAT");
    assert_eq!(restored.filtered, vec![0, 2]);
    assert_eq!(restored.marks.get(&2).map(String::as_str), Some("mark2"));
    assert!(!restored.marks.contains_key(&999));
    assert_eq!(restored.selected_entry_index(), Some(2));
}

#[test]
fn is_dirty_tracks_edits_and_saves() {
    // A freshly opened file with no edits is clean.
    let mut s = session("x");
    assert!(!s.is_dirty());

    // Moving the selection is navigation, not an edit worth warning about.
    s.selected = 2;
    assert!(!s.is_dirty());

    // An actual edit (a mark) makes it dirty.
    s.marks.insert(1, String::new());
    assert!(s.is_dirty());

    // Saving clears the dirty flag.
    let saved = s.current_setup();
    s.save_setup(Ok(())).unwrap();
    assert!(!s.is_dirty());

    // A further edit is dirty again; loading the saved setup restores clean.
    s.marks.insert(2, "note".to_string());
    assert!(s.is_dirty());
    s.load_setup(Some(Ok(saved))).unwrap();
    assert!(!s.is_dirty());
}

#[test]
fn only_a_written_setup_counts_as_saved() {
    let mut s = session("logs/a.tlog");
    s.filters = parse_filters("=HEARTBEAT").ok().unwrap();
    s.rebuild_filter_text();
    s.apply_filter();
    s.marks.insert(2, "here".to_string());
    s.selected = 1;
    assert_eq!(
        s.save_setup(Err("disk full".to_string())),
        Err("Failed to save logs/a.tlog.mavlog.json: disk full".to_string())
    );
    assert!(s.is_dirty());
    assert_eq!(s.save_setup(Ok(())), Ok("logs/a.tlog.mavlog.json".to_string()));
    assert!(!s.is_dirty());
    assert_eq!((s.filter_text.as_str(), s.selected), ("=HEARTBEAT", 1));
    assert_eq!(s.filtered, vec![0, 2]);
    assert_eq!(s.marks.get(&2).map(String::as_str), Some("here"));
    // A failed write does not undo an earlier one.
    assert!(s.save_setup(Err("read-only".to_string())).is_err());
    assert!(!s.is_dirty());
}

#[test]
fn setups_that_cannot_be_read_change_nothing() {
    let mut s = session("a.tlog");
    s.marks.insert(1, "kept".to_string());
    assert!(s.load_setup(None).is_none());
    assert_eq!(
        s.load_setup(Some(Err("bad json".to_string()))).unwrap(),
        "Failed to load a.tlog.mavlog.json: bad json"
    );
    assert_eq!(s.marks.len(), 1);
    assert!(s.is_dirty());
    let status = s.load_setup(Some(Ok(Setup::default()))).unwrap();
    assert_eq!(status, "Loaded setup from a.tlog.mavlog.json");
    assert!(s.marks.is_empty() && !s.is_dirty());
}

#[test]
fn every_kind_of_edit_makes_a_session_dirty() {
    let mut s = session("x");
    s.time_format = TimeFormat::OffsetSecs;
    assert!(s.is_dirty());
    s.time_format = TimeFormat::DateTime;
    assert!(!s.is_dirty());
    s.filter_text = "GPS".to_string();
    assert!(s.is_dirty());
    s.filter_text = String::new();
    s.set_columns(parse_columns("a = HEARTBEAT.type").ok().unwrap());
    assert!(s.is_dirty());
    s.set_columns(Vec::new());
    assert!(!s.is_dirty());
    s.plots.push(PlotDef { name: "p".to_string(), series: Vec::new(), show_marks: true });
    assert!(s.is_dirty());
}

#[test]
fn unreadable_lines_of_a_setup_are_left_out() {
    let mut s = session("x");
    s.filters = parse_filters("=HEARTBEAT").ok().unwrap();
    s.rebuild_filter_text();
    let setup = Setup {
        filter: "FOO BAR".to_string(),
        columns: "nonsense".to_string(),
        selected: 3,
        ..Setup::default()
    };
    s.apply_setup(setup);
    assert_eq!(s.filter_text, "=HEARTBEAT");
    assert!(s.columns.is_empty());
    assert_eq!(s.filtered, vec![0, 2]);
    assert_eq!(s.selected_entry_index(), Some(2));
    assert!(!s.is_dirty());
}

#[test]
fn sidecar_stands_next_to_the_log() {
    assert_eq!(setup_path("logs/a.tlog"), "logs/a.tlog.mavlog.json");
}

#[test]
fn columns_read_from_their_messages() {
    let mut s = session("x");
    s.set_columns(parse_columns("a = 1:1 heartbeat.type, b = HEARTBEAT.type").ok().unwrap());
    assert_eq!(s.columns[0].matches, vec![0]);
    assert_eq!(s.columns[1].matches, vec![0, 2]);
    assert_eq!(s.columns_text, "a = 1:1 HEARTBEAT.type, b = HEARTBEAT.type");
}

#[test]
fn column_shows_nothing_before_its_first_message() {
    let mut s = session("x");
    s.set_columns(parse_columns("v = VFR_HUD.airspeed, a = ATTITUDE.nosuch").ok().unwrap());
    assert!(s.column_value(&s.columns[0], 2).is_empty());
    // The payload is empty, which the dialect takes for zeroes; the field is not
    // one of the message.
    let shown = s.column_value(&s.columns[1], 1);
    assert!(matches!(&shown[..], [Piece::Text(t)] if t == "?"));
}

#[test]
fn dropdown_labels_start_with_any() {
    let s = session("x");
    assert_eq!(s.filter_dropdown_labels(0), vec!["any", "1:1", "2:1"]);
    assert_eq!(s.filter_dropdown_labels(1), vec!["any", "ATTITUDE", "HEARTBEAT", "VFR_HUD"]);
    assert_eq!(s.id_option_text(0), "any");
    assert_eq!(s.id_option_text(2), "2:1");
    assert_eq!(s.type_option_text(3), "VFR_HUD");
    assert_eq!(s.column_dropdown_labels(1, 0), s.filter_dropdown_labels(0));
    assert_eq!(s.column_dropdown_labels(2, 0), s.type_options);
    assert!(s.column_dropdown_labels(3, 99).is_empty());
}

#[test]
fn single_logs_have_no_sources() {
    let s = session("x");
    assert!(!s.is_merged());
    assert!(s.source_tag(LogSourceId::Primary).is_none());
    assert!(s.source_name(LogSourceId::Secondary).is_none());
    assert!(s.sync_status().is_none());
    assert!(s.session_file().is_none());
}

#[test]
fn list_time_follows_the_format() {
    let mut s = session("x");
    assert_eq!(s.format_list_time(3_250_000), "1970-01-01 00:00:03.250");
    s.time_format = TimeFormat::OffsetSecs;
    assert_eq!(s.format_list_time(3_250_000), "T+2.250s");
}

#[test]
fn sessions_are_sound_until_their_fields_do_not_fit() {
    let mut s = session("x");
    assert!(s.is_sound());
    s.set_columns(parse_columns("b = HEARTBEAT.type").ok().unwrap());
    s.filters = parse_filters("=HEARTBEAT").ok().unwrap();
    s.apply_filter();
    assert!(s.is_sound());
    s.marks.insert(4, String::new());
    assert!(!s.is_sound());
    s.marks.clear();
    s.selected = 2;
    assert!(!s.is_sound());
    s.selected = 1;
    assert!(s.is_sound());
    s.filtered = vec![2, 0];
    assert!(!s.is_sound());
    s.filtered = vec![0, 4];
    assert!(!s.is_sound());
    s.filtered = vec![0, 2];
    s.columns[0].matches = vec![7];
    assert!(!s.is_sound());
    s.columns.clear();
    s.entries[3].payload = 0..1;
    assert!(!s.is_sound());
}

#[test]
fn marks_are_listed_in_file_order() {
    let mut m: HashMap<usize, String> = HashMap::new();
    for i in [9usize, 3, 7, 1] {
        m.insert(i, format!("m{i}"));
    }
    let list = marks::listed(&m);
    let keys: Vec<usize> = list.iter().map(|p| p.0).collect();
    assert_eq!(keys, vec![1, 3, 7, 9]);
    assert_eq!(list[2].1, "m7");

    let saved: BTreeMap<usize, String> = marks::ordered(&m);
    assert_eq!(saved.len(), 4);
    let back = marks::restored(&saved, 8);
    assert_eq!(back.len(), 3);
    assert_eq!(back.get(&3).map(String::as_str), Some("m3"));
    assert!(marks::same(&saved, &marks::copied(&saved)));
    assert!(!marks::same(&saved, &marks::ordered(&back)));
}

#[test]
fn setups_compare_but_for_the_selection() {
    let a = Setup { selected: 3, filter: "GPS".to_string(), ..Setup::default() };
    let b = Setup { selected: 7, ..a.copied() };
    assert!(a.same_edits(&b));
    let c = Setup {
        plots: vec![PlotDef {
            name: "p".to_string(),
            series: vec![SeriesDef {
                sysid: None,
                compid: None,
                msg_type: "M".to_string(),
                field: "f".to_string(),
                name: None,
                unit: None,
            }],
            show_marks: true,
        }],
        ..a.copied()
    };
    assert!(!a.same_edits(&c));
}
