//! Filter expressions and name matching.

use mavlog::entry::{EntryKind, LogEntry, LogSourceId, MavlinkVersion};
use mavlog::filter::{match_labels, name_matches, parse_filters, source_token};
use mavlog::glob;
use mavlog::text;

fn entry(sysid: u8, compid: u8, name: &str) -> LogEntry {
    LogEntry {
        timestamp_us: 0,
        sysid: Some(sysid),
        compid: Some(compid),
        payload: 0..0,
        name: name.to_string(),
        kind: EntryKind::Mavlink { msg_id: 0, version: MavlinkVersion::V2 },
        source: LogSourceId::Primary,
    }
}

#[test]
fn parses_filter_expressions() {
    let exprs = parse_filters("1:1 HEARTBEAT, GPS*, 255,  :50").ok().unwrap();
    assert_eq!(exprs.len(), 4);
    assert_eq!((exprs[0].sysid, exprs[0].compid), (Some(1), Some(1)));
    assert_eq!(exprs[0].name.as_deref(), Some("heartbeat"));
    assert_eq!((exprs[1].sysid, exprs[1].compid), (None, None));
    assert_eq!((exprs[2].sysid, exprs[2].compid), (Some(255), None));
    assert!(exprs[2].name.is_none());
    assert_eq!((exprs[3].sysid, exprs[3].compid), (None, Some(50)));
    assert!(exprs.iter().all(|e| e.enabled));

    assert!(parse_filters("").ok().unwrap().is_empty());
    assert!(parse_filters("999 FOO").is_err());
    assert!(parse_filters("1:1 2:2").is_err());
    assert!(parse_filters("FOO BAR").is_err());
}

#[test]
fn parses_disabled_expressions() {
    let exprs = parse_filters("=HEARTBEAT, !GPS*, !  1:1").ok().unwrap();
    assert!(exprs[0].enabled);
    assert!(!exprs[1].enabled);
    assert_eq!(exprs[1].name.as_deref(), Some("gps*"));
    assert!(!exprs[2].enabled);
    assert_eq!((exprs[2].sysid, exprs[2].compid), (Some(1), Some(1)));

    // A '!' with nothing after it expresses intent that can't be honored.
    assert!(parse_filters("!").is_err());
    assert!(parse_filters("GPS, !").is_err());
}

#[test]
fn exact_type_match() {
    let exprs = parse_filters("=ATTITUDE").ok().unwrap();
    assert!(exprs[0].exact);
    assert!(exprs[0].matches(&entry(1, 1, "ATTITUDE")));
    assert!(!exprs[0].matches(&entry(1, 1, "ATTITUDE_TARGET")));

    // Substring filters (no '=') do match extensions of the name.
    let loose = parse_filters("ATTITUDE").ok().unwrap();
    assert!(loose[0].matches(&entry(1, 1, "ATTITUDE_TARGET")));
}

#[test]
fn filter_text_roundtrip() {
    for text in [
        "1:1 =HEARTBEAT",
        "GPS*",
        "255:*",
        "*:50 =VFR_HUD",
        "*",
        "!1:1 =HEARTBEAT",
        "!GPS*",
        "!*",
    ] {
        let exprs = parse_filters(text).ok().unwrap();
        assert_eq!(exprs[0].to_text(), text, "roundtrip of '{text}'");
    }
}

#[test]
fn filter_expressions_match() {
    let exprs = parse_filters("1:1 HEART, GPS*STATUS, 255").ok().unwrap();
    let matches = |e: &LogEntry| exprs.iter().any(|f| f.matches(e));

    assert!(matches(&entry(1, 1, "HEARTBEAT")));
    assert!(!matches(&entry(2, 1, "HEARTBEAT")));
    assert!(matches(&entry(2, 1, "GPS_RAW_STATUS")));
    assert!(!matches(&entry(2, 1, "GPS_RAW_INT")));
    assert!(matches(&entry(255, 190, "PARAM_REQUEST_LIST")));
    assert!(!matches(&entry(1, 1, "ATTITUDE")));
}

#[test]
fn source_qualifier_parses_and_matches() {
    let exprs = parse_filters("@bin GPS, @tlog").ok().unwrap();
    assert_eq!(exprs[0].source, Some(LogSourceId::Secondary));
    assert_eq!(exprs[0].name.as_deref(), Some("gps"));
    assert_eq!(exprs[1].source, Some(LogSourceId::Primary));
    assert_eq!(exprs[0].to_text(), "@bin GPS"); // round-trips

    let mut e = entry(1, 1, "GPS");
    e.source = LogSourceId::Secondary;
    assert!(exprs[0].matches(&e));
    e.source = LogSourceId::Primary;
    assert!(!exprs[0].matches(&e)); // right type, wrong source

    assert!(parse_filters("@nope").is_err());
}

#[test]
fn filter_errors_name_what_is_wrong() {
    let message = |line: &str| parse_filters(line).err().unwrap();
    assert_eq!(message("!"), "empty filter expression after '!'");
    assert_eq!(message("1:1 2:2"), "more than one id spec in '1:1 2:2'");
    assert_eq!(message("FOO BAR"), "more than one message type in 'FOO BAR'");
    assert_eq!(message("999 FOO"), "bad id '999' in '999 FOO'");
    assert_eq!(message("@nope"), "unknown source '@nope' (use @tlog or @bin)");
    assert_eq!(message("@bin @tlog"), "more than one source in '@bin @tlog'");
}

#[test]
fn filter_line_is_stable_once_written() {
    let line = " @BIN  gps ,, 1 =heartbeat , ! :50";
    let write = |line: &str| {
        let texts: Vec<String> =
            parse_filters(line).ok().unwrap().iter().map(|f| f.to_text()).collect();
        texts.join(", ")
    };
    let once = write(line);
    assert_eq!(once, "@bin GPS, 1:* =HEARTBEAT, !*:50");
    assert_eq!(write(&once), once);
}

#[test]
fn source_tokens_are_those_of_the_formats() {
    assert_eq!(source_token(LogSourceId::Primary), "tlog");
    assert_eq!(source_token(LogSourceId::Secondary), "bin");
}

#[test]
fn names_match_by_substring_or_glob() {
    assert!(name_matches("tit", "ATTITUDE"));
    assert!(!name_matches("roll", "ATTITUDE"));
    assert!(name_matches("gps*", "GPS_RAW_INT"));
    assert!(!name_matches("gps*", "MY_GPS"));
    assert!(name_matches("*raw*int", "GPS_RAW_INT"));
    assert!(!name_matches("*raw*int", "GPS_RAW_INT_2"));
    assert!(name_matches("GPS", "GPS_RAW_INT"));
    assert!(name_matches("Gps*Int", "gps_RAW_int"));
    assert!(name_matches("*", ""));
    // The anchored ends must not overlap.
    assert!(!name_matches("aba*aba", "ABABA"));
    assert!(name_matches("aba*aba", "ABAABA"));
}

#[test]
fn glob_star_stands_for_any_run() {
    let on = |pattern: &str, name: &str| {
        glob::matches(&text::chars_of(pattern), &text::chars_of(name))
    };
    assert!(on("a*c", "abbbc"));
    assert!(on("a*c", "ac"));
    assert!(!on("a*c", "abd"));
    assert!(on("*", "anything"));
}

#[test]
fn labels_match_in_any_case() {
    let labels = vec!["HEARTBEAT".to_string(), "GPS_RAW_INT".to_string(), "gps2".to_string()];
    assert_eq!(match_labels(&labels, "Gps"), vec![1, 2]);
    assert_eq!(match_labels(&labels, ""), vec![0, 1, 2]);
    assert!(match_labels(&labels, "x").is_empty());
}

#[test]
fn an_expression_takes_one_id_spec() {
    let error = |line: &str| parse_filters(line).err().unwrap();
    assert_eq!(error("*:* 1:1"), "more than one id spec in '*:* 1:1'");
    assert_eq!(error("1:1 *:*"), "more than one id spec in '1:1 *:*'");
    assert_eq!(error(": :"), "more than one id spec in ': :'");
    // A bare '*' is a type pattern.
    assert_eq!(parse_filters("*:* *").ok().unwrap()[0].name.as_deref(), Some("*"));
}

#[test]
fn patterns_that_start_negated_read_back() {
    let exprs = parse_filters("*:* !x, !!y").ok().unwrap();
    assert_eq!(exprs[0].to_text(), "*:* !X");
    assert_eq!(exprs[1].to_text(), "!!Y");
    let again = parse_filters("*:* !X, !!Y").ok().unwrap();
    assert!(again[0].enabled && !again[1].enabled);
    assert_eq!(again[0].name.as_deref(), Some("!x"));
    assert_eq!(again[1].name.as_deref(), Some("!y"));
}
