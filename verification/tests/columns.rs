//! Column definitions.

use mavlog::column::{parse_columns, CustomColumn};

#[test]
fn parses_column_definitions() {
    let cols =
        parse_columns("alt = 1:1 GLOBAL_POSITION_INT.relative_alt, spd = vfr_hud.groundspeed")
            .ok()
            .unwrap();
    assert_eq!(cols.len(), 2);
    assert_eq!(cols[0].name, "alt");
    assert_eq!((cols[0].sysid, cols[0].compid), (Some(1), Some(1)));
    assert_eq!(cols[0].msg_type, "GLOBAL_POSITION_INT");
    assert_eq!(cols[0].field, "relative_alt");
    assert_eq!(cols[0].to_text(), "alt = 1:1 GLOBAL_POSITION_INT.relative_alt");
    assert_eq!((cols[1].sysid, cols[1].compid), (None, None));
    assert_eq!(cols[1].to_text(), "spd = VFR_HUD.groundspeed");

    assert!(parse_columns("").ok().unwrap().is_empty());
    assert!(parse_columns("noexpr").is_err());
    assert!(parse_columns("x = HEARTBEAT").is_err()); // missing .field
    assert!(parse_columns("x = 1:1").is_err()); // missing type
    assert!(parse_columns("= HEARTBEAT.custom_mode").is_err());
}

fn message(line: &str) -> String {
    parse_columns(line).err().unwrap()
}

#[test]
fn column_errors_name_what_is_wrong() {
    let usage = |part: &str| format!("expected NAME = [sys[:comp]] TYPE.FIELD in '{part}'");
    assert_eq!(message("noexpr"), usage("noexpr"));
    assert_eq!(message(" = A.b"), usage("= A.b"));
    assert_eq!(message("x = A"), usage("x = A"));
    assert_eq!(message("x = A."), usage("x = A."));
    assert_eq!(message("x = .b"), usage("x = .b"));
    assert_eq!(message("x = A.b C.d"), usage("x = A.b C.d"));
    assert_eq!(message("x = 1:1"), usage("x = 1:1"));
    assert_eq!(message("x = 1:1 2:2 A.b"), "more than one id spec in 'x = 1:1 2:2 A.b'");
    assert_eq!(message("x = 300 A.b"), "bad id '300' in 'x = 300 A.b'");
}

#[test]
fn column_line_is_stable_once_written() {
    let write = |line: &str| {
        let texts: Vec<String> =
            parse_columns(line).ok().unwrap().iter().map(|c| c.to_text()).collect();
        texts.join(", ")
    };
    let once = write(" alt=baro.Alt ,, r =  :1 attitude.roll.x");
    assert_eq!(once, "alt = BARO.Alt, r = *:1 ATTITUDE.roll.x");
    assert_eq!(write(&once), once);
}

#[test]
fn copied_column_is_the_same() {
    let c = CustomColumn {
        name: "alt".to_string(),
        sysid: Some(1),
        compid: None,
        msg_type: "BARO".to_string(),
        field: "Alt".to_string(),
        source: None,
        matches: vec![1, 4],
    };
    let d = c.copied();
    assert_eq!(d.to_text(), c.to_text());
    assert_eq!(d.matches, vec![1, 4]);
}

#[test]
fn a_column_takes_one_id_spec() {
    let error = |line: &str| parse_columns(line).err().unwrap();
    assert_eq!(error("x = *:* 1:1 A.b"), "more than one id spec in 'x = *:* 1:1 A.b'");
    assert_eq!(error("x = 1 * A.b"), "more than one id spec in 'x = 1 * A.b'");
    assert_eq!(parse_columns("x = * A.b").ok().unwrap()[0].to_text(), "x = A.b");
}
