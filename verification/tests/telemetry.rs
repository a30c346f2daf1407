//! MAVLink telemetry logs.

use mavlog::dialect::{decoded, detail_text, label_of, message_label};
use mavlog::entry::{EntryKind, MavlinkVersion};
use mavlog::tlog::{decode, hex_dump, parse};
use mavlog::value::{find_field, Datum};

fn record(timestamp_us: u64, frame: &[u8]) -> Vec<u8> {
    let mut rec = timestamp_us.to_be_bytes().to_vec();
    rec.extend_from_slice(frame);
    rec
}

// HEARTBEAT (id 0, 9-byte payload) frames; CRC bytes are not checked.
const V1_HEARTBEAT: &[u8] = &[0xFE, 9, 0, 1, 1, 0, 0, 0, 0, 0, 2, 3, 81, 4, 3, 0, 0];
const V2_HEARTBEAT: &[u8] =
    &[0xFD, 9, 0, 0, 1, 1, 1, 0, 0, 0, 0, 0, 0, 0, 2, 3, 81, 4, 3, 0, 0];

#[test]
fn parses_v1_and_v2_records() {
    let mut data = record(1_000_000, V1_HEARTBEAT);
    data.extend(record(2_000_000, V2_HEARTBEAT));

    let entries = parse(&data);
    assert_eq!(entries.len(), 2);
    assert_eq!(entries[0].timestamp_us, 1_000_000);
    assert_eq!(entries[0].name, "HEARTBEAT");
    assert_eq!(entries[1].timestamp_us, 2_000_000);
    assert_eq!(entries[1].name, "HEARTBEAT");
    assert_eq!(entries[1].sysid, Some(1));
}

#[test]
fn decodes_payload_fields() {
    let data = record(1_000_000, V2_HEARTBEAT);
    let entries = parse(&data);
    let fields = decode(&data, &entries[0]).unwrap();
    assert_eq!(entries[0].name, "HEARTBEAT");
    assert_eq!(find_field(&fields, "mavlink_version").unwrap().as_unsigned(), Some(3));
}

#[test]
fn resyncs_after_garbage() {
    let mut data = vec![0xAA; 5];
    data.extend(record(1_000_000, V2_HEARTBEAT));

    let entries = parse(&data);
    assert_eq!(entries.len(), 1);
    assert_eq!(entries[0].timestamp_us, 1_000_000);
}

#[test]
fn unknown_message_id_is_kept() {
    let frame = [0xFD, 1, 0, 0, 0, 1, 1, 0xFF, 0xFF, 0xFE, 0, 0, 0];
    let entries = parse(&record(1, &frame));
    assert_eq!(entries.len(), 1);
    assert_eq!(entries[0].name, "UNKNOWN(16711679)");
}

#[test]
fn records_carry_ids_and_payload_ranges() {
    let data = record(5, V1_HEARTBEAT);
    let entries = parse(&data);
    assert_eq!(entries[0].payload, 14..23);
    assert_eq!(entries[0].kind, EntryKind::Mavlink { msg_id: 0, version: MavlinkVersion::V1 });
    assert_eq!((entries[0].sysid, entries[0].compid), (Some(1), Some(1)));
    assert_eq!(entries[0].id_label(), "1:1");
    assert_eq!(entries[0].msg_id(), 0);
    let v2 = parse(&record(5, V2_HEARTBEAT));
    assert_eq!(v2[0].payload, 18..27);
}

#[test]
fn signed_frames_are_longer() {
    // The signature flag adds 13 bytes behind the checksum.
    let mut frame = V2_HEARTBEAT.to_vec();
    frame[2] = 1;
    frame.extend([7; 13]);
    let mut data = record(1, &frame);
    data.extend(record(2, V2_HEARTBEAT));
    let entries = parse(&data);
    assert_eq!(entries.len(), 2);
    assert_eq!(entries[1].timestamp_us, 2);
}

#[test]
fn truncated_records_are_left_out() {
    let mut data = record(1, V2_HEARTBEAT);
    data.extend(&record(2, V2_HEARTBEAT)[..20]);
    assert_eq!(parse(&data).len(), 1);
    assert!(parse(&[]).is_empty());
    assert!(parse(&[0; 8]).is_empty());
}

#[test]
fn enum_fields_are_shown_by_name() {
    let data = record(1, V2_HEARTBEAT);
    let entries = parse(&data);
    let fields = decode(&data, &entries[0]).unwrap();
    match find_field(&fields, "mavtype").unwrap() {
        Datum::Json(j) => assert_eq!(j.enum_name.as_deref(), Some("MAV_TYPE_QUADROTOR")),
        _ => panic!("an enum"),
    }
    assert!(find_field(&fields, "nosuch").is_none());
}

#[test]
fn dialect_names_and_details_messages() {
    let payload = &V2_HEARTBEAT[10..19];
    assert_eq!(message_label(MavlinkVersion::V2, 0, payload), "HEARTBEAT");
    assert_eq!(message_label(MavlinkVersion::V2, 16_711_679, &[]), "UNKNOWN(16711679)");
    assert_eq!(label_of(Some("X".to_string()), 3), "X");
    assert_eq!(label_of(None, 3), "UNKNOWN(3)");
    let detail = detail_text(MavlinkVersion::V2, 0, payload).unwrap();
    assert!(detail.starts_with("HEARTBEAT("));
    assert!(detail.contains("mavlink_version: 3"));
    assert!(detail_text(MavlinkVersion::V2, 16_711_679, &[]).is_none());
    assert!(decoded(MavlinkVersion::V2, 16_711_679, &[]).is_none());
}

#[test]
fn fields_are_sorted_by_name() {
    let fields = decoded(MavlinkVersion::V2, 0, &V2_HEARTBEAT[10..19]).unwrap();
    let keys: Vec<&str> = fields.iter().map(|f| f.key.as_str()).collect();
    let mut sorted = keys.clone();
    sorted.sort();
    assert_eq!(keys, sorted);
    assert!(keys.contains(&"type"));
    assert!(keys.contains(&"custom_mode"));
}

#[test]
fn undecodable_payloads_are_dumped() {
    assert_eq!(hex_dump(&[]), "undecodable payload:\n");
    let bytes: Vec<u8> = (0x40..0x52).collect();
    let dump = hex_dump(&bytes);
    assert_eq!(
        dump,
        format!(
            "undecodable payload:\n0000  {:<47}  {}\n0010  {:<47}  {}\n",
            "40 41 42 43 44 45 46 47 48 49 4a 4b 4c 4d 4e 4f", "@ABCDEFGHIJKLMNO", "50 51", "PQ"
        )
    );
    assert!(hex_dump(&[0x1F, 0x7F]).ends_with("  ..\n"));
}
