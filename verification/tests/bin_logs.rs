//! ArduPilot DataFlash logs.

use mavlog::dataflash::{
    decode_detail, decode_field, decode_fields, parse, FMT_LEN, FMT_TYPE, HEAD1, HEAD2,
};
use mavlog::entry::EntryKind;
use mavlog::schema::{
    code_scale, code_size, fmt_defined_type, parse_fmt, trim_str, HUNDREDTH, ONE, TEN_MILLIONTH,
};
use mavlog::value::{find_field, Datum, Field, Number, Piece, Real};

/// Build a DataFlash record: `A3 95 type` + body bytes.
fn record(msg_type: u8, body: &[u8]) -> Vec<u8> {
    let mut r = vec![HEAD1, HEAD2, msg_type];
    r.extend_from_slice(body);
    r
}

/// A fixed-width NUL-padded field.
fn fixed(s: &str, width: usize) -> Vec<u8> {
    let mut v = s.as_bytes().to_vec();
    v.resize(width, 0);
    v
}

/// An `FMT` record body defining `msg_type` with the given name/format/labels.
fn fmt_body(def_type: u8, length: u8, name: &str, format: &str, labels: &str) -> Vec<u8> {
    let mut b = vec![def_type, length];
    b.extend(fixed(name, 4));
    b.extend(fixed(format, 16));
    b.extend(fixed(labels, 64));
    b
}

/// The self-describing FMT-of-FMT record every log opens with.
fn fmt_of_fmt() -> Vec<u8> {
    record(
        FMT_TYPE,
        &fmt_body(FMT_TYPE, FMT_LEN as u8, "FMT", "BBnNZ", "Type,Length,Name,Format,Columns"),
    )
}

fn float_of(r: Real) -> f64 {
    match r {
        Real::Signed { raw, multiplier } => raw as f64 * f64::from_bits(multiplier),
        Real::Unsigned { count, multiplier } => count as f64 * f64::from_bits(multiplier),
        Real::Single { bits_32, multiplier } => {
            f32::from_bits(bits_32) as f64 * f64::from_bits(multiplier)
        }
        Real::Double { bits_64, multiplier } => {
            f64::from_bits(bits_64) * f64::from_bits(multiplier)
        }
    }
}

/// A field as a double.
fn double(fields: &[Field], name: &str) -> f64 {
    match find_field(fields, name).unwrap().as_number().unwrap() {
        Number::Signed(i) => i as f64,
        Number::Unsigned(u) => u as f64,
        Number::Real(r) => float_of(r),
    }
}

#[test]
fn parses_fmt_and_defines_schema() {
    let mut data = fmt_of_fmt();
    // Define GPS: TimeUS(Q), Status(B), Lat(L), Alt(f) -> length 3+8+1+4+4 = 20
    data.extend(record(FMT_TYPE, &fmt_body(2, 20, "GPS", "QBLf", "TimeUS,Status,Lat,Alt")));

    let (entries, schema) = parse(&data);
    assert_eq!(entries.len(), 2); // both FMT records are viewable
    assert!(entries.iter().all(|e| e.name == "FMT"));
    let gps = schema.get(2).expect("GPS defined");
    assert_eq!(gps.name, "GPS");
    assert_eq!(gps.length, 20);
    let labels: Vec<&str> = gps.fields.iter().map(|f| f.label.as_str()).collect();
    assert_eq!(labels, ["TimeUS", "Status", "Lat", "Alt"]);
    // Offsets are consecutive within the payload.
    assert_eq!(gps.field("Lat").unwrap().offset, 9); // 8 (TimeUS) + 1 (Status)
}

#[test]
fn decodes_message_with_timestamp_and_scaling() {
    let mut data = fmt_of_fmt();
    data.extend(record(FMT_TYPE, &fmt_body(2, 20, "GPS", "QBLf", "TimeUS,Status,Lat,Alt")));
    // One GPS record: TimeUS=5_000_000, Status=3, Lat=-350000000 (=-35.0 deg), Alt=12.5
    let mut body = 5_000_000u64.to_le_bytes().to_vec();
    body.push(3);
    body.extend((-350_000_000i32).to_le_bytes());
    body.extend(12.5f32.to_le_bytes());
    data.extend(record(2, &body));

    let (entries, schema) = parse(&data);
    let gps = entries.iter().find(|e| e.name == "GPS").expect("a GPS entry");
    assert_eq!(gps.timestamp_us, 5_000_000);
    assert_eq!(gps.sysid, None);

    let payload = &data[gps.payload.clone()];
    let v = decode_fields(&schema, 2, payload).unwrap();
    assert_eq!(find_field(&v, "Status").unwrap().as_unsigned(), Some(3));
    // 'L' applies the built-in 1e-7 lat/lng scale.
    assert!((double(&v, "Lat") - (-35.0)).abs() < 1e-9);
    assert!((double(&v, "Alt") - 12.5).abs() < 1e-6);
}

#[test]
fn fmtu_multiplier_and_unit_override() {
    // BARO.Alt stored as int32 'i' but scaled by MULT '2' (=0.01) and unit "m".
    let mut data = fmt_of_fmt();
    data.extend(record(FMT_TYPE, &fmt_body(3, 15, "BARO", "Qi", "TimeUS,Alt")));
    data.extend(record(FMT_TYPE, &fmt_body(4, 76, "UNIT", "QbZ", "TimeUS,Id,Label")));
    data.extend(record(FMT_TYPE, &fmt_body(5, 20, "MULT", "Qbd", "TimeUS,Id,Mult")));
    data.extend(record(FMT_TYPE, &fmt_body(6, 44, "FMTU", "QBNN", "TimeUS,FmtType,UnitIds,MultIds")));

    // UNIT 'm' = "m"
    let mut u = 0u64.to_le_bytes().to_vec();
    u.push(b'm');
    u.extend(fixed("m", 64));
    data.extend(record(4, &u));
    // MULT '2' = 0.01
    let mut m = 0u64.to_le_bytes().to_vec();
    m.push(b'2');
    m.extend(0.01f64.to_le_bytes());
    data.extend(record(5, &m));
    // FMTU for BARO (type 3): UnitIds "-m", MultIds "-2" (field 0 TimeUS none, field 1 Alt scaled)
    let mut f = 0u64.to_le_bytes().to_vec();
    f.push(3);
    f.extend(fixed("-m", 16));
    f.extend(fixed("-2", 16));
    data.extend(record(6, &f));

    // A BARO record: TimeUS=1_000_000, Alt=1234 -> 12.34 m
    let mut body = 1_000_000u64.to_le_bytes().to_vec();
    body.extend(1234i32.to_le_bytes());
    data.extend(record(3, &body));

    let (entries, schema) = parse(&data);
    let baro = entries.iter().find(|e| e.name == "BARO").unwrap();
    let v = decode_fields(&schema, 3, &data[baro.payload.clone()]).unwrap();
    assert!((double(&v, "Alt") - 12.34).abs() < 1e-9);
    let alt = schema.get(3).unwrap().field("Alt").unwrap();
    assert_eq!(alt.unit.as_deref(), Some("m"));
    // Looked up by name (case-insensitive), as the plot editor does.
    assert_eq!(schema.field_unit("baro", "alt").as_deref(), Some("m"));
}

#[test]
fn multipliers_apply_to_float_fields() {
    let mut data = fmt_of_fmt();
    let define = |data: &mut Vec<u8>, t: u8, len: u8, name: &str, format: &str, labels: &str| {
        data.extend(record(FMT_TYPE, &fmt_body(t, len, name, format, labels)));
    };
    define(&mut data, 3, 23, "BARO", "Qfd", "TimeUS,Alt,Press");
    define(&mut data, 5, 20, "MULT", "Qbd", "TimeUS,Id,Mult");
    define(&mut data, 6, 44, "FMTU", "QBNN", "TimeUS,FmtType,UnitIds,MultIds");
    let mut m = 0u64.to_le_bytes().to_vec();
    m.push(b'2');
    m.extend(0.01f64.to_le_bytes());
    data.extend(record(5, &m));
    let mut f = 0u64.to_le_bytes().to_vec();
    f.push(3);
    f.extend(fixed("-mP", 16));
    f.extend(fixed("-22", 16));
    data.extend(record(6, &f));
    let mut body = 1_000_000u64.to_le_bytes().to_vec();
    body.extend(1234.0f32.to_le_bytes());
    body.extend(500.0f64.to_le_bytes());
    data.extend(record(3, &body));

    let (entries, schema) = parse(&data);
    let baro = entries.iter().find(|e| e.name == "BARO").unwrap();
    let v = decode_fields(&schema, 3, &data[baro.payload.clone()]).unwrap();
    assert!((double(&v, "Alt") - 12.34).abs() < 1e-9);
    assert!((double(&v, "Press") - 5.0).abs() < 1e-9);
}

#[test]
fn missing_timeus_carries_forward() {
    let mut data = fmt_of_fmt();
    data.extend(record(FMT_TYPE, &fmt_body(2, 15, "ATT", "Qf", "TimeUS,Roll")));
    data.extend(record(FMT_TYPE, &fmt_body(3, 6, "MODE", "Bh", "Mode,Reason"))); // no TimeUS
    // ATT at t=2_000_000
    let mut att = 2_000_000u64.to_le_bytes().to_vec();
    att.extend(1.0f32.to_le_bytes());
    data.extend(record(2, &att));
    // MODE with no timestamp inherits the last-seen time
    data.extend(record(3, &[1, 0, 0]));

    let (entries, _) = parse(&data);
    let mode = entries.iter().find(|e| e.name == "MODE").unwrap();
    assert_eq!(mode.timestamp_us, 2_000_000);
}

#[test]
fn resyncs_and_tolerates_truncated_tail() {
    let mut data = vec![0x00, 0xFF]; // leading garbage
    data.extend(fmt_of_fmt());
    data.extend(record(FMT_TYPE, &fmt_body(2, 15, "ATT", "Qf", "TimeUS,Roll")));
    let mut att = 7u64.to_le_bytes().to_vec();
    att.extend(1.0f32.to_le_bytes());
    data.extend(record(2, &att));
    data.extend_from_slice(&[HEAD1, HEAD2, 2, 0x01]); // truncated final record

    let (entries, _) = parse(&data);
    assert_eq!(entries.iter().filter(|e| e.name == "ATT").count(), 1);
}

#[test]
fn entries_lie_where_their_payloads_are() {
    let mut data = vec![0x55];
    data.extend(fmt_of_fmt());
    data.extend(record(FMT_TYPE, &fmt_body(2, 15, "ATT", "Qf", "TimeUS,Roll")));
    data.extend(record(2, &[1; 12]));
    let (entries, schema) = parse(&data);
    assert_eq!(entries.len(), 3);
    assert_eq!(entries[0].payload, 4..90);
    assert_eq!(entries[1].payload, 93..179);
    assert_eq!(entries[2].payload, 182..194);
    assert_eq!(entries[2].kind, EntryKind::Dataflash { msg_type: 2 });
    assert_eq!(entries[2].msg_id(), 2);
    assert_eq!(entries[2].id_label(), "");
    // A payload shorter than the layout cannot be decoded in full.
    assert!(decode_fields(&schema, 99, &[]).is_none());
}

#[test]
fn field_codes_have_sizes_and_scales() {
    let sizes = [
        ('a', 64), ('b', 1), ('B', 1), ('h', 2), ('H', 2), ('i', 4), ('I', 4), ('f', 4), ('d', 8),
        ('n', 4), ('N', 16), ('Z', 64), ('c', 2), ('C', 2), ('e', 4), ('E', 4), ('L', 4), ('M', 1),
        ('q', 8), ('Q', 8),
    ];
    for (code, size) in sizes {
        assert_eq!(code_size(code as u8), Some(size), "{code}");
    }
    assert_eq!(code_size(b'?'), None);
    assert_eq!(code_scale(b'c'), HUNDREDTH);
    assert_eq!(code_scale(b'L'), TEN_MILLIONTH);
    assert_eq!(code_scale(b'f'), ONE);
    assert_eq!(f64::from_bits(ONE), 1.0);
    assert_eq!(f64::from_bits(HUNDREDTH), 0.01);
    assert_eq!(f64::from_bits(TEN_MILLIONTH), 1e-7);
}

#[test]
fn field_values_follow_their_codes() {
    assert!(matches!(decode_field(b'b', &[0xFE], ONE), Datum::Number(Number::Signed(-2))));
    assert_eq!(decode_field(b'B', &[0xFE], ONE).as_unsigned(), Some(254));
    assert_eq!(decode_field(b'H', &[1, 2], ONE).as_unsigned(), Some(513));
    assert_eq!(decode_field(b'Q', &[255; 8], ONE).as_unsigned(), Some(u64::MAX));
    assert_eq!(decode_field(b'b', &[0xFE], ONE).as_unsigned(), None);
    assert!(matches!(
        decode_field(b'q', &(-7i64).to_le_bytes(), ONE),
        Datum::Number(Number::Signed(-7))
    ));
    match decode_field(b'c', &[0x9C, 0xFF], HUNDREDTH) {
        Datum::Number(Number::Real(r)) => assert_eq!(float_of(r), -1.0),
        _ => panic!("a scaled number"),
    }
    match decode_field(b'd', &2.5f64.to_le_bytes(), ONE) {
        Datum::Number(Number::Real(r)) => assert_eq!(float_of(r), 2.5),
        _ => panic!("a double"),
    }
    match decode_field(b'Z', &fixed("hello", 64), ONE) {
        Datum::Text(s) => assert_eq!(s, "hello"),
        _ => panic!("a text"),
    }
    let samples: Vec<u8> = (0..32i16).flat_map(|i| (-i).to_le_bytes()).collect();
    match decode_field(b'a', &samples, ONE) {
        Datum::List(list) => {
            assert_eq!(list.len(), 32);
            assert_eq!(list[31], Number::Signed(-31));
        }
        _ => panic!("a list"),
    }
}

#[test]
fn texts_end_at_the_first_nul() {
    assert_eq!(trim_str(b"GPS\0\0"), "GPS");
    assert_eq!(trim_str(b"abc"), "abc");
    assert_eq!(trim_str(b"\0abc"), "");
    // Bytes that are no UTF-8 are replaced.
    assert_eq!(trim_str(&[b'a', 0xFF, b'b', 0]), "a\u{FFFD}b");
}

#[test]
fn fmt_bodies_give_layouts() {
    let body = fmt_body(7, 10, "XY", "fBh", "A,,B,C");
    assert_eq!(fmt_defined_type(&body), 7);
    let m = parse_fmt(&body).unwrap();
    assert_eq!(m.name, "XY");
    assert_eq!(m.length, 10);
    let places: Vec<(usize, usize)> = m.fields.iter().map(|f| (f.offset, f.size)).collect();
    assert_eq!(places, [(0, 4), (4, 1), (5, 2)]);
    // Unknown codes and labels that do not go with the codes are refused.
    assert!(parse_fmt(&fmt_body(7, 14, "XY", "fB?h", "A,B,C,D")).is_none());
    assert!(parse_fmt(&fmt_body(7, 14, "XY", "fB", "A,B,C")).is_none());
    assert!(parse_fmt(&body[..20]).is_none());
}

#[test]
fn details_list_fields_with_units() {
    let mut data = fmt_of_fmt();
    data.extend(record(FMT_TYPE, &fmt_body(3, 15, "BARO", "Qi", "TimeUS,Alt")));
    let mut body = 1_000_000u64.to_le_bytes().to_vec();
    body.extend(1234i32.to_le_bytes());
    data.extend(record(3, &body));
    let (_, schema) = parse(&data);
    let pieces = decode_detail(&schema, 3, &body).unwrap();
    let shown: String = pieces
        .iter()
        .map(|p| match p {
            Piece::Text(s) => s.clone(),
            Piece::Real(r) => format!("{}", float_of(*r)),
        })
        .collect();
    assert_eq!(shown, "TimeUS: 1000000\nAlt: 1234\n");
    assert!(decode_detail(&schema, 99, &body).is_none());
}
