//! Parser for ArduPilot DataFlash `.bin` logs.
//!
//! The format is self-describing: every record is `0xA3 0x95 <type:u8>`
//! followed by a fixed-length body. `FMT` records (type 128) declare each
//! other type's name, field labels and binary layout, and `FMTU`/`UNIT`/`MULT`
//! records refine per-field multipliers and unit labels. The `FMT` records are
//! parsed into a [`Schema`], units and multipliers are resolved from the
//! metadata records, and any record is then decoded on demand via that schema.

use std::collections::HashMap;
use std::ops::Range;

use vstd::prelude::*;
use vstd::slice::slice_subrange;
use crate::entry::{EntryKind, EntryView, LogEntry, LogSourceId};
use crate::schema::{FieldFmt, FieldFmtView, MsgFmt, MsgFmtView, Schema};
use crate::value::{Datum, DatumView, Field, FieldView, Number, Piece, PieceView, Real};
use crate::{bytes, entry, index, schema, text, value};

verus! {

broadcast use vstd::std_specs::hash::group_hash_axioms;

pub const HEAD1: u8 = 0xA3;

pub const HEAD2: u8 = 0x95;

pub const FMT_TYPE: u8 = 0x80;

/// `FMT` is fixed: 3-byte header + Type(1) + Length(1) + Name(4) + Format(16)
/// + Columns(64).
pub const FMT_LEN: usize = 89;

/// What a pass over a log has gathered: the entries, the message layouts, and
/// the unit and multiplier metadata.
#[verifier::ext_equal]
pub struct ScanView {
    pub entries: Seq<EntryView>,
    pub msgs: Map<u8, MsgFmtView>,
    pub units: Map<u8, Seq<char>>,
    pub mults: Map<u8, u64>,
    pub fmtus: Map<u8, (Seq<u8>, Seq<u8>)>,
    pub last_time_us: u64,
}

/// Before anything was read.
pub open spec fn nothing() -> ScanView {
    ScanView {
        entries: seq![],
        msgs: Map::empty(),
        units: Map::empty(),
        mults: Map::empty(),
        fmtus: Map::empty(),
        last_time_us: 0,
    }
}

/// The entry for a record.
pub open spec fn record_entry(
    timestamp_us: u64,
    start: int,
    end: int,
    name: Seq<char>,
    msg_type: u8,
) -> EntryView {
    EntryView {
        timestamp_us,
        sysid: None,
        compid: None,
        start,
        end,
        name,
        kind: EntryKind::Dataflash { msg_type },
        source: LogSourceId::Primary,
    }
}

/// What is known after an `FMT` record at `pos`.
pub open spec fn after_fmt(s: ScanView, data: Seq<u8>, pos: int) -> ScanView {
    let body = data.subrange(pos + 3, pos + FMT_LEN);
    ScanView {
        entries: s.entries.push(
            record_entry(s.last_time_us, pos + 3, pos + FMT_LEN, "FMT"@, FMT_TYPE),
        ),
        msgs: match schema::declared(body) {
            Some(m) => s.msgs.insert(body[0], m),
            None => s.msgs,
        },
        ..s
    }
}

/// The first byte of a field.
pub open spec fn byte_in(m: MsgFmtView, payload: Seq<u8>, label: Seq<char>) -> Option<u8> {
    match m.bytes(payload, label) {
        Some(b) => Some(b[0]),
        None => None,
    }
}

/// The little-endian value of a field of eight bytes.
pub open spec fn word_in(m: MsgFmtView, payload: Seq<u8>, label: Seq<char>) -> Option<u64> {
    match m.bytes(payload, label) {
        Some(b) => if b.len() == 8 {
            Some(bytes::little_endian(b) as u64)
        } else {
            None
        },
        None => None,
    }
}

/// What is known after the metadata that a record may hold.
pub open spec fn with_metadata(s: ScanView, m: MsgFmtView, payload: Seq<u8>) -> ScanView {
    if m.name == "UNIT"@ {
        match (byte_in(m, payload, "Id"@), m.bytes(payload, "Label"@)) {
            (Some(id), Some(b)) => ScanView {
                units: s.units.insert(id, schema::fixed_text(b)),
                ..s
            },
            _ => s,
        }
    } else if m.name == "MULT"@ {
        match (byte_in(m, payload, "Id"@), word_in(m, payload, "Mult"@)) {
            (Some(id), Some(bits)) => ScanView { mults: s.mults.insert(id, bits), ..s },
            _ => s,
        }
    } else if m.name == "FMTU"@ {
        match (
            byte_in(m, payload, "FmtType"@),
            m.bytes(payload, "UnitIds"@),
            m.bytes(payload, "MultIds"@),
        ) {
            (Some(t), Some(u), Some(f)) => ScanView { fmtus: s.fmtus.insert(t, (u, f)), ..s },
            _ => s,
        }
    } else {
        s
    }
}

/// What is known after a record of a known type at `pos`. A record without a
/// time of its own has that of the record before it.
pub open spec fn after_record(s: ScanView, data: Seq<u8>, pos: int) -> ScanView {
    let msg_type = data[pos + 2];
    let m = s.msgs[msg_type];
    let payload = data.subrange(pos + 3, pos + m.length);
    let time = match word_in(m, payload, "TimeUS"@) {
        Some(t) => t,
        None => s.last_time_us,
    };
    ScanView {
        entries: s.entries.push(
            record_entry(time, pos + 3, pos + m.length, m.name, msg_type),
        ),
        last_time_us: time,
        ..with_metadata(s, m, payload)
    }
}

/// What is known after the pass from `pos` on. Where no record of a known type
/// starts, the search goes on one byte further; a truncated record or one whose
/// length is malformed ends the pass.
pub open spec fn scan(data: Seq<u8>, pos: int, s: ScanView) -> ScanView
    decreases data.len() - pos,
{
    if pos < 0 || pos + 3 > data.len() {
        s
    } else if data[pos] != HEAD1 || data[pos + 1] != HEAD2 {
        scan(data, pos + 1, s)
    } else if data[pos + 2] == FMT_TYPE {
        if pos + FMT_LEN > data.len() {
            s
        } else {
            scan(data, pos + FMT_LEN, after_fmt(s, data, pos))
        }
    } else if !s.msgs.contains_key(data[pos + 2]) {
        scan(data, pos + 1, s)
    } else {
        let length = s.msgs[data[pos + 2]].length;
        if length < 3 || pos + length > data.len() {
            s
        } else {
            scan(data, pos + length, after_record(s, data, pos))
        }
    }
}

/// The schema that a pass has gathered.
pub open spec fn schema_of(s: ScanView) -> Map<u8, MsgFmtView> {
    schema::resolved(s.msgs, s.units, s.mults, s.fmtus)
}

/// The raw payload bytes of a field.
fn bytes_of<'a>(f: &FieldFmt, payload: &'a [u8]) -> (r: Option<&'a [u8]>)
    requires
        f.offset <= 1024,
        f.size <= 64,
    ensures
        match f@.bytes(payload@) {
            Some(b) => r matches Some(v) && v@ == b,
            None => r is None,
        },
{
    if f.offset + f.size <= payload.len() {
        Some(slice_subrange(payload, f.offset, f.offset + f.size))
    } else {
        None
    }
}

/// Read a field's raw payload bytes by label.
fn field_bytes<'a>(fmt: &MsgFmt, payload: &'a [u8], label: &str) -> (r: Option<&'a [u8]>)
    requires
        fmt@.wf(),
    ensures
        match fmt@.bytes(payload@, label@) {
            Some(b) => r matches Some(v) && v@ == b && v@.len() > 0,
            None => r is None,
        },
{
    match fmt.field(label) {
        Some(f) => {
            proof {
                lemma_known_field(fmt, f);
            }
            bytes_of(f, payload)
        },
        None => None,
    }
}

/// A field of a well-formed layout has a moderate offset and size.
proof fn lemma_known_field(fmt: &MsgFmt, f: &FieldFmt)
    requires
        fmt@.wf(),
        fmt.fields@.contains(*f),
    ensures
        f.offset <= 1024,
        1 <= f.size <= 64,
        schema::width(f.code) == Some(f.size as int),
{
    let i = choose|i: int| 0 <= i < fmt.fields@.len() && fmt.fields@[i] == *f;
    assert(fmt@.fields[i] == f@);
}

fn u8_field(fmt: &MsgFmt, payload: &[u8], label: &str) -> (r: Option<u8>)
    requires
        fmt@.wf(),
    ensures
        r == byte_in(fmt@, payload@, label@),
{
    match field_bytes(fmt, payload, label) {
        Some(b) => Some(b[0]),
        None => None,
    }
}

fn u64_field(fmt: &MsgFmt, payload: &[u8], label: &str) -> (r: Option<u64>)
    requires
        fmt@.wf(),
    ensures
        r == word_in(fmt@, payload@, label@),
{
    match field_bytes(fmt, payload, label) {
        Some(b) => if b.len() == 8 {
            Some(bytes::le_u64(b))
        } else {
            None
        },
        None => None,
    }
}

fn str_field(fmt: &MsgFmt, payload: &[u8], label: &str) -> (r: Option<String>)
    requires
        fmt@.wf(),
    ensures
        value::text_of(r) == match fmt@.bytes(payload@, label@) {
            Some(b) => Some(schema::fixed_text(b)),
            None => None,
        },
{
    match field_bytes(fmt, payload, label) {
        Some(b) => Some(schema::trim_str(b)),
        None => None,
    }
}

fn bytes_field(fmt: &MsgFmt, payload: &[u8], label: &str) -> (r: Option<Vec<u8>>)
    requires
        fmt@.wf(),
    ensures
        (match r {
            Some(v) => Some(v@),
            None => None,
        }) == fmt@.bytes(payload@, label@),
{
    match field_bytes(fmt, payload, label) {
        Some(b) => {
            let mut v: Vec<u8> = Vec::new();
            v.extend_from_slice(b);
            assert(v@ =~= b@);
            Some(v)
        },
        None => None,
    }
}

/// What a pass over a log has gathered.
struct Scan {
    entries: Vec<LogEntry>,
    msgs: HashMap<u8, MsgFmt>,
    units: HashMap<u8, String>,
    mults: HashMap<u8, u64>,
    fmtus: HashMap<u8, (Vec<u8>, Vec<u8>)>,
    last_time_us: u64,
}

impl View for Scan {
    type V = ScanView;

    closed spec fn view(&self) -> ScanView {
        ScanView {
            entries: entry::entry_views(self.entries@),
            msgs: schema::msg_views(self.msgs@),
            units: schema::text_views(self.units@),
            mults: self.mults@,
            fmtus: schema::ref_views(self.fmtus@),
            last_time_us: self.last_time_us,
        }
    }
}

impl Scan {
    /// Before anything was read.
    fn new() -> (r: Scan)
        ensures
            r@ == nothing(),
    {
        let r = Scan {
            entries: Vec::new(),
            msgs: HashMap::new(),
            units: HashMap::new(),
            mults: HashMap::new(),
            fmtus: HashMap::new(),
            last_time_us: 0,
        };
        assert(r@ =~= nothing());
        r
    }

    /// Add an entry.
    fn push(&mut self, timestamp_us: u64, start: usize, end: usize, name: String, msg_type: u8)
        ensures
            final(self)@ == (ScanView {
                entries: old(self)@.entries.push(
                    record_entry(timestamp_us, start as int, end as int, name@, msg_type),
                ),
                ..old(self)@
            }),
    {
        let e = LogEntry {
            timestamp_us,
            sysid: None,
            compid: None,
            payload: Range { start, end },
            name,
            kind: EntryKind::Dataflash { msg_type },
            source: LogSourceId::Primary,
        };
        let ghost before = self.entries@;
        self.entries.push(e);
        assert(entry::entry_views(self.entries@) =~= entry::entry_views(before).push(e@));
    }

    /// Read an `FMT` record.
    fn read_fmt(&mut self, data: &[u8], pos: usize)
        requires
            schema::all_wf(old(self)@.msgs),
            pos + FMT_LEN <= data@.len(),
        ensures
            final(self)@ == after_fmt(old(self)@, data@, pos as int),
            schema::all_wf(final(self)@.msgs),
    {
        let total: usize = data.len();
        assert(pos + FMT_LEN <= total);
        let body = slice_subrange(data, pos + 3, pos + FMT_LEN);
        if let Some(fmt) = schema::parse_fmt(body) {
            let ghost before = self.msgs@;
            let t = schema::fmt_defined_type(body);
            self.msgs.insert(t, fmt);
            assert(schema::msg_views(self.msgs@) =~= schema::msg_views(before).insert(t, fmt@));
        }
        let time = self.last_time_us;
        self.push(time, pos + 3, pos + FMT_LEN, "FMT".to_string(), FMT_TYPE);
        assert(self@ =~= after_fmt(old(self)@, data@, pos as int));
    }

    /// Collect unit, multiplier and `FMTU` metadata.
    fn read_metadata(&mut self, msg_type: u8, payload: &[u8])
        requires
            schema::all_wf(old(self)@.msgs),
            old(self)@.msgs.contains_key(msg_type),
        ensures
            final(self)@ == with_metadata(old(self)@, old(self)@.msgs[msg_type], payload@),
            final(self)@.msgs == old(self)@.msgs,
            final(self)@.entries == old(self)@.entries,
            final(self)@.last_time_us == old(self)@.last_time_us,
    {
        let fmt = match self.msgs.get(&msg_type) {
            Some(fmt) => fmt,
            None => return,
        };
        assert(fmt@ == self@.msgs[msg_type]);
        if text::same_str(fmt.name.as_str(), "UNIT") {
            if let (Some(id), Some(label)) = (
                u8_field(fmt, payload, "Id"),
                str_field(fmt, payload, "Label"),
            ) {
                let ghost before = self.units@;
                self.units.insert(id, label);
                assert(schema::text_views(self.units@) =~= schema::text_views(before).insert(
                    id,
                    label@,
                ));
            }
        } else if text::same_str(fmt.name.as_str(), "MULT") {
            if let (Some(id), Some(m)) = (
                u8_field(fmt, payload, "Id"),
                u64_field(fmt, payload, "Mult"),
            ) {
                self.mults.insert(id, m);
            }
        } else if text::same_str(fmt.name.as_str(), "FMTU") {
            if let (Some(t), Some(u), Some(m)) = (
                u8_field(fmt, payload, "FmtType"),
                bytes_field(fmt, payload, "UnitIds"),
                bytes_field(fmt, payload, "MultIds"),
            ) {
                let ghost before = self.fmtus@;
                let refs = (u, m);
                self.fmtus.insert(t, refs);
                assert(schema::ref_views(self.fmtus@) =~= schema::ref_views(before).insert(
                    t,
                    (refs.0@, refs.1@),
                ));
            }
        }
        assert(self@ =~= with_metadata(old(self)@, old(self)@.msgs[msg_type], payload@));
    }

    /// Read a record of a known type.
    fn read_record(&mut self, data: &[u8], pos: usize, end: usize)
        requires
            schema::all_wf(old(self)@.msgs),
            pos + 3 <= end <= data@.len(),
            old(self)@.msgs.contains_key(data@[pos + 2]),
            end == pos + old(self)@.msgs[data@[pos + 2]].length,
        ensures
            final(self)@ == after_record(old(self)@, data@, pos as int),
            final(self)@.msgs == old(self)@.msgs,
    {
        let msg_type = data[pos + 2];
        let payload = slice_subrange(data, pos + 3, end);
        let (name, time) = match self.msgs.get(&msg_type) {
            Some(fmt) => (fmt.name.clone(), u64_field(fmt, payload, "TimeUS")),
            None => return,
        };
        assert(schema::msg_views(self.msgs@)[msg_type] == self@.msgs[msg_type]);
        self.read_metadata(msg_type, payload);
        let timestamp_us: u64 = match time {
            Some(t) => t,
            None => self.last_time_us,
        };
        self.push(timestamp_us, pos + 3, end, name, msg_type);
        self.last_time_us = timestamp_us;
        assert(self@ =~= after_record(old(self)@, data@, pos as int));
    }
}

/// Parse a whole `.bin` buffer into entries plus the schema needed to decode
/// them. Resyncs a byte at a time on anything that isn't a valid header.
pub fn parse(data: &[u8]) -> (r: (Vec<LogEntry>, Schema))
    ensures
        entry::entry_views(r.0@) == scan(data@, 0, nothing()).entries,
        r.1@ == schema_of(scan(data@, 0, nothing())),
{
    let mut s = Scan::new();
    let mut pos: usize = 0;
    while data.len() - pos >= 3
        invariant_except_break
            pos <= data.len(),
            schema::all_wf(s@.msgs),
            scan(data@, pos as int, s@) == scan(data@, 0, nothing()),
        ensures
            schema::all_wf(s@.msgs),
            s@ == scan(data@, 0, nothing()),
        decreases data.len() - pos,
    {
        if data[pos] != HEAD1 || data[pos + 1] != HEAD2 {
            pos += 1;
            continue;
        }
        let msg_type = data[pos + 2];
        if msg_type == FMT_TYPE {
            if data.len() - pos < FMT_LEN {
                break;  // truncated FMT at the tail
            }
            s.read_fmt(data, pos);
            pos += FMT_LEN;
            continue;
        }
        let length: usize = match s.msgs.get(&msg_type) {
            Some(fmt) => fmt.length as usize,
            None => {
                // Unknown type (its FMT hasn't been seen): length unknown, so
                // the body can't be skipped reliably. Resync and let the next
                // header recover.
                assert(!s@.msgs.contains_key(msg_type));
                pos += 1;
                continue;
            },
        };
        assert(s@.msgs.contains_key(msg_type) && s@.msgs[msg_type].length == length);
        if length < 3 || data.len() - pos < length {
            break;  // malformed length or truncated tail
        }
        s.read_record(data, pos, pos + length);
        pos += length;
    }
    let Scan { entries, msgs, units, mults, fmtus, last_time_us: _ } = s;
    let mut msgs = msgs;
    schema::resolve_units_and_mults(&mut msgs, &units, &mults, &fmtus);
    proof {
        lemma_resolved_wf(s@);
    }
    (entries, Schema::from_layouts(msgs))
}

/// Units and multipliers do not touch what makes a layout well-formed.
proof fn lemma_resolved_wf(s: ScanView)
    requires
        schema::all_wf(s.msgs),
    ensures
        schema::all_wf(schema_of(s)),
{
    assert forall|t: u8| #[trigger] schema_of(s).contains_key(t) implies schema_of(s)[t].wf() by {
        assert(s.msgs.contains_key(t));
        let m = schema_of(s)[t];
        assert forall|i: int| 0 <= i < m.fields.len() implies {
            &&& schema::width((#[trigger] m.fields[i]).code) == Some(m.fields[i].size)
            &&& 0 <= m.fields[i].offset <= 1024
        } by {
            assert(schema::width(s.msgs[t].fields[i].code) == Some(s.msgs[t].fields[i].size));
        }
    }
}

/// An integer value, kept integral when unscaled and a real when a multiplier
/// applies.
pub open spec fn scaled(v: int, mult: u64) -> Number {
    if mult == schema::ONE {
        Number::Signed(v as i64)
    } else {
        Number::Real(Real::Signed { raw: v as i64, multiplier: mult })
    }
}

/// The 16-bit integers of an array field.
pub open spec fn array_numbers(b: Seq<u8>, mult: u64) -> Seq<Number> {
    Seq::new(
        b.len() / 2,
        |i: int|
            scaled(
                bytes::signed(bytes::little_endian(b.subrange(2 * i, 2 * i + 2)), 0x8000),
                mult,
            ),
    )
}

/// The value of a field with the given format code and raw bytes.
pub open spec fn datum(code: u8, b: Seq<u8>, mult: u64) -> DatumView {
    let n = bytes::little_endian(b);
    let c = code as char;
    if c == 'b' {
        DatumView::Number(scaled(bytes::signed(n, 0x80), mult))
    } else if c == 'B' || c == 'M' || c == 'H' || c == 'C' || c == 'I' || c == 'E' {
        DatumView::Number(scaled(n as int, mult))
    } else if c == 'h' || c == 'c' {
        DatumView::Number(scaled(bytes::signed(n, 0x8000), mult))
    } else if c == 'i' || c == 'e' {
        DatumView::Number(scaled(bytes::signed(n, 0x8000_0000), mult))
    } else if c == 'L' {
        DatumView::Number(
            Number::Real(
                Real::Signed { raw: bytes::signed(n, 0x8000_0000) as i64, multiplier: mult },
            ),
        )
    } else if c == 'f' {
        DatumView::Number(Number::Real(Real::Single { bits_32: n as u32, multiplier: mult }))
    } else if c == 'd' {
        DatumView::Number(Number::Real(Real::Double { bits_64: n as u64, multiplier: mult }))
    } else if c == 'q' {
        DatumView::Number(scaled(bytes::signed(n, 0x8000_0000_0000_0000), mult))
    } else if c == 'Q' {
        if mult == schema::ONE {
            DatumView::Number(Number::Unsigned(n as u64))
        } else {
            DatumView::Number(Number::Real(Real::Unsigned { count: n as u64, multiplier: mult }))
        }
    } else if c == 'n' || c == 'N' || c == 'Z' {
        DatumView::Text(schema::fixed_text(b))
    } else if c == 'a' {
        DatumView::List(array_numbers(b, mult))
    } else {
        DatumView::Null
    }
}

/// An integer value, kept integral when unscaled.
fn int_value(v: i64, mult: u64) -> (r: Number)
    ensures
        r == scaled(v as int, mult),
{
    if mult == schema::ONE {
        Number::Signed(v)
    } else {
        Number::Real(Real::Signed { raw: v, multiplier: mult })
    }
}

/// The value of a field with the given format code and raw bytes.
pub fn decode_field(code: u8, b: &[u8], mult: u64) -> (r: Datum)
    requires
        schema::width(code) matches Some(n) ==> b@.len() == n,
    ensures
        r@ == datum(code, b@, mult),
{
    let c = code as char;
    proof {
        bytes::lemma_little_endian(b@);
    }
    if c == 'b' {
        Datum::Number(int_value(bytes::signed_8(b[0]), mult))
    } else if c == 'B' || c == 'M' {
        Datum::Number(int_value(b[0] as i64, mult))
    } else if c == 'h' || c == 'c' {
        Datum::Number(int_value(bytes::signed_16(bytes::le_u16(b)), mult))
    } else if c == 'H' || c == 'C' {
        Datum::Number(int_value(bytes::le_u16(b) as i64, mult))
    } else if c == 'i' || c == 'e' {
        Datum::Number(int_value(bytes::signed_32(bytes::le_u32(b)), mult))
    } else if c == 'I' || c == 'E' {
        Datum::Number(int_value(bytes::le_u32(b) as i64, mult))
    } else if c == 'L' {
        let raw: i64 = bytes::signed_32(bytes::le_u32(b));
        Datum::Number(Number::Real(Real::Signed { raw, multiplier: mult }))
    } else if c == 'f' {
        let bits_32: u32 = bytes::le_u32(b);
        Datum::Number(Number::Real(Real::Single { bits_32, multiplier: mult }))
    } else if c == 'd' {
        let bits_64: u64 = bytes::le_u64(b);
        Datum::Number(Number::Real(Real::Double { bits_64, multiplier: mult }))
    } else if c == 'q' {
        Datum::Number(int_value(bytes::signed_64(bytes::le_u64(b)), mult))
    } else if c == 'Q' {
        let v: u64 = bytes::le_u64(b);
        if mult == schema::ONE {
            Datum::Number(Number::Unsigned(v))
        } else {
            Datum::Number(Number::Real(Real::Unsigned { count: v, multiplier: mult }))
        }
    } else if c == 'n' || c == 'N' || c == 'Z' {
        Datum::Text(schema::trim_str(b))
    } else if c == 'a' {
        Datum::List(decode_array(b, mult))
    } else {
        Datum::Null
    }
}

/// The 16-bit integers of an array field.
fn decode_array(b: &[u8], mult: u64) -> (r: Vec<Number>)
    requires
        b@.len() == 64,
    ensures
        r@ == array_numbers(b@, mult),
{
    let mut r: Vec<Number> = Vec::new();
    let mut i: usize = 0;
    while i < 32
        invariant
            i <= 32,
            b@.len() == 64,
            r@ =~= array_numbers(b@, mult).take(i as int),
        decreases 32 - i,
    {
        let c = slice_subrange(b, 2 * i, 2 * i + 2);
        r.push(int_value(bytes::signed_16(bytes::le_u16(c)), mult));
        i += 1;
    }
    r
}

/// The fields that a payload holds, in layout order, up to the first one that
/// is truncated.
pub open spec fn held(fields: Seq<FieldFmtView>, payload: Seq<u8>) -> Seq<(FieldFmtView, DatumView)>
    decreases fields.len(),
{
    if fields.len() == 0 {
        seq![]
    } else {
        match fields[0].bytes(payload) {
            None => seq![],
            Some(b) => seq![(fields[0], datum(fields[0].code, b, fields[0].multiplier))] + held(
                fields.drop_first(),
                payload,
            ),
        }
    }
}

/// The line of a record's detail text for one field: `Label: value unit`.
pub open spec fn detail_line(f: FieldFmtView, d: DatumView) -> Seq<PieceView> {
    seq![PieceView::Text(f.label + ": "@)] + d.pieces() + seq![
        PieceView::Text(
            match f.unit {
                Some(u) => " "@ + u + "\n"@,
                None => "\n"@,
            },
        ),
    ]
}

/// The lines of a record's detail text.
pub open spec fn detail_lines(list: Seq<(FieldFmtView, DatumView)>) -> Seq<PieceView>
    decreases list.len(),
{
    if list.len() == 0 {
        seq![]
    } else {
        detail_lines(list.drop_last()) + detail_line(list.last().0, list.last().1)
    }
}

/// The fields of a record by label, in the order of the labels. Of two fields
/// with the same label the later one counts.
pub open spec fn by_label(list: Seq<(FieldFmtView, DatumView)>) -> Seq<FieldView>
    decreases list.len(),
{
    if list.len() == 0 {
        seq![]
    } else {
        value::put(
            by_label(list.drop_last()),
            FieldView { key: list.last().0.label, value: list.last().1 },
        )
    }
}

/// The fields of a payload of the given type, where the type is known.
pub open spec fn fields(
    msgs: Map<u8, MsgFmtView>,
    msg_type: u8,
    payload: Seq<u8>,
) -> Option<Seq<FieldView>> {
    if msgs.contains_key(msg_type) {
        Some(by_label(held(msgs[msg_type].fields, payload)))
    } else {
        None
    }
}

/// The detail text of a payload of the given type, where the type is known.
pub open spec fn detail(
    msgs: Map<u8, MsgFmtView>,
    msg_type: u8,
    payload: Seq<u8>,
) -> Option<Seq<PieceView>> {
    if msgs.contains_key(msg_type) {
        Some(detail_lines(held(msgs[msg_type].fields, payload)))
    } else {
        None
    }
}

/// The values of the fields that a payload holds, in layout order.
fn decode_held(m: &MsgFmt, payload: &[u8]) -> (r: Vec<Datum>)
    requires
        m@.wf(),
    ensures
        r@.len() <= m@.fields.len(),
        held(m@.fields, payload@) == Seq::new(
            r@.len(),
            |i: int| (m@.fields[i], r@[i]@),
        ),
{
    let mut r: Vec<Datum> = Vec::new();
    let ghost all = m@.fields;
    let mut i: usize = 0;
    proof {
        assert(all.skip(0) =~= all);
        assert(Seq::new(0, |k: int| (all[k], r@[k]@)) + held(all, payload@) =~= held(
            all,
            payload@,
        ));
    }
    while i < m.fields.len()
        invariant
            i <= m.fields.len(),
            m@.wf(),
            all == m@.fields,
            r@.len() == i,
            Seq::new(i as nat, |k: int| (all[k], r@[k]@)) + held(all.skip(i as int), payload@)
                == held(all, payload@),
        decreases m.fields.len() - i,
    {
        let f = &m.fields[i];
        let ghost done = Seq::new(i as nat, |k: int| (all[k], r@[k]@));
        proof {
            assert(m.fields@[i as int] == *f);
            lemma_known_field(m, f);
            assert(all.skip(i as int)[0] == f@);
            assert(all.skip(i as int).drop_first() =~= all.skip(i + 1));
        }
        let b = match bytes_of(f, payload) {
            Some(b) => b,
            None => {
                proof {
                    assert(held(all.skip(i as int), payload@) =~= seq![]);
                    assert(held(all, payload@) =~= done);
                }
                return r;  // truncated record
            },
        };
        let d = decode_field(f.code, b, f.multiplier);
        let ghost before = r@;
        r.push(d);
        i += 1;
        proof {
            let next = Seq::new(i as nat, |k: int| (all[k], r@[k]@));
            assert(next =~= done.push((f@, d@)));
            assert(next + held(all.skip(i as int), payload@) =~= done + held(
                all.skip(i - 1),
                payload@,
            ));
        }
    }
    proof {
        let done = Seq::new(i as nat, |k: int| (all[k], r@[k]@));
        assert(done + held(all.skip(i as int), payload@) =~= done);
    }
    r
}

/// The last position of each label among the first `n` fields.
spec fn positions(list: Seq<(FieldFmtView, DatumView)>, n: int) -> Map<Seq<char>, u64>
    decreases n,
{
    if n <= 0 {
        Map::empty()
    } else {
        positions(list, n - 1).insert(list[n - 1].0.label, (n - 1) as u64)
    }
}

/// The fields by label are those at the last position of each label.
proof fn lemma_by_label(list: Seq<(FieldFmtView, DatumView)>, n: int)
    requires
        0 <= n <= list.len() <= u64::MAX,
    ensures
        value::in_key_order(by_label(list.take(n))),
        forall|k: Seq<char>| #[trigger]
            positions(list, n).contains_key(k) ==> positions(list, n)[k] < n,
        forall|g: FieldView| #[trigger]
            by_label(list.take(n)).contains(g) <==> positions(list, n).contains_key(g.key)
                && g.value == list[positions(list, n)[g.key] as int].1,
    decreases n,
{
    if n > 0 {
        lemma_by_label(list, n - 1);
        assert(list.take(n).drop_last() =~= list.take(n - 1));
        let f = FieldView { key: list[n - 1].0.label, value: list[n - 1].1 };
        value::lemma_put(by_label(list.take(n - 1)), f);
    } else {
        assert(list.take(0) =~= seq![]);
    }
}

/// Decode a DataFlash record's payload into a flat list of named values in the
/// order of the names, applying each field's resolved multiplier and rendering
/// char arrays as strings. Returns `None` if the type is unknown.
pub fn decode_fields(schema: &Schema, msg_type: u8, payload: &[u8]) -> (r: Option<Vec<Field>>)
    ensures
        (match r {
            Some(v) => Some(value::field_views(v@)),
            None => None,
        }) == fields(schema@, msg_type, payload@),
{
    let m = match schema.get(msg_type) {
        Some(m) => m,
        None => return None,
    };
    let data = decode_held(m, payload);
    let ghost list = held(m@.fields, payload@);
    let mut labels = index::new_index();
    let mut i: usize = 0;
    assert(index::contents(labels) =~= positions(list, 0));
    while i < data.len()
        invariant
            i <= data.len() <= m@.fields.len(),
            m@.fields.len() == m.fields@.len(),
            list == Seq::new(data@.len(), |k: int| (m@.fields[k], data@[k]@)),
            index::contents(labels) == positions(list, i as int),
        decreases data.len() - i,
    {
        index::set(&mut labels, m.fields[i].label.clone(), i as u64);
        i += 1;
    }
    let items = index::items(&labels);
    proof {
        lemma_by_label(list, list.len() as int);
        assert(list.take(list.len() as int) =~= list);
    }
    let mut r: Vec<Field> = Vec::new();
    let mut j: usize = 0;
    while j < items.len()
        invariant
            j <= items.len(),
            list == Seq::new(data@.len(), |k: int| (m@.fields[k], data@[k]@)),
            index::contents(labels) == positions(list, list.len() as int),
            forall|k: int|
                0 <= k < items@.len() ==> index::contents(labels).contains_pair(
                    (#[trigger] items@[k]).0@,
                    items@[k].1,
                ),
            forall|k: Seq<char>| #[trigger]
                positions(list, list.len() as int).contains_key(k) ==> positions(
                    list,
                    list.len() as int,
                )[k] < list.len(),
            value::field_views(r@).len() == j,
            forall|k: int|
                0 <= k < j ==> (#[trigger] value::field_views(r@)[k]) == (FieldView {
                    key: items@[k].0@,
                    value: list[items@[k].1 as int].1,
                }),
        decreases items.len() - j,
    {
        let item = &items[j];
        proof {
            assert(index::contents(labels).contains_pair(items@[j as int].0@, items@[j as int].1));
        }
        let at: usize = item.1 as usize;
        let f = Field { key: item.0.clone(), value: data[at].copied() };
        let ghost before = r@;
        r.push(f);
        assert(value::field_views(r@) =~= value::field_views(before).push(f@));
        j += 1;
    }
    proof {
        let got = value::field_views(r@);
        let want = by_label(list);
        let p = positions(list, list.len() as int);
        assert forall|g: FieldView| #[trigger] got.contains(g) implies want.contains(g) by {
            let k = choose|k: int| 0 <= k < got.len() && got[k] == g;
            assert(index::contents(labels).contains_pair(items@[k].0@, items@[k].1));
        }
        assert forall|g: FieldView| #[trigger] want.contains(g) implies got.contains(g) by {
            assert(p.contains_key(g.key));
            assert(index::contents(labels).contains_key(g.key));
            let k = choose|k: int| 0 <= k < items@.len() && (#[trigger] items@[k]).0@ == g.key;
            assert(index::contents(labels).contains_pair(items@[k].0@, items@[k].1));
            assert(got[k] == g);
        }
        assert(value::in_key_order(got)) by {
            assert forall|a: int, b: int| 0 <= a < b < got.len() implies text::precedes(
                (#[trigger] got[a]).key,
                (#[trigger] got[b]).key,
            ) by {
                assert(text::precedes(items@[a].0@, items@[b].0@));
            }
        }
        value::lemma_order_unique(got, want);
    }
    Some(r)
}

/// Render a record as `Label: value unit` lines in field order, for the
/// detail pane. Returns `None` if the type is unknown.
pub fn decode_detail(schema: &Schema, msg_type: u8, payload: &[u8]) -> (r: Option<Vec<Piece>>)
    ensures
        (match r {
            Some(v) => Some(value::piece_views(v@)),
            None => None,
        }) == detail(schema@, msg_type, payload@),
{
    let m = match schema.get(msg_type) {
        Some(m) => m,
        None => return None,
    };
    let data = decode_held(m, payload);
    let ghost list = held(m@.fields, payload@);
    let mut out: Vec<Piece> = Vec::new();
    let mut i: usize = 0;
    proof {
        assert(list.take(0) =~= seq![]);
        assert(value::piece_views(out@) =~= seq![]);
    }
    while i < data.len()
        invariant
            i <= data.len() <= m@.fields.len(),
            m@.fields.len() == m.fields@.len(),
            list == Seq::new(data@.len(), |k: int| (m@.fields[k], data@[k]@)),
            value::piece_views(out@) == detail_lines(list.take(i as int)),
        decreases data.len() - i,
    {
        let f = &m.fields[i];
        let ghost start = value::piece_views(out@);
        let ghost b0 = out@;
        assert(m@.fields[i as int] == f@);
        let mut head = f.label.clone();
        head.append(": ");
        out.push(Piece::Text(head));
        assert(value::piece_views(out@) =~= value::piece_views(b0).push(
            PieceView::Text(f@.label + ": "@),
        ));
        data[i].push_pieces(&mut out);
        let tail = match &f.unit {
            Some(u) => {
                let mut t = " ".to_string();
                t.append(u.as_str());
                t.append("\n");
                t
            },
            None => "\n".to_string(),
        };
        let ghost b1 = out@;
        out.push(Piece::Text(tail));
        i += 1;
        proof {
            assert(value::piece_views(out@) =~= value::piece_views(b1).push(
                PieceView::Text(tail@),
            ));
            assert(list.take(i as int).drop_last() =~= list.take(i - 1));
            assert(list.take(i as int).last() == (f@, data@[i - 1]@));
            assert(value::piece_views(out@) =~= start + detail_line(f@, data@[i - 1]@));
        }
    }
    assert(list.take(i as int) =~= list);
    Some(out)
}

/// The fields of a decoded record come in the order of their names, each name
/// once.
pub proof fn law_fields_in_order(msgs: Map<u8, MsgFmtView>, msg_type: u8, payload: Seq<u8>)
    requires
        msgs.contains_key(msg_type),
        msgs[msg_type].fields.len() <= u64::MAX,
    ensures
        value::in_key_order(fields(msgs, msg_type, payload)->Some_0),
{
    let list = held(msgs[msg_type].fields, payload);
    lemma_held_len(msgs[msg_type].fields, payload);
    lemma_by_label(list, list.len() as int);
    assert(list.take(list.len() as int) =~= list);
}

/// A payload holds no more fields than its layout has.
proof fn lemma_held_len(fields: Seq<FieldFmtView>, payload: Seq<u8>)
    ensures
        held(fields, payload).len() <= fields.len(),
    decreases fields.len(),
{
    if fields.len() > 0 {
        lemma_held_len(fields.drop_first(), payload);
    }
}

/// Whether the entries come from records of the buffer that follow each other,
/// all of them behind `low`.
pub open spec fn in_record_order(entries: Seq<EntryView>, low: int, high: int) -> bool {
    &&& forall|i: int|
        0 <= i < entries.len() ==> {
            let e = #[trigger] entries[i];
            &&& low + 3 <= e.start <= e.end <= high
            &&& e.sysid is None && e.compid is None
            &&& e.kind is Dataflash
            &&& e.source is Primary
        }
    &&& forall|i: int, j: int|
        0 <= i < j < entries.len() ==> (#[trigger] entries[i]).end + 3 <= (
        #[trigger] entries[j]).start
}

/// The pass keeps the entries in the order of the records.
proof fn lemma_scan_order(data: Seq<u8>, pos: int, s: ScanView)
    requires
        0 <= pos <= data.len(),
        in_record_order(s.entries, 0, pos),
    ensures
        in_record_order(scan(data, pos, s).entries, 0, data.len() as int),
    decreases data.len() - pos,
{
    if pos + 3 > data.len() {
    } else if data[pos] != HEAD1 || data[pos + 1] != HEAD2 {
        lemma_scan_order(data, pos + 1, s);
    } else if data[pos + 2] == FMT_TYPE {
        if pos + FMT_LEN <= data.len() {
            lemma_scan_order(data, pos + FMT_LEN, after_fmt(s, data, pos));
        }
    } else if !s.msgs.contains_key(data[pos + 2]) {
        lemma_scan_order(data, pos + 1, s);
    } else {
        let length = s.msgs[data[pos + 2]].length;
        if length >= 3 && pos + length <= data.len() {
            lemma_scan_order(data, pos + length, after_record(s, data, pos));
        }
    }
}

/// Every entry of a DataFlash log has no ids, its payload lies within the
/// buffer, and the records follow each other without overlapping.
pub proof fn law_entries_in_bounds(data: Seq<u8>)
    ensures
        in_record_order(scan(data, 0, nothing()).entries, 0, data.len() as int),
{
    lemma_scan_order(data, 0, nothing());
}

/// A byte that starts no record is skipped.
pub proof fn law_resync(data: Seq<u8>, pos: int, s: ScanView)
    requires
        0 <= pos,
        pos + 3 <= data.len(),
        data[pos] != HEAD1 || data[pos + 1] != HEAD2 || (data[pos + 2] != FMT_TYPE
            && !s.msgs.contains_key(data[pos + 2])),
    ensures
        scan(data, pos, s) == scan(data, pos + 1, s),
{
}

/// The same state for a buffer with `by` more bytes in front.
pub open spec fn state_moved(s: ScanView, by: int) -> ScanView {
    ScanView { entries: entry::all_moved(s.entries, by), ..s }
}

/// What stands in front of a position does not matter for the pass from there
/// on.
pub proof fn law_scan_does_not_look_back(front: Seq<u8>, data: Seq<u8>, pos: int, s: ScanView)
    requires
        0 <= pos,
    ensures
        scan(front + data, front.len() + pos, state_moved(s, front.len() as int)) == state_moved(
            scan(data, pos, s),
            front.len() as int,
        ),
    decreases data.len() - pos,
{
    let n = front.len() as int;
    let whole = front + data;
    let t = state_moved(s, n);
    if pos + 3 <= data.len() {
        assert(whole[n + pos] == data[pos]);
        assert(whole[n + pos + 1] == data[pos + 1]);
        assert(whole[n + pos + 2] == data[pos + 2]);
        if data[pos] != HEAD1 || data[pos + 1] != HEAD2 {
            law_scan_does_not_look_back(front, data, pos + 1, s);
        } else if data[pos + 2] == FMT_TYPE {
            if pos + FMT_LEN <= data.len() {
                let next = after_fmt(s, data, pos);
                law_scan_does_not_look_back(front, data, pos + FMT_LEN, next);
                assert(whole.subrange(n + pos + 3, n + pos + FMT_LEN) =~= data.subrange(
                    pos + 3,
                    pos + FMT_LEN,
                ));
                assert(after_fmt(t, whole, n + pos).entries =~= entry::all_moved(next.entries, n));
                assert(after_fmt(t, whole, n + pos) =~= state_moved(next, n));
            }
        } else if !s.msgs.contains_key(data[pos + 2]) {
            law_scan_does_not_look_back(front, data, pos + 1, s);
        } else {
            let length = s.msgs[data[pos + 2]].length;
            if length >= 3 && pos + length <= data.len() {
                let next = after_record(s, data, pos);
                law_scan_does_not_look_back(front, data, pos + length, next);
                assert(whole.subrange(n + pos + 3, n + pos + length) =~= data.subrange(
                    pos + 3,
                    pos + length,
                ));
                assert(after_record(t, whole, n + pos).entries =~= entry::all_moved(
                    next.entries,
                    n,
                ));
                assert(after_record(t, whole, n + pos) =~= state_moved(next, n));
            }
        }
    }
}

/// A record without a time of its own gets the time of the entry before it.
pub proof fn law_time_carries_forward(data: Seq<u8>, pos: int, s: ScanView)
    requires
        s.entries.len() > 0 ==> s.entries.last().timestamp_us == s.last_time_us,
    ensures
        after_fmt(s, data, pos).entries.last().timestamp_us == s.last_time_us,
        after_fmt(s, data, pos).last_time_us == s.last_time_us,
        after_record(s, data, pos).entries.last().timestamp_us == after_record(
            s,
            data,
            pos,
        ).last_time_us,
        word_in(
            s.msgs[data[pos + 2]],
            data.subrange(pos + 3, pos + s.msgs[data[pos + 2]].length),
            "TimeUS"@,
        ) is None && s.entries.len() > 0 ==> after_record(s, data, pos).entries.last().timestamp_us
            == s.entries.last().timestamp_us,
{
}

/// Whether a field shows an integer: as it is with the multiplier 1, else as a real
/// number with its multiplier.
pub open spec fn is_integer(d: DatumView, v: int, mult: u64) -> bool {
    &&& mult == 0x3FF0_0000_0000_0000 ==> d == DatumView::Number(Number::Signed(v as i64))
    &&& mult != 0x3FF0_0000_0000_0000 ==> d == DatumView::Number(
        Number::Real(Real::Signed { raw: v as i64, multiplier: mult }),
    )
}

/// The bytes of a signed integer read back as the integer under the signed format
/// codes of its width.
pub proof fn law_signed_fields_read_back(a: i8, b: i16, c: i32, d: i64, mult: u64)
    ensures
        is_integer(datum('b' as u8, seq![bytes::low_byte(a as int)], mult), a as int, mult),
        is_integer(datum('h' as u8, bytes::two_bytes(b as int), mult), b as int, mult),
        is_integer(datum('c' as u8, bytes::two_bytes(b as int), mult), b as int, mult),
        is_integer(datum('i' as u8, bytes::four_bytes(c as int), mult), c as int, mult),
        is_integer(datum('e' as u8, bytes::four_bytes(c as int), mult), c as int, mult),
        is_integer(datum('q' as u8, bytes::eight_bytes(d as int), mult), d as int, mult),
        datum('L' as u8, bytes::four_bytes(c as int), mult) == DatumView::Number(
            Number::Real(Real::Signed { raw: c as i64, multiplier: mult }),
        ),
{
    bytes::law_integer_bytes(a as int);
    bytes::law_integer_bytes(b as int);
    bytes::law_integer_bytes(c as int);
    bytes::law_integer_bytes(d as int);
}

/// The bytes of an unsigned integer read back as the integer under the unsigned
/// format codes of its width.
pub proof fn law_unsigned_fields_read_back(a: u8, b: u16, c: u32, d: u64, mult: u64)
    ensures
        is_integer(datum('B' as u8, seq![a], mult), a as int, mult),
        is_integer(datum('M' as u8, seq![a], mult), a as int, mult),
        is_integer(datum('H' as u8, bytes::two_bytes(b as int), mult), b as int, mult),
        is_integer(datum('C' as u8, bytes::two_bytes(b as int), mult), b as int, mult),
        is_integer(datum('I' as u8, bytes::four_bytes(c as int), mult), c as int, mult),
        is_integer(datum('E' as u8, bytes::four_bytes(c as int), mult), c as int, mult),
        mult == 0x3FF0_0000_0000_0000 ==> datum('Q' as u8, bytes::eight_bytes(d as int), mult)
            == DatumView::Number(Number::Unsigned(d)),
        mult != 0x3FF0_0000_0000_0000 ==> datum('Q' as u8, bytes::eight_bytes(d as int), mult)
            == DatumView::Number(Number::Real(Real::Unsigned { count: d, multiplier: mult })),
{
    bytes::law_integer_bytes(a as int);
    assert(seq![bytes::low_byte(a as int)] =~= seq![a]);
    bytes::law_integer_bytes(b as int);
    bytes::law_integer_bytes(c as int);
    bytes::law_integer_bytes(d as int);
}

/// The bits of a floating-point number read back, with the multiplier that applies.
pub proof fn law_float_fields_read_back(single: u32, double: u64, mult: u64)
    ensures
        datum('f' as u8, bytes::four_bytes(single as int), mult) == DatumView::Number(
            Number::Real(Real::Single { bits_32: single, multiplier: mult }),
        ),
        datum('d' as u8, bytes::eight_bytes(double as int), mult) == DatumView::Number(
            Number::Real(Real::Double { bits_64: double, multiplier: mult }),
        ),
{
    bytes::law_integer_bytes(single as int);
    bytes::law_integer_bytes(double as int);
}

/// A text of at most the width of its format code, padded with NULs, reads back as
/// the text.
pub proof fn law_text_fields_read_back(b: Seq<u8>, mult: u64)
    requires
        forall|i: int| 0 <= i < b.len() ==> #[trigger] b[i] != 0,
    ensures
        b.len() <= 4 ==> datum('n' as u8, b + Seq::new((4 - b.len()) as nat, |i: int| 0u8), mult)
            == DatumView::Text(schema::lossy_text(b)),
        b.len() <= 16 ==> datum('N' as u8, b + Seq::new((16 - b.len()) as nat, |i: int| 0u8), mult)
            == DatumView::Text(schema::lossy_text(b)),
        b.len() <= 64 ==> datum('Z' as u8, b + Seq::new((64 - b.len()) as nat, |i: int| 0u8), mult)
            == DatumView::Text(schema::lossy_text(b)),
{
    if b.len() <= 4 {
        schema::law_padding_is_dropped(b, 4 - b.len());
        assert(schema::nuls(4 - b.len()) =~= Seq::new((4 - b.len()) as nat, |i: int| 0u8));
    }
    if b.len() <= 16 {
        schema::law_padding_is_dropped(b, 16 - b.len());
        assert(schema::nuls(16 - b.len()) =~= Seq::new((16 - b.len()) as nat, |i: int| 0u8));
    }
    if b.len() <= 64 {
        schema::law_padding_is_dropped(b, 64 - b.len());
        assert(schema::nuls(64 - b.len()) =~= Seq::new((64 - b.len()) as nat, |i: int| 0u8));
    }
}

/// The bytes of 32 signed 16-bit integers, one behind the other, read back as the
/// integers, in order.
pub proof fn law_array_field_reads_back(list: Seq<i16>, mult: u64)
    requires
        list.len() == 32,
    ensures
        ({
            let b = Seq::new(
                64,
                |i: int| bytes::two_bytes(list[i / 2] as int)[i % 2],
            );
            datum('a' as u8, b, mult) matches DatumView::List(numbers) && {
                &&& numbers.len() == 32
                &&& forall|i: int|
                    0 <= i < 32 ==> is_integer(
                        DatumView::Number(#[trigger] numbers[i]),
                        list[i] as int,
                        mult,
                    )
            }
        }),
{
    let b = Seq::new(64, |i: int| bytes::two_bytes(list[i / 2] as int)[i % 2]);
    let numbers = array_numbers(b, mult);
    assert forall|i: int| 0 <= i < 32 implies is_integer(
        DatumView::Number(#[trigger] numbers[i]),
        list[i] as int,
        mult,
    ) by {
        let here = b.subrange(2 * i, 2 * i + 2);
        let pair = bytes::two_bytes(list[i] as int);
        assert((2 * i) / 2 == i && (2 * i) % 2 == 0 && (2 * i + 1) / 2 == i && (2 * i + 1) % 2 == 1);
        assert(here[0] == pair[0] && here[1] == pair[1]);
        assert(here =~= pair);
        bytes::law_integer_bytes(list[i] as int);
    }
}

/// Before anything was read there are no entries, no layouts, no metadata, and the
/// time is 0.
pub proof fn law_nothing()
    ensures
        nothing().entries.len() == 0,
        forall|t: u8| !nothing().msgs.contains_key(t),
        forall|t: u8| !nothing().units.contains_key(t),
        forall|t: u8| !nothing().mults.contains_key(t),
        forall|t: u8| !nothing().fmtus.contains_key(t),
        nothing().last_time_us == 0,
{
}

/// A record of a declared type becomes one entry: its payload lies between its
/// three header bytes and its declared length, it has the declared name, and the
/// pass goes on behind it. Its time is the value of its eight-byte `TimeUS` field,
/// and the time before where it has none.
pub proof fn law_record_is_read(data: Seq<u8>, pos: int, s: ScanView)
    requires
        0 <= pos,
        pos + 3 <= data.len(),
        data[pos] == 0xA3,
        data[pos + 1] == 0x95,
        data[pos + 2] != 0x80,
        s.msgs.contains_key(data[pos + 2]),
        3 <= s.msgs[data[pos + 2]].length,
        pos + s.msgs[data[pos + 2]].length <= data.len(),
    ensures
        ({
            let m = s.msgs[data[pos + 2]];
            let next = after_record(s, data, pos);
            &&& scan(data, pos, s) == scan(data, pos + m.length, next)
            &&& next.msgs == s.msgs
            &&& next.entries == s.entries.push(
                EntryView {
                    timestamp_us: next.last_time_us,
                    sysid: None,
                    compid: None,
                    start: pos + 3,
                    end: pos + m.length,
                    name: m.name,
                    kind: EntryKind::Dataflash { msg_type: data[pos + 2] },
                    source: LogSourceId::Primary,
                },
            )
            &&& (forall|k: int| 0 <= k < m.fields.len() ==> (#[trigger] m.fields[k]).label
                != "TimeUS"@) ==> next.last_time_us == s.last_time_us
        }),
{
    let m = s.msgs[data[pos + 2]];
    schema::law_field_is_found(m, 0, "TimeUS"@);
}

/// The time of a record whose first `TimeUS` field is the one at position `i`: the
/// value of its bytes, each of which weighs 256 times the one before it. A field of
/// another size, or one that the record does not hold, gives no time.
pub proof fn law_record_time(data: Seq<u8>, pos: int, s: ScanView, i: int)
    requires
        0 <= pos,
        pos + 3 <= data.len(),
        s.msgs.contains_key(data[pos + 2]),
        3 <= s.msgs[data[pos + 2]].length,
        pos + s.msgs[data[pos + 2]].length <= data.len(),
        0 <= i < s.msgs[data[pos + 2]].fields.len(),
        s.msgs[data[pos + 2]].fields[i].label == "TimeUS"@,
        s.msgs[data[pos + 2]].fields[i].offset >= 0,
        s.msgs[data[pos + 2]].fields[i].size >= 0,
        forall|k: int|
            0 <= k < i ==> (#[trigger] s.msgs[data[pos + 2]].fields[k]).label != "TimeUS"@,
    ensures
        ({
            let m = s.msgs[data[pos + 2]];
            let f = m.fields[i];
            let at = pos + 3 + f.offset;
            let time = after_record(s, data, pos).last_time_us;
            &&& f.size == 8 && f.offset + 8 <= m.length - 3 ==> time == data[at] + 0x100 * data[at
                + 1] + 0x1_0000 * data[at + 2] + 0x100_0000 * data[at + 3] + 0x1_0000_0000 * data[at
                + 4] + 0x100_0000_0000 * data[at + 5] + 0x1_0000_0000_0000 * data[at + 6]
                + 0x100_0000_0000_0000 * data[at + 7]
            &&& f.size != 8 || f.offset + 8 > m.length - 3 ==> time == s.last_time_us
        }),
{
    let m = s.msgs[data[pos + 2]];
    let f = m.fields[i];
    let at = pos + 3 + f.offset;
    schema::law_field_is_found(m, i, "TimeUS"@);
    let payload = data.subrange(pos + 3, pos + m.length);
    if f.size == 8 && f.offset + 8 <= m.length - 3 {
        let b = payload.subrange(f.offset, f.offset + 8);
        bytes::lemma_little_endian(b);
        assert(b[0] == data[at] && b[1] == data[at + 1] && b[2] == data[at + 2] && b[3] == data[at
            + 3] && b[4] == data[at + 4] && b[5] == data[at + 5] && b[6] == data[at + 6] && b[7]
            == data[at + 7]);
    }
}

/// An `FMT` record becomes one entry with the time before it, and what its 86 body
/// bytes declare holds from there on for the type that the first of them names.
pub proof fn law_fmt_record_is_read(data: Seq<u8>, pos: int, s: ScanView)
    requires
        0 <= pos,
        pos + 89 <= data.len(),
        data[pos] == 0xA3,
        data[pos + 1] == 0x95,
        data[pos + 2] == 0x80,
    ensures
        ({
            let next = after_fmt(s, data, pos);
            &&& scan(data, pos, s) == scan(data, pos + 89, next)
            &&& next.entries == s.entries.push(
                EntryView {
                    timestamp_us: s.last_time_us,
                    sysid: None,
                    compid: None,
                    start: pos + 3,
                    end: pos + 89,
                    name: "FMT"@,
                    kind: EntryKind::Dataflash { msg_type: 0x80 },
                    source: LogSourceId::Primary,
                },
            )
            &&& next.units == s.units && next.mults == s.mults && next.fmtus == s.fmtus
            &&& next.last_time_us == s.last_time_us
            &&& (schema::declared(data.subrange(pos + 3, pos + 89)) matches Some(m)
                ==> next.msgs.contains_key(data[pos + 3]) && next.msgs[data[pos + 3]] == m)
            &&& schema::declared(data.subrange(pos + 3, pos + 89)) is None ==> next.msgs == s.msgs
            &&& forall|t: u8|
                t != data[pos + 3] ==> {
                    &&& #[trigger] next.msgs.contains_key(t) == s.msgs.contains_key(t)
                    &&& s.msgs.contains_key(t) ==> next.msgs[t] == s.msgs[t]
                }
        }),
{
}

/// The pass skips a byte where no record of a declared type starts, and ends where a
/// record does not fit or its declared length leaves no room for its header.
pub proof fn law_pass_skips_and_ends(data: Seq<u8>, pos: int, s: ScanView)
    requires
        0 <= pos,
    ensures
        pos + 3 > data.len() ==> scan(data, pos, s) == s,
        pos + 3 <= data.len() ==> {
            let starts = data[pos] == 0xA3 && data[pos + 1] == 0x95;
            let t = data[pos + 2];
            &&& !starts ==> scan(data, pos, s) == scan(data, pos + 1, s)
            &&& starts && t != 0x80 && !s.msgs.contains_key(t) ==> scan(data, pos, s) == scan(
                data,
                pos + 1,
                s,
            )
            &&& starts && t == 0x80 && pos + 89 > data.len() ==> scan(data, pos, s) == s
            &&& starts && t != 0x80 && s.msgs.contains_key(t) && (s.msgs[t].length < 3 || pos
                + s.msgs[t].length > data.len()) ==> scan(data, pos, s) == s
        },
{
}

/// What the metadata records tell. A `UNIT` record names the unit with its id, a
/// `MULT` record gives the bits of the multiplier with its id, an `FMTU` record gives
/// the ids of the units and of the multipliers of a type. No other record, and none
/// that lacks one of these fields, changes any of them.
pub proof fn law_metadata(
    s: ScanView,
    m: MsgFmtView,
    payload: Seq<u8>,
    first: Seq<char>,
    second: Seq<char>,
    third: Seq<char>,
    i: int,
    j: int,
    l: int,
)
    requires
        m.name == "UNIT"@ ==> first == "Id"@ && second == "Label"@ && third == first && l == i,
        m.name == "MULT"@ ==> first == "Id"@ && second == "Mult"@ && third == first && l == i,
        m.name == "FMTU"@ ==> first == "FmtType"@ && second == "UnitIds"@ && third == "MultIds"@,
        0 <= i < m.fields.len() && m.fields[i].label == first,
        0 <= j < m.fields.len() && m.fields[j].label == second,
        0 <= l < m.fields.len() && m.fields[l].label == third,
        forall|k: int| 0 <= k < i ==> (#[trigger] m.fields[k]).label != first,
        forall|k: int| 0 <= k < j ==> (#[trigger] m.fields[k]).label != second,
        forall|k: int| 0 <= k < l ==> (#[trigger] m.fields[k]).label != third,
        0 <= m.fields[i].offset && 0 < m.fields[i].size,
        0 <= m.fields[j].offset && 0 < m.fields[j].size,
        0 <= m.fields[l].offset && 0 < m.fields[l].size,
    ensures
        ({
            let r = with_metadata(s, m, payload);
            let (a, b, c) = (m.fields[i], m.fields[j], m.fields[l]);
            let id = payload[a.offset];
            let whole = a.offset + a.size <= payload.len() && b.offset + b.size <= payload.len()
                && c.offset + c.size <= payload.len();
            let text = payload.subrange(b.offset, b.offset + b.size);
            let more = payload.subrange(c.offset, c.offset + c.size);
            &&& r.entries == s.entries && r.msgs == s.msgs && r.last_time_us == s.last_time_us
            &&& m.name == "UNIT"@ && whole ==> r.units == s.units.insert(
                id,
                schema::fixed_text(text),
            ) && r.mults == s.mults && r.fmtus == s.fmtus
            &&& m.name == "MULT"@ && whole && b.size == 8 ==> r.mults == s.mults.insert(
                id,
                (text[0] + 0x100 * text[1] + 0x1_0000 * text[2] + 0x100_0000 * text[3]
                    + 0x1_0000_0000 * text[4] + 0x100_0000_0000 * text[5] + 0x1_0000_0000_0000
                    * text[6] + 0x100_0000_0000_0000 * text[7]) as u64,
            ) && r.units == s.units && r.fmtus == s.fmtus
            &&& m.name == "FMTU"@ && whole ==> r.fmtus == s.fmtus.insert(id, (text, more))
                && r.units == s.units && r.mults == s.mults
            &&& m.name == "MULT"@ && b.size != 8 ==> r == s
            &&& !whole ==> r == s
            &&& m.name != "UNIT"@ && m.name != "MULT"@ && m.name != "FMTU"@ ==> r == s
        }),
{
    reveal_strlit("UNIT");
    reveal_strlit("MULT");
    reveal_strlit("FMTU");
    assert("UNIT"@[0] == 'U' && "MULT"@[0] == 'M' && "FMTU"@[0] == 'F');
    schema::law_field_is_found(m, i, first);
    schema::law_field_is_found(m, j, second);
    schema::law_field_is_found(m, l, third);
    let b = m.fields[j];
    if b.offset + b.size <= payload.len() {
        bytes::lemma_little_endian(payload.subrange(b.offset, b.offset + b.size));
    }
}

/// A payload holds the fields of its layout, in order, up to the first one that does
/// not fit; each has the value of its own bytes under its own code and multiplier.
pub proof fn law_held_fields(list: Seq<FieldFmtView>, payload: Seq<u8>, n: int)
    requires
        0 <= n <= list.len(),
        forall|k: int|
            0 <= k < n ==> (#[trigger] list[k]).offset + list[k].size <= payload.len(),
        n < list.len() ==> list[n].offset + list[n].size > payload.len(),
    ensures
        held(list, payload).len() == n,
        forall|k: int|
            0 <= k < n ==> {
                let f = list[k];
                &&& (#[trigger] held(list, payload)[k]).0 == f
                &&& held(list, payload)[k].1 == datum(
                    f.code,
                    payload.subrange(f.offset, f.offset + f.size),
                    f.multiplier,
                )
            },
    decreases list.len(),
{
    if n > 0 {
        let rest = list.drop_first();
        assert(list[0].offset + list[0].size <= payload.len());
        assert forall|k: int| 0 <= k < n - 1 implies (#[trigger] rest[k]).offset + rest[k].size
            <= payload.len() by {
            assert(rest[k] == list[k + 1]);
        }
        law_held_fields(rest, payload, n - 1);
        assert forall|k: int| 0 <= k < n implies ({
            let f = list[k];
            &&& (#[trigger] held(list, payload)[k]).0 == f
            &&& held(list, payload)[k].1 == datum(
                f.code,
                payload.subrange(f.offset, f.offset + f.size),
                f.multiplier,
            )
        }) by {
            if k > 0 {
                assert(held(list, payload)[k] == held(rest, payload)[k - 1]);
                assert(rest[k - 1] == list[k]);
            }
        }
    }
}

/// The fields of a record are those that its payload holds: under each label the
/// value of the last field with that label, and nothing else. A record of a type
/// without a layout has none.
pub proof fn law_fields_by_label(
    msgs: Map<u8, MsgFmtView>,
    msg_type: u8,
    payload: Seq<u8>,
    g: FieldView,
)
    requires
        msgs.contains_key(msg_type) ==> msgs[msg_type].fields.len() <= u64::MAX,
    ensures
        !msgs.contains_key(msg_type) ==> fields(msgs, msg_type, payload) is None,
        msgs.contains_key(msg_type) ==> (fields(msgs, msg_type, payload) matches Some(got) && {
            let list = held(msgs[msg_type].fields, payload);
            got.contains(g) <==> exists|i: int|
                0 <= i < list.len() && g.key == (#[trigger] list[i]).0.label && g.value == list[i].1
                    && forall|k: int| i < k < list.len() ==> (#[trigger] list[k]).0.label != g.key
        }),
{
    if msgs.contains_key(msg_type) {
        let list = held(msgs[msg_type].fields, payload);
        lemma_held_len(msgs[msg_type].fields, payload);
        let n = list.len() as int;
        lemma_by_label(list, n);
        lemma_positions(list, n, g.key);
        assert(list.take(n) =~= list);
        let p = positions(list, n);
        if p.contains_key(g.key) {
            assert(list[p[g.key] as int].0.label == g.key);
        }
        if exists|i: int|
            0 <= i < list.len() && g.key == (#[trigger] list[i]).0.label && g.value == list[i].1
                && forall|k: int| i < k < list.len() ==> (#[trigger] list[k]).0.label != g.key {
            let i = choose|i: int|
                0 <= i < list.len() && g.key == (#[trigger] list[i]).0.label && g.value == list[i].1
                    && forall|k: int| i < k < list.len() ==> (#[trigger] list[k]).0.label != g.key;
            let j = p[g.key] as int;
            assert(list[j].0.label == g.key);
            assert(i == j);
        }
    }
}

/// Which position a label has.
proof fn lemma_positions(list: Seq<(FieldFmtView, DatumView)>, n: int, key: Seq<char>)
    requires
        0 <= n <= list.len() <= u64::MAX,
    ensures
        positions(list, n).contains_key(key) <==> exists|i: int|
            0 <= i < n && (#[trigger] list[i]).0.label == key,
        positions(list, n).contains_key(key) ==> {
            let i = positions(list, n)[key] as int;
            &&& 0 <= i < n
            &&& list[i].0.label == key
            &&& forall|k: int| i < k < n ==> (#[trigger] list[k]).0.label != key
        },
    decreases n,
{
    if n > 0 {
        lemma_positions(list, n - 1, key);
        assert(list[n - 1] == list[n - 1]);
    }
}

/// The detail text has a line for each field that the payload holds, in layout
/// order: its label, a colon and a space, the value, the unit behind a space where it
/// has one, and a line end. A record of a type without a layout has no such text.
pub proof fn law_detail(
    msgs: Map<u8, MsgFmtView>,
    msg_type: u8,
    payload: Seq<u8>,
    list: Seq<(FieldFmtView, DatumView)>,
    f: FieldFmtView,
    d: DatumView,
)
    ensures
        !msgs.contains_key(msg_type) ==> detail(msgs, msg_type, payload) is None,
        msgs.contains_key(msg_type) ==> detail(msgs, msg_type, payload) == Some(
            detail_lines(held(msgs[msg_type].fields, payload)),
        ),
        detail_lines(seq![]) == Seq::<PieceView>::empty(),
        f.unit is None ==> detail_lines(list.push((f, d))) == detail_lines(list) + seq![
            PieceView::Text(f.label + seq![':', ' ']),
        ] + d.pieces() + seq![PieceView::Text(seq!['\n'])],
        f.unit matches Some(unit) ==> detail_lines(list.push((f, d))) == detail_lines(list) + seq![
            PieceView::Text(f.label + seq![':', ' ']),
        ] + d.pieces() + seq![PieceView::Text(seq![' '] + unit + seq!['\n'])],
{
    reveal_strlit(": ");
    reveal_strlit(" ");
    reveal_strlit("\n");
    assert(": "@ =~= seq![':', ' ']);
    assert(" "@ =~= seq![' ']);
    assert("\n"@ =~= seq!['\n']);
    let longer = list.push((f, d));
    assert(longer.drop_last() =~= list);
    assert(longer.last() == (f, d));
    assert(detail_lines(longer) == detail_lines(list) + detail_line(f, d));
    let tail = match f.unit {
        Some(u) => " "@ + u + "\n"@,
        None => "\n"@,
    };
    assert(detail_lines(longer) =~= detail_lines(list) + seq![
        PieceView::Text(f.label + seq![':', ' ']),
    ] + d.pieces() + seq![PieceView::Text(tail)]);
}

} // verus!
