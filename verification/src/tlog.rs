//! Parser for tlog files: a stream of records, each an 8-byte big-endian
//! microsecond timestamp followed by a raw MAVLink v1 or v2 frame.

use std::ops::Range;

use vstd::prelude::*;
use vstd::slice::slice_subrange;
use crate::entry::{EntryKind, EntryView, LogEntry, LogSourceId, MavlinkVersion};
use crate::value::{Field, FieldView};
use crate::{bytes, dialect, entry, numeral, value};

verus! {

pub const MAGIC_V1: u8 = 0xFE;

pub const MAGIC_V2: u8 = 0xFD;

/// A MAVLink frame at the start of a byte sequence. The payload stands at
/// `start..end`, and the frame takes up `total` bytes.
#[verifier::ext_equal]
pub struct FrameView {
    pub version: MavlinkVersion,
    pub sysid: u8,
    pub compid: u8,
    pub msg_id: u32,
    pub start: int,
    pub end: int,
    pub total: int,
}

/// The v1 frame that `f` starts with:
/// STX len seq sys comp msgid payload[len] crc[2]
pub open spec fn frame_v1(f: Seq<u8>) -> Option<FrameView> {
    if f.len() < 8 || f.len() < 8 + f[1] {
        None
    } else {
        Some(
            FrameView {
                version: MavlinkVersion::V1,
                sysid: f[3],
                compid: f[4],
                msg_id: f[5] as u32,
                start: 6,
                end: 6 + f[1],
                total: 8 + f[1],
            },
        )
    }
}

/// The v2 frame that `f` starts with: STX len incompat compat seq sys comp
/// msgid[3] payload[len] crc[2] [sig[13]]. The lowest bit of the incompatibility
/// flags tells whether the frame is signed.
pub open spec fn frame_v2(f: Seq<u8>) -> Option<FrameView> {
    let total = 12 + f[1] + if f[2] % 2 == 1 {
        13int
    } else {
        0int
    };
    if f.len() < 12 || f.len() < total {
        None
    } else {
        Some(
            FrameView {
                version: MavlinkVersion::V2,
                sysid: f[5],
                compid: f[6],
                msg_id: bytes::little_endian(f.subrange(7, 10)) as u32,
                start: 10,
                end: 10 + f[1],
                total,
            },
        )
    }
}

/// The frame that `f` starts with.
pub open spec fn frame(f: Seq<u8>) -> Option<FrameView> {
    if f.len() == 0 {
        None
    } else if f[0] == MAGIC_V1 {
        frame_v1(f)
    } else if f[0] == MAGIC_V2 {
        frame_v2(f)
    } else {
        None
    }
}

/// The entry for a frame `v` at position `pos + 8` of `data`, behind its
/// timestamp.
pub open spec fn record_entry(data: Seq<u8>, pos: int, v: FrameView) -> EntryView {
    let start = pos + 8 + v.start;
    let end = pos + 8 + v.end;
    EntryView {
        timestamp_us: bytes::big_endian(data.subrange(pos, pos + 8)) as u64,
        sysid: Some(v.sysid),
        compid: Some(v.compid),
        start,
        end,
        name: dialect::label(
            dialect::message_name(v.version, v.msg_id, data.subrange(start, end)),
            v.msg_id,
        ),
        kind: EntryKind::Mavlink { msg_id: v.msg_id, version: v.version },
        source: LogSourceId::Primary,
    }
}

/// The entries of the records from `pos` on. Where no record starts, the search
/// goes on one byte further.
pub open spec fn records(data: Seq<u8>, pos: int) -> Seq<EntryView>
    decreases data.len() - pos,
{
    if pos < 0 || pos + 8 >= data.len() {
        seq![]
    } else {
        match frame(data.skip(pos + 8)) {
            None => records(data, pos + 1),
            Some(v) => if v.total < 0 {
                seq![]
            } else {
                seq![record_entry(data, pos, v)] + records(data, pos + 8 + v.total)
            },
        }
    }
}

/// A parsed frame header.
struct Frame {
    version: MavlinkVersion,
    sysid: u8,
    compid: u8,
    msg_id: u32,
    payload: Range<usize>,
    total: usize,
}

impl View for Frame {
    type V = FrameView;

    closed spec fn view(&self) -> FrameView {
        FrameView {
            version: self.version,
            sysid: self.sysid,
            compid: self.compid,
            msg_id: self.msg_id,
            start: self.payload.start as int,
            end: self.payload.end as int,
            total: self.total as int,
        }
    }
}

/// Parse a v1 frame.
fn parse_v1(frame: &[u8]) -> (r: Option<Frame>)
    ensures
        match frame_v1(frame@) {
            Some(v) => r matches Some(f) && f@ == v,
            None => r is None,
        },
{
    if frame.len() < 8 {
        return None;
    }
    let len: usize = frame[1] as usize;
    let total: usize = 6 + len + 2;
    if frame.len() < total {
        return None;
    }
    Some(
        Frame {
            version: MavlinkVersion::V1,
            sysid: frame[3],
            compid: frame[4],
            msg_id: frame[5] as u32,
            payload: Range { start: 6, end: 6 + len },
            total,
        },
    )
}

/// Parse a v2 frame.
fn parse_v2(frame: &[u8]) -> (r: Option<Frame>)
    ensures
        match frame_v2(frame@) {
            Some(v) => r matches Some(f) && f@ == v,
            None => r is None,
        },
{
    if frame.len() < 12 {
        return None;
    }
    let len: usize = frame[1] as usize;
    let signed = frame[2] % 2 == 1;
    let total: usize = 10 + len + 2 + if signed {
        13
    } else {
        0
    };
    if frame.len() < total {
        return None;
    }
    proof {
        bytes::lemma_little_endian(frame@.subrange(7, 10));
    }
    let msg_id: u32 = frame[7] as u32 + 256 * (frame[8] as u32) + 0x1_0000 * (frame[9] as u32);
    Some(
        Frame {
            version: MavlinkVersion::V2,
            sysid: frame[5],
            compid: frame[6],
            msg_id,
            payload: Range { start: 10, end: 10 + len },
            total,
        },
    )
}

/// Parse an entire tlog buffer, resyncing on corrupt data by sliding
/// forward one byte at a time until a plausible record is found.
pub fn parse(data: &[u8]) -> (r: Vec<LogEntry>)
    ensures
        entry::entry_views(r@) == records(data@, 0),
{
    let mut entries: Vec<LogEntry> = Vec::new();
    let mut pos: usize = 0;
    assert(entry::entry_views(entries@) + records(data@, 0) =~= records(data@, 0));
    while data.len() - pos > 8
        invariant
            pos <= data.len(),
            entry::entry_views(entries@) + records(data@, pos as int) == records(data@, 0),
        decreases data.len() - pos,
    {
        let frame = slice_subrange(data, pos + 8, data.len());
        assert(frame@ =~= data@.skip(pos + 8));
        let parsed = if frame[0] == MAGIC_V1 {
            parse_v1(frame)
        } else if frame[0] == MAGIC_V2 {
            parse_v2(frame)
        } else {
            None
        };
        let f = match parsed {
            Some(f) => f,
            None => {
                pos += 1;
                continue;
            },
        };
        let start: usize = pos + 8 + f.payload.start;
        let end: usize = pos + 8 + f.payload.end;
        let name = dialect::message_label(f.version, f.msg_id, slice_subrange(data, start, end));
        let e = LogEntry {
            timestamp_us: bytes::be_u64(data, pos),
            sysid: Some(f.sysid),
            compid: Some(f.compid),
            payload: Range { start, end },
            name,
            kind: EntryKind::Mavlink { msg_id: f.msg_id, version: f.version },
            source: LogSourceId::Primary,
        };
        let ghost before = entries@;
        proof {
            assert(e@ =~= record_entry(data@, pos as int, f@));
        }
        entries.push(e);
        proof {
            assert(entry::entry_views(entries@) =~= entry::entry_views(before).push(e@));
            assert(entry::entry_views(entries@) + records(data@, pos + 8 + f.total)
                =~= entry::entry_views(before) + records(data@, pos as int));
        }
        pos += 8 + f.total;
    }
    assert(entry::entry_views(entries@) + records(data@, pos as int) =~= entry::entry_views(
        entries@,
    ));
    entries
}

/// The fields of the message of an entry: those that the dialect decodes from
/// the payload. An entry of another format has none.
pub open spec fn decoded(data: Seq<u8>, e: EntryView) -> Option<Seq<FieldView>> {
    match e.kind {
        EntryKind::Mavlink { msg_id, version } => dialect::fields(
            dialect::message_members(version, msg_id, data.subrange(e.start, e.end)),
        ),
        EntryKind::Dataflash { .. } => None,
    }
}

/// Decode the full message for an entry parsed from `data`.
pub fn decode(data: &[u8], entry: &LogEntry) -> (r: Option<Vec<Field>>)
    requires
        entry@.within(data@.len() as int),
    ensures
        (match r {
            Some(v) => Some(value::field_views(v@)),
            None => None,
        }) == decoded(data@, entry@),
{
    match entry.kind {
        EntryKind::Mavlink { msg_id, version } => dialect::decoded(
            version,
            msg_id,
            slice_subrange(data, entry.payload.start, entry.payload.end),
        ),
        EntryKind::Dataflash { .. } => None,
    }
}

/// How a byte is shown in the text column of a dump.
pub open spec fn printable(b: u8) -> char {
    if 0x20 <= b && b < 0x7f {
        b as char
    } else {
        '.'
    }
}

/// Bytes in two-digit hexadecimal notation, with spaces between them.
pub open spec fn hex_bytes(b: Seq<u8>) -> Seq<char>
    decreases b.len(),
{
    if b.len() == 0 {
        seq![]
    } else {
        (if b.len() == 1 {
            seq![]
        } else {
            hex_bytes(b.drop_last()).push(' ')
        }) + numeral::pad_start(numeral::hexadecimal(b.last() as nat), 2, '0')
    }
}

/// One line of a dump: the offset, the bytes in hexadecimal notation, and the
/// bytes as text.
pub open spec fn dump_line(offset: nat, b: Seq<u8>) -> Seq<char> {
    numeral::pad_start(numeral::hexadecimal(offset), 4, '0') + "  "@ + numeral::pad_end(
        hex_bytes(b),
        47,
        ' ',
    ) + "  "@ + b.map_values(|x: u8| printable(x)) + "\n"@
}

/// The lines of a dump from `offset` on, 16 bytes each.
pub open spec fn dump_lines(payload: Seq<u8>, offset: int) -> Seq<char>
    decreases payload.len() - offset,
{
    if offset >= payload.len() {
        seq![]
    } else {
        let end = if offset + 16 <= payload.len() {
            offset + 16
        } else {
            payload.len() as int
        };
        dump_line(offset as nat, payload.subrange(offset, end)) + dump_lines(payload, end)
    }
}

/// Append bytes in two-digit hexadecimal notation, padded to the width of 16 of
/// them.
fn push_hex_column(out: &mut String, b: &[u8])
    requires
        b@.len() <= 16,
    ensures
        final(out)@ == old(out)@ + numeral::pad_end(hex_bytes(b@), 47, ' '),
{
    let ghost start = out@;
    let mut i: usize = 0;
    assert(b@.take(0) =~= seq![]);
    assert(out@ =~= start + hex_bytes(b@.take(0)));
    while i < b.len()
        invariant
            i <= b.len() <= 16,
            out@ == start + hex_bytes(b@.take(i as int)),
            hex_bytes(b@.take(i as int)).len() == if i == 0 {
                0
            } else {
                3 * i - 1
            },
        decreases b.len() - i,
    {
        if i > 0 {
            out.push(' ');
        }
        numeral::push_padded_hex(out, b[i] as usize, 2);
        i += 1;
        proof {
            let now = b@.take(i as int);
            assert(now.drop_last() =~= b@.take(i - 1));
            assert(now.last() == b@[i - 1]);
            lemma_hex_byte(b@[i - 1]);
            assert(out@ =~= start + hex_bytes(now));
        }
    }
    assert(b@.take(i as int) =~= b@);
    let width: usize = if b.len() == 0 {
        0
    } else {
        3 * b.len() - 1
    };
    if width < 47 {
        numeral::push_spaces(out, 47 - width);
    }
    assert(out@ =~= start + numeral::pad_end(hex_bytes(b@), 47, ' '));
}

/// A byte takes two hexadecimal digits.
proof fn lemma_hex_byte(b: u8)
    ensures
        numeral::pad_start(numeral::hexadecimal(b as nat), 2, '0').len() == 2,
{
    reveal_with_fuel(numeral::hexadecimal, 3);
}

/// Fallback detail-pane body for messages the dialect can't decode.
pub fn hex_dump(payload: &[u8]) -> (out: String)
    ensures
        out@ == "undecodable payload:\n"@ + dump_lines(payload@, 0),
{
    let mut out = "undecodable payload:\n".to_string();
    let ghost head = out@;
    let mut offset: usize = 0;
    assert(out@ + dump_lines(payload@, 0) =~= head + dump_lines(payload@, 0));
    while offset < payload.len()
        invariant
            offset <= payload.len(),
            out@ + dump_lines(payload@, offset as int) == head + dump_lines(payload@, 0),
        decreases payload.len() - offset,
    {
        let ghost before = out@;
        let end: usize = if payload.len() - offset >= 16 {
            offset + 16
        } else {
            payload.len()
        };
        let chunk = slice_subrange(payload, offset, end);
        numeral::push_padded_hex(&mut out, offset, 4);
        out.append("  ");
        push_hex_column(&mut out, chunk);
        out.append("  ");
        let ghost mid = out@;
        let mut i: usize = 0;
        while i < chunk.len()
            invariant
                i <= chunk.len(),
                out@ =~= mid + chunk@.map_values(|x: u8| printable(x)).take(i as int),
            decreases chunk.len() - i,
        {
            let b = chunk[i];
            out.push(
                if 0x20 <= b && b < 0x7f {
                    b as char
                } else {
                    '.'
                },
            );
            i += 1;
        }
        out.append("\n");
        proof {
            let ascii = chunk@.map_values(|x: u8| printable(x));
            assert(ascii.take(i as int) =~= ascii);
            assert(out@ =~= before + dump_line(offset as nat, chunk@));
            assert(out@ + dump_lines(payload@, end as int) =~= before + dump_lines(
                payload@,
                offset as int,
            ));
        }
        offset = end;
    }
    assert(out@ + dump_lines(payload@, offset as int) =~= out@);
    out
}

/// The entries from `pos` on come from MAVLink records behind `pos`.
proof fn lemma_records(data: Seq<u8>, pos: int)
    requires
        0 <= pos,
    ensures
        forall|i: int|
            0 <= i < records(data, pos).len() ==> {
                let e = #[trigger] records(data, pos)[i];
                &&& e.within(data.len() as int)
                &&& pos + 8 <= e.start
                &&& e.sysid is Some && e.compid is Some
                &&& e.kind is Mavlink
                &&& e.source is Primary
            },
        forall|i: int, j: int|
            0 <= i < j < records(data, pos).len() ==> (#[trigger] records(data, pos)[i]).end + 8
                <= (#[trigger] records(data, pos)[j]).start,
    decreases data.len() - pos,
{
    if pos + 8 < data.len() {
        match frame(data.skip(pos + 8)) {
            None => lemma_records(data, pos + 1),
            Some(v) => {
                let next = pos + 8 + v.total;
                lemma_records(data, next);
                let all = records(data, pos);
                let rest = records(data, next);
                assert(all =~= seq![record_entry(data, pos, v)] + rest);
                assert forall|i: int| 0 <= i < all.len() implies {
                    let e = #[trigger] all[i];
                    &&& e.within(data.len() as int)
                    &&& pos + 8 <= e.start
                    &&& e.sysid is Some && e.compid is Some
                    &&& e.kind is Mavlink
                    &&& e.source is Primary
                } by {
                    if i > 0 {
                        assert(all[i] == rest[i - 1]);
                    }
                }
                assert forall|i: int, j: int| 0 <= i < j < all.len() implies (
                #[trigger] all[i]).end + 8 <= (#[trigger] all[j]).start by {
                    assert(all[j] == rest[j - 1]);
                    if i > 0 {
                        assert(all[i] == rest[i - 1]);
                    }
                }
            },
        }
    }
}

/// Every entry of a tlog is a MAVLink message with ids whose payload lies
/// within the buffer, and the records follow each other without overlapping.
pub proof fn law_entries_in_bounds(data: Seq<u8>)
    ensures
        forall|i: int|
            0 <= i < records(data, 0).len() ==> {
                let e = #[trigger] records(data, 0)[i];
                &&& e.within(data.len() as int)
                &&& e.sysid is Some && e.compid is Some
                &&& e.kind is Mavlink
                &&& e.source is Primary
            },
        forall|i: int, j: int|
            0 <= i < j < records(data, 0).len() ==> (#[trigger] records(data, 0)[i]).end + 8 <= (
            #[trigger] records(data, 0)[j]).start,
{
    lemma_records(data, 0);
}

/// What stands in front of a position does not matter for the records from
/// there on.
pub proof fn law_records_do_not_look_back(front: Seq<u8>, data: Seq<u8>, pos: int)
    requires
        0 <= pos,
    ensures
        records(front + data, front.len() + pos) == entry::all_moved(
            records(data, pos),
            front.len() as int,
        ),
    decreases data.len() - pos,
{
    let n = front.len() as int;
    let whole = front + data;
    if pos + 8 < data.len() {
        assert(whole.skip(n + pos + 8) =~= data.skip(pos + 8));
        match frame(data.skip(pos + 8)) {
            None => law_records_do_not_look_back(front, data, pos + 1),
            Some(v) => {
                let next = pos + 8 + v.total;
                law_records_do_not_look_back(front, data, next);
                assert(whole.subrange(n + pos, n + pos + 8) =~= data.subrange(pos, pos + 8));
                let e = record_entry(data, pos, v);
                assert(whole.subrange(n + e.start, n + e.end) =~= data.subrange(e.start, e.end));
                assert(record_entry(whole, n + pos, v) == entry::moved(e, n));
                assert(records(data, pos) =~= seq![e] + records(data, next));
                assert(entry::all_moved(records(data, pos), n) =~= seq![entry::moved(e, n)] + entry::all_moved(
                    records(data, next),
                    n,
                ));
            },
        }
    } else {
        assert(entry::all_moved(records(data, pos), n) =~= seq![]);
    }
}

/// Whether `f` is one whole MAVLink frame.
pub open spec fn is_frame(f: Seq<u8>) -> bool {
    frame(f) matches Some(v) && v.total == f.len()
}

/// A record at the start of a log gives its entry, and the log goes on behind
/// it.
pub proof fn law_record_is_read(timestamp_us: u64, f: Seq<u8>, rest: Seq<u8>)
    requires
        is_frame(f),
    ensures
        ({
            let v = frame(f)->Some_0;
            let data = bytes::big_endian_bytes(timestamp_us) + f + rest;
            let first = EntryView {
                timestamp_us,
                sysid: Some(v.sysid),
                compid: Some(v.compid),
                start: 8 + v.start,
                end: 8 + v.end,
                name: dialect::label(
                    dialect::message_name(v.version, v.msg_id, f.subrange(v.start, v.end)),
                    v.msg_id,
                ),
                kind: EntryKind::Mavlink { msg_id: v.msg_id, version: v.version },
                source: LogSourceId::Primary,
            };
            records(data, 0) == seq![first] + entry::all_moved(records(rest, 0), 8 + f.len() as int)
        }),
{
    let v = frame(f)->Some_0;
    let head = bytes::big_endian_bytes(timestamp_us);
    let data = head + f + rest;
    bytes::law_big_endian_bytes(timestamp_us);
    assert(data.subrange(0, 8) =~= head);
    let tail = data.skip(8);
    assert(tail =~= f + rest);
    assert(f.len() >= 8);
    assert(tail[0] == f[0] && tail[1] == f[1]);
    if f[0] == MAGIC_V2 {
        assert(tail[2] == f[2]);
        assert(tail.subrange(7, 10) =~= f.subrange(7, 10));
    }
    assert(frame(tail) == Some(v));
    assert(data.subrange(8 + v.start, 8 + v.end) =~= f.subrange(v.start, v.end));
    let front = head + f;
    law_records_do_not_look_back(front, rest, 0);
    assert(front + rest =~= data);
}

/// Where no record starts, the first byte is skipped.
pub proof fn law_resync(data: Seq<u8>)
    requires
        data.len() > 0,
        data.len() > 8 ==> frame(data.skip(8)) is None,
    ensures
        records(data, 0) == entry::all_moved(records(data.skip(1), 0), 1),
{
    let front = data.take(1);
    let rest = data.skip(1);
    assert(front + rest =~= data);
    law_records_do_not_look_back(front, rest, 0);
    if data.len() <= 8 {
        assert(records(data, 0) =~= seq![]);
        assert(entry::all_moved(records(rest, 0), 1) =~= seq![]);
    }
}

/// The number that eight bytes stand for, most significant first.
pub open spec fn stamp_value(b: Seq<u8>) -> int {
    b[0] * 0x100_0000_0000_0000 + b[1] * 0x1_0000_0000_0000 + b[2] * 0x100_0000_0000 + b[3]
        * 0x1_0000_0000 + b[4] * 0x100_0000 + b[5] * 0x1_0000 + b[6] * 0x100 + b[7]
}

/// Reading eight bytes gives the number they stand for.
proof fn lemma_stamp(b: Seq<u8>)
    requires
        b.len() == 8,
    ensures
        bytes::big_endian(b) == stamp_value(b),
        0 <= stamp_value(b) <= u64::MAX,
{
    reveal_with_fuel(bytes::big_endian, 9);
    let b7 = b.drop_last();
    let b6 = b7.drop_last();
    let b5 = b6.drop_last();
    let b4 = b5.drop_last();
    let b3 = b4.drop_last();
    let b2 = b3.drop_last();
    let b1 = b2.drop_last();
    assert(bytes::big_endian(b1) == b[0]);
    assert(bytes::big_endian(b2) == b[0] * 256 + b[1]);
    assert(bytes::big_endian(b3) == bytes::big_endian(b2) * 256 + b[2]);
    assert(bytes::big_endian(b4) == bytes::big_endian(b3) * 256 + b[3]);
    assert(bytes::big_endian(b5) == bytes::big_endian(b4) * 256 + b[4]);
    assert(bytes::big_endian(b6) == bytes::big_endian(b5) * 256 + b[5]);
    assert(bytes::big_endian(b7) == bytes::big_endian(b6) * 256 + b[6]);
}

/// A v2 frame is read as it was written: from its timestamp and its header, byte
/// by byte, come the time, the ids, the message id and the place of the payload,
/// and the log goes on behind its checksum and, if it is signed, its signature.
pub proof fn law_v2_record_is_read(
    stamp: Seq<u8>,
    incompat: u8,
    compat: u8,
    seq: u8,
    sys: u8,
    comp: u8,
    id: (u8, u8, u8),
    payload: Seq<u8>,
    checksum: Seq<u8>,
    signature: Seq<u8>,
    rest: Seq<u8>,
)
    requires
        stamp.len() == 8,
        payload.len() <= 255,
        checksum.len() == 2,
        signature.len() == if incompat % 2 == 1 {
            13int
        } else {
            0int
        },
    ensures
        ({
            let header = seq![
                0xFDu8,
                payload.len() as u8,
                incompat,
                compat,
                seq,
                sys,
                comp,
                id.0,
                id.1,
                id.2,
            ];
            let data = stamp + header + payload + checksum + signature + rest;
            let total = data.len() - rest.len();
            let msg_id = (id.0 + 256 * id.1 + 0x1_0000 * id.2) as u32;
            let all = records(data, 0);
            &&& all.len() == 1 + records(rest, 0).len()
            &&& all[0].timestamp_us == stamp_value(stamp)
            &&& all[0].sysid == Some(sys)
            &&& all[0].compid == Some(comp)
            &&& all[0].start == 18
            &&& all[0].end == 18 + payload.len()
            &&& all[0].kind == EntryKind::Mavlink { msg_id, version: MavlinkVersion::V2 }
            &&& all[0].source == LogSourceId::Primary
            &&& all[0].name == match dialect::message_name(MavlinkVersion::V2, msg_id, payload) {
                Some(n) => n,
                None => "UNKNOWN("@ + numeral::decimal(msg_id as nat) + ")"@,
            }
            &&& forall|i: int|
                0 <= i < records(rest, 0).len() ==> (#[trigger] all[i + 1]) == (EntryView {
                    start: records(rest, 0)[i].start + total,
                    end: records(rest, 0)[i].end + total,
                    ..records(rest, 0)[i]
                })
        }),
{
    let header = seq![
        0xFDu8,
        payload.len() as u8,
        incompat,
        compat,
        seq,
        sys,
        comp,
        id.0,
        id.1,
        id.2,
    ];
    let f = header + payload + checksum + signature;
    let front = stamp + f;
    let data = stamp + header + payload + checksum + signature + rest;
    assert(data =~= front + rest);
    let tail = data.skip(8);
    assert(tail =~= f + rest);
    bytes::lemma_little_endian(tail.subrange(7, 10));
    let v = frame(tail)->Some_0;
    assert(frame(tail) is Some);
    assert(v.total == f.len());
    assert(data.subrange(0, 8) =~= stamp);
    lemma_stamp(stamp);
    assert(data.subrange(18, 18 + payload.len() as int) =~= payload);
    law_records_do_not_look_back(front, rest, 0);
    assert(records(data, 0) =~= seq![record_entry(data, 0, v)] + records(data, 8 + v.total));
}

/// A v1 frame is read as it was written: from its timestamp and its header, byte
/// by byte, come the time, the ids, the message id and the place of the payload,
/// and the log goes on behind its checksum.
pub proof fn law_v1_record_is_read(
    stamp: Seq<u8>,
    seq: u8,
    sys: u8,
    comp: u8,
    id: u8,
    payload: Seq<u8>,
    checksum: Seq<u8>,
    rest: Seq<u8>,
)
    requires
        stamp.len() == 8,
        payload.len() <= 255,
        checksum.len() == 2,
    ensures
        ({
            let header = seq![0xFEu8, payload.len() as u8, seq, sys, comp, id];
            let data = stamp + header + payload + checksum + rest;
            let total = data.len() - rest.len();
            let all = records(data, 0);
            &&& all.len() == 1 + records(rest, 0).len()
            &&& all[0].timestamp_us == stamp_value(stamp)
            &&& all[0].sysid == Some(sys)
            &&& all[0].compid == Some(comp)
            &&& all[0].start == 14
            &&& all[0].end == 14 + payload.len()
            &&& all[0].kind == EntryKind::Mavlink {
                msg_id: id as u32,
                version: MavlinkVersion::V1,
            }
            &&& all[0].source == LogSourceId::Primary
            &&& all[0].name == match dialect::message_name(
                MavlinkVersion::V1,
                id as u32,
                payload,
            ) {
                Some(n) => n,
                None => "UNKNOWN("@ + numeral::decimal(id as nat) + ")"@,
            }
            &&& forall|i: int|
                0 <= i < records(rest, 0).len() ==> (#[trigger] all[i + 1]) == (EntryView {
                    start: records(rest, 0)[i].start + total,
                    end: records(rest, 0)[i].end + total,
                    ..records(rest, 0)[i]
                })
        }),
{
    let header = seq![0xFEu8, payload.len() as u8, seq, sys, comp, id];
    let f = header + payload + checksum;
    let front = stamp + f;
    let data = stamp + header + payload + checksum + rest;
    assert(data =~= front + rest);
    let tail = data.skip(8);
    assert(tail =~= f + rest);
    let v = frame(tail)->Some_0;
    assert(frame(tail) is Some);
    assert(v.total == f.len());
    assert(data.subrange(0, 8) =~= stamp);
    lemma_stamp(stamp);
    assert(data.subrange(14, 14 + payload.len() as int) =~= payload);
    law_records_do_not_look_back(front, rest, 0);
    assert(records(data, 0) =~= seq![record_entry(data, 0, v)] + records(data, 8 + v.total));
}

/// Whether an entry is what a whole frame of the log holds: the bytes in front of
/// its payload are the frame's header and timestamp, and those behind it are
/// there.
pub open spec fn tells_frame(data: Seq<u8>, e: EntryView) -> bool {
    match e.kind {
        EntryKind::Mavlink { msg_id, version: MavlinkVersion::V2 } => {
            let h = e.start - 10;
            &&& 8 <= h && e.start <= e.end <= data.len()
            &&& data[h] == 0xFD
            &&& data[h + 1] == e.end - e.start
            &&& e.sysid == Some(data[h + 5])
            &&& e.compid == Some(data[h + 6])
            &&& msg_id == data[h + 7] + 256 * data[h + 8] + 0x1_0000 * data[h + 9]
            &&& e.timestamp_us == stamp_value(data.subrange(h - 8, h))
            &&& e.end + 2 <= data.len()
            &&& data[h + 2] % 2 == 1 ==> e.end + 15 <= data.len()
        },
        EntryKind::Mavlink { msg_id, version: MavlinkVersion::V1 } => {
            let h = e.start - 6;
            &&& 8 <= h && e.start <= e.end <= data.len()
            &&& data[h] == 0xFE
            &&& data[h + 1] == e.end - e.start
            &&& e.sysid == Some(data[h + 3])
            &&& e.compid == Some(data[h + 4])
            &&& msg_id == data[h + 5]
            &&& e.timestamp_us == stamp_value(data.subrange(h - 8, h))
            &&& e.end + 2 <= data.len()
        },
        EntryKind::Dataflash { .. } => false,
    }
}

/// Every entry of a tlog is what a whole frame of the log holds.
pub proof fn law_entries_tell_frames(data: Seq<u8>, pos: int)
    requires
        0 <= pos,
    ensures
        forall|i: int|
            0 <= i < records(data, pos).len() ==> tells_frame(
                data,
                #[trigger] records(data, pos)[i],
            ),
    decreases data.len() - pos,
{
    if pos + 8 < data.len() {
        let f = data.skip(pos + 8);
        match frame(f) {
            None => {
                law_entries_tell_frames(data, pos + 1);
                assert(records(data, pos) == records(data, pos + 1));
            },
            Some(v) => {
                let next = pos + 8 + v.total;
                law_entries_tell_frames(data, next);
                let all = records(data, pos);
                let e = record_entry(data, pos, v);
                assert(all =~= seq![e] + records(data, next));
                lemma_stamp(data.subrange(pos, pos + 8));
                assert(f[0] == data[pos + 8] && f[1] == data[pos + 9]);
                if f[0] == MAGIC_V2 {
                    bytes::lemma_little_endian(f.subrange(7, 10));
                }
                assert(tells_frame(data, e));
                assert forall|i: int| 0 <= i < all.len() implies tells_frame(
                    data,
                    #[trigger] all[i],
                ) by {
                    if i > 0 {
                        assert(all[i] == records(data, next)[i - 1]);
                    }
                }
            },
        }
    }
}

/// Where the ninth byte starts no frame, the first byte belongs to no record.
pub proof fn law_garbage_is_skipped(data: Seq<u8>)
    requires
        data.len() > 0,
        data.len() > 8 ==> data[8] != 0xFE && data[8] != 0xFD,
    ensures
        records(data, 0).len() == records(data.skip(1), 0).len(),
        forall|i: int|
            0 <= i < records(data, 0).len() ==> (#[trigger] records(data, 0)[i]) == (EntryView {
                start: records(data.skip(1), 0)[i].start + 1,
                end: records(data.skip(1), 0)[i].end + 1,
                ..records(data.skip(1), 0)[i]
            }),
{
    if data.len() > 8 {
        assert(data.skip(8)[0] == data[8]);
    }
    law_resync(data);
}

/// How each byte of a dump is shown: printable ASCII as it is, the rest as dots.
pub proof fn law_printable(b: u8)
    ensures
        32 <= b <= 126 ==> printable(b) as u32 == b,
        b < 32 || b > 126 ==> printable(b) == '.',
{
}

/// A byte is shown by its two hexadecimal digits.
proof fn lemma_hex_pair(b: u8)
    ensures
        numeral::pad_start(numeral::hexadecimal(b as nat), 2, '0') == seq![
            numeral::digit_char(b as int / 16),
            numeral::digit_char(b as int % 16),
        ],
{
    reveal_with_fuel(numeral::hexadecimal, 3);
    assert(numeral::pad_start(numeral::hexadecimal(b as nat), 2, '0') =~= seq![
        numeral::digit_char(b as int / 16),
        numeral::digit_char(b as int % 16),
    ]);
}

/// Where the digits of bytes stand.
proof fn lemma_hex_bytes(b: Seq<u8>)
    requires
        b.len() > 0,
    ensures
        hex_bytes(b).len() == 3 * b.len() - 1,
        forall|k: int|
            0 <= k < b.len() ==> hex_bytes(b)[3 * k] == numeral::digit_char(
                (#[trigger] b[k]) as int / 16,
            ) && hex_bytes(b)[3 * k + 1] == numeral::digit_char(b[k] as int % 16),
    decreases b.len(),
{
    lemma_hex_pair(b.last());
    if b.len() > 1 {
        let front = b.drop_last();
        lemma_hex_bytes(front);
        assert forall|k: int| 0 <= k < b.len() implies hex_bytes(b)[3 * k] == numeral::digit_char(
            (#[trigger] b[k]) as int / 16,
        ) && hex_bytes(b)[3 * k + 1] == numeral::digit_char(b[k] as int % 16) by {
            if k < front.len() {
                assert(front[k] == b[k]);
            }
        }
    }
}

/// An offset below 65536 is shown by its four hexadecimal digits.
proof fn lemma_hex_offset(o: nat)
    requires
        o < 0x1_0000,
    ensures
        numeral::pad_start(numeral::hexadecimal(o), 4, '0') == seq![
            numeral::digit_char(o as int / 4096),
            numeral::digit_char(o as int / 256 % 16),
            numeral::digit_char(o as int / 16 % 16),
            numeral::digit_char(o as int % 16),
        ],
{
    reveal_with_fuel(numeral::hexadecimal, 5);
    assert(o / 16 / 16 == o / 256 && o / 16 / 16 / 16 == o / 4096);
    assert(numeral::pad_start(numeral::hexadecimal(o), 4, '0') =~= seq![
        numeral::digit_char(o as int / 4096),
        numeral::digit_char(o as int / 256 % 16),
        numeral::digit_char(o as int / 16 % 16),
        numeral::digit_char(o as int % 16),
    ]);
}

/// What stands where in one line of a dump.
proof fn lemma_dump_line(offset: nat, b: Seq<u8>)
    requires
        offset < 0x1_0000,
        0 < b.len() <= 16,
    ensures
        dump_line(offset, b).len() == 56 + b.len(),
        dump_line(offset, b)[0] == numeral::digit_char(offset as int / 4096),
        dump_line(offset, b)[1] == numeral::digit_char(offset as int / 256 % 16),
        dump_line(offset, b)[2] == numeral::digit_char(offset as int / 16 % 16),
        dump_line(offset, b)[3] == numeral::digit_char(offset as int % 16),
        forall|k: int|
            0 <= k < b.len() ==> {
                &&& dump_line(offset, b)[6 + 3 * k] == numeral::digit_char(
                    (#[trigger] b[k]) as int / 16,
                )
                &&& dump_line(offset, b)[7 + 3 * k] == numeral::digit_char(b[k] as int % 16)
                &&& dump_line(offset, b)[55 + k] == printable(b[k])
            },
        dump_line(offset, b).last() == '\n',
{
    reveal_strlit("  ");
    reveal_strlit("\n");
    lemma_hex_offset(offset);
    lemma_hex_bytes(b);
    let line = dump_line(offset, b);
    let hex = numeral::pad_end(hex_bytes(b), 47, ' ');
    assert(hex.len() == 47);
    assert forall|k: int| 0 <= k < b.len() implies {
        &&& line[6 + 3 * k] == numeral::digit_char((#[trigger] b[k]) as int / 16)
        &&& line[7 + 3 * k] == numeral::digit_char(b[k] as int % 16)
        &&& line[55 + k] == printable(b[k])
    } by {
        assert(line[6 + 3 * k] == hex[3 * k]);
        assert(line[7 + 3 * k] == hex[3 * k + 1]);
    }
}

/// Whether a byte is shown in the line at `line`, which starts with an offset.
#[verifier::opaque]
spec fn shows_byte(dump: Seq<char>, line: int, offset: int, column: int, b: u8) -> bool {
    &&& 0 <= line
    &&& line + 56 + column < dump.len()
    &&& dump[line] == numeral::digit_char(offset / 4096)
    &&& dump[line + 1] == numeral::digit_char(offset / 256 % 16)
    &&& dump[line + 2] == numeral::digit_char(offset / 16 % 16)
    &&& dump[line + 3] == numeral::digit_char(offset % 16)
    &&& dump[line + 6 + 3 * column] == numeral::digit_char(b as int / 16)
    &&& dump[line + 7 + 3 * column] == numeral::digit_char(b as int % 16)
    &&& dump[line + 55 + column] == printable(b)
}

/// A line shows each of its bytes.
proof fn lemma_line_shows(offset: nat, b: Seq<u8>, column: int)
    requires
        offset < 0x1_0000,
        0 <= column < b.len() <= 16,
    ensures
        shows_byte(dump_line(offset, b), 0, offset as int, column, b[column]),
{
    reveal(shows_byte);
    lemma_dump_line(offset, b);
}

/// A byte is shown in the same way with other lines behind it or before it.
proof fn lemma_shows_among(s: Seq<char>, t: Seq<char>, line: int, offset: int, column: int, b: u8)
    requires
        0 <= column < 16,
    ensures
        shows_byte(s, line, offset, column, b) ==> shows_byte(s + t, line, offset, column, b),
        shows_byte(t, line, offset, column, b) ==> shows_byte(
            s + t,
            s.len() + line,
            offset,
            column,
            b,
        ),
{
    reveal(shows_byte);
    let n = s.len() as int;
    if shows_byte(t, line, offset, column, b) {
        assert((s + t)[n + line] == t[line]);
        assert((s + t)[n + line + 1] == t[line + 1]);
        assert((s + t)[n + line + 2] == t[line + 2]);
        assert((s + t)[n + line + 3] == t[line + 3]);
        assert((s + t)[n + line + 6 + 3 * column] == t[line + 6 + 3 * column]);
        assert((s + t)[n + line + 7 + 3 * column] == t[line + 7 + 3 * column]);
        assert((s + t)[n + line + 55 + column] == t[line + 55 + column]);
    }
}

/// Where the byte in a row and a column stands in the lines from a row on.
#[verifier::spinoff_prover]
#[verifier::rlimit(40)]
proof fn lemma_dump_lines(payload: Seq<u8>, first: int, row: int, column: int)
    requires
        payload.len() <= 0x1_0000,
        0 <= first <= row,
        0 <= column < 16,
        16 * row + column < payload.len(),
    ensures
        shows_byte(
            dump_lines(payload, 16 * first),
            72 * (row - first),
            16 * row,
            column,
            payload[16 * row + column],
        ),
    decreases row - first,
{
    let start = 16 * first;
    let end = if start + 16 <= payload.len() {
        start + 16
    } else {
        payload.len() as int
    };
    let b = payload.subrange(start, end);
    let line = dump_line(start as nat, b);
    let rest = dump_lines(payload, end);
    let shown = payload[16 * row + column];
    if row == first {
        lemma_line_shows(start as nat, b, column);
        lemma_shows_among(line, rest, 0, start, column, shown);
    } else {
        lemma_dump_line(start as nat, b);
        lemma_dump_lines(payload, first + 1, row, column);
        lemma_shows_among(line, rest, 72 * (row - first - 1), 16 * row, column, shown);
    }
}

/// What a dump shows of each byte: it stands in the line that starts with the
/// offset of its 16 bytes, by two hexadecimal digits and a character, each at the
/// place that its position gives.
pub proof fn law_dump_shows_every_byte(payload: Seq<u8>, i: int)
    requires
        payload.len() <= 0x1_0000,
        0 <= i < payload.len(),
    ensures
        ({
            let dump = dump_lines(payload, 0);
            let line = i / 16 * 72;
            let o = i / 16 * 16;
            &&& line + 56 + i % 16 < dump.len()
            &&& dump[line] == numeral::digit_char(o / 4096)
            &&& dump[line + 1] == numeral::digit_char(o / 256 % 16)
            &&& dump[line + 2] == numeral::digit_char(o / 16 % 16)
            &&& dump[line + 3] == numeral::digit_char(0)
            &&& dump[line + 6 + 3 * (i % 16)] == numeral::digit_char(payload[i] as int / 16)
            &&& dump[line + 7 + 3 * (i % 16)] == numeral::digit_char(payload[i] as int % 16)
            &&& 32 <= payload[i] <= 126 ==> dump[line + 55 + i % 16] as u32 == payload[i]
            &&& payload[i] < 32 || payload[i] > 126 ==> dump[line + 55 + i % 16] == '.'
        }),
{
    lemma_dump_lines(payload, 0, i / 16, i % 16);
    reveal(shows_byte);
    law_printable(payload[i]);
}

/// A frame of which the log holds only a part is no record, and the search goes on one
/// byte further.
pub proof fn law_truncated_frame_is_skipped(data: Seq<u8>)
    requires
        data.len() > 10,
        data[8] == 0xFE ==> data.len() < 8 + 8 + data[9],
        data[8] == 0xFD ==> data.len() < 8 + 12 + data[9] + if data[10] % 2 == 1 {
            13int
        } else {
            0int
        },
    ensures
        records(data, 0).len() == records(data.skip(1), 0).len(),
        forall|i: int|
            0 <= i < records(data, 0).len() ==> (#[trigger] records(data, 0)[i]) == (EntryView {
                start: records(data.skip(1), 0)[i].start + 1,
                end: records(data.skip(1), 0)[i].end + 1,
                ..records(data.skip(1), 0)[i]
            }),
{
    let f = data.skip(8);
    assert(f[0] == data[8] && f[1] == data[9] && f[2] == data[10]);
    law_resync(data);
}

/// The fields of a message are those that the dialect makes of its own payload, under
/// its own version and id; a message of another format has none.
pub proof fn law_decoded(data: Seq<u8>, e: EntryView)
    ensures
        e.kind matches EntryKind::Mavlink { msg_id, version } ==> decoded(data, e)
            == dialect::fields(
            dialect::message_members(version, msg_id, data.subrange(e.start, e.end)),
        ),
        e.kind is Dataflash ==> decoded(data, e) is None,
{
}

} // verus!
