//! The format-neutral log entry shared by the `tlog` (MAVLink) and
//! `dataflash` (ArduPilot `.bin`) parsers, and consumed by filters, columns,
//! plots and the session.
//!
//! An entry is metadata only: the bytes live in the log buffer and `payload`
//! indexes into it. `kind` carries the format-specific handle needed to decode
//! those bytes back into named fields.

use std::ops::Range;

use vstd::prelude::*;
use crate::numeral;

verus! {

/// Which log of a merged session an entry came from. A single-file session
/// only has primary entries; in a merged one the tlog is primary and the bin
/// is secondary.
#[derive(Clone, Copy, Debug, PartialEq, Eq, Structural)]
pub enum LogSourceId {
    Primary,
    Secondary,
}

/// The MAVLink protocol version of a frame.
#[derive(Clone, Copy, Debug, PartialEq, Eq, Structural)]
pub enum MavlinkVersion {
    V1,
    V2,
}

/// Format-specific data needed to decode an entry's payload.
#[derive(Clone, Copy, Debug, PartialEq, Eq, Structural)]
pub enum EntryKind {
    /// A MAVLink message; decoded via the `mavlink` dialect.
    Mavlink { msg_id: u32, version: MavlinkVersion },
    /// A DataFlash record; decoded via the log's embedded `FMT` schema, keyed
    /// by this message type id.
    Dataflash { msg_type: u8 },
}

pub struct LogEntry {
    pub timestamp_us: u64,
    /// MAVLink system and component ids. `None` for formats that have no such
    /// concept, such as ArduPilot DataFlash logs.
    pub sysid: Option<u8>,
    pub compid: Option<u8>,
    /// Byte range of the payload within the log buffer.
    pub payload: Range<usize>,
    pub name: String,
    pub kind: EntryKind,
    pub source: LogSourceId,
}

/// What a log entry holds.
#[verifier::ext_equal]
pub struct EntryView {
    pub timestamp_us: u64,
    pub sysid: Option<u8>,
    pub compid: Option<u8>,
    pub start: int,
    pub end: int,
    pub name: Seq<char>,
    pub kind: EntryKind,
    pub source: LogSourceId,
}

impl View for LogEntry {
    type V = EntryView;

    open spec fn view(&self) -> EntryView {
        EntryView {
            timestamp_us: self.timestamp_us,
            sysid: self.sysid,
            compid: self.compid,
            start: self.payload.start as int,
            end: self.payload.end as int,
            name: self.name@,
            kind: self.kind,
            source: self.source,
        }
    }
}

/// What the entries of a list hold.
pub open spec fn entry_views(entries: Seq<LogEntry>) -> Seq<EntryView> {
    entries.map_values(|e: LogEntry| e@)
}

impl EntryView {
    /// Whether the payload lies within a buffer of `len` bytes.
    pub open spec fn within(self, len: int) -> bool {
        0 <= self.start <= self.end <= len
    }

    /// Whether the ids and the type of the entry are those asked for; an id
    /// that is `None` matches anything, and the type is compared without
    /// regard to case.
    pub open spec fn is_from(
        self,
        sysid: Option<u8>,
        compid: Option<u8>,
        msg_type: Seq<char>,
    ) -> bool {
        &&& sysid is None || sysid == self.sysid
        &&& compid is None || compid == self.compid
        &&& crate::text::same_ignoring_case(self.name, msg_type)
    }
}

/// The same entry in a buffer with `by` more bytes in front.
pub open spec fn moved(e: EntryView, by: int) -> EntryView {
    EntryView { start: e.start + by, end: e.end + by, ..e }
}

/// The same entries in a buffer with `by` more bytes in front.
pub open spec fn all_moved(entries: Seq<EntryView>, by: int) -> Seq<EntryView> {
    entries.map_values(|e: EntryView| moved(e, by))
}

impl LogEntry {
    /// A numeric id for display in the detail title: the MAVLink message id,
    /// or the DataFlash message type.
    pub fn msg_id(&self) -> (id: u32)
        ensures
            id == match self.kind {
                EntryKind::Mavlink { msg_id, .. } => msg_id,
                EntryKind::Dataflash { msg_type } => msg_type as u32,
            },
    {
        match self.kind {
            EntryKind::Mavlink { msg_id, .. } => msg_id,
            EntryKind::Dataflash { msg_type } => msg_type as u32,
        }
    }

    /// The `sys:comp` id label, or empty when the format has no ids.
    pub fn id_label(&self) -> (r: String)
        ensures
            r@ == match (self.sysid, self.compid) {
                (Some(s), Some(c)) => id_text(s, c),
                _ => seq![],
            },
    {
        match (self.sysid, self.compid) {
            (Some(s), Some(c)) => id_string(s, c),
            _ => String::new(),
        }
    }

    /// Whether the ids and the type are those asked for.
    pub fn comes_from(&self, sysid: Option<u8>, compid: Option<u8>, msg_type: &str) -> (r: bool)
        ensures
            r == self@.is_from(sysid, compid, msg_type@),
    {
        (sysid.is_none() || sysid == self.sysid) && (compid.is_none() || compid == self.compid)
            && crate::text::matches_ignoring_case(self.name.as_str(), msg_type)
    }

    /// A copy of the entry.
    pub fn copied(&self) -> (r: LogEntry)
        ensures
            r@ == self@,
            r == *self,
    {
        LogEntry {
            timestamp_us: self.timestamp_us,
            sysid: self.sysid,
            compid: self.compid,
            payload: Range { start: self.payload.start, end: self.payload.end },
            name: self.name.clone(),
            kind: self.kind,
            source: self.source,
        }
    }
}

/// The pair of ids as text.
pub open spec fn id_text(sysid: u8, compid: u8) -> Seq<char> {
    numeral::decimal(sysid as nat) + seq![':'] + numeral::decimal(compid as nat)
}

/// The pair of ids as text.
pub fn id_string(sysid: u8, compid: u8) -> (r: String)
    ensures
        r@ == id_text(sysid, compid),
{
    let mut r = numeral::decimal_text(sysid as u64);
    r.push(':');
    numeral::push_decimal(&mut r, compid as u128);
    assert(r@ =~= id_text(sysid, compid));
    r
}

/// A message is asked for by its ids and its type: an id that is given must be its
/// own, and the type must be the same in any case.
pub proof fn law_is_from(e: EntryView, sysid: u8, compid: u8, msg_type: Seq<char>)
    ensures
        e.is_from(None, None, msg_type) <==> crate::text::lower(e.name) == crate::text::lower(
            msg_type,
        ),
        e.is_from(Some(sysid), None, msg_type) <==> e.sysid == Some(sysid) && e.is_from(
            None,
            None,
            msg_type,
        ),
        e.is_from(None, Some(compid), msg_type) <==> e.compid == Some(compid) && e.is_from(
            None,
            None,
            msg_type,
        ),
        e.is_from(Some(sysid), Some(compid), msg_type) <==> e.sysid == Some(sysid) && e.compid
            == Some(compid) && e.is_from(None, None, msg_type),
{
}

} // verus!
