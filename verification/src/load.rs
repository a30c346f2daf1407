//! What kind of log a file holds, and how two logs go together.

use vstd::prelude::*;
use crate::entry::EntryView;
use crate::session::{Session, SessionView};
use crate::setup::SESSION_EXT;
use crate::sync::SyncMethod;
use crate::{align, dataflash, entry, order, path, session, sound, sync, tlog};

verus! {

/// Whether a log is an ArduPilot DataFlash `.bin` log: by its extension, or by
/// the record magic where the extension is neither `.bin` nor `.tlog`.
pub open spec fn holds_dataflash(path: Seq<char>, data: Seq<u8>) -> bool {
    path::has_extension(path, "bin"@) || (!path::has_extension(path, "tlog"@) && data.len() >= 2
        && data[0] == dataflash::HEAD1 && data[1] == dataflash::HEAD2)
}

/// Whether to parse `path` as an ArduPilot DataFlash `.bin` log: a `.bin`
/// extension, or the DataFlash record magic at the start of the file.
pub fn is_dataflash(path: &str, data: &[u8]) -> (r: bool)
    ensures
        r == holds_dataflash(path@, data@),
{
    path::extension_is(path, "bin") || (!path::extension_is(path, "tlog") && data.len() >= 2
        && data[0] == dataflash::HEAD1 && data[1] == dataflash::HEAD2)
}

/// Whether `path` is a session file (by extension).
pub fn is_session_file(path: &str) -> (r: bool)
    ensures
        r == path::has_extension(path@, SESSION_EXT@),
{
    path::extension_is(path, SESSION_EXT)
}

/// Which of two logs is the tlog of a merged session.
#[derive(Clone, Copy, Debug, PartialEq, Eq, Structural)]
pub enum MergeOrder {
    /// The first is the tlog, the second the bin.
    AsGiven,
    /// The first is the bin, the second the tlog.
    Swapped,
}

/// How two logs are merged, by whether each is a DataFlash log. Merging needs
/// exactly one tlog and one bin.
pub fn merge_order(first_is_bin: bool, second_is_bin: bool) -> (r: Option<MergeOrder>)
    ensures
        r == match (first_is_bin, second_is_bin) {
            (false, true) => Some(MergeOrder::AsGiven),
            (true, false) => Some(MergeOrder::Swapped),
            _ => None,
        },
{
    match (first_is_bin, second_is_bin) {
        (false, true) => Some(MergeOrder::AsGiven),
        (true, false) => Some(MergeOrder::Swapped),
        _ => None,
    }
}

/// The offset by which a bin is placed, and how it was found: without one from
/// the tlog the logs load unshifted.
pub fn placement(offset: Option<i64>) -> (r: (i64, SyncMethod))
    ensures
        r == match offset {
            Some(o) => (o, SyncMethod::SystemTime),
            None => (0i64, SyncMethod::ManualOnly),
        },
{
    match offset {
        Some(o) => (o, SyncMethod::SystemTime),
        None => (0, SyncMethod::ManualOnly),
    }
}

/// The entries that a log holds.
pub open spec fn entries_in(path: Seq<char>, data: Seq<u8>) -> Seq<EntryView> {
    if holds_dataflash(path, data) {
        dataflash::scan(data, 0, dataflash::nothing()).entries
    } else {
        tlog::records(data, 0)
    }
}

/// The schema that a log carries, where its format has one.
pub open spec fn schema_in(path: Seq<char>, data: Seq<u8>) -> Option<
    Map<u8, crate::schema::MsgFmtView>,
> {
    if holds_dataflash(path, data) {
        Some(dataflash::schema_of(dataflash::scan(data, 0, dataflash::nothing())))
    } else {
        None
    }
}

/// The complaint about a log without messages.
pub open spec fn no_messages(path: Seq<char>) -> Seq<char> {
    "no log messages found in "@ + path
}

/// Whether a tlog and a bin both hold messages.
pub open spec fn have_messages(tlog_data: Seq<u8>, bin_data: Seq<u8>) -> bool {
    tlog::records(tlog_data, 0).len() > 0 && dataflash::scan(
        bin_data,
        0,
        dataflash::nothing(),
    ).entries.len() > 0
}

/// Whether `s` is the session of a tlog and a bin, each given by path and bytes.
/// The bin is placed by the median of the offsets that the tlog gives, and
/// unshifted without any.
pub open spec fn is_merge(
    log: (Seq<char>, Seq<u8>),
    bin: (Seq<char>, Seq<u8>),
    s: SessionView,
) -> bool {
    let records = tlog::records(log.1, 0);
    let scan = dataflash::scan(bin.1, 0, dataflash::nothing());
    let samples = sync::samples(log.1, records);
    &&& s.sync matches Some(state) && {
        &&& state.manual_offset_us == 0
        &&& if samples.len() == 0 {
            state.bin_offset_us == 0 && state.method == SyncMethod::ManualOnly
        } else {
            sync::is_median(samples, state.bin_offset_us) && state.method == SyncMethod::SystemTime
        }
        &&& order::is_order(
            session::times(
                session::combined(
                    records,
                    scan.entries,
                    log.1.len() as int,
                    state.bin_offset_us,
                ),
            ),
            s.log_places,
        )
        &&& s == session::merged(
            (log.0, bin.0),
            (log.1, records),
            (bin.1, scan.entries),
            dataflash::schema_of(scan),
            state,
            s.log_places,
            (s.id_options, s.type_options),
        )
    }
    &&& session::lists_ids(s.id_options, s.entries)
    &&& session::lists_types(s.type_options, s.entries)
}

/// Every entry of a log lies within it.
proof fn lemma_entries_within(path: Seq<char>, data: Seq<u8>)
    ensures
        session::all_within(entries_in(path, data), data.len() as int),
{
    if holds_dataflash(path, data) {
        dataflash::law_entries_in_bounds(data);
    } else {
        tlog::law_entries_in_bounds(data);
    }
}

/// Parse a log that was read from `path` into a session. Picks the parser by
/// extension, falling back to a content sniff so mis-named or extension-less
/// files still open.
pub fn open_log(path: String, data: Vec<u8>) -> (r: Result<Session, String>)
    ensures
        match r {
            Ok(s) => {
                &&& entries_in(path@, data@).len() > 0
                &&& s@ == session::opened(
                    path@,
                    data@,
                    entries_in(path@, data@),
                    schema_in(path@, data@),
                    s@.id_options,
                    s@.type_options,
                )
                &&& session::lists_ids(s@.id_options, s@.entries)
                &&& session::lists_types(s@.type_options, s@.entries)
                &&& s@.sound()
            },
            Err(e) => entries_in(path@, data@).len() == 0 && e@ == no_messages(path@),
        },
{
    proof {
        lemma_entries_within(path@, data@);
    }
    let (entries, schema) = if is_dataflash(path.as_str(), &data) {
        let (entries, schema) = dataflash::parse(&data);
        (entries, Some(schema))
    } else {
        (tlog::parse(&data), None)
    };
    assert(entry::entry_views(entries@) == entries_in(path@, data@));
    if entries.len() == 0 {
        let mut e = "no log messages found in ".to_string();
        e.append(path.as_str());
        return Err(e);
    }
    let ghost (shown_path, bytes) = (path@, data@);
    let ghost given = session::schema_view(schema);
    let s = Session::new(path, data, entries, schema);
    proof {
        sound::law_opened_is_sound(
            shown_path,
            bytes,
            s@.entries,
            given,
            s@.id_options,
            s@.type_options,
        );
    }
    Ok(s)
}

/// Merge a MAVLink `.tlog` and an ArduPilot `.bin` into a single
/// time-synchronized session. The bin is aligned onto the tlog's absolute clock
/// via the tlog's `SYSTEM_TIME` messages; without those the logs load unshifted
/// and the user aligns them by hand.
pub fn open_merged(tlog_path: String, tlog_data: Vec<u8>, bin_path: String, bin_data: Vec<u8>) -> (r:
    Result<Session, String>)
    requires
        tlog_data@.len() + bin_data@.len() <= usize::MAX,
    ensures
        match r {
            Ok(s) => {
                &&& have_messages(tlog_data@, bin_data@)
                &&& is_merge((tlog_path@, tlog_data@), (bin_path@, bin_data@), s@)
                &&& s@.sound()
                &&& s@.aligned()
            },
            Err(e) => !have_messages(tlog_data@, bin_data@) && e@ == no_messages(
                tlog_path@ + " or "@ + bin_path@,
            ),
        },
{
    let tlog_entries = tlog::parse(&tlog_data);
    let (bin_entries, bin_schema) = dataflash::parse(&bin_data);
    if tlog_entries.len() == 0 || bin_entries.len() == 0 {
        let mut e = "no log messages found in ".to_string();
        e.append(tlog_path.as_str());
        e.append(" or ");
        e.append(bin_path.as_str());
        assert(e@ =~= no_messages(tlog_path@ + " or "@ + bin_path@));
        return Err(e);
    }
    proof {
        tlog::law_entries_in_bounds(tlog_data@);
        dataflash::law_entries_in_bounds(bin_data@);
        assert forall|i: int| 0 <= i < tlog_entries@.len() implies (
        #[trigger] tlog_entries@[i])@.within(tlog_data@.len() as int) by {
            assert(entry::entry_views(tlog_entries@)[i] == tlog_entries@[i]@);
        }
    }
    let (offset, method) = placement(sync::boot_to_unix_offset(&tlog_entries, &tlog_data));
    let ghost paths = (tlog_path@, bin_path@);
    let ghost log = (tlog_data@, entry::entry_views(tlog_entries@));
    let ghost bin = (bin_data@, entry::entry_views(bin_entries@));
    let ghost layouts = bin_schema@;
    proof {
        assert(session::can_append(bin.1, tlog_data@.len() as int)) by {
            assert forall|i: int| 0 <= i < bin.1.len() implies (#[trigger] bin.1[i]).start
                + tlog_data@.len() <= usize::MAX && bin.1[i].end + tlog_data@.len()
                <= usize::MAX by {
                assert(bin.1[i].within(bin_data@.len() as int));
            }
        }
    }
    let s = Session::merge(
        tlog_path,
        bin_path,
        tlog_data,
        tlog_entries,
        bin_data,
        bin_entries,
        bin_schema,
        offset,
        method,
    );
    assert(s@.entries.len() == s.entries.len());
    proof {
        let options = (s@.id_options, s@.type_options);
        sound::law_opened_is_sound(
            paths.0,
            s@.data,
            s@.entries,
            Some(layouts),
            options.0,
            options.1,
        );
        align::law_merged_is_aligned(
            paths,
            log,
            bin,
            layouts,
            s@.sync->Some_0,
            s@.log_places,
            options,
        );
    }
    Ok(s)
}

/// The tlog and the bin of two logs, given by path and bytes, where there is one
/// of each.
pub open spec fn tlog_and_bin(a: (Seq<char>, Seq<u8>), b: (Seq<char>, Seq<u8>)) -> Option<
    ((Seq<char>, Seq<u8>), (Seq<char>, Seq<u8>)),
> {
    match (holds_dataflash(a.0, a.1), holds_dataflash(b.0, b.1)) {
        (false, true) => Some((a, b)),
        (true, false) => Some((b, a)),
        _ => None,
    }
}

/// The complaint about two logs that cannot be merged, each given by path and
/// bytes.
pub open spec fn pair_complaint(a: (Seq<char>, Seq<u8>), b: (Seq<char>, Seq<u8>)) -> Option<
    Seq<char>,
> {
    match tlog_and_bin(a, b) {
        None => Some("merging logs needs exactly one .tlog and one .bin"@),
        Some((log, bin)) => if have_messages(log.1, bin.1) {
            None
        } else {
            Some(no_messages(log.0 + " or "@ + bin.0))
        },
    }
}

/// Merge one MAVLink `.tlog` and one ArduPilot `.bin`, in either order, into a
/// single time-synchronized session.
pub fn open_pair(
    first_path: String,
    first_data: Vec<u8>,
    second_path: String,
    second_data: Vec<u8>,
) -> (r: Result<Session, String>)
    requires
        first_data@.len() + second_data@.len() <= usize::MAX,
    ensures
        match r {
            Ok(s) => {
                let a = (first_path@, first_data@);
                let b = (second_path@, second_data@);
                &&& pair_complaint(a, b) is None
                &&& tlog_and_bin(a, b) matches Some((log, bin)) && is_merge(log, bin, s@)
                &&& s@.sound()
                &&& s@.aligned()
            },
            Err(e) => pair_complaint((first_path@, first_data@), (second_path@, second_data@))
                == Some(e@),
        },
{
    match merge_order(
        is_dataflash(first_path.as_str(), &first_data),
        is_dataflash(second_path.as_str(), &second_data),
    ) {
        Some(MergeOrder::AsGiven) => open_merged(first_path, first_data, second_path, second_data),
        Some(MergeOrder::Swapped) => open_merged(second_path, second_data, first_path, first_data),
        None => Err("merging logs needs exactly one .tlog and one .bin".to_string()),
    }
}

/// Two logs are merged into the same session, or refused with the same
/// complaint, in whichever order they are given.
pub proof fn law_log_order_does_not_matter(
    a: (Seq<char>, Seq<u8>),
    b: (Seq<char>, Seq<u8>),
    s: SessionView,
    t: SessionView,
)
    ensures
        pair_complaint(a, b) == pair_complaint(b, a),
        tlog_and_bin(a, b) == tlog_and_bin(b, a),
        tlog_and_bin(a, b) matches Some((log, bin)) ==> is_merge(log, bin, s) && is_merge(
            log,
            bin,
            t,
        ) ==> s == t,
{
    if let Some((log, bin)) = tlog_and_bin(a, b) {
        if is_merge(log, bin, s) && is_merge(log, bin, t) {
            let records = tlog::records(log.1, 0);
            let scan = dataflash::scan(bin.1, 0, dataflash::nothing());
            let samples = sync::samples(log.1, records);
            if samples.len() > 0 {
                sync::law_median_is_unique(
                    samples,
                    s.sync->Some_0.bin_offset_us,
                    t.sync->Some_0.bin_offset_us,
                );
            }
            assert(s.sync == t.sync);
            order::law_order_is_unique(
                session::times(
                    session::combined(
                        records,
                        scan.entries,
                        log.1.len() as int,
                        s.sync->Some_0.bin_offset_us,
                    ),
                ),
                s.log_places,
                t.log_places,
            );
            assert(s.entries == t.entries);
            session::lemma_options_are_unique(s, t);
        }
    }
}

/// Which logs are DataFlash logs: those with the extension `bin` in any case, and those
/// with another extension than `tlog` that start with the two header bytes of a record.
pub proof fn law_kind_of_log(path: Seq<char>, data: Seq<u8>)
    ensures
        path::has_extension(path, seq!['b', 'i', 'n']) ==> holds_dataflash(path, data),
        path::has_extension(path, seq!['t', 'l', 'o', 'g']) && !path::has_extension(
            path,
            seq!['b', 'i', 'n'],
        ) ==> !holds_dataflash(path, data),
        !path::has_extension(path, seq!['b', 'i', 'n']) && !path::has_extension(
            path,
            seq!['t', 'l', 'o', 'g'],
        ) ==> (holds_dataflash(path, data) <==> data.len() >= 2 && data[0] == 0xA3 && data[1]
            == 0x95),
        holds_dataflash(path, data) ==> entries_in(path, data) == dataflash::scan(
            data,
            0,
            dataflash::nothing(),
        ).entries && schema_in(path, data) == Some(
            dataflash::schema_of(dataflash::scan(data, 0, dataflash::nothing())),
        ),
        !holds_dataflash(path, data) ==> entries_in(path, data) == tlog::records(data, 0)
            && schema_in(path, data) is None,
{
    reveal_strlit("bin");
    reveal_strlit("tlog");
    assert("bin"@ =~= seq!['b', 'i', 'n']);
    assert("tlog"@ =~= seq!['t', 'l', 'o', 'g']);
}

/// Two logs can be merged where exactly one of them is a DataFlash log and both hold
/// messages.
pub proof fn law_which_logs_merge(a: (Seq<char>, Seq<u8>), b: (Seq<char>, Seq<u8>))
    ensures
        !holds_dataflash(a.0, a.1) && holds_dataflash(b.0, b.1) ==> tlog_and_bin(a, b) == Some(
            (a, b),
        ),
        holds_dataflash(a.0, a.1) && !holds_dataflash(b.0, b.1) ==> tlog_and_bin(a, b) == Some(
            (b, a),
        ),
        holds_dataflash(a.0, a.1) == holds_dataflash(b.0, b.1) ==> tlog_and_bin(a, b) is None
            && pair_complaint(a, b) is Some,
        tlog_and_bin(a, b) matches Some((log, bin)) ==> (pair_complaint(a, b) is None
            <==> tlog::records(log.1, 0).len() > 0 && dataflash::scan(
            bin.1,
            0,
            dataflash::nothing(),
        ).entries.len() > 0),
{
}

/// What a merged session holds: the bytes of the tlog and then those of the bin, every
/// message of both, in the order of time; the bin is moved by the median of the offsets
/// that the tlog gives, and not at all without one; dates are shown, the first message
/// is the start, and everything is visible.
pub proof fn law_merge(
    log: (Seq<char>, Seq<u8>),
    bin: (Seq<char>, Seq<u8>),
    s: SessionView,
    i: int,
    j: int,
)
    requires
        is_merge(log, bin, s),
        s.entries.len() <= usize::MAX,
    ensures
        s.path == log.0 && s.secondary_path == Some(bin.0),
        s.data == log.1 + bin.1,
        s.entries.len() == tlog::records(log.1, 0).len() + dataflash::scan(
            bin.1,
            0,
            dataflash::nothing(),
        ).entries.len(),
        s.time_format == crate::time::TimeFormat::DateTime,
        s.entries.len() > 0 ==> s.start_us == s.entries[0].timestamp_us,
        s.schema == Some(
            dataflash::schema_of(dataflash::scan(bin.1, 0, dataflash::nothing())),
        ),
        0 <= i < j < s.entries.len() ==> s.entries[i].timestamp_us <= s.entries[j].timestamp_us,
        0 <= i < s.entries.len() ==> s.filtered[i] == i,
        s.sync matches Some(state) && {
            let samples = sync::samples(log.1, tlog::records(log.1, 0));
            &&& state.manual_offset_us == 0
            &&& samples.len() == 0 ==> state.bin_offset_us == 0
            &&& samples.len() > 0 ==> samples.contains(state.bin_offset_us)
        },
{
    let state = s.sync->Some_0;
    let records = tlog::records(log.1, 0);
    let scan = dataflash::scan(bin.1, 0, dataflash::nothing());
    let samples = sync::samples(log.1, records);
    let all = session::combined(records, scan.entries, log.1.len() as int, state.bin_offset_us);
    if 0 <= i < j < s.entries.len() {
        order::law_order_is_stable(session::times(all), s.log_places, i, j);
    }
    if samples.len() > 0 {
        let m = state.bin_offset_us;
        let p = choose|p: Seq<usize>| #[trigger]
            order::is_order(sync::keys_of(samples), p) && m == samples[p[samples.len() as int
                / 2] as int];
        sync::law_median_is_in_the_middle(samples, m, p);
    }
}

} // verus!
