//! Time alignment between a MAVLink `.tlog` (absolute unix time) and an
//! ArduPilot `.bin` (`TimeUS` = microseconds since boot) when both are merged
//! into one session.
//!
//! The bin's `TimeUS` and the autopilot's `SYSTEM_TIME.time_boot_ms` count from
//! the same boot, so a single `SYSTEM_TIME` message, which pairs boot time with
//! `time_unix_usec`, gives the offset that lifts the bin onto the tlog's
//! absolute axis.

use vstd::prelude::*;
use vstd::wrapping::i64_specs;
use crate::entry::{EntryView, LogEntry};
use crate::value::{Datum, DatumView, Field, FieldView};
use crate::{bytes, entry, order, text, tlog, value};

verus! {

/// How a merged session's bin offset was determined (surfaced in status text).
#[derive(Clone, Copy, Debug, PartialEq, Eq, Structural)]
pub enum SyncMethod {
    /// Derived from the tlog's `SYSTEM_TIME` messages.
    SystemTime,
    /// No usable signal found; the user aligns the logs by hand.
    ManualOnly,
}

/// The value of the first field with exactly the given name.
pub open spec fn value_under(fields: Seq<FieldView>, name: Seq<char>) -> Option<DatumView>
    decreases fields.len(),
{
    if fields.len() == 0 {
        None
    } else if fields[0].key == name {
        Some(fields[0].value)
    } else {
        value_under(fields.drop_first(), name)
    }
}

/// The unsigned integer under exactly the given name.
pub open spec fn unsigned_under(fields: Seq<FieldView>, name: Seq<char>) -> Option<u64> {
    match value_under(fields, name) {
        Some(d) => d.unsigned(),
        None => None,
    }
}

/// The offset between unix time and boot time, in microseconds. Counts are
/// taken as signed 64-bit integers, modulo 2^64.
pub open spec fn offset_between(unix_us: u64, boot_ms: u64) -> i64 {
    i64_specs::wrapping_sub(
        bytes::signed(unix_us as nat, 0x8000_0000_0000_0000) as i64,
        i64_specs::wrapping_mul(
            bytes::signed(boot_ms as nat, 0x8000_0000_0000_0000) as i64,
            1000i64,
        ),
    )
}

/// The offset that the fields of a `SYSTEM_TIME` message give: none where one
/// of the times is missing, or before the clock is locked.
pub open spec fn offset_in(fields: Seq<FieldView>) -> Option<i64> {
    match (
        unsigned_under(fields, "time_unix_usec"@),
        unsigned_under(fields, "time_boot_ms"@),
    ) {
        (Some(unix), Some(boot)) => if unix != 0 {
            Some(offset_between(unix, boot))
        } else {
            None
        },
        _ => None,
    }
}

/// The offset that an entry gives: none where it is no `SYSTEM_TIME` message,
/// or cannot be decoded.
pub open spec fn sample(data: Seq<u8>, e: EntryView) -> Option<i64> {
    if e.name == "SYSTEM_TIME"@ {
        match tlog::decoded(data, e) {
            Some(fields) => offset_in(fields),
            None => None,
        }
    } else {
        None
    }
}

/// The offsets that entries give, in their order.
pub open spec fn samples(data: Seq<u8>, entries: Seq<EntryView>) -> Seq<i64>
    decreases entries.len(),
{
    if entries.len() == 0 {
        seq![]
    } else {
        match sample(data, entries.last()) {
            Some(o) => samples(data, entries.drop_last()).push(o),
            None => samples(data, entries.drop_last()),
        }
    }
}

/// The numbers as keys to sort by.
pub open spec fn keys_of(offsets: Seq<i64>) -> Seq<i128> {
    offsets.map_values(|o: i64| o as i128)
}

/// Whether `m` is the upper median: the element in the middle of the sorted
/// list, the later one of two.
pub open spec fn is_median(offsets: Seq<i64>, m: i64) -> bool {
    exists|p: Seq<usize>| #[trigger]
        order::is_order(keys_of(offsets), p) && m == offsets[p[offsets.len() as int / 2] as int]
}

/// The value of the first field with exactly the given name.
fn find_value<'a>(fields: &'a [Field], name: &str) -> (r: Option<&'a Datum>)
    ensures
        match value_under(value::field_views(fields@), name@) {
            Some(d) => r matches Some(v) && v@ == d,
            None => r is None,
        },
{
    let ghost all = value::field_views(fields@);
    let mut i: usize = 0;
    assert(all.skip(0) =~= all);
    while i < fields.len()
        invariant
            i <= fields.len(),
            all == value::field_views(fields@),
            value_under(all, name@) == value_under(all.skip(i as int), name@),
        decreases fields.len() - i,
    {
        assert(all.skip(i as int)[0] == fields@[i as int]@);
        if text::same_str(fields[i].key.as_str(), name) {
            return Some(&fields[i].value);
        }
        assert(all.skip(i as int).drop_first() =~= all.skip(i + 1));
        i += 1;
    }
    None
}

/// The unsigned integer under exactly the given name.
fn find_unsigned(fields: &[Field], name: &str) -> (r: Option<u64>)
    ensures
        r == unsigned_under(value::field_views(fields@), name@),
{
    match find_value(fields, name) {
        Some(d) => d.as_unsigned(),
        None => None,
    }
}

/// The offset that the fields of a `SYSTEM_TIME` message give.
pub fn offset_of(fields: &[Field]) -> (r: Option<i64>)
    ensures
        r == offset_in(value::field_views(fields@)),
{
    match (find_unsigned(fields, "time_unix_usec"), find_unsigned(fields, "time_boot_ms")) {
        (Some(unix), Some(boot)) => if unix != 0 {
            Some(
                bytes::signed_64(unix).wrapping_sub(
                    bytes::signed_64(boot).wrapping_mul(1000),
                ),
            )
        } else {
            None
        },
        _ => None,
    }
}

/// The upper median of offsets, if there are any.
pub fn median(offsets: &[i64]) -> (r: Option<i64>)
    ensures
        match r {
            Some(m) => offsets@.len() > 0 && is_median(offsets@, m),
            None => offsets@.len() == 0,
        },
{
    if offsets.len() == 0 {
        return None;
    }
    let mut keys: Vec<i128> = Vec::new();
    let mut i: usize = 0;
    while i < offsets.len()
        invariant
            i <= offsets.len(),
            keys@ =~= keys_of(offsets@).take(i as int),
        decreases offsets.len() - i,
    {
        keys.push(offsets[i] as i128);
        i += 1;
    }
    assert(keys@ =~= keys_of(offsets@));
    let p = order::stable_order(&keys);
    let m = offsets[p[offsets.len() / 2]];
    assert(order::is_order(keys_of(offsets@), p@));
    Some(m)
}

/// Median boot to unix microsecond offset from a tlog's `SYSTEM_TIME` messages,
/// or `None` when the tlog carries none with a locked clock.
///
/// `offset = time_unix_usec - time_boot_ms * 1000`, so a bin record at boot time
/// `t` maps to unix time `t + offset`. Messages with a zero unix time (before
/// GPS/RTC lock) are ignored, and the median tolerates the odd bad sample.
pub fn boot_to_unix_offset(entries: &[LogEntry], data: &[u8]) -> (r: Option<i64>)
    requires
        forall|i: int| 0 <= i < entries@.len() ==> (#[trigger] entries@[i])@.within(
            data@.len() as int,
        ),
    ensures
        match r {
            Some(m) => samples(data@, entry::entry_views(entries@)).len() > 0 && is_median(
                samples(data@, entry::entry_views(entries@)),
                m,
            ),
            None => samples(data@, entry::entry_views(entries@)).len() == 0,
        },
{
    let ghost all = entry::entry_views(entries@);
    let mut offsets: Vec<i64> = Vec::new();
    let mut i: usize = 0;
    assert(all.take(0) =~= seq![]);
    while i < entries.len()
        invariant
            i <= entries.len(),
            all == entry::entry_views(entries@),
            forall|k: int| 0 <= k < entries@.len() ==> (#[trigger] entries@[k])@.within(
                data@.len() as int,
            ),
            offsets@ == samples(data@, all.take(i as int)),
        decreases entries.len() - i,
    {
        let e = &entries[i];
        proof {
            assert(all.take(i + 1).drop_last() =~= all.take(i as int));
            assert(all.take(i + 1).last() == e@);
        }
        if text::same_str(e.name.as_str(), "SYSTEM_TIME") {
            if let Some(fields) = tlog::decode(data, e) {
                if let Some(o) = offset_of(&fields) {
                    offsets.push(o);
                }
            }
        }
        i += 1;
    }
    assert(all.take(i as int) =~= all);
    median(&offsets)
}

/// A median is one of the offsets, at least half of them are not greater, and
/// at least half are not smaller.
pub proof fn law_median_is_in_the_middle(offsets: Seq<i64>, m: i64, p: Seq<usize>)
    requires
        offsets.len() > 0,
        order::is_order(keys_of(offsets), p),
        m == offsets[p[offsets.len() as int / 2] as int],
    ensures
        offsets.contains(m),
        forall|i: int| 0 <= i <= offsets.len() as int / 2 ==> offsets[#[trigger] p[i] as int] <= m,
        forall|i: int|
            offsets.len() as int / 2 <= i < offsets.len() ==> m <= offsets[#[trigger] p[i] as int],
{
    let half = offsets.len() as int / 2;
    let keys = keys_of(offsets);
    assert(p[half] < keys.len());
    assert forall|i: int| 0 <= i <= half implies offsets[#[trigger] p[i] as int] <= m by {
        assert(p[i] < keys.len());
        if i < half {
            assert(order::before(keys, p[i], p[half]));
        }
    }
    assert forall|i: int| half <= i < offsets.len() implies m <= offsets[#[trigger] p[i] as int] by {
        assert(p[i] < keys.len());
        if i > half {
            assert(order::before(keys, p[half], p[i]));
        }
    }
}

/// There is only one median.
pub proof fn law_median_is_unique(offsets: Seq<i64>, a: i64, b: i64)
    requires
        is_median(offsets, a),
        is_median(offsets, b),
    ensures
        a == b,
{
    let keys = keys_of(offsets);
    let p = choose|p: Seq<usize>| #[trigger]
        order::is_order(keys, p) && a == offsets[p[offsets.len() as int / 2] as int];
    let q = choose|q: Seq<usize>| #[trigger]
        order::is_order(keys, q) && b == offsets[q[offsets.len() as int / 2] as int];
    order::law_order_is_unique(keys, p, q);
}

/// The offset that two clocks give: unix time less the time since boot, in
/// microseconds.
pub proof fn law_offset_between(unix_us: u64, boot_ms: u64)
    requires
        unix_us < 0x8000_0000_0000_0000,
        1000 * boot_ms < 0x8000_0000_0000_0000,
    ensures
        offset_between(unix_us, boot_ms) == unix_us - 1000 * boot_ms,
{
}

/// The value under a name is that of the first field with exactly this name.
pub proof fn law_value_under(fields: Seq<FieldView>, i: int, name: Seq<char>)
    ensures
        0 <= i < fields.len() && fields[i].key == name && (forall|k: int|
            0 <= k < i ==> (#[trigger] fields[k]).key != name) ==> value_under(fields, name) == Some(
            fields[i].value,
        ),
        (forall|k: int| 0 <= k < fields.len() ==> (#[trigger] fields[k]).key != name)
            ==> value_under(fields, name) is None,
    decreases fields.len(),
{
    if fields.len() > 0 {
        let rest = fields.drop_first();
        law_value_under(rest, i - 1, name);
        if fields[0].key != name {
            if 0 <= i < fields.len() && fields[i].key == name && (forall|k: int|
                0 <= k < i ==> (#[trigger] fields[k]).key != name) {
                assert forall|k: int| 0 <= k < i - 1 implies (#[trigger] rest[k]).key != name by {
                    assert(rest[k] == fields[k + 1]);
                }
                assert(rest[i - 1] == fields[i]);
            }
            if forall|k: int| 0 <= k < fields.len() ==> (#[trigger] fields[k]).key != name {
                assert forall|k: int| 0 <= k < rest.len() implies (#[trigger] rest[k]).key
                    != name by {
                    assert(rest[k] == fields[k + 1]);
                }
            }
        } else if i > 0 {
            assert(fields[0].key == name);
        }
    }
}

/// A message gives the offset between its unix time and its boot time; none where one
/// of them is no unsigned integer, or where the unix time is 0.
pub proof fn law_offset_in(fields: Seq<FieldView>, unix_us: u64, boot_ms: u64)
    requires
        unix_us < 0x8000_0000_0000_0000,
        1000 * boot_ms < 0x8000_0000_0000_0000,
    ensures
        unsigned_under(fields, "time_unix_usec"@) == Some(unix_us) && unsigned_under(
            fields,
            "time_boot_ms"@,
        ) == Some(boot_ms) && unix_us > 0 ==> (offset_in(fields) matches Some(o) && o == unix_us
            - 1000 * boot_ms),
        unsigned_under(fields, "time_unix_usec"@) == Some(0u64) ==> offset_in(fields) is None,
        unsigned_under(fields, "time_unix_usec"@) is None ==> offset_in(fields) is None,
        unsigned_under(fields, "time_boot_ms"@) is None ==> offset_in(fields) is None,
{
}

/// The offsets of entries: each `SYSTEM_TIME` message that can be decoded and gives one
/// adds its own, in order; nothing else adds any.
pub proof fn law_samples(data: Seq<u8>, entries: Seq<EntryView>, e: EntryView, o: i64)
    ensures
        samples(data, seq![]).len() == 0,
        ({
            let before = samples(data, entries);
            let after = samples(data, entries.push(e));
            &&& e.name != "SYSTEM_TIME"@ ==> after == before
            &&& tlog::decoded(data, e) is None ==> after == before
            &&& tlog::decoded(data, e) matches Some(fields) ==> {
                &&& offset_in(fields) is None ==> after == before
                &&& e.name == "SYSTEM_TIME"@ && offset_in(fields) == Some(o) ==> after
                    == before.push(o)
            }
        }),
{
    assert(entries.push(e).drop_last() =~= entries);
}

/// The median of offsets is what stands in the middle, or behind it for an even
/// number, however the offsets are brought into ascending order.
pub proof fn law_median_of_sorted(offsets: Seq<i64>, m: i64, p: Seq<usize>)
    requires
        offsets.len() > 0,
        is_median(offsets, m),
        p.len() == offsets.len(),
        forall|i: int| 0 <= i < p.len() ==> (#[trigger] p[i]) < offsets.len(),
        forall|i: int, j: int| 0 <= i < j < p.len() ==> #[trigger] p[i] != #[trigger] p[j],
        forall|i: int, j: int|
            0 <= i < j < p.len() ==> offsets[#[trigger] p[i] as int] <= offsets[#[trigger] p[j] as int],
    ensures
        m == offsets[p[offsets.len() as int / 2] as int],
{
    let n = offsets.len() as int;
    let h = n / 2;
    let keys = keys_of(offsets);
    let q = choose|q: Seq<usize>| #[trigger]
        order::is_order(keys, q) && m == offsets[q[offsets.len() as int / 2] as int];
    order::lemma_order_is_permutation(keys, q);
    law_median_is_in_the_middle(offsets, m, q);
    let a = offsets[p[h] as int];
    if a < m {
        // The places up to the middle of `p` and from the middle of `q` on differ.
        let all = p.take(h + 1) + q.skip(h);
        lemma_apart(offsets, p.take(h + 1), q.skip(h), a, n);
        order::law_places_are_few(all, n);
    } else if m < a {
        let all = q.take(h + 1) + p.skip(h);
        assert forall|i: int| 0 <= i < p.skip(h).len() implies offsets[#[trigger] p.skip(h)[i] as int]
            > m by {
            if i > 0 {
                assert(offsets[p[h] as int] <= offsets[p[h + i] as int]);
            }
        }
        lemma_apart(offsets, q.take(h + 1), p.skip(h), m, n);
        order::law_places_are_few(all, n);
    }
}

/// Places of offsets up to a limit and places of greater ones are different.
proof fn lemma_apart(offsets: Seq<i64>, low: Seq<usize>, high: Seq<usize>, limit: i64, n: int)
    requires
        forall|i: int| 0 <= i < low.len() ==> (#[trigger] low[i]) < n,
        forall|i: int| 0 <= i < high.len() ==> (#[trigger] high[i]) < n,
        forall|i: int, j: int| 0 <= i < j < low.len() ==> #[trigger] low[i] != #[trigger] low[j],
        forall|i: int, j: int| 0 <= i < j < high.len() ==> #[trigger] high[i] != #[trigger] high[j],
        forall|i: int| 0 <= i < low.len() ==> offsets[#[trigger] low[i] as int] <= limit,
        forall|i: int| 0 <= i < high.len() ==> offsets[#[trigger] high[i] as int] > limit,
    ensures
        forall|i: int| 0 <= i < (low + high).len() ==> (#[trigger] (low + high)[i]) < n,
        forall|i: int, j: int|
            0 <= i < j < (low + high).len() ==> #[trigger] (low + high)[i] != #[trigger] (low
                + high)[j],
{
    let all = low + high;
    let k = low.len() as int;
    assert forall|i: int| 0 <= i < all.len() implies (#[trigger] all[i]) < n by {
        if i < k {
            assert(all[i] == low[i]);
        } else {
            assert(all[i] == high[i - k]);
        }
    }
    assert forall|i: int, j: int| 0 <= i < j < all.len() implies #[trigger] all[i]
        != #[trigger] all[j] by {
        if j < k {
            assert(all[i] == low[i] && all[j] == low[j]);
        } else if i >= k {
            assert(all[i] == high[i - k] && all[j] == high[j - k]);
        } else {
            assert(all[i] == low[i] && all[j] == high[j - k]);
            assert(offsets[low[i] as int] <= limit);
            assert(offsets[high[j - k] as int] > limit);
        }
    }
}

} // verus!
