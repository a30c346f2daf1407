//! Moving the bin of a merged session in time by hand.

use std::collections::HashMap;

use vstd::prelude::*;
use vstd::wrapping::i64_specs;
use crate::column::{ColumnView, CustomColumn};
use crate::entry::{EntryView, LogEntry, LogSourceId};
use crate::schema::MsgFmtView;
use crate::session::{Session, SessionView, SyncState};
use crate::{browse, column, entry, marks, order, session};

verus! {

broadcast use vstd::std_specs::hash::group_hash_axioms;

/// A message of a log on the axis of a merged session: those of the bin are moved
/// by an offset.
pub open spec fn on_axis(e: EntryView, offset_us: i64) -> EntryView {
    match e.source {
        LogSourceId::Primary => e,
        LogSourceId::Secondary => EntryView {
            timestamp_us: session::shifted(e.timestamp_us, offset_us),
            ..e
        },
    }
}

/// Messages of two logs on the axis of a merged session.
pub open spec fn all_on_axis(logged: Seq<EntryView>, offset_us: i64) -> Seq<EntryView> {
    logged.map_values(|e: EntryView| on_axis(e, offset_us))
}

/// Whether the messages of the tlog come before those of the bin.
pub open spec fn tlog_first(logged: Seq<EntryView>) -> bool {
    forall|i: int, j: int|
        0 <= i < j < logged.len() && (#[trigger] logged[i]).source == LogSourceId::Secondary ==> (
        #[trigger] logged[j]).source == LogSourceId::Secondary
}

/// Where the entries of a new order were in the old one.
pub open spec fn steps(old_order: Seq<usize>, new_order: Seq<usize>) -> Seq<usize> {
    new_order.map_values(|k: usize| old_order.index_of(k) as usize)
}

/// Where the entry that was at place `i` stands now.
pub open spec fn new_place(p: Seq<usize>, i: usize) -> usize {
    if p.contains(i) {
        p.index_of(i) as usize
    } else {
        i
    }
}

/// Marks that follow their messages; those beyond the last entry stay.
pub open spec fn follow(m: Map<usize, Seq<char>>, p: Seq<usize>) -> Map<usize, Seq<char>> {
    Map::new(
        |j: usize| m.contains_key(old_place(p, j)),
        |j: usize| m[old_place(p, j)],
    )
}

/// Where the entry that stands at place `j` was.
pub open spec fn old_place(p: Seq<usize>, j: usize) -> usize {
    if j < p.len() {
        p[j as int]
    } else {
        j
    }
}

impl SyncState {
    /// By how much the bin's own times are moved.
    pub open spec fn total_us(self) -> i64 {
        i64_specs::wrapping_add(self.bin_offset_us, self.manual_offset_us)
    }

    /// By how much the bin's own times are moved.
    pub fn bin_shift_us(&self) -> (r: i64)
        ensures
            r == self.total_us(),
    {
        self.bin_offset_us.wrapping_add(self.manual_offset_us)
    }
}

impl SessionView {
    /// The messages of a merged session in the order of the logs, with the bin's
    /// placed at their own time, moved by the offset found from the logs and the
    /// given manual one.
    pub open spec fn on_axis(self, offset_us: i64) -> Seq<EntryView> {
        all_on_axis(
            self.logged(),
            (SyncState { manual_offset_us: offset_us, ..self.sync->Some_0 }).total_us(),
        )
    }

    /// A merged session after the manual offset was set, given the new order of
    /// its messages: the bin's entries are moved, marks and the selection follow
    /// their messages, and columns and the visible list are indexed anew.
    pub open spec fn realigned(self, offset_us: i64, p: Seq<usize>) -> SessionView {
        let entries = session::arranged(self.on_axis(offset_us), p);
        let from = steps(self.log_places, p);
        let list = browse::shown(self.filters, entries, entries.len() as int);
        SessionView {
            entries,
            start_us: if entries.len() > 0 {
                entries[0].timestamp_us
            } else {
                self.start_us
            },
            marks: follow(self.marks, from),
            columns: browse::all_indexed(self.columns, entries),
            columns_text: column::list_text(self.columns),
            filtered: list,
            selected: browse::visible_from(list, new_place(from, self.current())),
            sync: Some(SyncState { manual_offset_us: offset_us, ..self.sync->Some_0 }),
            log_places: p,
            ..self
        }
    }

    /// Whether `next` is this session after the manual offset was set.
    pub open spec fn realigns_to(self, offset_us: i64, next: SessionView) -> bool {
        match self.sync {
            None => next == self,
            Some(_) => exists|p: Seq<usize>| #[trigger]
                order::is_order(session::times(self.on_axis(offset_us)), p) && next
                    == self.realigned(offset_us, p),
        }
    }

    /// Whether the entries of a merged session stand where the offsets place
    /// them: those of the tlog at their own time, those of the bin at their own
    /// time moved by both offsets, in the stable order of time.
    pub open spec fn aligned(self) -> bool {
        match self.sync {
            None => true,
            Some(s) => {
                let there = self.on_axis(s.manual_offset_us);
                &&& self.traced()
                &&& tlog_first(self.logged())
                &&& order::is_order(session::times(there), self.log_places)
                &&& self.entries == session::arranged(there, self.log_places)
            },
        }
    }
}

/// Messages in the order of the logs, on the axis of a merged session.
fn lay_out(entries: &[LogEntry], places: &[usize], times: &[u64], offset_us: i64) -> (r: Vec<
    LogEntry,
>)
    requires
        times@.len() == places@.len(),
        forall|k: int| 0 <= k < places@.len() ==> (#[trigger] places@[k]) < entries@.len(),
    ensures
        entry::entry_views(r@) == all_on_axis(
            Seq::new(
                places@.len(),
                |k: int|
                    EntryView { timestamp_us: times@[k], ..entries@[places@[k] as int]@ },
            ),
            offset_us,
        ),
{
    let ghost want = all_on_axis(
        Seq::new(
            places@.len(),
            |k: int| EntryView { timestamp_us: times@[k], ..entries@[places@[k] as int]@ },
        ),
        offset_us,
    );
    let mut r: Vec<LogEntry> = Vec::new();
    let mut i: usize = 0;
    while i < places.len()
        invariant
            i <= places.len(),
            times@.len() == places@.len(),
            forall|k: int| 0 <= k < places@.len() ==> (#[trigger] places@[k]) < entries@.len(),
            want == all_on_axis(
                Seq::new(
                    places@.len(),
                    |k: int|
                        EntryView { timestamp_us: times@[k], ..entries@[places@[k] as int]@ },
                ),
                offset_us,
            ),
            entry::entry_views(r@) =~= want.take(i as int),
        decreases places.len() - i,
    {
        let mut e = entries[places[i]].copied();
        e.timestamp_us = match e.source {
            LogSourceId::Primary => times[i],
            LogSourceId::Secondary => session::shift_time(times[i], offset_us),
        };
        let ghost before = r@;
        assert(e@ =~= want[i as int]);
        r.push(e);
        i += 1;
        assert(entry::entry_views(r@) =~= entry::entry_views(before).push(e@));
        assert(want.take(i as int) =~= want.take(i - 1).push(want[i - 1]));
    }
    assert(want.take(i as int) =~= want);
    r
}

/// Where the entries of a new order were, given where each place stands in the
/// old one.
fn trace_back(places: &[usize], p: &[usize], Ghost(old_order): Ghost<Seq<usize>>) -> (r: Vec<usize>)
    requires
        order::is_permutation(old_order),
        order::is_permutation(places@),
        order::is_permutation(p@),
        places@.len() == p@.len(),
        old_order.len() == p@.len(),
        forall|k: int|
            0 <= k < places@.len() ==> (#[trigger] places@[k]) == old_order.index_of(k as usize),
    ensures
        r@ == steps(old_order, p@),
        order::is_permutation(r@),
{
    let mut r: Vec<usize> = Vec::new();
    let mut i: usize = 0;
    while i < p.len()
        invariant
            i <= p.len(),
            places@.len() == p@.len(),
            order::is_permutation(p@),
            forall|k: int|
                0 <= k < places@.len() ==> (#[trigger] places@[k]) == old_order.index_of(
                    k as usize,
                ),
            r@ =~= steps(old_order, p@).take(i as int),
        decreases p.len() - i,
    {
        let k: usize = p[i];
        assert(places@[k as int] == old_order.index_of(k));
        r.push(places[k]);
        i += 1;
    }
    assert(r@ =~= steps(old_order, p@));
    proof {
        lemma_steps(old_order, p@);
    }
    r
}

/// Going from one order to another lists each place once.
pub proof fn lemma_steps(old_order: Seq<usize>, new_order: Seq<usize>)
    requires
        order::is_permutation(old_order),
        order::is_permutation(new_order),
        old_order.len() == new_order.len(),
        old_order.len() <= usize::MAX,
    ensures
        order::is_permutation(steps(old_order, new_order)),
        steps(old_order, new_order).len() == new_order.len(),
        forall|j: int|
            0 <= j < new_order.len() ==> old_order[(#[trigger] steps(
                old_order,
                new_order,
            )[j]) as int] == new_order[j],
{
    let r = steps(old_order, new_order);
    assert forall|j: int| 0 <= j < r.len() implies (#[trigger] r[j]) < r.len()
        && old_order[r[j] as int] == new_order[j] by {
        assert(new_order[j] < new_order.len());
        order::law_permutation_is_complete(old_order, new_order[j]);
    }
    assert forall|i: int, j: int| 0 <= i < j < r.len() implies #[trigger] r[i] != #[trigger] r[j] by {
        assert(old_order[r[i] as int] == new_order[i] && old_order[r[j] as int] == new_order[j]);
        assert(new_order[i] != new_order[j]);
    }
}

/// Marks that follow their messages.
fn move_marks(
    m: &HashMap<usize, String>,
    inv: &[usize],
    Ghost(p): Ghost<Seq<usize>>,
) -> (r: HashMap<usize, String>)
    requires
        inv@.len() == p.len(),
        forall|i: int|
            0 <= i < inv@.len() ==> (#[trigger] inv@[i]) < p.len() && p[inv@[i] as int] == i,
        forall|j: int|
            0 <= j < p.len() ==> (#[trigger] p[j]) < inv@.len() && inv@[p[j] as int] == j,
    ensures
        marks::labels(r@) == follow(marks::labels(m@), p),
{
    let mut r: HashMap<usize, String> = HashMap::new();
    let ghost mut done: Seq<usize> = seq![];
    let ghost all = vstd::std_specs::iter::IteratorSpec::remaining(
        &vstd::std_specs::hash::spec_hash_map_iter(m),
    );
    for (k, v) in it: m.iter()
        invariant
            inv@.len() == p.len(),
            forall|i: int|
                0 <= i < inv@.len() ==> (#[trigger] inv@[i]) < p.len() && p[inv@[i] as int] == i,
            forall|j: int|
                0 <= j < p.len() ==> (#[trigger] p[j]) < inv@.len() && inv@[p[j] as int] == j,
            it.seq() == all,
            done.len() == it.index(),
            forall|i: int| 0 <= i < done.len() ==> done[i] == *(#[trigger] all[i]).0,
            forall|i: int|
                0 <= i < all.len() ==> m@.contains_key(*(#[trigger] all[i]).0) && m@[*all[i].0]
                    == *all[i].1,
            forall|j: usize| #[trigger] r@.contains_key(j) <==> done.contains(old_place(p, j)),
            forall|j: usize| #[trigger]
                r@.contains_key(j) ==> m@.contains_key(old_place(p, j)) && r@[j]@ == m@[old_place(
                    p,
                    j,
                )]@,
    {
        let to: usize = if *k < inv.len() {
            inv[*k]
        } else {
            *k
        };
        let ghost before = r@;
        proof {
            marks::lemma_seen(done, *k);
            done = done.push(*k);
            assert(old_place(p, to) == *k);
        }
        r.insert(to, v.clone());
        assert forall|j: usize| #[trigger] r@.contains_key(j) <==> done.contains(
            old_place(p, j),
        ) by {
            if old_place(p, j) == *k {
                assert(j == to);
            }
        }
    }
    proof {
        let want = follow(marks::labels(m@), p);
        assert forall|j: usize| want.contains_key(j) implies r@.contains_key(j) by {
            let x = old_place(p, j);
            assert(m@.contains_key(x));
            assert(all.contains((&x, &m@[x])));
            let i = choose|i: int| 0 <= i < all.len() && all[i] == (&x, &m@[x]);
            assert(done[i] == x);
        }
        assert(marks::labels(r@) =~= want);
    }
    r
}

impl Session {
    /// Whether every entry of a merged session has its place in the logs.
    pub fn is_traced(&self) -> (r: bool)
        ensures
            r == self@.traced(),
    {
        let n: usize = self.entries.len();
        self.sync.is_none() || (self.log_times.len() == n && self.log_places.len() == n
            && order::lists_each_once(&self.log_places))
    }

    /// Set by how much the bin of a merged session is moved by hand, on top of
    /// the offset found from the logs. Entries stay sorted by time, and marks
    /// and the selection follow their messages. Nothing happens in a
    /// single-file session.
    pub fn set_manual_offset(&mut self, offset_us: i64)
        requires
            old(self)@.traced(),
        ensures
            old(self)@.realigns_to(offset_us, final(self)@),
            final(self)@.traced(),
            old(self)@.wf() ==> final(self)@.wf(),
    {
        let s = match self.sync {
            Some(s) => SyncState { manual_offset_us: offset_us, ..s },
            None => return,
        };
        let ghost start = self@;
        let places = order::inverse(&self.log_places);
        let moved = lay_out(&self.entries, &places, &self.log_times, s.bin_shift_us());
        let ghost there = start.on_axis(offset_us);
        proof {
            assert(Seq::new(
                places@.len(),
                |k: int|
                    EntryView {
                        timestamp_us: self.log_times@[k],
                        ..self.entries@[places@[k] as int]@
                    },
            ) =~= start.logged()) by {
                assert forall|k: int| 0 <= k < places@.len() implies self.entries@[(
                #[trigger] places@[k]) as int]@ == start.entries[start.log_places.index_of(
                    k as usize,
                )] by {}
            }
            assert(entry::entry_views(moved@) == there);
        }
        let p = session::time_order(&moved);
        let ghost keys = session::times(there);
        proof {
            order::lemma_order_is_permutation(keys, p@);
        }
        let from = trace_back(&places, &p, Ghost(start.log_places));
        let inv = order::inverse(&from);
        let sorted = session::arrange(&moved, &p);
        let current: usize = match self.selected_entry_index() {
            Some(i) => i,
            None => 0,
        };
        let place: usize = if current < inv.len() {
            inv[current]
        } else {
            current
        };
        proof {
            if current < inv@.len() {
                order::law_permutation_is_complete(from@, current);
            } else if from@.contains(current) {
                let k = choose|k: int| 0 <= k < from@.len() && from@[k] == current;
                assert(from@[k] < from@.len());
            }
            assert(place == new_place(from@, current));
        }
        self.marks = move_marks(&self.marks, &inv, Ghost(from@));
        self.entries = sorted;
        if self.entries.len() > 0 {
            self.start_us = self.entries[0].timestamp_us;
        }
        let ghost entries = self@.entries;
        proof {
            if self.entries@.len() > 0 {
                assert(entries[0] == self.entries@[0]@);
            }
            if start.wf() {
                lemma_on_axis_within(start, offset_us);
                session::lemma_arranged_within(there, keys, p@, start.data.len() as int);
            }
        }
        let columns = copied_columns(&self.columns);
        self.set_columns(columns);
        self.apply_filter();
        self.select_entry(place);
        self.sync = Some(s);
        self.log_places = p;
        assert(self@ =~= start.realigned(offset_us, p@));
        assert(order::is_order(keys, p@));
    }
}

/// Where the messages of a merged session lie does not depend on their times.
pub proof fn lemma_on_axis_within(s: SessionView, offset_us: i64)
    requires
        s.sync is Some,
        s.traced(),
        s.wf(),
    ensures
        session::all_within(s.on_axis(offset_us), s.data.len() as int),
{
    let there = s.on_axis(offset_us);
    assert forall|k: int| 0 <= k < there.len() implies (#[trigger] there[k]).within(
        s.data.len() as int,
    ) by {
        order::law_permutation_is_complete(s.log_places, k as usize);
        assert(s.entries[s.log_places.index_of(k as usize)].within(s.data.len() as int));
    }
}

/// A copy of a list of columns.
fn copied_columns(columns: &[CustomColumn]) -> (r: Vec<CustomColumn>)
    ensures
        column::column_views(r@) == column::column_views(columns@),
{
    let ghost all = column::column_views(columns@);
    let mut r: Vec<CustomColumn> = Vec::new();
    let mut i: usize = 0;
    while i < columns.len()
        invariant
            i <= columns.len(),
            all == column::column_views(columns@),
            column::column_views(r@) =~= all.take(i as int),
        decreases columns.len() - i,
    {
        let ghost before = r@;
        let c = columns[i].copied();
        r.push(c);
        i += 1;
        assert(column::column_views(r@) =~= column::column_views(before).push(c@));
        assert(all.take(i as int) =~= all.take(i - 1).push(all[i - 1]));
    }
    assert(all.take(i as int) =~= all);
    r
}

/// Messages that were arranged by time are those that the logs have.
proof fn lemma_logged(s: SessionView, logged: Seq<EntryView>, offset_us: i64)
    requires
        order::is_permutation(s.log_places),
        s.log_places.len() == logged.len(),
        logged.len() <= usize::MAX,
        s.log_times == logged.map_values(|e: EntryView| e.timestamp_us),
        s.entries == session::arranged(all_on_axis(logged, offset_us), s.log_places),
    ensures
        s.logged() == logged,
{
    assert forall|k: int| 0 <= k < logged.len() implies s.logged()[k] == logged[k] by {
        order::law_permutation_is_complete(s.log_places, k as usize);
        let j = s.log_places.index_of(k as usize);
        assert(s.entries[j] == on_axis(logged[k], offset_us));
    }
    assert(s.logged() =~= logged);
}

/// Freshly merged logs stand where the offset found from them places them.
pub proof fn law_merged_is_aligned(
    paths: (Seq<char>, Seq<char>),
    tlog: (Seq<u8>, Seq<EntryView>),
    bin: (Seq<u8>, Seq<EntryView>),
    schema: Map<u8, MsgFmtView>,
    sync: SyncState,
    places: Seq<usize>,
    options: (Seq<(u8, u8)>, Seq<Seq<char>>),
)
    requires
        sync.manual_offset_us == 0,
        places.len() <= usize::MAX,
        forall|i: int|
            0 <= i < tlog.1.len() ==> (#[trigger] tlog.1[i]).source == LogSourceId::Primary,
        order::is_order(
            session::times(
                session::combined(tlog.1, bin.1, tlog.0.len() as int, sync.bin_offset_us),
            ),
            places,
        ),
    ensures
        session::merged(paths, tlog, bin, schema, sync, places, options).aligned(),
        session::merged(paths, tlog, bin, schema, sync, places, options).logged()
            == session::joined(tlog.1, bin.1, tlog.0.len() as int),
{
    let s = session::merged(paths, tlog, bin, schema, sync, places, options);
    let split = tlog.0.len() as int;
    let logged = session::joined(tlog.1, bin.1, split);
    let all = session::combined(tlog.1, bin.1, split, sync.bin_offset_us);
    let keys = session::times(all);
    order::lemma_order_is_permutation(keys, places);
    assert(sync.total_us() == sync.bin_offset_us);
    assert(all_on_axis(logged, sync.bin_offset_us) =~= all) by {
        assert forall|k: int| 0 <= k < all.len() implies all_on_axis(logged, sync.bin_offset_us)[k]
            == all[k] by {
            if k < tlog.1.len() {
                assert(logged[k] == tlog.1[k]);
            } else {
                assert(logged[k] == session::appended(bin.1[k - tlog.1.len()], split));
            }
        }
    }
    lemma_logged(s, logged, sync.bin_offset_us);
    assert(tlog_first(logged)) by {
        assert forall|i: int, j: int|
            0 <= i < j < logged.len() && (#[trigger] logged[i]).source
                == LogSourceId::Secondary implies (#[trigger] logged[j]).source
            == LogSourceId::Secondary by {
            if i < tlog.1.len() {
                assert(logged[i] == tlog.1[i]);
            }
        }
    }
    assert(SyncState { manual_offset_us: sync.manual_offset_us, ..sync } == sync);
}

/// Setting the manual offset leaves the messages as the logs have them, and
/// places them by the new offset.
pub proof fn law_realigned_is_aligned(s: SessionView, offset_us: i64, next: SessionView)
    requires
        s.sync is Some,
        s.traced(),
        s.realigns_to(offset_us, next),
    ensures
        next.traced(),
        next.logged() == s.logged(),
        tlog_first(s.logged()) ==> next.aligned(),
{
    let there = s.on_axis(offset_us);
    let p = choose|p: Seq<usize>| #[trigger]
        order::is_order(session::times(there), p) && next == s.realigned(offset_us, p);
    order::lemma_order_is_permutation(session::times(there), p);
    assert(s.log_times =~= s.logged().map_values(|e: EntryView| e.timestamp_us));
    lemma_logged(next, s.logged(), next.sync->Some_0.total_us());
}

/// Realigned entries come in the order of time, whatever the offset, those of
/// the tlog before those of the bin at the same time.
pub proof fn law_realigned_is_sorted(s: SessionView, offset_us: i64, next: SessionView)
    requires
        s.sync is Some,
        s.traced(),
        tlog_first(s.logged()),
        s.realigns_to(offset_us, next),
    ensures
        next.entries.len() == s.entries.len(),
        forall|i: int, j: int|
            0 <= i < j < next.entries.len() ==> session::sync_key(#[trigger] next.entries[i])
                <= session::sync_key(#[trigger] next.entries[j]),
{
    let there = s.on_axis(offset_us);
    let keys = session::times(there);
    let p = choose|p: Seq<usize>| #[trigger]
        order::is_order(session::times(there), p) && next == s.realigned(offset_us, p);
    assert forall|i: int, j: int| 0 <= i < j < next.entries.len() implies session::sync_key(
        #[trigger] next.entries[i],
    ) <= session::sync_key(#[trigger] next.entries[j]) by {
        assert(order::before(keys, p[i], p[j]));
        assert(p[i] < keys.len() && p[j] < keys.len());
        let (a, b) = (s.logged()[p[i] as int], s.logged()[p[j] as int]);
        assert(there[p[i] as int].source == a.source && there[p[j] as int].source == b.source);
    }
}

/// Where a session ends up depends only on the last manual offset, not on those
/// before it: the order of the entries, and with it the marks, are those that a
/// session file restores.
pub proof fn law_last_offset_decides(
    s: SessionView,
    first_us: i64,
    last_us: i64,
    between: SessionView,
    twice: SessionView,
    once: SessionView,
)
    requires
        s.sync is Some,
        s.traced(),
        s.realigns_to(first_us, between),
        between.realigns_to(last_us, twice),
        s.realigns_to(last_us, once),
    ensures
        (SessionView { selected: once.selected, ..twice }) == once,
{
    law_realigned_is_aligned(s, first_us, between);
    let n = s.entries.len() as int;
    let there = s.on_axis(last_us);
    let k = session::times(there);
    assert(between.on_axis(last_us) == there);
    let p1 = choose|p: Seq<usize>| #[trigger]
        order::is_order(session::times(s.on_axis(first_us)), p) && between == s.realigned(
            first_us,
            p,
        );
    let p2 = choose|p: Seq<usize>| #[trigger]
        order::is_order(session::times(between.on_axis(last_us)), p) && twice
            == between.realigned(last_us, p);
    let q = choose|p: Seq<usize>| #[trigger]
        order::is_order(session::times(s.on_axis(last_us)), p) && once == s.realigned(last_us, p);
    order::law_order_is_unique(k, p2, q);
    order::lemma_order_is_permutation(session::times(s.on_axis(first_us)), p1);
    order::lemma_order_is_permutation(k, q);
    lemma_steps(s.log_places, p1);
    lemma_steps(p1, q);
    lemma_steps(s.log_places, q);
    assert(twice.marks =~= once.marks) by {
        let (f, g, h) = (steps(s.log_places, p1), steps(p1, q), steps(s.log_places, q));
        assert forall|j: usize| old_place(f, old_place(g, j)) == #[trigger] old_place(h, j) by {
            if j < n {
                assert(p1[g[j as int] as int] == q[j as int]);
                assert(g[j as int] < n);
            }
        }
    }
    assert(twice.columns_text == once.columns_text && twice.columns == once.columns) by {
        lemma_reindexed(s.columns, between.entries, once.entries);
    }
}

/// Setting the saved manual offset on the same logs, opened anew, brings back the
/// entries of a session in their order.
pub proof fn law_saved_offset_restores_order(s: SessionView, fresh: SessionView, next: SessionView)
    requires
        s.sync is Some,
        s.aligned(),
        fresh.sync is Some,
        fresh.traced(),
        fresh.logged() == s.logged(),
        fresh.sync->Some_0.bin_offset_us == s.sync->Some_0.bin_offset_us,
        fresh.realigns_to(s.sync->Some_0.manual_offset_us, next),
    ensures
        next.entries == s.entries,
        next.log_places == s.log_places,
        next.sync->Some_0.total_us() == s.sync->Some_0.total_us(),
{
    let m = s.sync->Some_0.manual_offset_us;
    assert(fresh.on_axis(m) == s.on_axis(m));
    let p = choose|p: Seq<usize>| #[trigger]
        order::is_order(session::times(fresh.on_axis(m)), p) && next == fresh.realigned(m, p);
    order::law_order_is_unique(session::times(s.on_axis(m)), p, s.log_places);
}

/// Indexing columns again forgets what they were indexed for.
proof fn lemma_reindexed(
    columns: Seq<ColumnView>,
    before: Seq<EntryView>,
    after: Seq<EntryView>,
)
    ensures
        browse::all_indexed(browse::all_indexed(columns, before), after) == browse::all_indexed(
            columns,
            after,
        ),
        column::list_text(browse::all_indexed(columns, before)) == column::list_text(columns),
{
    let once = browse::all_indexed(columns, before);
    assert forall|i: int| 0 <= i < columns.len() implies browse::indexed(once[i], after)
        == browse::indexed(columns[i], after) by {
        lemma_same_index(once[i], columns[i], after, after.len() as int);
    }
    assert(browse::all_indexed(once, after) =~= browse::all_indexed(columns, after));
    assert(once.map_values(|c: ColumnView| c.text()) =~= columns.map_values(
        |c: ColumnView| c.text(),
    ));
}

/// What a column reads from depends on its ids and type alone.
proof fn lemma_same_index(a: ColumnView, b: ColumnView, entries: Seq<EntryView>, n: int)
    requires
        a.sysid == b.sysid,
        a.compid == b.compid,
        a.msg_type == b.msg_type,
    ensures
        browse::read_from(a, entries, n) == browse::read_from(b, entries, n),
    decreases n,
{
    if n > 0 {
        lemma_same_index(a, b, entries, n - 1);
    }
}

/// A mark stays on its message when the bin is moved.
pub proof fn law_marks_follow_messages(m: Map<usize, Seq<char>>, p: Seq<usize>, j: usize)
    requires
        j < p.len(),
    ensures
        follow(m, p).contains_key(j) <==> m.contains_key(p[j as int]),
        m.contains_key(p[j as int]) ==> follow(m, p)[j] == m[p[j as int]],
{
}

/// Where the messages of a merged session stand: those of the tlog at their own time,
/// those of the bin at their own time moved by the offset.
pub proof fn law_on_axis(e: EntryView, offset_us: i64)
    ensures
        e.source == LogSourceId::Primary ==> on_axis(e, offset_us) == e,
        e.source == LogSourceId::Secondary ==> on_axis(e, offset_us) == (EntryView {
            timestamp_us: session::shifted(e.timestamp_us, offset_us),
            ..e
        }),
{
}

/// The bin is moved by the offset found from the logs and the manual one together.
pub proof fn law_offsets_add_up(s: SyncState)
    requires
        i64::MIN <= s.bin_offset_us + s.manual_offset_us <= i64::MAX,
    ensures
        s.total_us() == s.bin_offset_us + s.manual_offset_us,
{
}

/// What setting the manual offset does to a merged session: the messages are laid out
/// anew in the order of time, the start is the first of them, the manual offset is the
/// given one, what is visible is what the filters show, and the logs, the filters, the
/// plots and what was saved stay as they are. A session of one log stays as it is.
pub proof fn law_realigned(s: SessionView, offset_us: i64, next: SessionView)
    requires
        s.realigns_to(offset_us, next),
    ensures
        s.sync is None ==> next == s,
        s.sync matches Some(old_sync) ==> {
            &&& next.sync == Some(
                SyncState {
                    bin_offset_us: old_sync.bin_offset_us,
                    manual_offset_us: offset_us,
                    method: old_sync.method,
                },
            )
            &&& next.entries.len() > 0 ==> next.start_us == next.entries[0].timestamp_us
            &&& next.filtered == browse::shown(s.filters, next.entries, next.entries.len() as int)
            &&& next.path == s.path && next.data == s.data && next.log_times == s.log_times
            &&& next.filters == s.filters && next.filter_text == s.filter_text
            &&& next.plots == s.plots && next.time_format == s.time_format
            &&& next.saved_setup == s.saved_setup && next.secondary_path == s.secondary_path
            &&& next.entries.len() == s.log_places.len()
            &&& forall|k: int|
                0 <= k < next.entries.len() ==> next.log_places[k] < s.log_places.len()
                    && #[trigger] next.entries[k] == on_axis(
                    s.logged()[next.log_places[k] as int],
                    (SyncState { manual_offset_us: offset_us, ..old_sync }).total_us(),
                )
        },
{
    if s.sync is Some {
        let p = choose|p: Seq<usize>| #[trigger]
            order::is_order(session::times(s.on_axis(offset_us)), p) && next
                == s.realigned(offset_us, p);
        assert forall|k: int| 0 <= k < next.entries.len() implies next.log_places[k]
            < s.log_places.len() && #[trigger] next.entries[k] == on_axis(
            s.logged()[next.log_places[k] as int],
            (SyncState { manual_offset_us: offset_us, ..s.sync->Some_0 }).total_us(),
        ) by {
            assert(p[k] < session::times(s.on_axis(offset_us)).len());
        }
    }
}

} // verus!
