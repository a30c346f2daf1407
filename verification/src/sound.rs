//! What holds of every session: payloads lie within the log, the visible
//! messages, marks and column indices are those of entries, and the selection is
//! among the visible messages. Opening a log establishes it, and every operation
//! on a session keeps it.

use vstd::prelude::*;
use crate::column::{ColumnView, CustomColumn};
use crate::entry::{EntryView, LogEntry};
use crate::filter::FilterView;
use crate::gui::{columns, filters};
use crate::schema::MsgFmtView;
use crate::session::{Session, SessionView};
use crate::setup::SetupView;
use crate::{align, browse, column, entry, marks, order, session};

verus! {

/// Whether marks are those of the first `n` entries.
pub open spec fn marks_in_range(m: Map<usize, Seq<char>>, n: int) -> bool {
    forall|k: usize| #[trigger] m.contains_key(k) ==> k < n
}

/// Whether indices of entries ascend and are among the first `n`.
pub open spec fn is_index(list: Seq<usize>, n: int) -> bool {
    browse::ascending(list) && browse::in_range(list, n)
}

/// Whether every column reads from a proper index.
pub open spec fn columns_indexed(columns: Seq<ColumnView>, n: int) -> bool {
    forall|i: int| 0 <= i < columns.len() ==> is_index((#[trigger] columns[i]).matches, n)
}

impl SessionView {
    /// Whether what the session holds fits together.
    pub open spec fn sound(self) -> bool {
        let n = self.entries.len() as int;
        &&& self.wf()
        &&& n <= usize::MAX
        &&& is_index(self.filtered, n)
        &&& self.filtered.len() <= n
        &&& self.selected < self.filtered.len() || (self.filtered.len() == 0 && self.selected == 0)
        &&& marks_in_range(self.marks, n)
        &&& columns_indexed(self.columns, n)
    }
}

/// Whether indices of entries ascend and are among the first `n`.
fn index_fits(list: &[usize], n: usize) -> (r: bool)
    ensures
        r == is_index(list@, n as int),
{
    let mut i: usize = 0;
    while i < list.len()
        invariant
            i <= list.len(),
            is_index(list@.take(i as int), n as int),
        decreases list.len() - i,
    {
        let ghost front = list@.take(i as int);
        if list[i] >= n {
            return false;
        }
        if i > 0 && list[i - 1] >= list[i] {
            assert(list@[i - 1] >= list@[i as int]);
            return false;
        }
        i += 1;
        proof {
            let now = list@.take(i as int);
            assert(now =~= front.push(list@[i - 1]));
            assert forall|a: int, b: int| 0 <= a < b < now.len() implies (#[trigger] now[a]) < (
            #[trigger] now[b]) by {
                if b == i - 1 && a < i - 2 {
                    assert(front[a] < front[i - 2]);
                }
            }
        }
    }
    assert(list@.take(i as int) =~= list@);
    true
}

/// Whether payloads lie within a buffer of `len` bytes.
fn payloads_fit(entries: &[LogEntry], len: usize) -> (r: bool)
    ensures
        r == session::all_within(entry::entry_views(entries@), len as int),
{
    let ghost all = entry::entry_views(entries@);
    let mut i: usize = 0;
    while i < entries.len()
        invariant
            i <= entries.len(),
            all == entry::entry_views(entries@),
            forall|k: int| 0 <= k < i ==> (#[trigger] all[k]).within(len as int),
        decreases entries.len() - i,
    {
        let e = &entries[i];
        assert(all[i as int] == e@);
        if !(e.payload.start <= e.payload.end && e.payload.end <= len) {
            return false;
        }
        i += 1;
    }
    true
}

/// Whether every column reads from a proper index.
fn columns_fit(columns: &[CustomColumn], n: usize) -> (r: bool)
    ensures
        r == columns_indexed(column::column_views(columns@), n as int),
{
    let ghost all = column::column_views(columns@);
    let mut i: usize = 0;
    while i < columns.len()
        invariant
            i <= columns.len(),
            all == column::column_views(columns@),
            forall|k: int| 0 <= k < i ==> is_index((#[trigger] all[k]).matches, n as int),
        decreases columns.len() - i,
    {
        assert(all[i as int] == columns@[i as int]@);
        if !index_fits(&columns[i].matches, n) {
            return false;
        }
        i += 1;
    }
    true
}

impl Session {
    /// Whether what the session holds fits together.
    pub fn is_sound(&self) -> (r: bool)
        ensures
            r == self@.sound(),
    {
        let n: usize = self.entries.len();
        if !payloads_fit(&self.entries, self.data.len()) || !index_fits(&self.filtered, n) {
            return false;
        }
        if self.filtered.len() > n {
            return false;
        }
        if self.selected >= self.filtered.len() && !(self.filtered.len() == 0 && self.selected
            == 0) {
            return false;
        }
        let list = marks::listed(&self.marks);
        let ghost all = marks::pairs(list@);
        if list.len() > 0 && list[list.len() - 1].0 >= n {
            proof {
                let last = all[all.len() - 1];
                assert(last.0 == list@[list@.len() - 1].0);
                assert(self@.marks.contains_key(last.0));
            }
            return false;
        }
        assert(marks_in_range(self@.marks, n as int)) by {
            assert forall|k: usize| #[trigger] self@.marks.contains_key(k) implies k < n by {
                assert(marks::has_key(all, k));
                let i = choose|i: int| 0 <= i < all.len() && (#[trigger] all[i]).0 == k;
                let last = all.len() - 1;
                assert(all[last].0 == list@[last].0);
                if i < last {
                    assert(all[i].0 < all[last].0);
                }
            }
        }
        columns_fit(&self.columns, n)
    }
}

/// A position of a visible message.
proof fn lemma_nearest(list: Seq<usize>, x: usize)
    requires
        browse::ascending(list),
        list.len() <= usize::MAX,
    ensures
        browse::nearest_visible(list, x) < list.len() || (list.len() == 0
            && browse::nearest_visible(list, x) == 0),
        browse::visible_from(list, x) < list.len() || (list.len() == 0 && browse::visible_from(
            list,
            x,
        ) == 0),
{
    if list.len() > 0 {
        browse::law_filtering_lands_nearest(list, x);
        browse::law_selection_lands_at_or_after(list, x);
    }
}

/// A log that was just opened is sound.
pub proof fn law_opened_is_sound(
    path: Seq<char>,
    data: Seq<u8>,
    entries: Seq<EntryView>,
    schema: Option<Map<u8, MsgFmtView>>,
    ids: Seq<(u8, u8)>,
    types: Seq<Seq<char>>,
)
    requires
        0 < entries.len() <= usize::MAX,
        session::all_within(entries, data.len() as int),
    ensures
        session::opened(path, data, entries, schema, ids, types).sound(),
{
}

/// Changing the filters keeps a session sound.
pub proof fn law_filters_keep_sound(s: SessionView, list: Seq<FilterView>)
    requires
        s.sound(),
    ensures
        filters::refiltered(s, list).sound(),
{
    let n = s.entries.len() as int;
    browse::law_visible_messages(list, s.entries, n);
    browse::lemma_visible_len(list, s.entries, n);
    let next = filters::refiltered(s, list);
    lemma_nearest(next.filtered, s.current());
}

/// Changing the columns keeps a session sound.
pub proof fn law_columns_keep_sound(s: SessionView, list: Seq<ColumnView>)
    requires
        s.sound(),
    ensures
        columns::recolumned(s, list).sound(),
{
    lemma_indexed(list, s.entries);
}

/// Indexed columns read from a proper index.
proof fn lemma_indexed(list: Seq<ColumnView>, entries: Seq<EntryView>)
    requires
        entries.len() <= usize::MAX,
    ensures
        columns_indexed(browse::all_indexed(list, entries), entries.len() as int),
{
    let n = entries.len() as int;
    let all = browse::all_indexed(list, entries);
    assert forall|i: int| 0 <= i < all.len() implies is_index((#[trigger] all[i]).matches, n) by {
        browse::law_column_index(list[i], entries, n);
    }
}

/// Restoring a setup keeps a session sound, whatever the setup holds.
pub proof fn law_setup_keeps_sound(s: SessionView, u: SetupView)
    requires
        s.sound(),
    ensures
        s.with_setup(u).sound(),
{
    let n = s.entries.len() as int;
    let r = s.with_setup(u);
    browse::law_visible_messages(r.filters, s.entries, n);
    browse::lemma_visible_len(r.filters, s.entries, n);
    lemma_nearest(r.filtered, u.selected);
    match column::columns_of(u.columns) {
        Ok(list) => {
            lemma_indexed(list, s.entries);
        },
        Err(_) => {},
    }
}

/// Moving the bin of a merged session keeps it sound.
pub proof fn law_realigned_is_sound(s: SessionView, offset_us: i64, next: SessionView)
    requires
        s.sound(),
        s.traced(),
        s.realigns_to(offset_us, next),
    ensures
        next.sound(),
{
    if s.sync is Some {
        let n = s.entries.len() as int;
        let there = s.on_axis(offset_us);
        let p = choose|p: Seq<usize>| #[trigger]
            order::is_order(session::times(there), p) && next == s.realigned(offset_us, p);
        align::lemma_on_axis_within(s, offset_us);
        session::lemma_arranged_within(there, session::times(there), p, s.data.len() as int);
        order::lemma_order_is_permutation(session::times(there), p);
        align::lemma_steps(s.log_places, p);
        let from = align::steps(s.log_places, p);
        assert(next.entries.len() == n);
        browse::law_visible_messages(s.filters, next.entries, n);
        browse::lemma_visible_len(s.filters, next.entries, n);
        lemma_nearest(next.filtered, align::new_place(from, s.current()));
        lemma_indexed(s.columns, next.entries);
        assert forall|k: usize| #[trigger] next.marks.contains_key(k) implies k < n by {
            assert(s.marks.contains_key(align::old_place(from, k)));
        }
    }
}

/// Filters, columns, marks, the selection and a restored setup leave the messages
/// of a merged session where they are.
pub proof fn law_edits_keep_aligned(
    s: SessionView,
    f: Seq<FilterView>,
    c: Seq<ColumnView>,
    marks: Map<usize, Seq<char>>,
    selected: usize,
    u: SetupView,
)
    ensures
        filters::refiltered(s, f).logged() == s.logged(),
        filters::refiltered(s, f).aligned() == s.aligned(),
        columns::recolumned(s, c).logged() == s.logged(),
        columns::recolumned(s, c).aligned() == s.aligned(),
        (SessionView { marks, selected, ..s }).logged() == s.logged(),
        (SessionView { marks, selected, ..s }).aligned() == s.aligned(),
        s.with_setup(u).logged() == s.logged(),
        s.with_setup(u).aligned() == s.aligned(),
{
    lemma_same_messages(s, filters::refiltered(s, f));
    lemma_same_messages(s, columns::recolumned(s, c));
    lemma_same_messages(s, SessionView { marks, selected, ..s });
    lemma_same_messages(s, s.with_setup(u));
}

/// Where messages stand depends on the entries, the logs and the offsets alone.
proof fn lemma_same_messages(s: SessionView, t: SessionView)
    requires
        t.entries == s.entries,
        t.sync == s.sync,
        t.log_times == s.log_times,
        t.log_places == s.log_places,
    ensures
        t.logged() == s.logged(),
        t.aligned() == s.aligned(),
{
    assert(t.logged() =~= s.logged());
}

/// A jump and a selection keep a session sound.
pub proof fn law_moving_keeps_sound(s: SessionView, target_us: u64, entry_index: usize)
    requires
        s.sound(),
    ensures
        s.filtered.len() > 0 ==> (SessionView {
            selected: browse::at_most_last(
                browse::first_from_time(s.filtered, s.entries, target_us),
                s.filtered.len() as int,
            ),
            ..s
        }).sound(),
        (SessionView {
            selected: browse::visible_from(s.filtered, entry_index),
            ..s
        }).sound(),
{
    lemma_nearest(s.filtered, entry_index);
    if s.filtered.len() > 0 {
        browse::law_jump_lands_at_or_after(s.filtered, s.entries, target_us);
    }
}

} // verus!
