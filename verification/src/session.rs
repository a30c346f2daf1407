//! The `Session`: all per-file domain state and the operations on it. It knows
//! nothing about how it is displayed.

use std::collections::HashMap;
use std::ops::Range;

use vstd::prelude::*;
use vstd::wrapping::i64_specs;
use crate::column::{ColumnView, CustomColumn};
use crate::entry::{EntryView, LogEntry, LogSourceId};
use crate::filter::{FilterExpr, FilterView};
use crate::plot::{PlotDef, PlotView};
use crate::schema::{MsgFmtView, Schema};
use crate::setup::{Setup, SetupView};
use crate::sync::SyncMethod;
use crate::time::TimeFormat;
use crate::{bytes, column, entry, filter, marks, order, plot, setup, text, time, value};

verus! {

broadcast use vstd::std_specs::hash::group_hash_axioms;

/// Time-alignment state for a merged session. The secondary log's entries were
/// placed at `boot + bin_offset_us + manual_offset_us` on the primary's unix
/// axis. Secondary entries are identified by their `LogEntry.source`, so no
/// buffer split index is needed here.
#[derive(Clone, Copy, Debug, PartialEq, Eq, Structural)]
pub struct SyncState {
    pub bin_offset_us: i64,
    pub manual_offset_us: i64,
    pub method: SyncMethod,
}

pub struct Session {
    pub path: String,
    pub data: Vec<u8>,
    pub entries: Vec<LogEntry>,
    /// Timestamp of the first message; offsets are relative to it.
    pub start_us: u64,
    pub time_format: TimeFormat,
    pub filters: Vec<FilterExpr>,
    /// Raw filter text, kept so the raw-edit prompt can reopen it.
    pub filter_text: String,
    /// Indices into `entries` that pass the current filter.
    pub filtered: Vec<usize>,
    pub columns: Vec<CustomColumn>,
    /// Raw column definitions, kept for re-editing.
    pub columns_text: String,
    /// Marked messages by entry index; the value is an optional label.
    pub marks: HashMap<usize, String>,
    /// Distinct sys:comp pairs present in the file, sorted.
    pub id_options: Vec<(u8, u8)>,
    /// Distinct message-type names present in the file, sorted.
    pub type_options: Vec<String>,
    /// Index into `filtered` of the selected message.
    pub selected: usize,
    /// Saved plot definitions.
    pub plots: Vec<PlotDef>,
    /// Snapshot of the setup as last saved to (or loaded from) the sidecar.
    /// `is_dirty` compares the live setup against this to decide whether there
    /// are unsaved changes worth warning about.
    pub saved_setup: Setup,
    /// DataFlash message schema; `None` for MAVLink logs, which decode via the
    /// `mavlink` dialect instead.
    pub schema: Option<Schema>,
    /// Set when this session is a merge of two logs; carries the time-alignment
    /// offset applied to the secondary (bin) entries. `None` for single logs.
    pub sync: Option<SyncState>,
    /// Path of the secondary (bin) log in a merged session; `None` otherwise.
    pub secondary_path: Option<String>,
    /// The times of the messages of a merged session as their own logs have
    /// them, those of the tlog first. Empty for single logs.
    pub log_times: Vec<u64>,
    /// For each entry of a merged session, its place among `log_times`. Empty
    /// for single logs.
    pub log_places: Vec<usize>,
}

/// What a session holds.
#[verifier::ext_equal]
pub struct SessionView {
    pub path: Seq<char>,
    pub data: Seq<u8>,
    pub entries: Seq<EntryView>,
    pub start_us: u64,
    pub time_format: TimeFormat,
    pub filters: Seq<FilterView>,
    pub filter_text: Seq<char>,
    pub filtered: Seq<usize>,
    pub columns: Seq<ColumnView>,
    pub columns_text: Seq<char>,
    pub marks: Map<usize, Seq<char>>,
    pub id_options: Seq<(u8, u8)>,
    pub type_options: Seq<Seq<char>>,
    pub selected: usize,
    pub plots: Seq<PlotView>,
    pub saved_setup: SetupView,
    pub schema: Option<Map<u8, MsgFmtView>>,
    pub sync: Option<SyncState>,
    pub secondary_path: Option<Seq<char>>,
    pub log_times: Seq<u64>,
    pub log_places: Seq<usize>,
}

/// What an optional schema holds.
pub open spec fn schema_view(schema: Option<Schema>) -> Option<Map<u8, MsgFmtView>> {
    match schema {
        Some(s) => Some(s@),
        None => None,
    }
}

impl View for Session {
    type V = SessionView;

    open spec fn view(&self) -> SessionView {
        SessionView {
            path: self.path@,
            data: self.data@,
            entries: entry::entry_views(self.entries@),
            start_us: self.start_us,
            time_format: self.time_format,
            filters: filter::filter_views(self.filters@),
            filter_text: self.filter_text@,
            filtered: self.filtered@,
            columns: column::column_views(self.columns@),
            columns_text: self.columns_text@,
            marks: marks::labels(self.marks@),
            id_options: self.id_options@,
            type_options: text::views(self.type_options@),
            selected: self.selected,
            plots: plot::plot_views(self.plots@),
            saved_setup: self.saved_setup@,
            schema: schema_view(self.schema),
            sync: self.sync,
            secondary_path: value::text_of(self.secondary_path),
            log_times: self.log_times@,
            log_places: self.log_places@,
        }
    }
}

/// Whether every payload lies within a buffer of `len` bytes.
pub open spec fn all_within(entries: Seq<EntryView>, len: int) -> bool {
    forall|i: int| 0 <= i < entries.len() ==> (#[trigger] entries[i]).within(len)
}

impl SessionView {
    /// Whether every payload lies within the log buffer.
    pub open spec fn wf(self) -> bool {
        all_within(self.entries, self.data.len() as int)
    }

    /// Whether every entry of a merged session has its place in the logs.
    pub open spec fn traced(self) -> bool {
        self.sync is Some ==> {
            &&& self.entries.len() <= usize::MAX
            &&& self.log_times.len() == self.entries.len()
            &&& self.log_places.len() == self.entries.len()
            &&& order::is_permutation(self.log_places)
        }
    }

    /// The messages of a merged session in the order of the logs, with the times
    /// that their own logs have for them.
    pub open spec fn logged(self) -> Seq<EntryView> {
        Seq::new(
            self.log_places.len(),
            |k: int|
                EntryView {
                    timestamp_us: self.log_times[k],
                    ..self.entries[self.log_places.index_of(k as usize)]
                },
        )
    }

    /// Entry index of the selected message, if any are visible.
    pub open spec fn selected_entry(self) -> Option<usize> {
        if self.selected < self.filtered.len() {
            Some(self.filtered[self.selected as int])
        } else {
            None
        }
    }

    /// Entry index of the selected message, or 0.
    pub open spec fn current(self) -> usize {
        match self.selected_entry() {
            Some(i) => i,
            None => 0,
        }
    }
}

/// Whether pairs come in order, each once.
pub open spec fn pairs_in_order(list: Seq<(u8, u8)>) -> bool {
    forall|i: int, j: int|
        0 <= i < j < list.len() ==> pair_before(#[trigger] list[i], #[trigger] list[j])
}

/// Whether a pair of ids comes before another.
pub open spec fn pair_before(a: (u8, u8), b: (u8, u8)) -> bool {
    a.0 < b.0 || (a.0 == b.0 && a.1 < b.1)
}

/// Whether names come in order, each once.
pub open spec fn names_in_order(list: Seq<Seq<char>>) -> bool {
    forall|i: int, j: int|
        0 <= i < j < list.len() ==> text::precedes(#[trigger] list[i], #[trigger] list[j])
}

/// Whether an entry carries the given ids.
pub open spec fn has_ids(e: EntryView, pair: (u8, u8)) -> bool {
    e.sysid == Some(pair.0) && e.compid == Some(pair.1)
}

/// Whether `ids` lists the id pairs of the entries, in order and each once.
pub open spec fn lists_ids(ids: Seq<(u8, u8)>, entries: Seq<EntryView>) -> bool {
    &&& pairs_in_order(ids)
    &&& forall|p: (u8, u8)| #[trigger]
        ids.contains(p) <==> exists|i: int|
            0 <= i < entries.len() && has_ids(#[trigger] entries[i], p)
}

/// Whether `types` lists the names of the entries, in order and each once.
pub open spec fn lists_types(types: Seq<Seq<char>>, entries: Seq<EntryView>) -> bool {
    &&& names_in_order(types)
    &&& forall|t: Seq<char>| #[trigger]
        types.contains(t) <==> exists|i: int|
            0 <= i < entries.len() && (#[trigger] entries[i]).name == t
}

/// There is only one way to list the ids and the names of entries.
pub proof fn lemma_options_are_unique(s: SessionView, t: SessionView)
    requires
        s.entries == t.entries,
        lists_ids(s.id_options, s.entries),
        lists_ids(t.id_options, t.entries),
        lists_types(s.type_options, s.entries),
        lists_types(t.type_options, t.entries),
    ensures
        s.id_options == t.id_options,
        s.type_options == t.type_options,
{
    lemma_same_pairs(s.id_options, t.id_options);
    lemma_same_names(s.type_options, t.type_options);
}

/// Two lists of pairs in order that hold the same are the same.
proof fn lemma_same_pairs(a: Seq<(u8, u8)>, b: Seq<(u8, u8)>)
    requires
        pairs_in_order(a),
        pairs_in_order(b),
        forall|p: (u8, u8)| #[trigger] a.contains(p) <==> b.contains(p),
    ensures
        a == b,
    decreases a.len(),
{
    if a.len() == 0 || b.len() == 0 {
        if a.len() > 0 {
            assert(a.contains(a[0]));
        }
        if b.len() > 0 {
            assert(b.contains(b[0]));
            assert(a.contains(b[0]));
        }
        assert(a =~= b);
    } else {
        assert(a.contains(a[0]) && b.contains(b[0]));
        assert(a.contains(b[0]));
        let i = choose|i: int| 0 <= i < b.len() && b[i] == a[0];
        let j = choose|j: int| 0 <= j < a.len() && a[j] == b[0];
        if i > 0 && j > 0 {
            assert(pair_before(b[0], b[i]) && pair_before(a[0], a[j]));
        }
        let (x, y) = (a.drop_first(), b.drop_first());
        assert forall|p: (u8, u8)| #[trigger] x.contains(p) <==> y.contains(p) by {
            if x.contains(p) {
                let k = choose|k: int| 0 <= k < x.len() && x[k] == p;
                assert(a[k + 1] == p && pair_before(a[0], a[k + 1]));
                assert(a.contains(p));
                let m = choose|m: int| 0 <= m < b.len() && b[m] == p;
                assert(y[m - 1] == p);
            }
            if y.contains(p) {
                let k = choose|k: int| 0 <= k < y.len() && y[k] == p;
                assert(b[k + 1] == p && pair_before(b[0], b[k + 1]));
                assert(b.contains(p));
                assert(a.contains(p));
                let m = choose|m: int| 0 <= m < a.len() && a[m] == p;
                assert(x[m - 1] == p);
            }
        }
        lemma_same_pairs(x, y);
        assert(a =~= seq![a[0]] + x);
        assert(b =~= seq![b[0]] + y);
    }
}

/// Two lists of names in order that hold the same are the same.
proof fn lemma_same_names(a: Seq<Seq<char>>, b: Seq<Seq<char>>)
    requires
        names_in_order(a),
        names_in_order(b),
        forall|t: Seq<char>| #[trigger] a.contains(t) <==> b.contains(t),
    ensures
        a == b,
    decreases a.len(),
{
    if a.len() == 0 || b.len() == 0 {
        if a.len() > 0 {
            assert(a.contains(a[0]));
        }
        if b.len() > 0 {
            assert(b.contains(b[0]));
            assert(a.contains(b[0]));
        }
        assert(a =~= b);
    } else {
        assert(a.contains(a[0]) && b.contains(b[0]));
        assert(a.contains(b[0]));
        let i = choose|i: int| 0 <= i < b.len() && b[i] == a[0];
        let j = choose|j: int| 0 <= j < a.len() && a[j] == b[0];
        text::law_order(a[0], b[0]);
        if i > 0 && j > 0 {
            assert(text::precedes(b[0], b[i]) && text::precedes(a[0], a[j]));
        }
        let (x, y) = (a.drop_first(), b.drop_first());
        assert forall|t: Seq<char>| #[trigger] x.contains(t) <==> y.contains(t) by {
            text::law_order(a[0], a[0]);
            if x.contains(t) {
                let k = choose|k: int| 0 <= k < x.len() && x[k] == t;
                assert(a[k + 1] == t && text::precedes(a[0], a[k + 1]));
                assert(a.contains(t));
                let m = choose|m: int| 0 <= m < b.len() && b[m] == t;
                assert(y[m - 1] == t);
            }
            if y.contains(t) {
                let k = choose|k: int| 0 <= k < y.len() && y[k] == t;
                assert(b[k + 1] == t && text::precedes(b[0], b[k + 1]));
                assert(b.contains(t));
                assert(a.contains(t));
                let m = choose|m: int| 0 <= m < a.len() && a[m] == t;
                assert(x[m - 1] == t);
            }
        }
        lemma_same_names(x, y);
        assert(a =~= seq![a[0]] + x);
        assert(b =~= seq![b[0]] + y);
    }
}

/// The distinct id pairs of entries, sorted.
fn ids_of(entries: &[LogEntry]) -> (r: Vec<(u8, u8)>)
    ensures
        lists_ids(r@, entry::entry_views(entries@)),
{
    let ghost all = entry::entry_views(entries@);
    let mut r: Vec<(u8, u8)> = Vec::new();
    let mut i: usize = 0;
    while i < entries.len()
        invariant
            i <= entries.len(),
            all == entry::entry_views(entries@),
            pairs_in_order(r@),
            forall|p: (u8, u8)| #[trigger]
                r@.contains(p) <==> exists|k: int| 0 <= k < i && has_ids(#[trigger] all[k], p),
        decreases entries.len() - i,
    {
        let e = &entries[i];
        let ghost before = r@;
        assert(all[i as int] == e@);
        if let (Some(s), Some(c)) = (e.sysid, e.compid) {
            insert_pair(&mut r, (s, c));
        }
        i += 1;
        assert forall|p: (u8, u8)| #[trigger] r@.contains(p) <==> exists|k: int|
            0 <= k < i && has_ids(#[trigger] all[k], p) by {
            if before.contains(p) {
                let k = choose|k: int| 0 <= k < i - 1 && has_ids(#[trigger] all[k], p);
                assert(has_ids(all[k], p));
            }
            if exists|k: int| 0 <= k < i && has_ids(#[trigger] all[k], p) {
                let k = choose|k: int| 0 <= k < i && has_ids(#[trigger] all[k], p);
                if k < i - 1 {
                    assert(before.contains(p));
                }
            }
            if r@.contains(p) && !before.contains(p) {
                assert(has_ids(all[i - 1], p));
            }
        }
    }
    r
}

/// Insert a pair into a sorted list, once.
fn insert_pair(list: &mut Vec<(u8, u8)>, pair: (u8, u8))
    requires
        pairs_in_order(old(list)@),
    ensures
        pairs_in_order(final(list)@),
        forall|p: (u8, u8)| #[trigger]
            final(list)@.contains(p) <==> old(list)@.contains(p) || p == pair,
{
    let ghost before = list@;
    let mut i: usize = 0;
    while i < list.len() && (list[i].0 < pair.0 || (list[i].0 == pair.0 && list[i].1 < pair.1))
        invariant
            i <= list.len(),
            list@ == before,
            pairs_in_order(before),
            forall|k: int| 0 <= k < i ==> pair_before(#[trigger] before[k], pair),
        decreases list.len() - i,
    {
        i += 1;
    }
    if i < list.len() && list[i].0 == pair.0 && list[i].1 == pair.1 {
        assert(before[i as int] == pair);
        return;
    }
    list.insert(i, pair);
    proof {
        assert forall|p: (u8, u8)| #[trigger] list@.contains(p) <==> before.contains(p) || p
            == pair by {
            if before.contains(p) {
                let k = choose|k: int| 0 <= k < before.len() && before[k] == p;
                if k < i {
                    assert(list@[k] == p);
                } else {
                    assert(list@[k + 1] == p);
                }
            }
            if list@.contains(p) && p != pair {
                let k = choose|k: int| 0 <= k < list@.len() && list@[k] == p;
                if k < i {
                    assert(before[k] == p);
                } else {
                    assert(before[k - 1] == p);
                }
            }
            assert(list@[i as int] == pair);
        }
        assert forall|a: int, b: int| 0 <= a < b < list@.len() implies pair_before(
            #[trigger] list@[a],
            #[trigger] list@[b],
        ) by {
            let x = if a < i {
                a
            } else {
                a - 1
            };
            let y = if b < i {
                b
            } else {
                b - 1
            };
            if a == i {
                assert(list@[b] == before[b - 1]);
                if b - 1 > i {
                    assert(pair_before(before[i as int], before[b - 1]));
                }
            } else if b == i {
                assert(list@[a] == before[a]);
            } else {
                assert(list@[a] == before[x] && list@[b] == before[y]);
            }
        }
    }
}

/// The texts of a list of character vectors.
spec fn char_views(list: Seq<Vec<char>>) -> Seq<Seq<char>> {
    list.map_values(|v: Vec<char>| v@)
}

/// Where a name stands in a sorted list, or where it belongs.
fn name_position(list: &[Vec<char>], name: &[char]) -> (n: usize)
    requires
        names_in_order(char_views(list@)),
    ensures
        n <= list@.len(),
        forall|k: int| 0 <= k < n ==> text::precedes(#[trigger] char_views(list@)[k], name@),
        forall|k: int|
            n <= k < list@.len() ==> !text::precedes(#[trigger] char_views(list@)[k], name@),
{
    let ghost all = char_views(list@);
    let mut low: usize = 0;
    let mut high: usize = list.len();
    while low < high
        invariant
            low <= high <= list.len(),
            all == char_views(list@),
            names_in_order(all),
            forall|k: int| 0 <= k < low ==> text::precedes(#[trigger] all[k], name@),
            forall|k: int| high <= k < list@.len() ==> !text::precedes(#[trigger] all[k], name@),
        decreases high - low,
    {
        let mid: usize = low + (high - low) / 2;
        assert(all[mid as int] == list@[mid as int]@);
        if text::comes_before(&list[mid], name) {
            assert forall|k: int| 0 <= k < mid + 1 implies text::precedes(
                #[trigger] all[k],
                name@,
            ) by {
                if k < mid {
                    text::law_order_transitive(all[k], all[mid as int], name@);
                }
            }
            low = mid + 1;
        } else {
            assert forall|k: int| mid <= k < list@.len() implies !text::precedes(
                #[trigger] all[k],
                name@,
            ) by {
                if k > mid && text::precedes(all[k], name@) {
                    text::law_order_transitive(all[mid as int], all[k], name@);
                }
            }
            high = mid;
        }
    }
    low
}

/// Insert a name into a sorted list, once.
fn insert_name(list: &mut Vec<Vec<char>>, name: Vec<char>)
    requires
        names_in_order(char_views(old(list)@)),
    ensures
        names_in_order(char_views(final(list)@)),
        forall|t: Seq<char>| #[trigger]
            char_views(final(list)@).contains(t) <==> char_views(old(list)@).contains(t) || t
                == name@,
{
    let ghost before = char_views(list@);
    let ghost was = list@;
    let i = name_position(list, &name);
    if i < list.len() && text::same(&list[i], &name) {
        assert(before[i as int] == name@);
        return;
    }
    list.insert(i, name);
    let ghost now = char_views(list@);
    proof {
        assert(now =~= before.insert(i as int, name@));
        assert forall|t: Seq<char>| #[trigger] now.contains(t) <==> before.contains(t) || t
            == name@ by {
            if before.contains(t) {
                let k = choose|k: int| 0 <= k < before.len() && before[k] == t;
                if k < i {
                    assert(now[k] == t);
                } else {
                    assert(now[k + 1] == t);
                }
            }
            if now.contains(t) && t != name@ {
                let k = choose|k: int| 0 <= k < now.len() && now[k] == t;
                if k < i {
                    assert(before[k] == t);
                } else {
                    assert(before[k - 1] == t);
                }
            }
            assert(now[i as int] == name@);
        }
        assert forall|k: int| i <= k < before.len() implies text::precedes(
            name@,
            #[trigger] before[k],
        ) by {
            text::law_order(name@, before[k]);
            if k > i && before[k] == name@ {
                assert(text::precedes(before[i as int], before[k]));
            }
        }
        assert forall|a: int, b: int| 0 <= a < b < now.len() implies text::precedes(
            #[trigger] now[a],
            #[trigger] now[b],
        ) by {
            if a == i {
                assert(now[b] == before[b - 1]);
            } else if b == i {
                assert(now[a] == before[a]);
            } else {
                let x = if a < i {
                    a
                } else {
                    a - 1
                };
                let y = if b < i {
                    b
                } else {
                    b - 1
                };
                assert(now[a] == before[x] && now[b] == before[y]);
            }
        }
    }
}

/// The distinct names of entries, sorted.
fn types_of(entries: &[LogEntry]) -> (r: Vec<String>)
    ensures
        lists_types(text::views(r@), entry::entry_views(entries@)),
{
    let ghost all = entry::entry_views(entries@);
    let mut names: Vec<Vec<char>> = Vec::new();
    let mut i: usize = 0;
    while i < entries.len()
        invariant
            i <= entries.len(),
            all == entry::entry_views(entries@),
            names_in_order(char_views(names@)),
            forall|t: Seq<char>| #[trigger]
                char_views(names@).contains(t) <==> exists|k: int|
                    0 <= k < i && (#[trigger] all[k]).name == t,
        decreases entries.len() - i,
    {
        let ghost before = char_views(names@);
        assert(all[i as int] == entries@[i as int]@);
        insert_name(&mut names, text::chars_of(entries[i].name.as_str()));
        i += 1;
        assert forall|t: Seq<char>| #[trigger] char_views(names@).contains(t) <==> exists|k: int|
            0 <= k < i && (#[trigger] all[k]).name == t by {
            if before.contains(t) {
                let k = choose|k: int| 0 <= k < i - 1 && (#[trigger] all[k]).name == t;
                assert(all[k].name == t);
            }
            if exists|k: int| 0 <= k < i && (#[trigger] all[k]).name == t {
                let k = choose|k: int| 0 <= k < i && (#[trigger] all[k]).name == t;
                if k < i - 1 {
                    assert(before.contains(t));
                }
            }
            if t == all[i - 1].name {
                assert(all[i - 1].name == t);
            }
        }
    }
    let mut r: Vec<String> = Vec::new();
    let mut j: usize = 0;
    while j < names.len()
        invariant
            j <= names.len(),
            text::views(r@) =~= char_views(names@).take(j as int),
        decreases names.len() - j,
    {
        let ghost before = r@;
        let name = text::string_of(&names[j]);
        r.push(name);
        j += 1;
        assert(text::views(r@) =~= text::views(before).push(name@));
        assert(char_views(names@)[j - 1] == name@);
    }
    assert(text::views(r@) =~= char_views(names@));
    r
}

/// The list 0, 1, ..., n - 1.
pub open spec fn counting(n: nat) -> Seq<usize> {
    Seq::new(n, |i: int| i as usize)
}

/// The list 0, 1, ..., n - 1.
fn count_to(n: usize) -> (r: Vec<usize>)
    ensures
        r@ == counting(n as nat),
{
    let mut r: Vec<usize> = Vec::new();
    let mut i: usize = 0;
    while i < n
        invariant
            i <= n,
            r@ =~= counting(i as nat),
        decreases n - i,
    {
        r.push(i);
        i += 1;
    }
    r
}

/// How times are shown when a log is opened. DataFlash timestamps are
/// microseconds since boot, not wall clock, so absolute dates would be
/// meaningless and the default is relative time.
pub open spec fn opening_format(schema: Option<Map<u8, MsgFmtView>>) -> TimeFormat {
    if schema is Some {
        TimeFormat::OffsetSecs
    } else {
        TimeFormat::DateTime
    }
}

/// A freshly opened log with the given id and type options: everything is
/// visible, the first message is selected, and nothing is edited.
pub open spec fn opened(
    path: Seq<char>,
    data: Seq<u8>,
    entries: Seq<EntryView>,
    schema: Option<Map<u8, MsgFmtView>>,
    id_options: Seq<(u8, u8)>,
    type_options: Seq<Seq<char>>,
) -> SessionView {
    SessionView {
        path,
        data,
        entries,
        start_us: entries[0].timestamp_us,
        time_format: opening_format(schema),
        filters: seq![],
        filter_text: seq![],
        filtered: counting(entries.len()),
        columns: seq![],
        columns_text: seq![],
        marks: Map::empty(),
        id_options,
        type_options,
        selected: 0,
        plots: seq![],
        saved_setup: SetupView { time_format: opening_format(schema), ..setup::empty() },
        schema,
        sync: None,
        secondary_path: None,
        log_times: seq![],
        log_places: seq![],
    }
}

/// A bin entry of a merged session, behind `split` bytes of the tlog, with the
/// time that the bin has for it.
pub open spec fn appended(e: EntryView, split: int) -> EntryView {
    EntryView {
        start: e.start + split,
        end: e.end + split,
        source: LogSourceId::Secondary,
        ..e
    }
}

/// A bin entry on the absolute axis of a merged session, behind `split` bytes of
/// the tlog. Times are taken as signed 64-bit integers, modulo 2^64, and do not
/// lie before 1970.
pub open spec fn placed(e: EntryView, split: int, offset_us: i64) -> EntryView {
    EntryView {
        timestamp_us: shifted(e.timestamp_us, offset_us),
        ..appended(e, split)
    }
}

/// A time moved by an offset.
pub open spec fn shifted(timestamp_us: u64, offset_us: i64) -> u64 {
    time::not_before_1970(
        i64_specs::wrapping_add(time::as_signed(timestamp_us), offset_us) as int,
    )
}

/// The times of entries, as keys to sort by.
pub open spec fn times(entries: Seq<EntryView>) -> Seq<i128> {
    entries.map_values(|e: EntryView| e.timestamp_us as i128)
}

/// The key by which the entries of a merged session come: by time, and at the
/// same time those of the tlog before those of the bin.
pub open spec fn sync_key(e: EntryView) -> i128 {
    (2 * e.timestamp_us + match e.source {
        LogSourceId::Primary => 0int,
        LogSourceId::Secondary => 1int,
    }) as i128
}

/// The entries at the given places.
pub open spec fn arranged(entries: Seq<EntryView>, p: Seq<usize>) -> Seq<EntryView> {
    p.map_values(|i: usize| entries[i as int])
}


/// The entries of two logs one behind the other, those of the bin placed on the
/// axis of the tlog.
pub open spec fn combined(
    tlog_entries: Seq<EntryView>,
    bin_entries: Seq<EntryView>,
    split: int,
    offset_us: i64,
) -> Seq<EntryView> {
    tlog_entries + bin_entries.map_values(|e: EntryView| placed(e, split, offset_us))
}

/// The entries of two logs one behind the other, as the logs have them.
pub open spec fn joined(
    tlog_entries: Seq<EntryView>,
    bin_entries: Seq<EntryView>,
    split: int,
) -> Seq<EntryView> {
    tlog_entries + bin_entries.map_values(|e: EntryView| appended(e, split))
}

/// Whether payload ranges can be moved by `split` bytes.
pub open spec fn can_append(entries: Seq<EntryView>, split: int) -> bool {
    forall|i: int|
        0 <= i < entries.len() ==> (#[trigger] entries[i]).start + split <= usize::MAX
            && entries[i].end + split <= usize::MAX
}

/// Two freshly merged logs, given the order of their entries by time and the id
/// and type options. Both logs are on the absolute axis, so wall-clock time is
/// shown.
pub open spec fn merged(
    paths: (Seq<char>, Seq<char>),
    tlog: (Seq<u8>, Seq<EntryView>),
    bin: (Seq<u8>, Seq<EntryView>),
    schema: Map<u8, MsgFmtView>,
    sync: SyncState,
    places: Seq<usize>,
    options: (Seq<(u8, u8)>, Seq<Seq<char>>),
) -> SessionView {
    let split = tlog.0.len() as int;
    SessionView {
        time_format: TimeFormat::DateTime,
        saved_setup: setup::empty(),
        sync: Some(sync),
        secondary_path: Some(paths.1),
        log_times: joined(tlog.1, bin.1, split).map_values(|e: EntryView| e.timestamp_us),
        log_places: places,
        ..opened(
            paths.0,
            tlog.0 + bin.0,
            arranged(combined(tlog.1, bin.1, split, sync.bin_offset_us), places),
            Some(schema),
            options.0,
            options.1,
        )
    }
}

/// A time moved by an offset.
pub fn shift_time(timestamp_us: u64, offset_us: i64) -> (r: u64)
    ensures
        r == shifted(timestamp_us, offset_us),
{
    let t: i64 = bytes::signed_64(timestamp_us).wrapping_add(offset_us);
    if t < 0 {
        0
    } else {
        t as u64
    }
}

/// The places of entries in the stable order of their times.
pub fn time_order(entries: &[LogEntry]) -> (p: Vec<usize>)
    ensures
        order::is_order(times(entry::entry_views(entries@)), p@),
{
    let mut keys: Vec<i128> = Vec::new();
    let mut i: usize = 0;
    while i < entries.len()
        invariant
            i <= entries.len(),
            keys@ =~= times(entry::entry_views(entries@)).take(i as int),
        decreases entries.len() - i,
    {
        keys.push(entries[i].timestamp_us as i128);
        i += 1;
    }
    assert(keys@ =~= times(entry::entry_views(entries@)));
    order::stable_order(&keys)
}

/// The entries at the given places.
pub fn arrange(entries: &[LogEntry], p: &[usize]) -> (r: Vec<LogEntry>)
    requires
        forall|i: int| 0 <= i < p@.len() ==> (#[trigger] p@[i]) < entries@.len(),
    ensures
        entry::entry_views(r@) == arranged(entry::entry_views(entries@), p@),
{
    let ghost all = entry::entry_views(entries@);
    let mut r: Vec<LogEntry> = Vec::new();
    let mut i: usize = 0;
    while i < p.len()
        invariant
            i <= p.len(),
            all == entry::entry_views(entries@),
            forall|k: int| 0 <= k < p@.len() ==> (#[trigger] p@[k]) < entries@.len(),
            entry::entry_views(r@) =~= arranged(all, p@).take(i as int),
        decreases p.len() - i,
    {
        let ghost before = r@;
        let e = entries[p[i]].copied();
        r.push(e);
        i += 1;
        proof {
            assert(entry::entry_views(r@) =~= entry::entry_views(before).push(e@));
            assert(arranged(all, p@).take(i as int) =~= arranged(all, p@).take(i - 1).push(
                arranged(all, p@)[i - 1],
            ));
        }
    }
    assert(arranged(all, p@).take(i as int) =~= arranged(all, p@));
    r
}

/// Where arranged entries lie.
pub proof fn lemma_arranged_within(
    entries: Seq<EntryView>,
    keys: Seq<i128>,
    p: Seq<usize>,
    len: int,
)
    requires
        all_within(entries, len),
        keys.len() == entries.len(),
        order::is_order(keys, p),
    ensures
        all_within(arranged(entries, p), len),
{
    assert forall|i: int| 0 <= i < arranged(entries, p).len() implies (#[trigger] arranged(
        entries,
        p,
    )[i]).within(len) by {
        assert(p[i] < keys.len());
        assert(entries[p[i] as int].within(len));
    }
}

impl Session {
    /// Open a log.
    pub fn new(
        path: String,
        data: Vec<u8>,
        entries: Vec<LogEntry>,
        schema: Option<Schema>,
    ) -> (r: Session)
        requires
            entries@.len() > 0,
        ensures
            r@ == opened(
                path@,
                data@,
                entry::entry_views(entries@),
                schema_view(schema),
                r@.id_options,
                r@.type_options,
            ),
            lists_ids(r@.id_options, r@.entries),
            lists_types(r@.type_options, r@.entries),
    {
        // Formats without ids (DataFlash) contribute none; the dropdowns then
        // just offer "any".
        let id_options = ids_of(&entries);
        let type_options = types_of(&entries);
        let start_us: u64 = entries[0].timestamp_us;
        let filtered = count_to(entries.len());
        let time_format = if schema.is_some() {
            TimeFormat::OffsetSecs
        } else {
            TimeFormat::DateTime
        };
        let mut saved_setup = Setup::default();
        saved_setup.time_format = time_format;
        let r = Session {
            path,
            data,
            entries,
            start_us,
            time_format,
            filters: Vec::new(),
            filter_text: String::new(),
            filtered,
            columns: Vec::new(),
            columns_text: String::new(),
            marks: HashMap::new(),
            id_options,
            type_options,
            selected: 0,
            plots: Vec::new(),
            // A freshly opened file has no edits; if a sidecar exists, loading it
            // resets this baseline.
            saved_setup,
            schema,
            sync: None,
            secondary_path: None,
            log_times: Vec::new(),
            log_places: Vec::new(),
        };
        proof {
            let want = opened(
                path@,
                data@,
                entry::entry_views(entries@),
                schema_view(schema),
                r@.id_options,
                r@.type_options,
            );
            assert(r@.marks =~= want.marks);
            assert(r@ =~= want);
        }
        r
    }

    /// Merge a primary MAVLink tlog with a secondary ArduPilot bin into one
    /// time-synchronized session. The two byte buffers are concatenated (so
    /// decoding is unchanged: payload ranges just index further in), the bin's
    /// boot-relative timestamps are shifted by `bin_offset_us` onto the tlog's
    /// absolute unix axis, and the combined entries are stable-sorted by time.
    pub fn merge(
        primary_path: String,
        secondary_path: String,
        tlog_data: Vec<u8>,
        tlog_entries: Vec<LogEntry>,
        bin_data: Vec<u8>,
        bin_entries: Vec<LogEntry>,
        bin_schema: Schema,
        bin_offset_us: i64,
        method: SyncMethod,
    ) -> (r: Session)
        requires
            tlog_entries@.len() + bin_entries@.len() > 0,
            tlog_data@.len() + bin_data@.len() <= usize::MAX,
            can_append(entry::entry_views(bin_entries@), tlog_data@.len() as int),
        ensures
            order::is_order(
                times(
                    combined(
                        entry::entry_views(tlog_entries@),
                        entry::entry_views(bin_entries@),
                        tlog_data@.len() as int,
                        bin_offset_us,
                    ),
                ),
                r@.log_places,
            ),
            r@ == merged(
                (primary_path@, secondary_path@),
                (tlog_data@, entry::entry_views(tlog_entries@)),
                (bin_data@, entry::entry_views(bin_entries@)),
                bin_schema@,
                (SyncState { bin_offset_us, manual_offset_us: 0, method }),
                r@.log_places,
                (r@.id_options, r@.type_options),
            ),
            lists_ids(r@.id_options, r@.entries),
            lists_types(r@.type_options, r@.entries),
            r@.traced(),
            all_within(entry::entry_views(tlog_entries@), tlog_data@.len() as int) && all_within(
                entry::entry_views(bin_entries@),
                bin_data@.len() as int,
            ) ==> r@.wf(),
    {
        let split: usize = tlog_data.len();
        let ghost first = tlog_data@;
        let mut data = tlog_data;
        data.extend_from_slice(&bin_data);
        assert(data@ =~= first + bin_data@);
        let total: usize = data.len();
        let mut entries = tlog_entries;  // already absolute unix, tagged Primary
        let ghost front = entry::entry_views(entries@);
        let ghost bin = entry::entry_views(bin_entries@);
        let ghost all = combined(front, bin, split as int, bin_offset_us);
        let ghost raw = joined(front, bin, split as int).map_values(
            |e: EntryView| e.timestamp_us,
        );
        let mut log_times: Vec<u64> = Vec::new();
        let mut k: usize = 0;
        while k < entries.len()
            invariant
                k <= entries.len(),
                front == entry::entry_views(entries@),
                raw == joined(front, bin, split as int).map_values(|e: EntryView| e.timestamp_us),
                log_times@ =~= raw.take(k as int),
            decreases entries.len() - k,
        {
            assert(front[k as int] == entries@[k as int]@);
            log_times.push(entries[k].timestamp_us);
            k += 1;
        }
        let mut i: usize = 0;
        assert(front + bin.map_values(|e: EntryView| placed(e, split as int, bin_offset_us)).take(0)
            =~= front);
        while i < bin_entries.len()
            invariant
                i <= bin_entries.len(),
                bin == entry::entry_views(bin_entries@),
                can_append(bin, split as int),
                raw == joined(front, bin, split as int).map_values(|e: EntryView| e.timestamp_us),
                log_times@ =~= raw.take(front.len() + i),
                entry::entry_views(entries@) == front + bin.map_values(
                    |e: EntryView| placed(e, split as int, bin_offset_us),
                ).take(i as int),
            decreases bin_entries.len() - i,
        {
            let e = &bin_entries[i];
            assert(bin[i as int] == e@);
            assert(e@.start + split <= usize::MAX && e@.end + split <= usize::MAX);
            log_times.push(e.timestamp_us);
            let n = LogEntry {
                timestamp_us: shift_time(e.timestamp_us, bin_offset_us),
                sysid: e.sysid,
                compid: e.compid,
                payload: Range { start: e.payload.start + split, end: e.payload.end + split },
                name: e.name.clone(),
                kind: e.kind,
                source: LogSourceId::Secondary,
            };
            let ghost before = entries@;
            let ghost moved = bin.map_values(
                |e: EntryView| placed(e, split as int, bin_offset_us),
            );
            assert(n@ =~= moved[i as int]);
            entries.push(n);
            i += 1;
            assert(entry::entry_views(entries@) =~= entry::entry_views(before).push(n@));
            assert(entry::entry_views(entries@) =~= front + moved.take(i as int));
        }
        proof {
            let moved = bin.map_values(|e: EntryView| placed(e, split as int, bin_offset_us));
            assert(moved.take(i as int) =~= moved);
            assert(entry::entry_views(entries@) =~= all);
        }
        // Stable so entries with equal timestamps keep primary-before-secondary
        // order.
        let p = time_order(&entries);
        let sorted = arrange(&entries, &p);
        proof {
            assert(entry::entry_views(sorted@).len() == times(all).len());
            assert(sorted@.len() == front.len() + bin.len());
            if all_within(front, split as int) && all_within(bin, bin_data@.len() as int) {
                assert(all_within(all, total as int)) by {
                    assert forall|k: int| 0 <= k < all.len() implies (#[trigger] all[k]).within(
                        total as int,
                    ) by {
                        if k < front.len() {
                            assert(all[k] == front[k]);
                            assert(front[k].within(split as int));
                        } else {
                            assert(bin[k - front.len()].within(bin_data@.len() as int));
                        }
                    }
                }
                lemma_arranged_within(all, times(all), p@, total as int);
            }
        }
        let mut session = Session::new(primary_path, data, sorted, Some(bin_schema));
        // Both logs are on the absolute axis now, so show wall-clock time.
        session.time_format = TimeFormat::DateTime;
        session.sync = Some(SyncState { bin_offset_us, manual_offset_us: 0, method });
        session.secondary_path = Some(secondary_path);
        session.saved_setup.time_format = TimeFormat::DateTime;
        session.log_times = log_times;
        session.log_places = p;
        proof {
            order::lemma_order_is_permutation(times(all), p@);
            assert(log_times@ =~= raw);
            assert(session@.entries.len() == session.entries.len());
            assert(session@.saved_setup =~= setup::empty());
        }
        session
    }
}

/// Merging leaves every message as it is: its payload in the joined buffer is
/// the one it has in its own log.
pub proof fn law_merging_keeps_payloads(
    tlog_data: Seq<u8>,
    bin_data: Seq<u8>,
    e: EntryView,
    offset_us: i64,
)
    ensures
        e.within(tlog_data.len() as int) ==> (tlog_data + bin_data).subrange(e.start, e.end)
            == tlog_data.subrange(e.start, e.end),
        e.within(bin_data.len() as int) ==> ({
            let m = placed(e, tlog_data.len() as int, offset_us);
            (tlog_data + bin_data).subrange(m.start, m.end) == bin_data.subrange(e.start, e.end)
        }),
{
    let data = tlog_data + bin_data;
    if e.within(tlog_data.len() as int) {
        assert(data.subrange(e.start, e.end) =~= tlog_data.subrange(e.start, e.end));
    }
    if e.within(bin_data.len() as int) {
        let m = placed(e, tlog_data.len() as int, offset_us);
        assert(data.subrange(m.start, m.end) =~= bin_data.subrange(e.start, e.end));
    }
}

/// At the same time, messages of the tlog come before those of the bin.
pub proof fn law_primary_comes_first(
    tlog_entries: Seq<EntryView>,
    bin_entries: Seq<EntryView>,
    split: int,
    offset_us: i64,
    p: Seq<usize>,
    sorted: Seq<EntryView>,
)
    requires
        forall|i: int|
            0 <= i < tlog_entries.len() ==> (#[trigger] tlog_entries[i]).source
                == LogSourceId::Primary,
        order::is_order(times(combined(tlog_entries, bin_entries, split, offset_us)), p),
        sorted == arranged(combined(tlog_entries, bin_entries, split, offset_us), p),
    ensures
        sorted.len() == tlog_entries.len() + bin_entries.len(),
        forall|i: int, j: int|
            0 <= i < j < sorted.len() ==> sync_key(#[trigger] sorted[i]) <= sync_key(
                #[trigger] sorted[j],
            ),
{
    let all = combined(tlog_entries, bin_entries, split, offset_us);
    let keys = times(all);
    assert forall|i: int, j: int| 0 <= i < j < sorted.len() implies sync_key(
        #[trigger] sorted[i],
    ) <= sync_key(#[trigger] sorted[j]) by {
        assert(order::before(keys, p[i], p[j]));
        assert(p[i] < keys.len() && p[j] < keys.len());
        let (a, b) = (p[i] as int, p[j] as int);
        if a < tlog_entries.len() {
            assert(all[a] == tlog_entries[a]);
        }
        if b < tlog_entries.len() {
            assert(all[b] == tlog_entries[b]);
        }
    }
}

/// A time is moved by the offset, and not before 1970.
pub proof fn law_time_is_moved(timestamp_us: u64, offset_us: i64)
    requires
        timestamp_us < 0x8000_0000_0000_0000,
        timestamp_us + offset_us < 0x8000_0000_0000_0000,
    ensures
        timestamp_us + offset_us >= 0 ==> shifted(timestamp_us, offset_us) == timestamp_us
            + offset_us,
        timestamp_us + offset_us < 0 ==> shifted(timestamp_us, offset_us) == 0,
{
}

/// The messages of two logs one behind the other: those of the tlog as they are, those
/// of the bin moved in time, with their payloads behind the bytes of the tlog and
/// marked as of the second log.
pub proof fn law_messages_are_combined(
    tlog_entries: Seq<EntryView>,
    bin_entries: Seq<EntryView>,
    split: int,
    offset_us: i64,
    i: int,
)
    ensures
        ({
            let all = combined(tlog_entries, bin_entries, split, offset_us);
            let n = tlog_entries.len() as int;
            &&& all.len() == n + bin_entries.len()
            &&& 0 <= i < n ==> all[i] == tlog_entries[i]
            &&& 0 <= i < bin_entries.len() ==> all[n + i] == (EntryView {
                timestamp_us: shifted(bin_entries[i].timestamp_us, offset_us),
                start: bin_entries[i].start + split,
                end: bin_entries[i].end + split,
                source: LogSourceId::Secondary,
                ..bin_entries[i]
            })
        }),
{
}

/// Merged messages come in the order of time, those of the tlog before those of the
/// bin at the same time, and each of them is a message of one of the logs.
pub proof fn law_merged_in_time_order(
    tlog_entries: Seq<EntryView>,
    bin_entries: Seq<EntryView>,
    split: int,
    offset_us: i64,
    p: Seq<usize>,
    i: int,
    j: int,
)
    requires
        forall|k: int|
            0 <= k < tlog_entries.len() ==> (#[trigger] tlog_entries[k]).source
                == LogSourceId::Primary,
        order::is_order(times(combined(tlog_entries, bin_entries, split, offset_us)), p),
        0 <= i < j < p.len(),
    ensures
        ({
            let all = combined(tlog_entries, bin_entries, split, offset_us);
            let sorted = arranged(all, p);
            &&& sorted.len() == all.len()
            &&& sorted[i] == all[p[i] as int] && p[i] < all.len()
            &&& sorted[i].timestamp_us <= sorted[j].timestamp_us
            &&& sorted[i].timestamp_us == sorted[j].timestamp_us && sorted[i].source
                == LogSourceId::Secondary ==> sorted[j].source == LogSourceId::Secondary
        }),
{
    let all = combined(tlog_entries, bin_entries, split, offset_us);
    order::law_order_is_stable(times(all), p, i, j);
    let (a, b) = (p[i] as int, p[j] as int);
    if a < tlog_entries.len() {
        assert(all[a] == tlog_entries[a]);
    }
    if b < tlog_entries.len() {
        assert(all[b] == tlog_entries[b]);
    }
}

/// A freshly opened log: every message is visible in order, the first one is selected
/// and gives the start, nothing is edited, and times are shown as dates for a log of
/// absolute times, else relative to the start.
pub proof fn law_opened(
    path: Seq<char>,
    data: Seq<u8>,
    entries: Seq<EntryView>,
    schema: Option<Map<u8, MsgFmtView>>,
    id_options: Seq<(u8, u8)>,
    type_options: Seq<Seq<char>>,
    i: usize,
)
    requires
        0 < entries.len() <= usize::MAX,
    ensures
        ({
            let s = opened(path, data, entries, schema, id_options, type_options);
            &&& s.path == path && s.data == data && s.entries == entries && s.schema == schema
            &&& s.start_us == entries[0].timestamp_us
            &&& s.filtered.len() == entries.len()
            &&& i < entries.len() ==> s.filtered[i as int] == i
            &&& s.selected == 0
            &&& s.filters.len() == 0 && s.columns.len() == 0 && s.plots.len() == 0
            &&& s.filter_text.len() == 0 && s.columns_text.len() == 0
            &&& !s.marks.contains_key(i)
            &&& schema is None ==> s.time_format == TimeFormat::DateTime
            &&& schema is Some ==> s.time_format == TimeFormat::OffsetSecs
            &&& s.sync is None && s.secondary_path is None
        }),
{
}

/// The id pairs that are offered: those of messages that have both ids, each once, by
/// system and then by component.
pub proof fn law_offered_ids(
    ids: Seq<(u8, u8)>,
    entries: Seq<EntryView>,
    k: int,
    sysid: u8,
    compid: u8,
    i: int,
    j: int,
)
    requires
        lists_ids(ids, entries),
    ensures
        0 <= k < entries.len() && entries[k].sysid == Some(sysid) && entries[k].compid == Some(
            compid,
        ) ==> ids.contains((sysid, compid)),
        (forall|n: int|
            0 <= n < entries.len() ==> (#[trigger] entries[n]).sysid != Some(sysid)
                || entries[n].compid != Some(compid)) ==> !ids.contains((sysid, compid)),
        0 <= i < j < ids.len() ==> ids[i].0 < ids[j].0 || (ids[i].0 == ids[j].0 && ids[i].1
            < ids[j].1),
{
    if 0 <= k < entries.len() && entries[k].sysid == Some(sysid) && entries[k].compid == Some(
        compid,
    ) {
        assert(has_ids(entries[k], (sysid, compid)));
    }
    if 0 <= i < j < ids.len() {
        assert(pair_before(ids[i], ids[j]));
    }
}

/// The types that are offered: the names of messages, each once, in the order of
/// strings.
pub proof fn law_offered_types(
    types: Seq<Seq<char>>,
    entries: Seq<EntryView>,
    k: int,
    name: Seq<char>,
    i: int,
    j: int,
)
    requires
        lists_types(types, entries),
    ensures
        0 <= k < entries.len() ==> types.contains(entries[k].name),
        (forall|n: int| 0 <= n < entries.len() ==> (#[trigger] entries[n]).name != name)
            ==> !types.contains(name),
        0 <= i < j < types.len() ==> text::precedes(types[i], types[j]),
{
}

/// The selected message is the visible one at the selected place, if there is one there.
pub proof fn law_selected_entry(s: SessionView)
    ensures
        s.selected < s.filtered.len() ==> s.selected_entry() == Some(
            s.filtered[s.selected as int],
        ) && s.current() == s.filtered[s.selected as int],
        s.selected >= s.filtered.len() ==> s.selected_entry() is None && s.current() == 0,
{
}

} // verus!
