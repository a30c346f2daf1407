//! Browsing a session: filtering, selecting and jumping, and the texts that
//! label what is listed.

use vstd::prelude::*;
use vstd::wrapping::i64_specs;
use crate::column::{ColumnView, CustomColumn};
use crate::entry::{EntryView, LogSourceId};
use crate::filter::{FilterExpr, FilterView};
use crate::session::{Session, SessionView};
use crate::sync::SyncMethod;
use crate::time::TimeFormat;
use crate::{column, entry, filter, numeral, path, text, time, value};

verus! {

/// Whether any filter is enabled.
pub open spec fn any_enabled(filters: Seq<FilterView>) -> bool {
    exists|k: int| 0 <= k < filters.len() && (#[trigger] filters[k]).enabled
}

/// Whether an enabled filter accepts an entry.
pub open spec fn accepted(filters: Seq<FilterView>, e: EntryView) -> bool {
    exists|k: int|
        0 <= k < filters.len() && (#[trigger] filters[k]).enabled && filters[k].accepts(e)
}

/// Whether a message is shown: only enabled filters participate, and when none
/// are enabled, every message is shown.
pub open spec fn shows(filters: Seq<FilterView>, e: EntryView) -> bool {
    !any_enabled(filters) || accepted(filters, e)
}

/// The indices of the messages shown among the first `n`.
pub open spec fn shown(filters: Seq<FilterView>, entries: Seq<EntryView>, n: int) -> Seq<usize>
    decreases n,
{
    if n <= 0 {
        seq![]
    } else if shows(filters, entries[n - 1]) {
        shown(filters, entries, n - 1).push((n - 1) as usize)
    } else {
        shown(filters, entries, n - 1)
    }
}

/// Position of the first element that is at least `x`, or the number of
/// elements.
pub open spec fn first_at_least(list: Seq<usize>, x: usize) -> int
    decreases list.len(),
{
    if list.len() == 0 || list[0] >= x {
        0
    } else {
        1 + first_at_least(list.drop_first(), x)
    }
}

/// A position, or the last one of a list of `len` elements.
pub open spec fn at_most_last(position: int, len: int) -> usize {
    if position < len {
        position as usize
    } else if len > 0 {
        (len - 1) as usize
    } else {
        0
    }
}

/// Position of the first visible message at or after an entry, or of the last
/// visible one.
pub open spec fn visible_from(list: Seq<usize>, x: usize) -> usize {
    at_most_last(first_at_least(list, x), list.len() as int)
}

/// How far apart two entries are.
pub open spec fn apart(i: usize, j: usize) -> int {
    if i < j {
        j - i
    } else {
        i - j
    }
}

/// Position of the visible message that is closest to an entry, the later one
/// of two equally close.
pub open spec fn nearest_visible(list: Seq<usize>, x: usize) -> usize {
    let at = first_at_least(list, x);
    if 0 < at < list.len() && apart(list[at - 1], x) < apart(list[at], x) {
        (at - 1) as usize
    } else {
        at_most_last(at, list.len() as int)
    }
}

/// Position of the first visible message at or after a time, or the number of
/// visible ones.
pub open spec fn first_from_time(list: Seq<usize>, entries: Seq<EntryView>, target_us: u64) -> int
    decreases list.len(),
{
    if list.len() == 0 || entries[list[0] as int].timestamp_us >= target_us {
        0
    } else {
        1 + first_from_time(list.drop_first(), entries, target_us)
    }
}

/// Whether the visible indices are those of entries.
pub open spec fn in_range(list: Seq<usize>, n: int) -> bool {
    forall|k: int| 0 <= k < list.len() ==> (#[trigger] list[k]) < n
}

/// Position of the first element that is at least `x`.
fn find_at_least(list: &[usize], x: usize) -> (n: usize)
    ensures
        n == first_at_least(list@, x),
        n <= list@.len(),
{
    let mut i: usize = 0;
    assert(list@.skip(0) =~= list@);
    while i < list.len() && list[i] < x
        invariant
            i <= list.len(),
            first_at_least(list@, x) == i + first_at_least(list@.skip(i as int), x),
        decreases list.len() - i,
    {
        assert(list@.skip(i as int).drop_first() =~= list@.skip(i + 1));
        i += 1;
    }
    i
}

/// How far apart two entries are.
fn distance(i: usize, j: usize) -> (d: usize)
    ensures
        d == apart(i, j),
{
    if i < j {
        j - i
    } else {
        i - j
    }
}

/// Whether any filter is enabled.
fn has_enabled(filters: &[FilterExpr]) -> (r: bool)
    ensures
        r == any_enabled(filter::filter_views(filters@)),
{
    let ghost all = filter::filter_views(filters@);
    let mut i: usize = 0;
    while i < filters.len()
        invariant
            i <= filters.len(),
            all == filter::filter_views(filters@),
            forall|k: int| 0 <= k < i ==> !(#[trigger] all[k]).enabled,
        decreases filters.len() - i,
    {
        if filters[i].enabled {
            assert(all[i as int].enabled);
            return true;
        }
        i += 1;
    }
    false
}

/// Whether an enabled filter accepts an entry.
fn is_accepted(filters: &[FilterExpr], e: &entry::LogEntry) -> (r: bool)
    ensures
        r == accepted(filter::filter_views(filters@), e@),
{
    let ghost all = filter::filter_views(filters@);
    let mut i: usize = 0;
    while i < filters.len()
        invariant
            i <= filters.len(),
            all == filter::filter_views(filters@),
            forall|k: int| 0 <= k < i ==> !((#[trigger] all[k]).enabled && all[k].accepts(e@)),
        decreases filters.len() - i,
    {
        assert(all[i as int] == filters@[i as int]@);
        if filters[i].enabled && filters[i].matches(e) {
            return true;
        }
        i += 1;
    }
    false
}

/// The text forms of filters with commas between them.
fn filters_text(filters: &[FilterExpr]) -> (r: String)
    ensures
        r@ == filter::list_text(filter::filter_views(filters@)),
{
    let ghost all = filter::filter_views(filters@).map_values(|f: FilterView| f.text());
    let mut texts: Vec<String> = Vec::new();
    let mut i: usize = 0;
    while i < filters.len()
        invariant
            i <= filters.len(),
            all == filter::filter_views(filters@).map_values(|f: FilterView| f.text()),
            text::views(texts@) =~= all.take(i as int),
        decreases filters.len() - i,
    {
        let ghost before = texts@;
        let t = filters[i].to_text();
        assert(filter::filter_views(filters@)[i as int] == filters@[i as int]@);
        texts.push(t);
        i += 1;
        assert(text::views(texts@) =~= text::views(before).push(t@));
        assert(all.take(i as int) =~= all.take(i - 1).push(all[i - 1]));
    }
    assert(all.take(i as int) =~= all);
    text::joined(&texts, ", ")
}

/// The text forms of columns with commas between them.
fn columns_line(columns: &[CustomColumn]) -> (r: String)
    ensures
        r@ == column::list_text(column::column_views(columns@)),
{
    let ghost all = column::column_views(columns@).map_values(|c: ColumnView| c.text());
    let mut texts: Vec<String> = Vec::new();
    let mut i: usize = 0;
    while i < columns.len()
        invariant
            i <= columns.len(),
            all == column::column_views(columns@).map_values(|c: ColumnView| c.text()),
            text::views(texts@) =~= all.take(i as int),
        decreases columns.len() - i,
    {
        let ghost before = texts@;
        let t = columns[i].to_text();
        assert(column::column_views(columns@)[i as int] == columns@[i as int]@);
        texts.push(t);
        i += 1;
        assert(text::views(texts@) =~= text::views(before).push(t@));
        assert(all.take(i as int) =~= all.take(i - 1).push(all[i - 1]));
    }
    assert(all.take(i as int) =~= all);
    text::joined(&texts, ", ")
}

/// The indices of the entries, among the first `n`, that a column reads from.
pub open spec fn read_from(c: ColumnView, entries: Seq<EntryView>, n: int) -> Seq<usize>
    decreases n,
{
    if n <= 0 {
        seq![]
    } else if entries[n - 1].is_from(c.sysid, c.compid, c.msg_type) {
        read_from(c, entries, n - 1).push((n - 1) as usize)
    } else {
        read_from(c, entries, n - 1)
    }
}

/// A column with the entries it reads from.
pub open spec fn indexed(c: ColumnView, entries: Seq<EntryView>) -> ColumnView {
    ColumnView { matches: read_from(c, entries, entries.len() as int), ..c }
}

/// Columns with the entries they read from.
pub open spec fn all_indexed(columns: Seq<ColumnView>, entries: Seq<EntryView>) -> Seq<ColumnView> {
    columns.map_values(|c: ColumnView| indexed(c, entries))
}

/// The indices of the entries that a column reads from.
fn matches_of(c: &CustomColumn, entries: &[entry::LogEntry]) -> (r: Vec<usize>)
    ensures
        r@ == read_from(c@, entry::entry_views(entries@), entries@.len() as int),
{
    let ghost all = entry::entry_views(entries@);
    let mut r: Vec<usize> = Vec::new();
    let mut i: usize = 0;
    while i < entries.len()
        invariant
            i <= entries.len(),
            all == entry::entry_views(entries@),
            r@ == read_from(c@, all, i as int),
        decreases entries.len() - i,
    {
        assert(all[i as int] == entries@[i as int]@);
        if entries[i].comes_from(c.sysid, c.compid, c.msg_type.as_str()) {
            r.push(i);
        }
        i += 1;
    }
    r
}

/// A number of seconds with three decimals, as a binary64 quotient of
/// microseconds is shown.
pub open spec fn seconds_text(micros: int) -> Seq<char> {
    let t = time::milliseconds(
        (if micros < 0 {
            -micros
        } else {
            micros
        }) as nat,
    );
    (if micros < 0 {
        seq!['-']
    } else {
        seq![]
    }) + numeral::decimal(t / 1000) + seq!['.'] + numeral::pad_start(
        numeral::decimal(t % 1000),
        3,
        '0',
    )
}

impl SessionView {
    /// A short description of how the merged logs were time-aligned.
    pub open spec fn alignment(self) -> Option<Seq<char>> {
        match self.sync {
            None => None,
            Some(s) => match s.method {
                SyncMethod::SystemTime => Some(
                    "Merged: bin aligned via SYSTEM_TIME (offset "@ + seconds_text(
                        i64_specs::wrapping_add(s.bin_offset_us, s.manual_offset_us) as int,
                    ) + "s)"@,
                ),
                SyncMethod::ManualOnly => Some(
                    "Merged: no SYSTEM_TIME found \u{2014} align the logs manually"@,
                ),
            },
        }
    }

    /// The path of the log that a source came from.
    pub open spec fn source_path(self, source: LogSourceId) -> Option<Seq<char>> {
        if self.sync is None {
            None
        } else {
            match source {
                LogSourceId::Primary => Some(self.path),
                LogSourceId::Secondary => self.secondary_path,
            }
        }
    }

    /// An option label for an id choice: 0 is "any", the rest are id options.
    pub open spec fn id_choice(self, choice: int) -> Seq<char> {
        if choice == 0 {
            "any"@
        } else {
            entry::id_text(self.id_options[choice - 1].0, self.id_options[choice - 1].1)
        }
    }

    /// An option label for a type choice: 0 is "any", the rest are type
    /// options.
    pub open spec fn type_choice(self, choice: int) -> Seq<char> {
        if choice == 0 {
            "any"@
        } else {
            self.type_options[choice - 1]
        }
    }

    /// The option labels for all id choices.
    pub open spec fn id_labels(self) -> Seq<Seq<char>> {
        Seq::new(self.id_options.len() + 1, |i: int| self.id_choice(i))
    }

    /// The option labels for all type choices.
    pub open spec fn type_labels(self) -> Seq<Seq<char>> {
        Seq::new(self.type_options.len() + 1, |i: int| self.type_choice(i))
    }
}

/// Append a number of seconds with three decimals.
fn push_seconds(r: &mut String, micros: i64)
    ensures
        final(r)@ == old(r)@ + seconds_text(micros as int),
{
    let ghost start = r@;
    let size: u64 = if micros == i64::MIN {
        0x8000_0000_0000_0000
    } else if micros < 0 {
        (-micros) as u64
    } else {
        micros as u64
    };
    if micros < 0 {
        r.push('-');
    }
    let t = time::to_milliseconds(size);
    numeral::push_decimal(r, t / 1000);
    r.push('.');
    let rest: u128 = t % 1000;
    if rest < 100 {
        r.push('0');
    }
    if rest < 10 {
        r.push('0');
    }
    numeral::push_decimal(r, rest);
    proof {
        reveal_with_fuel(numeral::decimal, 4);
        assert(r@ =~= start + seconds_text(micros as int));
    }
}

impl Session {
    /// Entry index of the selected message, if any are visible.
    pub fn selected_entry_index(&self) -> (r: Option<usize>)
        ensures
            r == self@.selected_entry(),
    {
        if self.selected < self.filtered.len() {
            Some(self.filtered[self.selected])
        } else {
            None
        }
    }

    /// Rebuild the visible index list, keeping the selection as close as
    /// possible to the previously selected message. Only enabled filters
    /// participate; when none are enabled, every message is shown.
    pub fn apply_filter(&mut self)
        ensures
            final(self)@ == (SessionView {
                filtered: shown(
                    old(self)@.filters,
                    old(self)@.entries,
                    old(self)@.entries.len() as int,
                ),
                selected: nearest_visible(
                    shown(
                        old(self)@.filters,
                        old(self)@.entries,
                        old(self)@.entries.len() as int,
                    ),
                    old(self)@.current(),
                ),
                ..old(self)@
            }),
            forall|k: int|
                0 <= k < final(self)@.filtered.len() ==> apart(
                    final(self)@.current(),
                    old(self)@.current(),
                ) <= apart(#[trigger] final(self)@.filtered[k], old(self)@.current()),
    {
        let current: usize = match self.selected_entry_index() {
            Some(i) => i,
            None => 0,
        };
        let all_shown = !has_enabled(&self.filters);
        let ghost all = self@.entries;
        let ghost filters = self@.filters;
        let mut list: Vec<usize> = Vec::new();
        let mut i: usize = 0;
        while i < self.entries.len()
            invariant
                i <= self.entries.len(),
                self@ == old(self)@,
                all == self@.entries,
                filters == self@.filters,
                all_shown == !any_enabled(filters),
                list@ == shown(filters, all, i as int),
            decreases self.entries.len() - i,
        {
            assert(all[i as int] == self.entries@[i as int]@);
            if all_shown || is_accepted(&self.filters, &self.entries[i]) {
                list.push(i);
            }
            i += 1;
        }
        proof {
            law_visible_messages(filters, all, all.len() as int);
            lemma_visible_len(filters, all, all.len() as int);
            if list@.len() > 0 {
                law_filtering_lands_nearest(list@, current);
            }
        }
        let at = find_at_least(&list, current);
        self.selected =
        if 0 < at && at < list.len() && distance(list[at - 1], current) < distance(
            list[at],
            current,
        ) {
            at - 1
        } else if at < list.len() {
            at
        } else if list.len() > 0 {
            list.len() - 1
        } else {
            0
        };
        self.filtered = list;
    }

    /// Select the first visible message at or after the target time, or the
    /// last visible one when there is none.
    pub fn jump_to_time(&mut self, target_us: u64)
        requires
            in_range(old(self)@.filtered, old(self)@.entries.len() as int),
        ensures
            final(self)@ == (SessionView {
                selected: if old(self)@.filtered.len() == 0 {
                    old(self)@.selected
                } else {
                    at_most_last(
                        first_from_time(old(self)@.filtered, old(self)@.entries, target_us),
                        old(self)@.filtered.len() as int,
                    )
                },
                ..old(self)@
            }),
    {
        if self.filtered.len() == 0 {
            return;
        }
        let ghost list = self.filtered@;
        let ghost all = self@.entries;
        let mut i: usize = 0;
        assert(list.skip(0) =~= list);
        while i < self.filtered.len() && self.entries[self.filtered[i]].timestamp_us < target_us
            invariant
                i <= self.filtered.len(),
                self@ == old(self)@,
                list == self.filtered@,
                all == self@.entries,
                in_range(list, all.len() as int),
                first_from_time(list, all, target_us) == i + first_from_time(
                    list.skip(i as int),
                    all,
                    target_us,
                ),
            decreases self.filtered.len() - i,
        {
            assert(list.skip(i as int).drop_first() =~= list.skip(i + 1));
            assert(all[list[i as int] as int] == self.entries@[list[i as int] as int]@);
            i += 1;
        }
        assert(i < list.len() ==> all[list[i as int] as int] == self.entries@[list[i as int] as int]@);
        self.selected =
        if i < self.filtered.len() {
            i
        } else {
            self.filtered.len() - 1
        };
    }

    /// Select the first visible message at or after the given entry index, or the
    /// last visible one when there is none.
    pub fn select_entry(&mut self, entry_index: usize)
        ensures
            final(self)@ == (SessionView {
                selected: visible_from(old(self)@.filtered, entry_index),
                ..old(self)@
            }),
    {
        let at = find_at_least(&self.filtered, entry_index);
        self.selected =
        if at < self.filtered.len() {
            at
        } else if self.filtered.len() > 0 {
            self.filtered.len() - 1
        } else {
            0
        };
    }

    /// Regenerate the editable filter text from the current expressions.
    pub fn rebuild_filter_text(&mut self)
        ensures
            final(self)@ == (SessionView {
                filter_text: filter::list_text(old(self)@.filters),
                ..old(self)@
            }),
    {
        self.filter_text = filters_text(&self.filters);
    }

    /// Install custom columns and index which entries each one reads from.
    pub fn set_columns(&mut self, columns: Vec<CustomColumn>)
        ensures
            final(self)@ == (SessionView {
                columns: all_indexed(column::column_views(columns@), old(self)@.entries),
                columns_text: column::list_text(column::column_views(columns@)),
                ..old(self)@
            }),
    {
        let ghost given = column::column_views(columns@);
        let ghost want = all_indexed(given, self@.entries);
        let line = columns_line(&columns);
        let mut next: Vec<CustomColumn> = Vec::new();
        let mut i: usize = 0;
        while i < columns.len()
            invariant
                i <= columns.len(),
                self@ == old(self)@,
                given == column::column_views(columns@),
                want == all_indexed(given, self@.entries),
                column::column_views(next@) =~= want.take(i as int),
            decreases columns.len() - i,
        {
            let mut c = columns[i].copied();
            assert(given[i as int] == columns@[i as int]@);
            c.matches = matches_of(&columns[i], &self.entries);
            let ghost before = next@;
            assert(c@ =~= want[i as int]);
            next.push(c);
            i += 1;
            assert(column::column_views(next@) =~= column::column_views(before).push(c@));
            assert(want.take(i as int) =~= want.take(i - 1).push(want[i - 1]));
        }
        assert(want.take(i as int) =~= want);
        self.columns_text = line;
        self.columns = next;
    }

    /// Whether this session is a merge of two logs.
    pub fn is_merged(&self) -> (r: bool)
        ensures
            r == self@.sync is Some,
    {
        self.sync.is_some()
    }

    /// A short format tag (`tlog`/`bin`) for a `source`, for the compact list
    /// column. `None` for a single-file session.
    pub fn source_tag(&self, source: LogSourceId) -> (r: Option<&'static str>)
        ensures
            match r {
                Some(t) => self@.sync is Some && t@ == filter::source_text(source),
                None => self@.sync is None,
            },
    {
        if self.is_merged() {
            Some(filter::source_token(source))
        } else {
            None
        }
    }

    /// The file name of the log a `source` came from, for UI labels. `None` for
    /// a single-file session.
    pub fn source_name(&self, source: LogSourceId) -> (r: Option<String>)
        ensures
            match self@.source_path(source) {
                None => r is None,
                Some(p) => r matches Some(n) && path::is_label(p, n@) && (!p.contains('\\') ==> n@
                    == path::label(p, false)),
            },
    {
        if !self.is_merged() {
            return None;
        }
        let full = match source {
            LogSourceId::Primary => &self.path,
            LogSourceId::Secondary => match &self.secondary_path {
                Some(p) => p,
                None => return None,
            },
        };
        Some(path::label_of(full.as_str()))
    }

    /// A short description of how the merged logs were time-aligned, for the
    /// status bar. `None` for single-file sessions.
    pub fn sync_status(&self) -> (r: Option<String>)
        ensures
            value::text_of(r) == self@.alignment(),
    {
        let s = match self.sync {
            Some(s) => s,
            None => return None,
        };
        match s.method {
            SyncMethod::SystemTime => {
                let mut r = "Merged: bin aligned via SYSTEM_TIME (offset ".to_string();
                push_seconds(&mut r, s.bin_offset_us.wrapping_add(s.manual_offset_us));
                r.append("s)");
                Some(r)
            },
            SyncMethod::ManualOnly => Some(
                "Merged: no SYSTEM_TIME found \u{2014} align the logs manually".to_string(),
            ),
        }
    }

    /// Format a timestamp for the list column per the current time mode.
    pub fn format_list_time(&self, timestamp_us: u64) -> (r: String)
        ensures
            r@ == match self@.time_format {
                TimeFormat::DateTime => time::datetime_label(
                    time::utc_text(time::as_signed(timestamp_us), "%Y-%m-%d %H:%M:%S%.3f"@),
                    timestamp_us,
                ),
                TimeFormat::OffsetSecs => time::offset_text(
                    time::offset_us(timestamp_us, self@.start_us),
                ),
            },
    {
        match self.time_format {
            TimeFormat::DateTime => time::format_datetime(timestamp_us),
            TimeFormat::OffsetSecs => time::format_offset(timestamp_us, self.start_us),
        }
    }

    /// Dropdown option label: 0 is "any", the rest map into id_options.
    pub fn id_option_text(&self, choice: usize) -> (r: String)
        requires
            choice <= self@.id_options.len(),
        ensures
            r@ == self@.id_choice(choice as int),
    {
        if choice == 0 {
            "any".to_string()
        } else {
            let pair = self.id_options[choice - 1];
            entry::id_string(pair.0, pair.1)
        }
    }

    /// Dropdown option label: 0 is "any", the rest map into type_options.
    pub fn type_option_text(&self, choice: usize) -> (r: String)
        requires
            choice <= self@.type_options.len(),
        ensures
            r@ == self@.type_choice(choice as int),
    {
        if choice == 0 {
            "any".to_string()
        } else {
            assert(self@.type_options[choice - 1] == self.type_options@[choice - 1]@);
            self.type_options[choice - 1].clone()
        }
    }

    /// Dropdown option labels for the id choices.
    pub fn id_labels(&self) -> (r: Vec<String>)
        ensures
            text::views(r@) == self@.id_labels(),
    {
        let ghost want = self@.id_labels();
        let mut r: Vec<String> = Vec::new();
        r.push("any".to_string());
        let mut i: usize = 0;
        assert(text::views(r@) =~= want.take(1));
        while i < self.id_options.len()
            invariant
                i <= self.id_options.len(),
                want == self@.id_labels(),
                text::views(r@) =~= want.take(i + 1),
            decreases self.id_options.len() - i,
        {
            let ghost before = r@;
            i += 1;
            let t = self.id_option_text(i);
            r.push(t);
            assert(text::views(r@) =~= text::views(before).push(t@));
        }
        assert(want.take(i + 1) =~= want);
        r
    }

    /// Dropdown option labels for the type choices.
    pub fn type_labels(&self) -> (r: Vec<String>)
        ensures
            text::views(r@) == self@.type_labels(),
    {
        let ghost want = self@.type_labels();
        let mut r: Vec<String> = Vec::new();
        r.push("any".to_string());
        let mut i: usize = 0;
        assert(text::views(r@) =~= want.take(1));
        while i < self.type_options.len()
            invariant
                i <= self.type_options.len(),
                want == self@.type_labels(),
                text::views(r@) =~= want.take(i + 1),
            decreases self.type_options.len() - i,
        {
            let ghost before = r@;
            i += 1;
            let t = self.type_option_text(i);
            r.push(t);
            assert(text::views(r@) =~= text::views(before).push(t@));
        }
        assert(want.take(i + 1) =~= want);
        r
    }

    /// Dropdown option labels for a filter-editor field (0 = id, else type).
    pub fn filter_dropdown_labels(&self, field_row: usize) -> (r: Vec<String>)
        ensures
            text::views(r@) == if field_row == 0 {
                self@.id_labels()
            } else {
                self@.type_labels()
            },
    {
        if field_row == 0 {
            self.id_labels()
        } else {
            self.type_labels()
        }
    }
}

/// Whether indices ascend.
pub open spec fn ascending(list: Seq<usize>) -> bool {
    forall|a: int, b: int| 0 <= a < b < list.len() ==> (#[trigger] list[a]) < (#[trigger] list[b])
}

/// The visible indices ascend, and a message is visible exactly when the filters
/// show it.
pub proof fn law_visible_messages(filters: Seq<FilterView>, entries: Seq<EntryView>, n: int)
    requires
        0 <= n <= entries.len() <= usize::MAX,
    ensures
        ascending(shown(filters, entries, n)),
        in_range(shown(filters, entries, n), n),
        forall|i: usize| #[trigger]
            shown(filters, entries, n).contains(i) <==> i < n && shows(filters, entries[i as int]),
    decreases n,
{
    let list = shown(filters, entries, n);
    if n > 0 {
        law_visible_messages(filters, entries, n - 1);
        let front = shown(filters, entries, n - 1);
        let last = (n - 1) as usize;
        assert forall|i: usize| #[trigger] list.contains(i) <==> i < n && shows(
            filters,
            entries[i as int],
        ) by {
            if front.contains(i) {
                let k = choose|k: int| 0 <= k < front.len() && front[k] == i;
                assert(list[k] == i);
            }
            if list.contains(i) && i != last {
                let k = choose|k: int| 0 <= k < list.len() && list[k] == i;
                assert(front[k] == i);
            }
            if shows(filters, entries[n - 1]) {
                assert(list[list.len() - 1] == last);
            } else {
                assert(list == front);
            }
        }
    }
}

/// What `first_at_least` finds in an ascending list.
proof fn lemma_first_at_least(list: Seq<usize>, x: usize)
    ensures
        0 <= first_at_least(list, x) <= list.len(),
        forall|k: int| 0 <= k < first_at_least(list, x) ==> (#[trigger] list[k]) < x,
        first_at_least(list, x) < list.len() ==> list[first_at_least(list, x)] >= x,
    decreases list.len(),
{
    if list.len() > 0 && list[0] < x {
        let rest = list.drop_first();
        lemma_first_at_least(rest, x);
        assert forall|k: int| 0 <= k < first_at_least(list, x) implies (#[trigger] list[k]) < x by {
            if k > 0 {
                assert(list[k] == rest[k - 1]);
            }
        }
    }
}

/// Selecting an entry lands on it when it is visible, on the first visible one
/// behind it when it is not, and on the last visible one when there is none
/// behind it.
pub proof fn law_selection_lands_at_or_after(list: Seq<usize>, x: usize)
    requires
        ascending(list),
        0 < list.len() <= usize::MAX,
    ensures
        visible_from(list, x) < list.len(),
        list.contains(x) ==> list[visible_from(list, x) as int] == x,
        list.last() >= x ==> list[visible_from(list, x) as int] >= x,
        list.last() < x ==> visible_from(list, x) == list.len() - 1,
        forall|k: int| 0 <= k < visible_from(list, x) ==> (#[trigger] list[k]) < x,
{
    lemma_first_at_least(list, x);
    let n = first_at_least(list, x);
    if list.contains(x) {
        let k = choose|k: int| 0 <= k < list.len() && list[k] == x;
        assert(n <= k);
        if n < k {
            assert(list[n] < list[k]);
        }
    }
    if n == list.len() {
        assert(list[list.len() - 1] < x);
    }
}

/// The selection lands on the visible message that is as close as possible to
/// the entry, and on the entry itself when it is visible.
pub proof fn law_filtering_lands_nearest(list: Seq<usize>, x: usize)
    requires
        ascending(list),
        0 < list.len() <= usize::MAX,
    ensures
        nearest_visible(list, x) < list.len(),
        list.contains(x) ==> list[nearest_visible(list, x) as int] == x,
        forall|k: int|
            0 <= k < list.len() ==> apart(list[nearest_visible(list, x) as int], x) <= apart(
                #[trigger] list[k],
                x,
            ),
{
    law_selection_lands_at_or_after(list, x);
    lemma_first_at_least(list, x);
    let n = first_at_least(list, x);
    assert forall|k: int| 0 <= k < list.len() implies apart(
        list[nearest_visible(list, x) as int],
        x,
    ) <= apart(#[trigger] list[k], x) by {
        if k < n - 1 {
            assert(list[k] < list[n - 1]);
        }
        if n < k {
            assert(list[n] < list[k]);
        }
    }
    if list.contains(x) {
        let k = choose|k: int| 0 <= k < list.len() && list[k] == x;
        assert(apart(list[nearest_visible(list, x) as int], x) <= apart(list[k], x));
    }
}

/// Filtering keeps the selected message selected as long as it is visible, and
/// filtering again changes nothing.
pub proof fn law_filtering_keeps_selection(s: SessionView)
    requires
        s.entries.len() <= usize::MAX,
    ensures
        ({
            let list = shown(s.filters, s.entries, s.entries.len() as int);
            let once = SessionView {
                filtered: list,
                selected: nearest_visible(list, s.current()),
                ..s
            };
            &&& list.contains(s.current()) ==> once.current() == s.current()
            &&& nearest_visible(list, once.current()) == once.selected
        }),
{
    let list = shown(s.filters, s.entries, s.entries.len() as int);
    law_visible_messages(s.filters, s.entries, s.entries.len() as int);
    let at = nearest_visible(list, s.current());
    let once = SessionView { filtered: list, selected: at, ..s };
    lemma_visible_len(s.filters, s.entries, s.entries.len() as int);
    if list.len() > 0 {
        law_filtering_lands_nearest(list, s.current());
        assert(once.current() == list[at as int]);
        law_filtering_lands_nearest(list, list[at as int]);
        let again = nearest_visible(list, list[at as int]);
        assert(list.contains(list[at as int]));
        assert(list[again as int] == list[at as int]);
        if again < at {
            assert(list[again as int] < list[at as int]);
        }
        if at < again {
            assert(list[at as int] < list[again as int]);
        }
    }
}

/// No more messages are visible than there are.
pub proof fn lemma_visible_len(filters: Seq<FilterView>, entries: Seq<EntryView>, n: int)
    requires
        0 <= n,
    ensures
        shown(filters, entries, n).len() <= n,
    decreases n,
{
    if n > 0 {
        lemma_visible_len(filters, entries, n - 1);
    }
}

/// A jump lands on the first visible message at or after the time; when all
/// visible ones are earlier, on the last.
pub proof fn law_jump_lands_at_or_after(
    list: Seq<usize>,
    entries: Seq<EntryView>,
    target_us: u64,
)
    requires
        0 < list.len() <= usize::MAX,
    ensures
        ({
            let at = at_most_last(
                first_from_time(list, entries, target_us),
                list.len() as int,
            ) as int;
            &&& 0 <= at < list.len()
            &&& forall|k: int|
                0 <= k < at ==> entries[(#[trigger] list[k]) as int].timestamp_us < target_us
            &&& entries[list[at] as int].timestamp_us >= target_us || forall|k: int|
                0 <= k < list.len() ==> entries[(#[trigger] list[k]) as int].timestamp_us
                    < target_us
        }),
{
    lemma_first_from_time(list, entries, target_us);
}

/// What `first_from_time` finds.
proof fn lemma_first_from_time(list: Seq<usize>, entries: Seq<EntryView>, target_us: u64)
    ensures
        0 <= first_from_time(list, entries, target_us) <= list.len(),
        forall|k: int|
            0 <= k < first_from_time(list, entries, target_us) ==> entries[(
            #[trigger] list[k]) as int].timestamp_us < target_us,
        first_from_time(list, entries, target_us) < list.len()
            ==> entries[list[first_from_time(list, entries, target_us)] as int].timestamp_us
            >= target_us,
    decreases list.len(),
{
    if list.len() > 0 && entries[list[0] as int].timestamp_us < target_us {
        let rest = list.drop_first();
        lemma_first_from_time(rest, entries, target_us);
        assert forall|k: int|
            0 <= k < first_from_time(list, entries, target_us) implies entries[(
        #[trigger] list[k]) as int].timestamp_us < target_us by {
            if k > 0 {
                assert(list[k] == rest[k - 1]);
            }
        }
    }
}

/// The entries that a column reads from ascend, and are those with its ids and
/// type.
pub proof fn law_column_index(c: ColumnView, entries: Seq<EntryView>, n: int)
    requires
        0 <= n <= entries.len() <= usize::MAX,
    ensures
        ascending(read_from(c, entries, n)),
        in_range(read_from(c, entries, n), n),
        forall|i: usize| #[trigger]
            read_from(c, entries, n).contains(i) <==> i < n && entries[i as int].is_from(
                c.sysid,
                c.compid,
                c.msg_type,
            ),
    decreases n,
{
    let list = read_from(c, entries, n);
    if n > 0 {
        law_column_index(c, entries, n - 1);
        let front = read_from(c, entries, n - 1);
        let last = (n - 1) as usize;
        assert forall|i: usize| #[trigger] list.contains(i) <==> i < n
            && entries[i as int].is_from(c.sysid, c.compid, c.msg_type) by {
            if front.contains(i) {
                let k = choose|k: int| 0 <= k < front.len() && front[k] == i;
                assert(list[k] == i);
            }
            if list.contains(i) && i != last {
                let k = choose|k: int| 0 <= k < list.len() && list[k] == i;
                assert(front[k] == i);
            }
            if entries[n - 1].is_from(c.sysid, c.compid, c.msg_type) {
                assert(list[list.len() - 1] == last);
            } else {
                assert(list == front);
            }
        }
    }
}

/// Which messages are shown: without an enabled filter all of them; else those that
/// some enabled filter accepts. A disabled filter shows and hides nothing.
pub proof fn law_enabled_filters_decide(filters: Seq<FilterView>, e: EntryView, k: int, off: FilterView)
    requires
        !off.enabled,
    ensures
        0 <= k < filters.len() && filters[k].enabled && filters[k].accepts(e) ==> shows(filters, e),
        0 <= k < filters.len() && filters[k].enabled && (forall|j: int|
            0 <= j < filters.len() ==> !((#[trigger] filters[j]).enabled && filters[j].accepts(e)))
            ==> !shows(filters, e),
        (forall|j: int| 0 <= j < filters.len() ==> !(#[trigger] filters[j]).enabled) ==> shows(
            filters,
            e,
        ),
        shows(filters.push(off), e) == shows(filters, e),
{
    let more = filters.push(off);
    if any_enabled(more) {
        let j = choose|j: int| 0 <= j < more.len() && (#[trigger] more[j]).enabled;
        assert(filters[j].enabled);
    }
    if any_enabled(filters) {
        let j = choose|j: int| 0 <= j < filters.len() && (#[trigger] filters[j]).enabled;
        assert(more[j].enabled);
    }
    if accepted(more, e) {
        let j = choose|j: int|
            0 <= j < more.len() && (#[trigger] more[j]).enabled && more[j].accepts(e);
        assert(filters[j].enabled && filters[j].accepts(e));
    }
    if accepted(filters, e) {
        let j = choose|j: int|
            0 <= j < filters.len() && (#[trigger] filters[j]).enabled && filters[j].accepts(e);
        assert(more[j].enabled && more[j].accepts(e));
    }
}

/// The labels of the choices: "any" first, then each option in order.
pub proof fn law_choices(s: SessionView, i: int)
    ensures
        s.id_labels().len() == s.id_options.len() + 1,
        s.type_labels().len() == s.type_options.len() + 1,
        s.id_labels()[0] == seq!['a', 'n', 'y'] && s.type_labels()[0] == seq!['a', 'n', 'y'],
        0 <= i < s.id_options.len() ==> s.id_labels()[i + 1] == numeral::decimal(
            s.id_options[i].0 as nat,
        ) + seq![':'] + numeral::decimal(s.id_options[i].1 as nat),
        0 <= i < s.type_options.len() ==> s.type_labels()[i + 1] == s.type_options[i],
{
    reveal_strlit("any");
    assert("any"@ =~= seq!['a', 'n', 'y']);
}

/// The log that a source stands for, in a merged session only: the first one is the
/// primary.
pub proof fn law_source_path(s: SessionView)
    ensures
        s.sync is None ==> s.source_path(LogSourceId::Primary) is None && s.source_path(
            LogSourceId::Secondary,
        ) is None,
        s.sync is Some ==> s.source_path(LogSourceId::Primary) == Some(s.path) && s.source_path(
            LogSourceId::Secondary,
        ) == s.secondary_path,
{
}

/// A number of seconds is shown by a sign when it is negative, digits, a dot and three
/// digits that stand for the thousandths, rounded by at most one half.
pub proof fn law_seconds_are_shown(micros: int)
    requires
        -0x20_0000_0000_0000 < micros < 0x20_0000_0000_0000,
    ensures
        ({
            let s = seconds_text(micros);
            let size = if micros < 0 {
                -micros
            } else {
                micros
            };
            let first: int = if micros < 0 {
                1
            } else {
                0
            };
            let dot = s.len() - 4;
            let thousandths = 1000 * numeral::number(s.subrange(first, dot)) + numeral::number(
                s.skip(dot + 1),
            );
            &&& first < dot
            &&& micros < 0 ==> s[0] == '-'
            &&& s[dot] == '.'
            &&& numeral::all_digits(s.subrange(first, dot))
            &&& numeral::all_digits(s.skip(dot + 1))
            &&& -500 <= 1000 * thousandths - size <= 500
            &&& size % 1000 == 0 ==> thousandths == size / 1000
        }),
{
    let size = if micros < 0 {
        -micros
    } else {
        micros
    };
    let t = time::milliseconds(size as nat);
    time::law_offset_is_rounded(size as nat);
    let whole = numeral::decimal(t / 1000);
    let part = numeral::pad_start(numeral::decimal(t % 1000), 3, '0');
    numeral::law_decimal_reads_back(t / 1000, 0);
    numeral::lemma_decimal(t / 1000);
    numeral::law_three_digits(t % 1000);
    let s = seconds_text(micros);
    let first: int = if micros < 0 {
        1
    } else {
        0
    };
    let dot = s.len() - 4;
    assert(dot == first + whole.len());
    assert(s.subrange(first, dot) =~= whole);
    assert(s.skip(dot + 1) =~= part);
}

} // verus!
