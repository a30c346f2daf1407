//! Saving and restoring what the user has set up in a session.

use vstd::prelude::*;
use crate::column::ColumnView;
use crate::entry::EntryView;
use crate::filter::FilterView;
use crate::gui::{columns, filters};
use crate::schema::MsgFmtView;
use crate::session::{Session, SessionView, SyncState};
use crate::setup::{SessionFile, Setup, SetupView};
use crate::{align, browse, column, filter, marks, order, plot, session, setup, sound, text};

verus! {

impl SessionView {
    /// The live setup as it would be saved right now.
    pub open spec fn setup(self) -> SetupView {
        SetupView {
            time_format: self.time_format,
            filter: self.filter_text,
            marks: self.marks,
            selected: self.current(),
            columns: self.columns_text,
            plots: self.plots,
        }
    }

    /// Whether there are unsaved changes. The selected message does not count.
    pub open spec fn dirty(self) -> bool {
        (SetupView { selected: self.saved_setup.selected, ..self.setup() }) != self.saved_setup
    }

    /// The session with the filters of a filter line, where it can be read.
    pub open spec fn with_filters(self, line: Seq<char>) -> SessionView {
        match filter::filters_of(line) {
            Ok(filters) => SessionView { filters, filter_text: text::trim(line), ..self },
            Err(_) => self,
        }
    }

    /// The session with the columns of a columns line, where it can be read.
    pub open spec fn with_columns(self, line: Seq<char>) -> SessionView {
        match column::columns_of(line) {
            Ok(columns) => SessionView {
                columns: browse::all_indexed(columns, self.entries),
                columns_text: column::list_text(columns),
                ..self
            },
            Err(_) => self,
        }
    }

    /// The session with its filters applied.
    pub open spec fn filtered_anew(self) -> SessionView {
        let list = browse::shown(self.filters, self.entries, self.entries.len() as int);
        SessionView {
            filtered: list,
            selected: browse::nearest_visible(list, self.current()),
            ..self
        }
    }

    /// The session with a restored setup. Filters and columns that cannot be
    /// read, and marks beyond the last entry, are left out.
    pub open spec fn with_setup(self, u: SetupView) -> SessionView {
        let a = SessionView { time_format: u.time_format, ..self }.with_filters(u.filter);
        let b = SessionView {
            marks: marks::below(u.marks, self.entries.len() as int),
            ..a
        }.with_columns(u.columns);
        let c = SessionView { plots: u.plots, ..b }.filtered_anew();
        let d = SessionView { selected: browse::visible_from(c.filtered, u.selected), ..c };
        SessionView { saved_setup: d.setup(), ..d }
    }

    /// The session after its setup was written, or after writing it failed: in
    /// the first case the live setup counts as saved.
    pub open spec fn after_save(self, written: bool) -> SessionView {
        if written {
            SessionView { saved_setup: self.setup(), ..self }
        } else {
            self
        }
    }

    /// Whether `next` is this session after a session file was restored.
    pub open spec fn restores_to(self, file: SessionFile, next: SessionView) -> bool {
        exists|mid: SessionView| #[trigger]
            self.realigns_to(file.manual_offset_us, mid) && next == mid.with_setup(file.setup@)
    }
}

impl Session {
    /// The live setup as it would be written to the sidecar right now.
    pub fn current_setup(&self) -> (r: Setup)
        ensures
            r@ == self@.setup(),
    {
        let selected: usize = match self.selected_entry_index() {
            Some(i) => i,
            None => 0,
        };
        Setup {
            time_format: self.time_format,
            filter: self.filter_text.clone(),
            marks: marks::ordered(&self.marks),
            selected,
            columns: self.columns_text.clone(),
            plots: plot::copied_plots(&self.plots),
        }
    }

    /// Whether the live setup differs from the last saved/loaded state, i.e.
    /// there are unsaved changes. The selected message is ignored: moving the
    /// cursor is navigation, not an edit worth warning about losing.
    pub fn is_dirty(&self) -> (r: bool)
        ensures
            r == self@.dirty(),
    {
        let current = self.current_setup();
        let r = !current.same_edits(&self.saved_setup);
        proof {
            let a = self@.setup();
            let b = self@.saved_setup;
            if (SetupView { selected: b.selected, ..a }) == b {
                assert(a =~= SetupView { selected: a.selected, ..b });
            }
            if a == (SetupView { selected: a.selected, ..b }) {
                assert((SetupView { selected: b.selected, ..a }) =~= b);
            }
        }
        r
    }

    /// Take the live setup as saved.
    pub fn mark_saved(&mut self)
        ensures
            final(self)@ == (SessionView { saved_setup: old(self)@.setup(), ..old(self)@ }),
    {
        let setup = self.current_setup();
        self.saved_setup = setup;
    }

    /// Take note of what came of writing the live setup to the setup sidecar, and
    /// return the path on success or a human-readable error. Only a setup that was
    /// written counts as saved; nothing else changes.
    pub fn save_setup(&mut self, written: Result<(), String>) -> (r: Result<String, String>)
        ensures
            final(self)@ == old(self)@.after_save(written is Ok),
            final(self)@.dirty() == (old(self)@.dirty() && written is Err),
            match written {
                Ok(_) => r matches Ok(path) && path@ == setup::sidecar(old(self)@.path),
                Err(err) => r matches Err(e) && e@ == "Failed to save "@ + setup::sidecar(
                    old(self)@.path,
                ) + ": "@ + err@,
            },
    {
        proof {
            law_saving_setup(self@, written is Ok);
        }
        let path = setup::setup_path(self.path.as_str());
        match written {
            Ok(_) => {
                self.mark_saved();
                Ok(path)
            },
            Err(err) => Err(complain("Failed to save ", path.as_str(), err.as_str())),
        }
    }

    /// Restore the setup that was read from the setup sidecar, or report why it
    /// could not be read. Returns a status message, or `None` if there is no
    /// sidecar.
    pub fn load_setup(&mut self, read: Option<Result<Setup, String>>) -> (r: Option<String>)
        ensures
            final(self)@ == match read {
                Some(Ok(setup)) => old(self)@.with_setup(setup@),
                _ => old(self)@,
            },
            match read {
                None => r is None,
                Some(Ok(_)) => r matches Some(t) && t@ == "Loaded setup from "@ + setup::sidecar(
                    old(self)@.path,
                ),
                Some(Err(err)) => r matches Some(t) && t@ == "Failed to load "@ + setup::sidecar(
                    old(self)@.path,
                ) + ": "@ + err@,
            },
    {
        let path = setup::setup_path(self.path.as_str());
        match read {
            None => None,
            Some(Ok(setup)) => {
                self.apply_setup(setup);
                let mut t = "Loaded setup from ".to_string();
                t.append(path.as_str());
                Some(t)
            },
            Some(Err(err)) => Some(complain("Failed to load ", path.as_str(), err.as_str())),
        }
    }

    /// Restore a previously saved setup. The restored state is the new baseline
    /// for unsaved changes, in its normalized form (trimmed filter, re-parsed
    /// columns).
    pub fn apply_setup(&mut self, setup: Setup)
        ensures
            final(self)@ == old(self)@.with_setup(setup@),
    {
        let ghost u = setup@;
        self.time_format = setup.time_format;
        if let Ok(filters) = filter::parse_filters(setup.filter.as_str()) {
            self.filters = filters;
            let chars = text::chars_of(setup.filter.as_str());
            self.filter_text = text::string_of(text::trimmed(&chars));
        }
        self.marks = marks::restored(&setup.marks, self.entries.len());
        let ghost a = self@;
        if let Ok(columns) = column::parse_columns(setup.columns.as_str()) {
            self.set_columns(columns);
        }
        assert(self@ == a.with_columns(u.columns));
        self.plots = setup.plots;
        self.apply_filter();
        self.select_entry(setup.selected);
        self.mark_saved();
    }

    /// Restore what a session file holds: the manual offset first, so that the
    /// entry order, and with it the saved marks, matches, then the settings.
    pub fn restore(&mut self, file: SessionFile)
        requires
            old(self)@.traced(),
        ensures
            old(self)@.restores_to(file, final(self)@),
            old(self)@.sound() ==> final(self)@.sound(),
    {
        let ghost before = self@;
        self.set_manual_offset(file.manual_offset_us);
        let ghost mid = self@;
        proof {
            if before.sound() {
                sound::law_realigned_is_sound(before, file.manual_offset_us, mid);
                sound::law_setup_keeps_sound(mid, file.setup@);
            }
        }
        self.apply_setup(file.setup);
        assert(before.realigns_to(file.manual_offset_us, mid));
    }

    /// What a session file holds for this session: both logs, the manual time
    /// offset and the live setup. `None` for a single-file session.
    pub fn session_file(&self) -> (r: Option<SessionFile>)
        ensures
            match r {
                Some(f) => {
                    &&& self@.sync matches Some(s) && f.manual_offset_us == s.manual_offset_us
                    &&& f.primary_path@ == self@.path
                    &&& Some(f.secondary_path@) == self@.secondary_path
                    &&& f.setup@ == self@.setup()
                },
                None => self@.sync is None || self@.secondary_path is None,
            },
    {
        match (self.sync, &self.secondary_path) {
            (Some(s), Some(p)) => Some(
                SessionFile {
                    primary_path: self.path.clone(),
                    secondary_path: p.clone(),
                    manual_offset_us: s.manual_offset_us,
                    setup: self.current_setup(),
                },
            ),
            _ => None,
        }
    }
}

/// What went wrong with a file.
fn complain(what: &str, path: &str, err: &str) -> (r: String)
    ensures
        r@ == what@ + path@ + ": "@ + err@,
{
    let mut r = what.to_string();
    r.append(path);
    r.append(": ");
    r.append(err);
    r
}

/// Once its setup is written a session has no unsaved changes, and what was
/// written is its live setup; a write that failed leaves it with the changes it
/// had. Either way what is set up stays as it is.
pub proof fn law_saving_setup(s: SessionView, written: bool)
    ensures
        s.after_save(written).dirty() == (s.dirty() && !written),
        written ==> s.after_save(written).saved_setup == s.setup(),
        !written ==> s.after_save(written).saved_setup == s.saved_setup,
        s.after_save(written).setup() == s.setup(),
        ({
            let t = s.after_save(written);
            &&& t.filters == s.filters && t.filter_text == s.filter_text
            &&& t.filtered == s.filtered && t.selected == s.selected
            &&& t.columns == s.columns && t.columns_text == s.columns_text
            &&& t.marks == s.marks
            &&& t.plots == s.plots
            &&& t.time_format == s.time_format
            &&& t.entries == s.entries && t.data == s.data && t.path == s.path
        }),
{
    law_saved_is_clean(s, s.setup(), s.selected);
}

/// A session is clean right after its setup was saved or restored, and moving
/// the selection keeps it so.
pub proof fn law_saved_is_clean(s: SessionView, u: SetupView, selected: usize)
    ensures
        !(SessionView { saved_setup: s.setup(), ..s }).dirty(),
        !s.with_setup(u).dirty(),
        !(SessionView { selected, ..s.with_setup(u) }).dirty(),
        (SessionView { selected, ..s }).dirty() == s.dirty(),
{
    let saved = SessionView { saved_setup: s.setup(), ..s };
    assert((SetupView { selected: saved.saved_setup.selected, ..saved.setup() })
        =~= saved.saved_setup);
    let d = s.with_setup(u);
    assert((SetupView { selected: d.saved_setup.selected, ..d.setup() }) =~= d.saved_setup);
    let m = SessionView { selected, ..d };
    assert((SetupView { selected: m.saved_setup.selected, ..m.setup() }) =~= m.saved_setup);
}

/// A list text of readable filters has no whitespace at its ends.
proof fn lemma_filter_line_trimmed(filters: Seq<FilterView>)
    requires
        filter::all_readable(filters),
    ensures
        text::trim(filter::list_text(filters)) == filter::list_text(filters),
        filters.len() > 0 ==> filter::list_text(filters).len() > 0 && !text::is_white(
            filter::list_text(filters)[0],
        ) && !text::is_white(filter::list_text(filters).last()),
    decreases filters.len(),
{
    let line = filter::list_text(filters);
    let texts = filters.map_values(|f: FilterView| f.text());
    reveal_strlit(", ");
    if filters.len() == 0 {
        assert(line =~= seq![]);
    } else {
        let f = filters.last();
        filter::lemma_text_edges(f);
        if filters.len() > 1 {
            let front = filters.drop_last();
            lemma_filter_line_trimmed(front);
            assert(texts.drop_last() =~= front.map_values(|f: FilterView| f.text()));
            assert(line =~= filter::list_text(front) + ", "@ + f.text());
        } else {
            assert(line == f.text());
        }
        text::lemma_trimmed(line);
    }
}

/// The expressions as they are read back from their text forms.
pub open spec fn normals(filters: Seq<FilterView>) -> Seq<FilterView> {
    filters.map_values(|f: FilterView| f.normal())
}

impl SessionView {
    /// Whether the lines that are saved for filters and columns stand for them:
    /// the filter line reads as the filters, and the columns line is the text
    /// form of columns that can be read back.
    pub open spec fn savable(self) -> bool {
        &&& filter::all_readable(self.filters)
        &&& filter::filters_of(self.filter_text) matches Ok(list) && (list == self.filters || list
            == normals(self.filters))
        &&& text::trim(self.filter_text) == self.filter_text
        &&& column::all_readable(self.columns)
        &&& self.columns_text == column::list_text(self.columns)
    }
}

/// What a filter line reads as shows the same messages as the filters.
proof fn lemma_line_shows(s: SessionView)
    requires
        s.savable(),
    ensures
        filter::filters_of(s.filter_text) matches Ok(list) && normals(list) == normals(s.filters)
            && browse::shown(list, s.entries, s.entries.len() as int) == browse::shown(
            s.filters,
            s.entries,
            s.entries.len() as int,
        ),
{
    lemma_normal_shows(s.filters, s.entries, s.entries.len() as int);
    assert(normals(normals(s.filters)) =~= normals(s.filters)) by {
        assert forall|i: int| 0 <= i < s.filters.len() implies s.filters[i].normal().normal()
            == #[trigger] s.filters[i].normal() by {
            filter::law_normal_form_is_equivalent(s.filters[i], s.entries[0]);
        }
    }
}

/// Restoring a saved setup in a session with the same messages brings back what
/// was set up: time format, filters, marks, columns, plots, the visible
/// messages and, if any is visible, the selected one. Nothing is unsaved then.
pub proof fn law_setup_round_trip(s: SessionView, fresh: SessionView)
    requires
        fresh.entries == s.entries,
        s.entries.len() <= usize::MAX,
        s.savable(),
    ensures
        ({
            let r = fresh.with_setup(s.setup());
            let list = browse::shown(s.filters, s.entries, s.entries.len() as int);
            &&& r.time_format == s.time_format
            &&& normals(r.filters) == normals(s.filters)
            &&& r.filter_text == s.filter_text
            &&& r.marks == marks::below(s.marks, s.entries.len() as int)
            &&& r.columns == browse::all_indexed(
                s.columns.map_values(|c: ColumnView| c.definition()),
                s.entries,
            )
            &&& r.columns_text == s.columns_text
            &&& r.plots == s.plots
            &&& r.filtered == list
            &&& s.filtered == list && s.selected < list.len() ==> r.selected == s.selected
            &&& !r.dirty()
        }),
{
    let u = s.setup();
    let r = fresh.with_setup(u);
    lemma_line_shows(s);
    column::law_list_reads_back(s.columns);
    let defs = s.columns.map_values(|c: ColumnView| c.definition());
    assert(column::list_text(defs) == column::list_text(s.columns)) by {
        assert(defs.map_values(|c: ColumnView| c.text()) =~= s.columns.map_values(
            |c: ColumnView| c.text(),
        ));
    }
    law_saved_is_clean(fresh, u, r.selected);
    let list = browse::shown(s.filters, s.entries, s.entries.len() as int);
    if s.filtered == list && s.selected < list.len() {
        browse::law_visible_messages(s.filters, s.entries, s.entries.len() as int);
        let at = list[s.selected as int];
        assert(list.contains(at));
        browse::lemma_visible_len(s.filters, s.entries, s.entries.len() as int);
        browse::law_selection_lands_at_or_after(list, at);
        let got = browse::visible_from(list, at);
        if got < s.selected {
            assert(list[got as int] < list[s.selected as int]);
        }
        if s.selected < got {
            assert(list[s.selected as int] < list[got as int]);
        }
    }
}

/// A freshly opened log can be saved, and changing filters or columns to readable
/// ones, restoring a setup, marking and selecting keep it so.
pub proof fn law_sessions_stay_savable(
    s: SessionView,
    f: Seq<FilterView>,
    c: Seq<ColumnView>,
    marks: Map<usize, Seq<char>>,
    selected: usize,
    u: SetupView,
)
    ensures
        s.filters.len() == 0 && s.filter_text.len() == 0 && s.columns.len() == 0
            && s.columns_text.len() == 0 ==> s.savable(),
        s.savable() ==> {
            &&& filter::all_readable(f) ==> filters::refiltered(s, f).savable()
            &&& column::all_readable(c) ==> columns::recolumned(s, c).savable()
            &&& (SessionView { marks, selected, ..s }).savable()
            &&& s.with_setup(u).savable()
        },
{
    if s.filters.len() == 0 && s.filter_text.len() == 0 && s.columns.len() == 0
        && s.columns_text.len() == 0 {
        filter::law_list_reads_back(s.filters);
        assert(filter::list_text(s.filters) =~= s.filter_text);
        assert(normals(s.filters) =~= s.filters);
        assert(column::list_text(s.columns) =~= s.columns_text);
    }
    if s.savable() {
        if filter::all_readable(f) {
            filter::law_list_reads_back(f);
            lemma_filter_line_trimmed(f);
        }
        if column::all_readable(c) {
            lemma_recolumned(s, c);
        }
        filter::law_line_is_readable(u.filter);
        filter::law_trimmed_line_reads_the_same(u.filter);
        text::lemma_trim_twice(u.filter);
        column::law_line_is_readable(u.columns);
        if let Ok(list) = column::columns_of(u.columns) {
            lemma_recolumned(s, list);
        }
    }
}

/// Moving the bin of a merged session by hand keeps it savable.
pub proof fn law_realigned_stays_savable(s: SessionView, offset_us: i64, next: SessionView)
    requires
        s.savable(),
        s.realigns_to(offset_us, next),
    ensures
        next.savable(),
{
    if s.sync is Some {
        let p = choose|p: Seq<usize>| #[trigger]
            order::is_order(session::times(s.on_axis(offset_us)), p) && next == s.realigned(
                offset_us,
                p,
            );
        lemma_recolumned(next, s.columns);
    }
}

/// Indexing columns changes neither their text forms nor whether those can be
/// read back.
proof fn lemma_recolumned(s: SessionView, c: Seq<ColumnView>)
    requires
        column::all_readable(c),
    ensures
        column::all_readable(browse::all_indexed(c, s.entries)),
        column::list_text(browse::all_indexed(c, s.entries)) == column::list_text(c),
{
    let now = browse::all_indexed(c, s.entries);
    assert forall|i: int| 0 <= i < now.len() implies (#[trigger] now[i]).readable() by {
        assert(c[i].readable());
    }
    assert(now.map_values(|c: ColumnView| c.text()) =~= c.map_values(|c: ColumnView| c.text()));
}

/// Restoring a session file on the same logs, opened anew, brings back the
/// entries of the session in their order, the offsets, and what was set up.
pub proof fn law_session_file_round_trip(
    s: SessionView,
    fresh: SessionView,
    file: SessionFile,
    r: SessionView,
)
    requires
        s.sync is Some,
        s.aligned(),
        s.savable(),
        fresh.traced(),
        fresh.logged() == s.logged(),
        fresh.sync matches Some(f) && f == (SyncState {
            manual_offset_us: f.manual_offset_us,
            ..s.sync->Some_0
        }),
        file.manual_offset_us == s.sync->Some_0.manual_offset_us,
        file.setup@ == s.setup(),
        fresh.restores_to(file, r),
    ensures
        r.entries == s.entries,
        r.sync == s.sync,
        r.time_format == s.time_format,
        normals(r.filters) == normals(s.filters),
        r.filter_text == s.filter_text,
        r.marks == marks::below(s.marks, s.entries.len() as int),
        r.columns == browse::all_indexed(
            s.columns.map_values(|c: ColumnView| c.definition()),
            s.entries,
        ),
        r.columns_text == s.columns_text,
        r.plots == s.plots,
        r.filtered == browse::shown(s.filters, s.entries, s.entries.len() as int),
        s.filtered == r.filtered && s.selected < s.filtered.len() ==> r.selected == s.selected,
        !r.dirty(),
{
    let mid = choose|mid: SessionView| #[trigger]
        fresh.realigns_to(file.manual_offset_us, mid) && r == mid.with_setup(file.setup@);
    align::law_saved_offset_restores_order(s, fresh, mid);
    law_setup_round_trip(s, mid);
}

/// A freshly opened log and freshly merged logs have no unsaved changes, and
/// moving the selection keeps it so.
pub proof fn law_fresh_is_clean(
    paths: (Seq<char>, Seq<char>),
    tlog: (Seq<u8>, Seq<EntryView>),
    bin: (Seq<u8>, Seq<EntryView>),
    schema: Option<Map<u8, MsgFmtView>>,
    sync: SyncState,
    places: Seq<usize>,
    options: (Seq<(u8, u8)>, Seq<Seq<char>>),
    selected: usize,
)
    ensures
        ({
            let s = session::opened(paths.0, tlog.0, tlog.1, schema, options.0, options.1);
            !s.dirty() && !(SessionView { selected, ..s }).dirty()
        }),
        schema matches Some(layouts) ==> {
            let s = session::merged(paths, tlog, bin, layouts, sync, places, options);
            !s.dirty() && !(SessionView { selected, ..s }).dirty()
        },
{
    let s = session::opened(paths.0, tlog.0, tlog.1, schema, options.0, options.1);
    assert((SetupView { selected: s.saved_setup.selected, ..s.setup() }) =~= s.saved_setup);
    law_saved_is_clean(s, s.setup(), selected);
    if let Some(layouts) = schema {
        let m = session::merged(paths, tlog, bin, layouts, sync, places, options);
        assert((SetupView { selected: m.saved_setup.selected, ..m.setup() }) =~= m.saved_setup);
        law_saved_is_clean(m, m.setup(), selected);
    }
}

/// Reading filters back from their text form does not change what is shown.
proof fn lemma_normal_shows(filters: Seq<FilterView>, entries: Seq<EntryView>, n: int)
    requires
        0 <= n <= entries.len(),
    ensures
        browse::shown(filters.map_values(|f: FilterView| f.normal()), entries, n) == browse::shown(
            filters,
            entries,
            n,
        ),
    decreases n,
{
    let normals = filters.map_values(|f: FilterView| f.normal());
    if n > 0 {
        lemma_normal_shows(filters, entries, n - 1);
        let e = entries[n - 1];
        assert forall|k: int| 0 <= k < filters.len() implies (#[trigger] normals[k]).enabled
            == filters[k].enabled && normals[k].accepts(e) == filters[k].accepts(e) by {
            filter::law_normal_form_is_equivalent(filters[k], e);
        }
        if browse::any_enabled(filters) {
            let k = choose|k: int| 0 <= k < filters.len() && (#[trigger] filters[k]).enabled;
            assert(normals[k].enabled);
        }
        if browse::any_enabled(normals) {
            let k = choose|k: int| 0 <= k < normals.len() && (#[trigger] normals[k]).enabled;
            assert(filters[k].enabled);
        }
        if browse::accepted(filters, e) {
            let k = choose|k: int|
                0 <= k < filters.len() && (#[trigger] filters[k]).enabled && filters[k].accepts(e);
            assert(normals[k].enabled && normals[k].accepts(e));
        }
        if browse::accepted(normals, e) {
            let k = choose|k: int|
                0 <= k < normals.len() && (#[trigger] normals[k]).enabled && normals[k].accepts(e);
            assert(filters[k].enabled && filters[k].accepts(e));
        }
    }
}

/// There are unsaved changes where the time format, the filter line, the marks, the
/// columns line or the plots are not those that were saved, and only there.
pub proof fn law_unsaved_changes(s: SessionView)
    ensures
        s.dirty() <==> {
            ||| s.time_format != s.saved_setup.time_format
            ||| s.filter_text != s.saved_setup.filter
            ||| s.marks != s.saved_setup.marks
            ||| s.columns_text != s.saved_setup.columns
            ||| s.plots != s.saved_setup.plots
        },
{
    let live = SetupView { selected: s.saved_setup.selected, ..s.setup() };
    if !s.dirty() {
        assert(live == s.saved_setup);
    }
    if s.time_format == s.saved_setup.time_format && s.filter_text == s.saved_setup.filter
        && s.marks == s.saved_setup.marks && s.columns_text == s.saved_setup.columns && s.plots
        == s.saved_setup.plots {
        assert(live =~= s.saved_setup);
    }
}

/// What is saved of a session: how times are shown, the filter line, the marks, the
/// entry that is selected, the columns line and the plots.
pub proof fn law_what_is_saved(s: SessionView)
    ensures
        s.setup().time_format == s.time_format,
        s.setup().filter == s.filter_text,
        s.setup().marks == s.marks,
        s.setup().columns == s.columns_text,
        s.setup().plots == s.plots,
        s.selected < s.filtered.len() ==> s.setup().selected == s.filtered[s.selected as int],
        s.selected >= s.filtered.len() ==> s.setup().selected == 0,
{
}

/// What restoring a setup does: the time format, the plots and the marks of entries
/// that exist are taken over; so are the filters and the columns where their lines can
/// be read, else they stay. What is visible is what the filters show, and the selected
/// message is the first visible one at or behind the saved one, or the last.
pub proof fn law_restored_setup(s: SessionView, u: SetupView, i: usize)
    ensures
        ({
            let r = s.with_setup(u);
            &&& r.time_format == u.time_format
            &&& r.plots == u.plots
            &&& r.marks.contains_key(i) <==> u.marks.contains_key(i) && i < s.entries.len()
            &&& u.marks.contains_key(i) && i < s.entries.len() ==> r.marks[i] == u.marks[i]
            &&& r.entries == s.entries && r.data == s.data && r.path == s.path
            &&& r.start_us == s.start_us && r.schema == s.schema && r.sync == s.sync
            &&& filter::filters_of(u.filter) matches Ok(list) ==> r.filters == list && r.filter_text
                == text::trim(u.filter)
            &&& filter::filters_of(u.filter) is Err ==> r.filters == s.filters && r.filter_text
                == s.filter_text
            &&& column::columns_of(u.columns) matches Ok(list) ==> r.columns == browse::all_indexed(
                list,
                s.entries,
            ) && r.columns_text == column::list_text(list)
            &&& column::columns_of(u.columns) is Err ==> r.columns == s.columns && r.columns_text
                == s.columns_text
            &&& r.filtered == browse::shown(r.filters, s.entries, s.entries.len() as int)
            &&& r.selected == browse::visible_from(r.filtered, u.selected)
        }),
{
}

} // verus!
