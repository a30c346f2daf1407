//! The Plots side block, the add/edit plot dialog and the open plot windows:
//! which plots are shown, the points extracted for each, and what a dialog saves
//! into the session.

use std::collections::{HashMap, HashSet};

use vstd::prelude::*;
use crate::gui::{choices, columns};
use crate::plot::{DataView, PlotDef, PlotView, SeriesData, SeriesDef, SeriesView};
use crate::session::{Session, SessionView};
use crate::{entry, marks, numeral, plot, text, value};

verus! {

broadcast use vstd::std_specs::hash::group_hash_axioms;

/// One series row in the plot editor.
pub struct SeriesEditor {
    /// 0 = any, otherwise 1 + index into `Session::id_options`.
    pub id_choice: usize,
    /// Index into `Session::type_options` (a type is required, like columns).
    pub type_choice: usize,
    pub field: String,
    /// Optional user legend name (blank = fall back to the `type.field` label).
    pub name: String,
    /// Optional measurement unit; series sharing a unit share a Y axis.
    pub unit: String,
    pub id_query: String,
    pub type_query: String,
    pub field_query: String,
}

/// What a series row holds.
#[verifier::ext_equal]
pub struct SeriesEditorView {
    pub id_choice: usize,
    pub type_choice: usize,
    pub field: Seq<char>,
    pub name: Seq<char>,
    pub unit: Seq<char>,
    pub id_query: Seq<char>,
    pub type_query: Seq<char>,
    pub field_query: Seq<char>,
}

impl View for SeriesEditor {
    type V = SeriesEditorView;

    open spec fn view(&self) -> SeriesEditorView {
        SeriesEditorView {
            id_choice: self.id_choice,
            type_choice: self.type_choice,
            field: self.field@,
            name: self.name@,
            unit: self.unit@,
            id_query: self.id_query@,
            type_query: self.type_query@,
            field_query: self.field_query@,
        }
    }
}

/// What the series rows of a list hold.
pub open spec fn row_views(rows: Seq<SeriesEditor>) -> Seq<SeriesEditorView> {
    rows.map_values(|r: SeriesEditor| r@)
}

/// The open add/edit dialog.
pub struct PlotEditor {
    /// Index into `Session::plots` being edited, or None when adding new.
    pub index: Option<usize>,
    pub name: String,
    pub series: Vec<SeriesEditor>,
    pub show_marks: bool,
}

/// What a plot editor holds.
#[verifier::ext_equal]
pub struct PlotEditorView {
    pub index: Option<usize>,
    pub name: Seq<char>,
    pub series: Seq<SeriesEditorView>,
    pub show_marks: bool,
}

impl View for PlotEditor {
    type V = PlotEditorView;

    open spec fn view(&self) -> PlotEditorView {
        PlotEditorView {
            index: self.index,
            name: self.name@,
            series: row_views(self.series@),
            show_marks: self.show_marks,
        }
    }
}

/// State for the Plots side block, the add/edit dialog and the open plot
/// windows.
pub struct PlotsState {
    pub editor: Option<PlotEditor>,
    /// Focus the editor dialog's first field on the next frame, so keyboard
    /// (Tab/Enter) navigation starts inside a freshly opened dialog and stays
    /// contained when Tab would otherwise let it escape.
    pub editor_focus: bool,
    pub error: Option<String>,
    /// Indices into `Session::plots` currently shown as their own windows.
    pub open: HashSet<usize>,
    /// Extracted (and decimated) points per plot's series, keyed by index into
    /// `Session::plots`. The log data never change once loaded, so this is
    /// computed once per show/edit rather than every frame.
    pub cache: HashMap<usize, Vec<SeriesData>>,
}

/// What the state of the Plots UI holds.
#[verifier::ext_equal]
pub struct PlotsView {
    pub editor: Option<PlotEditorView>,
    pub editor_focus: bool,
    pub error: Option<Seq<char>>,
    pub open: Set<usize>,
    pub cache: Map<usize, Seq<DataView>>,
}

/// What an optional editor holds.
pub open spec fn editor_view(e: Option<PlotEditor>) -> Option<PlotEditorView> {
    match e {
        Some(e) => Some(e@),
        None => None,
    }
}

/// What extracted points hold, by plot.
pub open spec fn cache_view(cache: Map<usize, Vec<SeriesData>>) -> Map<usize, Seq<DataView>> {
    cache.map_values(|v: Vec<SeriesData>| plot::data_views(v@))
}

impl View for PlotsState {
    type V = PlotsView;

    open spec fn view(&self) -> PlotsView {
        PlotsView {
            editor: editor_view(self.editor),
            editor_focus: self.editor_focus,
            error: value::text_of(self.error),
            open: self.open@,
            cache: cache_view(self.cache@),
        }
    }
}

/// A series row with nothing chosen.
pub open spec fn blank_row() -> SeriesEditorView {
    SeriesEditorView {
        id_choice: 0,
        type_choice: 0,
        field: seq![],
        name: seq![],
        unit: seq![],
        id_query: seq![],
        type_query: seq![],
        field_query: seq![],
    }
}

/// The dialog for a new plot: one blank series, marks shown.
pub open spec fn blank_editor() -> PlotEditorView {
    PlotEditorView { index: None, name: seq![], series: seq![blank_row()], show_marks: true }
}

/// An optional text, or an empty one.
pub open spec fn or_empty(t: Option<Seq<char>>) -> Seq<char> {
    match t {
        Some(s) => s,
        None => seq![],
    }
}

/// The row for an existing series.
pub open spec fn row_of(s: SessionView, series: SeriesView) -> SeriesEditorView {
    SeriesEditorView {
        id_choice: choices::id_choice(s.id_options, series.sysid, series.compid) as usize,
        type_choice: columns::type_choice(s.type_options, series.msg_type),
        field: series.field,
        name: or_empty(series.name),
        unit: or_empty(series.unit),
        ..blank_row()
    }
}

/// The rows for existing series.
pub open spec fn rows_of(s: SessionView, series: Seq<SeriesView>) -> Seq<SeriesEditorView> {
    series.map_values(|x: SeriesView| row_of(s, x))
}

/// The dialog for an existing plot.
pub open spec fn editor_of(s: SessionView, i: int) -> PlotEditorView {
    PlotEditorView {
        index: Some(i as usize),
        name: s.plots[i].name,
        series: rows_of(s, s.plots[i].series),
        show_marks: s.plots[i].show_marks,
    }
}

/// A text without the whitespace around it; a blank one is none.
pub open spec fn unless_blank(t: Seq<char>) -> Option<Seq<char>> {
    if text::trim(t).len() == 0 {
        None
    } else {
        Some(text::trim(t))
    }
}

impl SeriesEditorView {
    /// Whether the choices are among the options of the session.
    pub open spec fn fits(self, s: SessionView) -> bool {
        &&& self.id_choice <= s.id_options.len()
        &&& self.type_choice < s.type_options.len()
    }

    /// The series that the row describes.
    pub open spec fn series(self, s: SessionView) -> SeriesView {
        let (sysid, compid) = choices::ids_chosen(s.id_options, self.id_choice as int);
        SeriesView {
            sysid,
            compid,
            msg_type: s.type_options[self.type_choice as int],
            field: self.field,
            name: unless_blank(self.name),
            unit: unless_blank(self.unit),
        }
    }

    /// The row after a type was chosen: fields belong to a type, so another
    /// type clears the field.
    pub open spec fn with_type(self, choice: usize) -> SeriesEditorView {
        if choice == self.type_choice {
            self
        } else {
            SeriesEditorView { type_choice: choice, field: seq![], ..self }
        }
    }
}

impl PlotEditorView {
    /// Whether every series has a field.
    pub open spec fn complete(self) -> bool {
        forall|i: int| 0 <= i < self.series.len() ==> (#[trigger] self.series[i]).field.len() > 0
    }

    /// Whether the choices are among the options of the session.
    pub open spec fn fits(self, s: SessionView) -> bool {
        &&& forall|i: int| 0 <= i < self.series.len() ==> (#[trigger] self.series[i]).fits(s)
        &&& self.index matches Some(i) ==> i < s.plots.len()
    }

    /// The plot that the dialog describes: an unnamed one is called "Plot".
    pub open spec fn plot(self, s: SessionView) -> PlotView {
        PlotView {
            name: match unless_blank(self.name) {
                Some(n) => n,
                None => "Plot"@,
            },
            series: self.series.map_values(|r: SeriesEditorView| r.series(s)),
            show_marks: self.show_marks,
        }
    }

    /// The plots after the dialog was saved.
    pub open spec fn saved(self, s: SessionView) -> Seq<PlotView> {
        match self.index {
            Some(i) => s.plots.update(i as int, self.plot(s)),
            None => s.plots.push(self.plot(s)),
        }
    }

    /// The index of the saved plot.
    pub open spec fn place(self, s: SessionView) -> usize {
        match self.index {
            Some(i) => i,
            None => s.plots.len() as usize,
        }
    }
}

/// Where a plot stands once the plot at `i` is gone.
pub open spec fn moved(i: usize, o: usize) -> usize {
    if o > i {
        (o - 1) as usize
    } else {
        o
    }
}

/// Where the plot at `o` stood before the one at `i` went.
pub open spec fn origin(i: usize, o: usize) -> int {
    if o < i {
        o as int
    } else {
        o + 1
    }
}

/// The shown plots once the plot at `i` is gone.
pub open spec fn open_without(open: Set<usize>, i: usize) -> Set<usize> {
    Set::new(|o: usize| origin(i, o) <= usize::MAX && open.contains(origin(i, o) as usize))
}

/// The extracted points once the plot at `i` is gone.
pub open spec fn cache_without(cache: Map<usize, Seq<DataView>>, i: usize) -> Map<
    usize,
    Seq<DataView>,
> {
    Map::new(
        |o: usize| origin(i, o) <= usize::MAX && cache.contains_key(origin(i, o) as usize),
        |o: usize| cache[origin(i, o) as usize],
    )
}

/// The label of a series in the legend: its own name, else what it reads.
pub open spec fn label_text(series: SeriesView) -> Seq<char> {
    let reads = series.msg_type + seq!['.'] + series.field;
    match series.name {
        Some(n) if n.len() > 0 => n,
        _ => match (series.sysid, series.compid) {
            (Some(s), Some(c)) => entry::id_text(s, c) + seq![' '] + reads,
            _ => reads,
        },
    }
}

/// A copy of an optional text, or an empty one.
fn text_or_empty(t: &Option<String>) -> (r: String)
    ensures
        r@ == or_empty(value::text_of(*t)),
{
    match t {
        Some(s) => s.clone(),
        None => {
            let r = String::new();
            assert(r@ =~= seq![]);
            r
        },
    }
}

/// Trim a text; `None` if nothing is left, else the trimmed text.
pub fn none_if_blank(s: &str) -> (r: Option<String>)
    ensures
        value::text_of(r) == unless_blank(s@),
{
    let chars = text::chars_of(s);
    let t = text::trimmed(&chars);
    if t.len() == 0 {
        None
    } else {
        Some(text::string_of(t))
    }
}

/// The label of a series in the legend: its own name, else what it reads.
pub fn series_label(series: &SeriesDef) -> (r: String)
    ensures
        r@ == label_text(series@),
{
    if let Some(name) = &series.name {
        if text::chars_of(name.as_str()).len() > 0 {
            return name.clone();
        }
    }
    let mut r = match (series.sysid, series.compid) {
        (Some(s), Some(c)) => {
            let mut r = entry::id_string(s, c);
            r.push(' ');
            r
        },
        _ => String::new(),
    };
    r.append(series.msg_type.as_str());
    r.push('.');
    r.append(series.field.as_str());
    assert(r@ =~= label_text(series@));
    r
}

/// The unit of a series behind a value: a space and the unit, or nothing for a
/// blank one.
pub open spec fn unit_text(s: SeriesView) -> Seq<char> {
    match s.unit {
        Some(u) => if text::trim(u).len() == 0 {
            seq![]
        } else {
            seq![' '] + u
        },
        None => seq![],
    }
}

/// The unit of a series behind a value.
pub fn unit_suffix(series: &SeriesDef) -> (r: String)
    ensures
        r@ == unit_text(series@),
{
    let mut r = String::new();
    if let Some(u) = &series.unit {
        let chars = text::chars_of(u.as_str());
        if text::trimmed(&chars).len() > 0 {
            r.push(' ');
            r.append(u.as_str());
        }
    }
    assert(r@ =~= unit_text(series@));
    r
}

/// The row of a plot in the side block: its name and how many series it has.
pub fn row_label(p: &PlotDef) -> (r: String)
    ensures
        r@ == p@.name + " ("@ + numeral::decimal(p@.series.len()) + " series)"@,
{
    let mut r = p.name.clone();
    r.append(" (");
    numeral::push_decimal(&mut r, p.series.len() as u128);
    r.append(" series)");
    r
}

/// A series row with nothing chosen.
pub fn empty_series() -> (r: SeriesEditor)
    ensures
        r@ == blank_row(),
{
    let r = SeriesEditor {
        id_choice: 0,
        type_choice: 0,
        field: String::new(),
        name: String::new(),
        unit: String::new(),
        id_query: String::new(),
        type_query: String::new(),
        field_query: String::new(),
    };
    assert(r@ =~= blank_row());
    r
}

/// The row for an existing series.
fn row_for(session: &Session, s: &SeriesDef) -> (r: SeriesEditor)
    ensures
        r@ == row_of(session@, s@),
{
    let at = choices::find_name(&session.type_options, s.msg_type.as_str());
    let r = SeriesEditor {
        id_choice: choices::choice_of_ids(&session.id_options, s.sysid, s.compid),
        type_choice: if at < session.type_options.len() {
            at
        } else {
            0
        },
        field: s.field.clone(),
        name: text_or_empty(&s.name),
        unit: text_or_empty(&s.unit),
        id_query: String::new(),
        type_query: String::new(),
        field_query: String::new(),
    };
    assert(r@ =~= row_of(session@, s@));
    r
}

/// The rows for existing series.
fn rows_for(session: &Session, series: &[SeriesDef]) -> (r: Vec<SeriesEditor>)
    ensures
        row_views(r@) == rows_of(session@, plot::series_views(series@)),
{
    let ghost all = rows_of(session@, plot::series_views(series@));
    let mut r: Vec<SeriesEditor> = Vec::new();
    let mut i: usize = 0;
    assert(row_views(r@) =~= all.take(0));
    while i < series.len()
        invariant
            i <= series.len(),
            all == rows_of(session@, plot::series_views(series@)),
            row_views(r@) == all.take(i as int),
        decreases series.len() - i,
    {
        let ghost before = r@;
        let row = row_for(session, &series[i]);
        r.push(row);
        i += 1;
        assert(row_views(r@) =~= row_views(before).push(row@));
        assert(all.take(i as int) =~= all.take(i - 1).push(all[i - 1]));
    }
    assert(all.take(i as int) =~= all);
    r
}

/// The dialog for a new or an existing plot.
fn editor_for(session: &Session, index: Option<usize>) -> (r: PlotEditor)
    requires
        index matches Some(i) ==> i < session@.plots.len(),
    ensures
        r@ == match index {
            Some(i) => editor_of(session@, i as int),
            None => blank_editor(),
        },
{
    match index {
        Some(i) => {
            let p = &session.plots[i];
            assert(session@.plots[i as int] == p@);
            let r = PlotEditor {
                index,
                name: p.name.clone(),
                series: rows_for(session, &p.series),
                show_marks: p.show_marks,
            };
            assert(r@ =~= editor_of(session@, i as int));
            r
        },
        None => {
            let mut series: Vec<SeriesEditor> = Vec::new();
            series.push(empty_series());
            let r = PlotEditor { index, name: String::new(), series, show_marks: true };
            assert(r@.series =~= seq![blank_row()]);
            assert(r@ =~= blank_editor());
            r
        },
    }
}

/// The series that rows describe.
fn series_from(session: &Session, rows: &[SeriesEditor]) -> (r: Vec<SeriesDef>)
    requires
        forall|i: int| 0 <= i < rows@.len() ==> (#[trigger] row_views(rows@)[i]).fits(session@),
    ensures
        plot::series_views(r@) == row_views(rows@).map_values(
            |x: SeriesEditorView| x.series(session@),
        ),
{
    let ghost all = row_views(rows@).map_values(|x: SeriesEditorView| x.series(session@));
    let mut r: Vec<SeriesDef> = Vec::new();
    let mut i: usize = 0;
    assert(plot::series_views(r@) =~= all.take(0));
    while i < rows.len()
        invariant
            i <= rows.len(),
            all == row_views(rows@).map_values(|x: SeriesEditorView| x.series(session@)),
            forall|k: int| 0 <= k < rows@.len() ==> (#[trigger] row_views(rows@)[k]).fits(session@),
            plot::series_views(r@) == all.take(i as int),
        decreases rows.len() - i,
    {
        let ghost before = r@;
        let row = &rows[i];
        assert(row_views(rows@)[i as int] == row@);
        let (sysid, compid) = choices::ids_of_choice(&session.id_options, row.id_choice);
        assert(session@.type_options[row.type_choice as int]
            == session.type_options@[row.type_choice as int]@);
        let s = SeriesDef {
            sysid,
            compid,
            msg_type: session.type_options[row.type_choice].clone(),
            field: row.field.clone(),
            name: none_if_blank(row.name.as_str()),
            unit: none_if_blank(row.unit.as_str()),
        };
        assert(s@ =~= row@.series(session@));
        r.push(s);
        i += 1;
        assert(plot::series_views(r@) =~= plot::series_views(before).push(s@));
        assert(all.take(i as int) =~= all.take(i - 1).push(all[i - 1]));
    }
    assert(all.take(i as int) =~= all);
    r
}

/// Whether every series of a dialog has a field.
fn all_picked(rows: &[SeriesEditor]) -> (r: bool)
    ensures
        r <==> forall|i: int|
            0 <= i < rows@.len() ==> (#[trigger] row_views(rows@)[i]).field.len() > 0,
{
    let mut i: usize = 0;
    while i < rows.len()
        invariant
            i <= rows.len(),
            forall|k: int| 0 <= k < i ==> (#[trigger] row_views(rows@)[k]).field.len() > 0,
        decreases rows.len() - i,
    {
        assert(row_views(rows@)[i as int] == rows@[i as int]@);
        if text::chars_of(rows[i].field.as_str()).len() == 0 {
            return false;
        }
        i += 1;
    }
    true
}

/// The shown plots once the plot at `i` is gone.
fn reopened(open: &HashSet<usize>, i: usize) -> (r: HashSet<usize>)
    ensures
        r@ == open_without(open@, i),
{
    let mut r: HashSet<usize> = HashSet::new();
    let ghost mut done: Seq<usize> = seq![];
    let ghost all = vstd::std_specs::iter::IteratorSpec::remaining(
        &vstd::std_specs::hash::spec_hash_keys_iter(open),
    );
    for k in it: open.iter()
        invariant
            it.seq() == all,
            done.len() == it.index(),
            forall|j: int| 0 <= j < done.len() ==> done[j] == *(#[trigger] all[j]),
            forall|x: usize| #[trigger]
                r@.contains(x) <==> origin(i, x) <= usize::MAX && done.contains(
                    origin(i, x) as usize,
                ),
    {
        let o: usize = *k;
        if o != i {
            r.insert(
                if o > i {
                    o - 1
                } else {
                    o
                },
            );
        }
        proof {
            marks::lemma_seen(done, o);
            done = done.push(o);
        }
    }
    proof {
        let keys = all.unref();
        assert(keys =~= done);
        assert forall|x: usize| #[trigger] open@.contains(x) <==> done.contains(x) by {
            assert(keys.to_set().contains(x) <==> open@.contains(x));
        }
        assert(r@ =~= open_without(open@, i));
    }
    r
}

/// The plots that have extracted points.
fn cached(cache: &HashMap<usize, Vec<SeriesData>>) -> (r: Vec<usize>)
    ensures
        forall|x: usize| #[trigger] cache@.contains_key(x) <==> r@.contains(x),
{
    let mut r: Vec<usize> = Vec::new();
    let ghost all = vstd::std_specs::iter::IteratorSpec::remaining(
        &vstd::std_specs::hash::spec_hash_map_iter(cache),
    );
    for (k, v) in it: cache.iter()
        invariant
            it.seq() == all,
            r@.len() == it.index(),
            forall|j: int| 0 <= j < r@.len() ==> r@[j] == *(#[trigger] all[j]).0,
    {
        r.push(*k);
    }
    proof {
        assert forall|x: usize| #[trigger] cache@.contains_key(x) <==> r@.contains(x) by {
            if cache@.contains_key(x) {
                assert(all.contains((&x, &cache@[x])));
                let j = choose|j: int| 0 <= j < all.len() && all[j] == (&x, &cache@[x]);
                assert(r@[j] == x);
            }
            if r@.contains(x) {
                let j = choose|j: int| 0 <= j < r@.len() && r@[j] == x;
                assert(cache@.contains_key(*all[j].0));
            }
        }
    }
    r
}

/// The extracted points once the plot at `i` is gone.
fn recached(cache: HashMap<usize, Vec<SeriesData>>, i: usize) -> (r: HashMap<
    usize,
    Vec<SeriesData>,
>)
    ensures
        cache_view(r@) == cache_without(cache_view(cache@), i),
{
    let ghost all = cache@;
    let keys = cached(&cache);
    let mut rest = cache;
    let mut r: HashMap<usize, Vec<SeriesData>> = HashMap::new();
    let mut j: usize = 0;
    while j < keys.len()
        invariant
            j <= keys.len(),
            forall|x: usize| #[trigger] all.contains_key(x) <==> keys@.contains(x),
            forall|x: usize| #[trigger]
                rest@.contains_key(x) <==> all.contains_key(x) && !keys@.take(j as int).contains(x),
            forall|x: usize| #[trigger] rest@.contains_key(x) ==> rest@[x] == all[x],
            forall|x: usize| #[trigger]
                r@.contains_key(x) <==> origin(i, x) <= usize::MAX && keys@.take(
                    j as int,
                ).contains(origin(i, x) as usize),
            forall|x: usize| #[trigger]
                r@.contains_key(x) ==> all.contains_key(origin(i, x) as usize) && r@[x]
                    == all[origin(i, x) as usize],
        decreases keys.len() - j,
    {
        let o = keys[j];
        let ghost seen = keys@.take(j as int);
        proof {
            assert(keys@.take(j + 1) =~= seen.push(o));
            marks::lemma_seen(seen, o);
            assert(keys@.contains(o));
        }
        if let Some(v) = rest.remove(&o) {
            if o != i {
                r.insert(
                    if o > i {
                        o - 1
                    } else {
                        o
                    },
                    v,
                );
            }
        }
        j += 1;
    }
    assert(keys@.take(j as int) =~= keys@);
    assert(cache_view(r@) =~= cache_without(cache_view(all), i));
    r
}

impl SeriesEditor {
    /// Choose a type; fields belong to a type, so another type clears the
    /// field.
    pub fn choose_type(&mut self, choice: usize)
        ensures
            final(self)@ == old(self)@.with_type(choice),
    {
        if choice != self.type_choice {
            self.type_choice = choice;
            self.field = String::new();
            assert(self@ =~= old(self)@.with_type(choice));
        }
    }

    /// What the field dropdown shows as chosen.
    pub fn field_label(&self) -> (r: String)
        ensures
            r@ == if self@.field.len() == 0 {
                "(pick a field)"@
            } else {
                self@.field
            },
    {
        if text::chars_of(self.field.as_str()).len() == 0 {
            "(pick a field)".to_string()
        } else {
            self.field.clone()
        }
    }
}

impl PlotEditor {
    /// The title of the dialog.
    pub fn title(&self) -> (r: &'static str)
        ensures
            r@ == if self@.index is Some {
                "Edit plot"@
            } else {
                "Add plot"@
            },
    {
        if self.index.is_some() {
            "Edit plot"
        } else {
            "Add plot"
        }
    }

    /// Add a series row.
    pub fn add_series(&mut self)
        ensures
            final(self)@ == (PlotEditorView {
                series: old(self)@.series.push(blank_row()),
                ..old(self)@
            }),
    {
        let ghost before = self.series@;
        self.series.push(empty_series());
        assert(row_views(self.series@) =~= row_views(before).push(blank_row()));
    }

    /// Remove a series row.
    pub fn remove_series(&mut self, row: usize)
        requires
            row < old(self)@.series.len(),
        ensures
            final(self)@ == (PlotEditorView {
                series: old(self)@.series.remove(row as int),
                ..old(self)@
            }),
    {
        let ghost before = self.series@;
        self.series.remove(row);
        assert(row_views(self.series@) =~= row_views(before).remove(row as int));
    }
}

/// The state with nothing open and nothing extracted.
pub open spec fn nothing_open() -> PlotsView {
    PlotsView {
        editor: None,
        editor_focus: false,
        error: None,
        open: Set::empty(),
        cache: Map::empty(),
    }
}

impl Default for PlotsState {
    fn default() -> (r: PlotsState)
        ensures
            r@ == nothing_open(),
    {
        let r = PlotsState {
            editor: None,
            editor_focus: false,
            error: None,
            open: HashSet::new(),
            cache: HashMap::new(),
        };
        assert(r@ =~= nothing_open());
        r
    }
}

impl PlotsView {
    /// The state with an open dialog that takes the keyboard focus.
    pub open spec fn editing(self, editor: PlotEditorView) -> PlotsView {
        PlotsView { editor: Some(editor), editor_focus: true, error: None, ..self }
    }

    /// The state once the plot at `i` is gone: the plots behind it move up, and
    /// a dialog open for it closes.
    pub open spec fn without_plot(self, i: usize) -> PlotsView {
        PlotsView {
            editor: match self.editor {
                Some(e) => if e.index == Some(i) {
                    None
                } else {
                    Some(e)
                },
                None => None,
            },
            open: open_without(self.open, i),
            cache: cache_without(self.cache, i),
            ..self
        }
    }

    /// The state once a dialog was saved: a new plot is shown, and points
    /// extracted for the plot as it was are dropped.
    pub open spec fn after_save(self, editor: PlotEditorView, s: SessionView) -> PlotsView {
        PlotsView {
            editor: None,
            error: None,
            open: if editor.index is None {
                self.open.insert(editor.place(s))
            } else {
                self.open
            },
            cache: self.cache.remove(editor.place(s)),
            ..self
        }
    }
}

impl PlotsState {
    /// Open the dialog to add a new plot.
    pub fn add_plot(&mut self, session: &Session)
        ensures
            final(self)@ == old(self)@.editing(blank_editor()),
    {
        self.editor = Some(editor_for(session, None));
        self.editor_focus = true;
        self.error = None;
    }

    /// Open the dialog to edit a plot.
    pub fn open_edit(&mut self, session: &Session, i: usize)
        requires
            i < session@.plots.len(),
        ensures
            final(self)@ == old(self)@.editing(editor_of(session@, i as int)),
    {
        self.editor = Some(editor_for(session, Some(i)));
        self.editor_focus = true;
        self.error = None;
    }

    /// Whether the add/edit dialog is open.
    pub fn has_editor(&self) -> (r: bool)
        ensures
            r == self@.editor is Some,
    {
        self.editor.is_some()
    }

    /// Close the dialog.
    pub fn cancel_editor(&mut self)
        ensures
            final(self)@ == (PlotsView { editor: None, error: None, ..old(self)@ }),
    {
        self.editor = None;
        self.error = None;
    }

    /// Ask the open dialog to re-grab keyboard focus (keeps Tab inside it).
    /// Does nothing when the dialog is closed.
    pub fn grab_editor_focus(&mut self)
        ensures
            final(self)@ == (PlotsView {
                editor_focus: old(self)@.editor_focus || old(self)@.editor is Some,
                ..old(self)@
            }),
    {
        if self.editor.is_some() {
            self.editor_focus = true;
        }
    }

    /// Discard extracted points, open windows and any dialog: they are all keyed
    /// by index into the plots of the file that was open.
    pub fn reset(&mut self)
        ensures
            final(self)@ == nothing_open(),
    {
        self.editor = None;
        self.error = None;
        self.editor_focus = false;
        self.open.clear();
        self.cache.clear();
        assert(self@ =~= nothing_open());
    }

    /// Whether a plot is shown.
    pub fn is_shown(&self, i: usize) -> (r: bool)
        ensures
            r == self@.open.contains(i),
    {
        self.open.contains(&i)
    }

    /// Show or hide a plot. Hiding keeps the points extracted for it.
    pub fn set_shown(&mut self, i: usize, shown: bool)
        ensures
            final(self)@ == (PlotsView {
                open: if shown {
                    old(self)@.open.insert(i)
                } else {
                    old(self)@.open.remove(i)
                },
                ..old(self)@
            }),
    {
        if shown {
            self.open.insert(i);
        } else {
            self.open.remove(&i);
        }
        assert(self@.cache =~= old(self)@.cache);
    }

    /// Close the window of a plot: it is hidden and its points are dropped.
    pub fn close_window(&mut self, i: usize)
        ensures
            final(self)@ == (PlotsView {
                open: old(self)@.open.remove(i),
                cache: old(self)@.cache.remove(i),
                ..old(self)@
            }),
    {
        self.open.remove(&i);
        self.cache.remove(&i);
        assert(self@.cache =~= old(self)@.cache.remove(i));
    }

    /// Whether points have yet to be extracted for a plot.
    pub fn lacks_data(&self, i: usize) -> (r: bool)
        ensures
            r == !self@.cache.contains_key(i),
    {
        !self.cache.contains_key(&i)
    }

    /// Keep the points extracted for a plot.
    pub fn put_data(&mut self, i: usize, data: Vec<SeriesData>)
        ensures
            final(self)@ == (PlotsView {
                cache: old(self)@.cache.insert(i, plot::data_views(data@)),
                ..old(self)@
            }),
    {
        self.cache.insert(i, data);
        assert(self@.cache =~= old(self)@.cache.insert(i, plot::data_views(data@)));
    }

    /// Remove a plot from the session; the plots behind it move up, and a dialog
    /// open for it closes.
    pub fn remove(&mut self, session: &mut Session, i: usize)
        requires
            i < old(session)@.plots.len(),
        ensures
            final(session)@ == (SessionView {
                plots: old(session)@.plots.remove(i as int),
                ..old(session)@
            }),
            final(self)@ == old(self)@.without_plot(i),
    {
        let ghost before = session@;
        session.plots.remove(i);
        assert(session@.plots =~= before.plots.remove(i as int));
        self.open = reopened(&self.open, i);
        let mut cache: HashMap<usize, Vec<SeriesData>> = HashMap::new();
        std::mem::swap(&mut cache, &mut self.cache);
        self.cache = recached(cache, i);
        let close = match &self.editor {
            Some(e) => e.index == Some(i),
            None => false,
        };
        if close {
            self.editor = None;
        }
        assert(self@ =~= old(self)@.without_plot(i));
    }

    /// Save the open dialog into the session and close it; where a series lacks
    /// a field, complain and keep it open. Gives the index of the saved plot
    /// where it is shown, so that its points are extracted anew.
    pub fn save(&mut self, session: &mut Session) -> (r: Option<usize>)
        requires
            old(self)@.editor matches Some(e) ==> e.complete() ==> e.fits(old(session)@),
        ensures
            match old(self)@.editor {
                None => {
                    &&& r is None
                    &&& final(self)@ == old(self)@
                    &&& final(session)@ == old(session)@
                },
                Some(e) => if e.complete() {
                    &&& final(self)@ == old(self)@.after_save(e, old(session)@)
                    &&& final(session)@ == (SessionView {
                        plots: e.saved(old(session)@),
                        ..old(session)@
                    })
                    &&& r == if final(self)@.open.contains(e.place(old(session)@)) {
                        Some(e.place(old(session)@))
                    } else {
                        None
                    }
                } else {
                    &&& r is None
                    &&& final(self)@ == (PlotsView {
                        error: Some("Every series needs a field before saving"@),
                        ..old(self)@
                    })
                    &&& final(session)@ == old(session)@
                },
            },
    {
        let picked = match &self.editor {
            Some(e) => all_picked(&e.series),
            None => return None,
        };
        let ghost start = self@;
        let ghost before = session@;
        if !picked {
            assert(!start.editor->0.complete());
            self.error = Some("Every series needs a field before saving".to_string());
            return None;
        }
        assert(start.editor->0.complete());
        let editor = match self.editor.take() {
            Some(e) => e,
            None => return None,
        };
        let ghost e = editor@;
        let name = match none_if_blank(editor.name.as_str()) {
            Some(n) => n,
            None => "Plot".to_string(),
        };
        let def = PlotDef {
            name,
            series: series_from(session, &editor.series),
            show_marks: editor.show_marks,
        };
        assert(def@ =~= e.plot(before));
        let index: usize = match editor.index {
            Some(i) => {
                session.plots.set(i, def);
                i
            },
            None => {
                let i = session.plots.len();
                session.plots.push(def);
                self.open.insert(i);
                i
            },
        };
        assert(session@.plots =~= e.saved(before));
        assert(session@ =~= SessionView { plots: e.saved(before), ..before });
        self.cache.remove(&index);
        self.error = None;
        assert(self@.cache =~= start.cache.remove(index));
        assert(self@ =~= start.after_save(e, before));
        if self.open.contains(&index) {
            Some(index)
        } else {
            None
        }
    }
}

/// A mark to be drawn into a plot: the entry, its time and its label.
pub struct MarkLine {
    pub entry_index: usize,
    pub timestamp_us: u64,
    pub label: String,
}

/// The marks that a plot draws, in file order: all of them when it shows marks,
/// none otherwise.
pub open spec fn draws(
    lines: Seq<MarkLine>,
    list: Seq<(usize, Seq<char>)>,
    entries: Seq<crate::entry::EntryView>,
) -> bool {
    &&& lines.len() == list.len()
    &&& forall|i: int|
        0 <= i < lines.len() ==> {
            &&& (#[trigger] lines[i]).entry_index == list[i].0
            &&& lines[i].label@ == list[i].1
            &&& lines[i].timestamp_us == entries[list[i].0 as int].timestamp_us
        }
}

/// The marks to be drawn into a plot, in file order.
pub fn mark_lines(session: &Session, p: &PlotDef) -> (r: Vec<MarkLine>)
    requires
        forall|k: usize| #[trigger]
            session@.marks.contains_key(k) ==> k < session@.entries.len(),
    ensures
        if p@.show_marks {
            exists|list: Seq<(usize, Seq<char>)>| #[trigger]
                marks::lists(list, session@.marks) && draws(r@, list, session@.entries)
        } else {
            r@.len() == 0
        },
{
    let mut r: Vec<MarkLine> = Vec::new();
    if !p.show_marks {
        return r;
    }
    let list = marks::listed(&session.marks);
    let ghost all = marks::pairs(list@);
    let mut i: usize = 0;
    while i < list.len()
        invariant
            i <= list.len(),
            all == marks::pairs(list@),
            marks::lists(all, session@.marks),
            forall|k: usize| #[trigger]
                session@.marks.contains_key(k) ==> k < session@.entries.len(),
            draws(r@, all.take(i as int), session@.entries),
        decreases list.len() - i,
    {
        let k = list[i].0;
        assert(all[i as int].0 == k);
        assert(session@.marks.contains_key(k));
        assert(session@.entries[k as int] == session.entries@[k as int]@);
        r.push(
            MarkLine {
                entry_index: k,
                timestamp_us: session.entries[k].timestamp_us,
                label: list[i].1.clone(),
            },
        );
        i += 1;
    }
    assert(all.take(i as int) =~= all);
    r
}

/// Removing a plot leaves every other plot as it is: shown if it was, with the
/// points extracted for it.
pub proof fn law_removal_keeps_other_plots(
    state: PlotsView,
    plots: Seq<PlotView>,
    i: usize,
    o: usize,
)
    requires
        i < plots.len() <= usize::MAX,
        o < plots.len(),
        o != i,
    ensures
        plots.remove(i as int)[moved(i, o) as int] == plots[o as int],
        state.without_plot(i).open.contains(moved(i, o)) <==> state.open.contains(o),
        state.without_plot(i).cache.contains_key(moved(i, o)) <==> state.cache.contains_key(o),
        state.cache.contains_key(o) ==> state.without_plot(i).cache[moved(i, o)] == state.cache[o],
{
    assert(origin(i, moved(i, o)) == o);
}

/// Whether an optional text is one that a dialog can give back: without
/// whitespace around it, and not blank.
pub open spec fn tidy(t: Option<Seq<char>>) -> bool {
    t matches Some(s) ==> s.len() > 0 && text::trim(s) == s
}

/// Opening the dialog for a plot and saving it unchanged keeps its series, on ids
/// and types that the log has, but for the case of the types' names.
pub proof fn law_unchanged_edit_keeps_series(s: SessionView, i: int, k: int)
    requires
        0 <= i < s.plots.len() <= usize::MAX,
        0 <= k < s.plots[i].series.len(),
        choices::offered(s.id_options, s.plots[i].series[k].sysid, s.plots[i].series[k].compid),
        choices::listed(s.type_options, s.plots[i].series[k].msg_type),
        tidy(s.plots[i].series[k].name),
        tidy(s.plots[i].series[k].unit),
        s.id_options.len() < usize::MAX,
        s.type_options.len() <= usize::MAX,
    ensures
        editor_of(s, i).plot(s).series.len() == s.plots[i].series.len(),
        editor_of(s, i).plot(s).series[k] == (SeriesView {
            msg_type: editor_of(s, i).plot(s).series[k].msg_type,
            ..s.plots[i].series[k]
        }),
        text::same_ignoring_case(
            editor_of(s, i).plot(s).series[k].msg_type,
            s.plots[i].series[k].msg_type,
        ),
{
    let x = s.plots[i].series[k];
    if let (Some(a), Some(b)) = (x.sysid, x.compid) {
        choices::law_id_choice_reads_back(s.id_options, (a, b));
    }
    columns::lemma_type_choice(s.type_options, x.msg_type);
}

/// What a row of the dialog stands for: the chosen ids, type and field, with the name and
/// the unit as entered but for whitespace around them, none where they are blank.
pub proof fn law_saved_series(r: SeriesEditorView, s: SessionView)
    requires
        r.fits(s),
    ensures
        ({
            let x = r.series(s);
            &&& r.id_choice == 0 ==> x.sysid is None && x.compid is None
            &&& r.id_choice > 0 ==> x.sysid == Some(s.id_options[r.id_choice - 1].0) && x.compid
                == Some(s.id_options[r.id_choice - 1].1)
            &&& x.msg_type == s.type_options[r.type_choice as int]
            &&& x.field == r.field
            &&& text::trim(r.name).len() > 0 ==> x.name == Some(text::trim(r.name))
            &&& text::trim(r.name).len() == 0 ==> x.name is None
            &&& text::trim(r.unit).len() > 0 ==> x.unit == Some(text::trim(r.unit))
            &&& text::trim(r.unit).len() == 0 ==> x.unit is None
        }),
        r.with_type(r.type_choice) == r,
        forall|choice: usize|
            choice != r.type_choice ==> (#[trigger] r.with_type(choice)).field.len() == 0
                && r.with_type(choice).type_choice == choice && r.with_type(choice).name == r.name
                && r.with_type(choice).unit == r.unit && r.with_type(choice).id_choice
                == r.id_choice,
{
}

/// What the dialog saves: a plot with a series for each row, in order, under the entered
/// name, or "Plot" where it is blank. A new plot comes last and is shown; an edited one
/// stays in its place. Its points are extracted anew; those of other plots are kept.
pub proof fn law_saved_plot(e: PlotEditorView, state: PlotsView, s: SessionView, k: int)
    requires
        e.fits(s),
        s.plots.len() < usize::MAX,
    ensures
        ({
            let p = e.plot(s);
            let list = e.saved(s);
            let next = state.after_save(e, s);
            &&& text::trim(e.name).len() > 0 ==> p.name == text::trim(e.name)
            &&& text::trim(e.name).len() == 0 ==> p.name == seq!['P', 'l', 'o', 't']
            &&& p.show_marks == e.show_marks
            &&& p.series.len() == e.series.len()
            &&& 0 <= k < e.series.len() ==> p.series[k] == e.series[k].series(s)
            &&& next.editor is None && next.error is None
            &&& e.index is None ==> {
                &&& list.len() == s.plots.len() + 1 && list[s.plots.len() as int] == p
                &&& 0 <= k < s.plots.len() ==> list[k] == s.plots[k]
                &&& next.open == state.open.insert(s.plots.len() as usize)
                &&& next.cache == state.cache.remove(s.plots.len() as usize)
            }
            &&& e.index matches Some(i) ==> {
                &&& list.len() == s.plots.len() && list[i as int] == p
                &&& 0 <= k < s.plots.len() && k != i ==> list[k] == s.plots[k]
                &&& next.open == state.open
                &&& next.cache == state.cache.remove(i)
            }
        }),
        e.complete() <==> forall|i: int|
            0 <= i < e.series.len() ==> (#[trigger] e.series[i]).field.len() > 0,
{
    reveal_strlit("Plot");
    assert("Plot"@ =~= seq!['P', 'l', 'o', 't']);
}

/// How a series is called in the legend: by its own name, else by its type and field with
/// a dot between them, behind its ids where both are given.
pub proof fn law_series_label(x: SeriesView, name: Seq<char>, s: u8, c: u8)
    ensures
        x.name == Some(name) && name.len() > 0 ==> label_text(x) == name,
        (x.name is None || x.name == Some(Seq::<char>::empty())) && x.sysid == Some(s) && x.compid
            == Some(c) ==> label_text(x) == numeral::decimal(s as nat) + seq![':']
            + numeral::decimal(c as nat) + seq![' '] + (x.msg_type + seq!['.'] + x.field),
        (x.name is None || x.name == Some(Seq::<char>::empty())) && (x.sysid is None || x.compid
            is None) ==> label_text(x) == x.msg_type + seq!['.'] + x.field,
        x.unit is None ==> unit_text(x).len() == 0,
        x.unit matches Some(u) ==> {
            &&& text::trim(u).len() == 0 ==> unit_text(x).len() == 0
            &&& text::trim(u).len() > 0 ==> unit_text(x) == seq![' '] + u
        },
{
}

/// Removing a plot closes the dialog that edits it, and no other.
pub proof fn law_removal_closes_its_dialog(state: PlotsView, i: usize)
    ensures
        state.editor is None ==> state.without_plot(i).editor is None,
        state.editor matches Some(e) ==> {
            &&& e.index == Some(i) ==> state.without_plot(i).editor is None
            &&& e.index != Some(i) ==> state.without_plot(i).editor == Some(e)
        },
{
}

/// A new plot is edited with one blank series and shown marks; a plot that is edited has
/// its own name, series and marks, and the focus goes to the dialog.
pub proof fn law_plot_dialog(state: PlotsView, s: SessionView, i: int, k: int)
    requires
        0 <= i < s.plots.len() <= usize::MAX,
    ensures
        ({
            let b = blank_editor();
            &&& b.index is None && b.name.len() == 0 && b.show_marks && b.series.len() == 1
            &&& b.series[0].id_choice == 0 && b.series[0].type_choice == 0
            &&& b.series[0].field.len() == 0 && b.series[0].name.len() == 0
            &&& b.series[0].unit.len() == 0
        }),
        ({
            let e = editor_of(s, i);
            let p = s.plots[i];
            &&& e.index == Some(i as usize) && e.name == p.name && e.show_marks == p.show_marks
            &&& e.series.len() == p.series.len()
            &&& 0 <= k < p.series.len() ==> {
                &&& e.series[k].field == p.series[k].field
                &&& p.series[k].name matches Some(n) ==> e.series[k].name == n
                &&& p.series[k].name is None ==> e.series[k].name.len() == 0
                &&& p.series[k].unit matches Some(u) ==> e.series[k].unit == u
                &&& p.series[k].unit is None ==> e.series[k].unit.len() == 0
            }
            &&& state.editing(e).editor == Some(e)
            &&& state.editing(e).editor_focus && state.editing(e).error is None
            &&& state.editing(e).open == state.open && state.editing(e).cache == state.cache
        }),
        nothing_open().editor is None && !nothing_open().editor_focus && nothing_open().error
            is None,
        forall|o: usize|
            !nothing_open().open.contains(o) && !(#[trigger] nothing_open().cache.contains_key(o)),
{
}

/// The marks drawn on a plot: one line for each, at the time of its own message, with its
/// label.
pub proof fn law_marks_are_drawn(
    lines: Seq<MarkLine>,
    list: Seq<(usize, Seq<char>)>,
    entries: Seq<crate::entry::EntryView>,
    i: int,
)
    requires
        draws(lines, list, entries),
    ensures
        lines.len() == list.len(),
        0 <= i < list.len() ==> lines[i].entry_index == list[i].0 && lines[i].label@ == list[i].1
            && lines[i].timestamp_us == entries[list[i].0 as int].timestamp_us,
{
}

} // verus!
