//! The Filters side block and the add/edit filter popup. The side block is shown
//! whenever the session has any configured filters; the popup opens on demand to
//! add or edit one.

use vstd::prelude::*;
use crate::filter::{FilterExpr, FilterView};
use crate::gui::choices;
use crate::session::{Session, SessionView};
use crate::setup::SetupView;
use crate::{filter, numeral, text, value};

verus! {

/// Open editor for a single filter expression (dropdown-based): pick an id (any,
/// or a sysid:compid pair) and/or a type (any, or an exact type name).
pub struct FilterEditor {
    /// Index of the filter being edited, or None when adding a new one.
    pub index: Option<usize>,
    /// 0 = any, otherwise 1 + index into `Session::id_options`.
    pub id_choice: usize,
    /// 0 = any, otherwise 1 + index into `Session::type_options`.
    pub type_choice: usize,
    /// 0 = any, 1 = primary (tlog), 2 = secondary (bin). Only used when merged.
    pub source_choice: usize,
    pub id_query: String,
    pub type_query: String,
}

/// What a filter editor holds.
#[verifier::ext_equal]
pub struct FilterEditorView {
    pub index: Option<usize>,
    pub id_choice: usize,
    pub type_choice: usize,
    pub source_choice: usize,
    pub id_query: Seq<char>,
    pub type_query: Seq<char>,
}

impl View for FilterEditor {
    type V = FilterEditorView;

    open spec fn view(&self) -> FilterEditorView {
        FilterEditorView {
            index: self.index,
            id_choice: self.id_choice,
            type_choice: self.type_choice,
            source_choice: self.source_choice,
            id_query: self.id_query@,
            type_query: self.type_query@,
        }
    }
}

/// State for the Filters UI: the optional add/edit popup. The side block's
/// visibility is derived from `Session::filters`, so it needs no open flag.
pub struct FiltersState {
    pub editor: Option<FilterEditor>,
    /// Focus the popup's Save button on the next frame, so keyboard
    /// (Tab/Enter) navigation starts inside a freshly opened popup.
    pub focus_on_open: bool,
    /// Set when Save is pressed for a filter that could not be loaded again.
    pub error: Option<String>,
}

/// What the state of the Filters UI holds.
#[verifier::ext_equal]
pub struct FiltersView {
    pub editor: Option<FilterEditorView>,
    pub focus_on_open: bool,
    pub error: Option<Seq<char>>,
}

/// What an optional editor holds.
pub open spec fn editor_view(e: Option<FilterEditor>) -> Option<FilterEditorView> {
    match e {
        Some(e) => Some(e@),
        None => None,
    }
}

impl View for FiltersState {
    type V = FiltersView;

    open spec fn view(&self) -> FiltersView {
        FiltersView {
            editor: editor_view(self.editor),
            focus_on_open: self.focus_on_open,
            error: value::text_of(self.error),
        }
    }
}

/// The editor for a new filter.
pub open spec fn blank_editor() -> FilterEditorView {
    FilterEditorView {
        index: None,
        id_choice: 0,
        type_choice: 0,
        source_choice: 0,
        id_query: seq![],
        type_query: seq![],
    }
}

/// The source choice that stands for an optional source.
pub open spec fn choice_of_source(source: Option<crate::entry::LogSourceId>) -> usize {
    match source {
        None => 0,
        Some(crate::entry::LogSourceId::Primary) => 1,
        Some(crate::entry::LogSourceId::Secondary) => 2,
    }
}

/// The editor for an existing filter.
pub open spec fn editor_of(s: SessionView, i: int) -> FilterEditorView {
    let f = s.filters[i];
    FilterEditorView {
        index: Some(i as usize),
        id_choice: choices::id_choice(s.id_options, f.sysid, f.compid) as usize,
        type_choice: match f.name {
            Some(n) => if choices::name_index(s.type_options, n) < s.type_options.len() {
                (choices::name_index(s.type_options, n) + 1) as usize
            } else {
                0
            },
            None => 0,
        },
        source_choice: choice_of_source(f.source),
        ..blank_editor()
    }
}

impl FilterEditorView {
    /// Whether the choices are among the options of the session.
    pub open spec fn fits(self, s: SessionView) -> bool {
        &&& self.id_choice <= s.id_options.len()
        &&& self.type_choice <= s.type_options.len()
        &&& self.index matches Some(i) ==> i < s.filters.len()
    }

    /// The filter that the editor describes. Editing a disabled filter does not
    /// silently re-enable it; new filters start enabled.
    pub open spec fn filter(self, s: SessionView) -> FilterView {
        let (sysid, compid) = choices::ids_chosen(s.id_options, self.id_choice as int);
        FilterView {
            sysid,
            compid,
            name: if self.type_choice == 0 {
                None
            } else {
                Some(text::lower(s.type_options[self.type_choice - 1]))
            },
            exact: true,
            source: choices::source_chosen(self.source_choice as int),
            enabled: match self.index {
                Some(i) => s.filters[i as int].enabled,
                None => true,
            },
        }
    }

    /// The filters after the editor was saved.
    pub open spec fn saved(self, s: SessionView) -> Seq<FilterView> {
        match self.index {
            Some(i) => s.filters.update(i as int, self.filter(s)),
            None => s.filters.push(self.filter(s)),
        }
    }
}

/// The session with other filters: its filter line and visible messages follow.
pub open spec fn refiltered(s: SessionView, filters: Seq<FilterView>) -> SessionView {
    SessionView { filters, filter_text: filter::list_text(filters), ..s }.filtered_anew()
}

/// Bring the filter line and the visible messages up to date.
fn refilter(session: &mut Session)
    ensures
        final(session)@ == refiltered(old(session)@, old(session)@.filters),
{
    session.rebuild_filter_text();
    session.apply_filter();
}

/// The editor for a new or an existing filter.
fn editor_for(session: &Session, index: Option<usize>) -> (r: FilterEditor)
    requires
        index matches Some(i) ==> i < session@.filters.len(),
    ensures
        r@ == match index {
            Some(i) => editor_of(session@, i as int),
            None => blank_editor(),
        },
        r@.fits(session@),
{
    let (id_choice, type_choice, source_choice) = match index {
        Some(i) => {
            let f = &session.filters[i];
            assert(session@.filters[i as int] == f@);
            let id = choices::choice_of_ids(&session.id_options, f.sysid, f.compid);
            let ty: usize = match &f.name {
                Some(n) => {
                    let at = choices::find_name(&session.type_options, n.as_str());
                    if at < session.type_options.len() {
                        at + 1
                    } else {
                        0
                    }
                },
                None => 0,
            };
            (id, ty, choices::source_choice(f.source))
        },
        None => (0, 0, 0),
    };
    let r = FilterEditor {
        index,
        id_choice,
        type_choice,
        source_choice,
        id_query: String::new(),
        type_query: String::new(),
    };
    proof {
        match index {
            Some(i) => {
                assert(r@ =~= editor_of(session@, i as int));
            },
            None => {
                assert(r@ =~= blank_editor());
            },
        }
    }
    r
}

impl Default for FiltersState {
    fn default() -> (r: FiltersState)
        ensures
            r@ == (FiltersView { editor: None, focus_on_open: false, error: None }),
    {
        FiltersState { editor: None, focus_on_open: false, error: None }
    }
}

impl FiltersState {
    /// Whether the add/edit popup is open (used by the layered Esc handler:
    /// cancel the editor before closing anything else).
    pub fn has_editor(&self) -> (r: bool)
        ensures
            r == self@.editor is Some,
    {
        self.editor.is_some()
    }

    /// Close the popup.
    pub fn cancel_editor(&mut self)
        ensures
            final(self)@ == (FiltersView { editor: None, error: None, ..old(self)@ }),
    {
        self.editor = None;
        self.error = None;
    }

    /// Open the popup to add a new filter, and grab keyboard focus for it.
    pub fn open_add(&mut self, session: &Session)
        ensures
            final(self)@ == (FiltersView {
                editor: Some(blank_editor()),
                focus_on_open: true,
                error: None,
            }),
    {
        self.editor = Some(editor_for(session, None));
        self.focus_on_open = true;
        self.error = None;
    }

    /// Open the popup to edit a filter, and grab keyboard focus for it.
    pub fn open_edit(&mut self, session: &Session, i: usize)
        requires
            i < session@.filters.len(),
        ensures
            final(self)@ == (FiltersView {
                editor: Some(editor_of(session@, i as int)),
                focus_on_open: true,
                error: None,
            }),
    {
        self.editor = Some(editor_for(session, Some(i)));
        self.focus_on_open = true;
        self.error = None;
    }

    /// Ask the popup to grab keyboard focus when it is next shown.
    pub fn grab_focus(&mut self)
        ensures
            final(self)@ == (FiltersView { focus_on_open: true, ..old(self)@ }),
    {
        self.focus_on_open = true;
    }

    /// Remove a filter from the session; an editor open for it closes.
    pub fn remove(&mut self, session: &mut Session, i: usize)
        requires
            i < old(session)@.filters.len(),
        ensures
            final(session)@ == refiltered(old(session)@, old(session)@.filters.remove(i as int)),
            final(self)@ == (FiltersView {
                editor: match old(self)@.editor {
                    Some(e) => if e.index == Some(i) {
                        None
                    } else {
                        Some(e)
                    },
                    None => None,
                },
                ..old(self)@
            }),
    {
        let ghost before = session@;
        session.filters.remove(i);
        assert(session@.filters =~= before.filters.remove(i as int));
        assert(session@ =~= SessionView { filters: before.filters.remove(i as int), ..before });
        refilter(session);
        let close = match &self.editor {
            Some(e) => e.index == Some(i),
            None => false,
        };
        if close {
            self.editor = None;
        }
    }

    /// Save the open editor into the session and close it; for a filter that
    /// could not be loaded again, complain and keep it open. Does nothing when no
    /// editor is open.
    pub fn save(&mut self, session: &mut Session)
        requires
            old(self)@.editor matches Some(e) ==> e.fits(old(session)@),
        ensures
            match old(self)@.editor {
                None => final(self)@ == old(self)@ && final(session)@ == old(session)@,
                Some(e) => if e.filter(old(session)@).complaint() is Some {
                    &&& final(self)@ == (FiltersView {
                        error: e.filter(old(session)@).complaint(),
                        ..old(self)@
                    })
                    &&& final(session)@ == old(session)@
                } else {
                    &&& final(self)@ == (FiltersView { editor: None, error: None, ..old(self)@ })
                    &&& final(session)@ == refiltered(old(session)@, e.saved(old(session)@))
                },
            },
            filter::all_readable(old(session)@.filters) ==> filter::all_readable(
                final(session)@.filters,
            ),
    {
        let editor = match self.editor.take() {
            Some(e) => e,
            None => return,
        };
        let ghost before = session@;
        let (sysid, compid) = choices::ids_of_choice(&session.id_options, editor.id_choice);
        let name = if editor.type_choice == 0 {
            None
        } else {
            let t = &session.type_options[editor.type_choice - 1];
            assert(session@.type_options[editor.type_choice - 1] == t@);
            Some(text::string_of(&text::lowered(&text::chars_of(t.as_str()))))
        };
        let enabled = match editor.index {
            Some(i) => {
                assert(session@.filters[i as int] == session.filters@[i as int]@);
                session.filters[i].enabled
            },
            None => true,
        };
        let expr = FilterExpr {
            sysid,
            compid,
            name,
            exact: true,
            source: choices::source_from_choice(editor.source_choice),
            enabled,
        };
        assert(expr@ =~= editor@.filter(before));
        if let Some(error) = expr.complaint() {
            self.editor = Some(editor);
            self.error = Some(error);
            return;
        }
        proof {
            if filter::all_readable(before.filters) {
                law_saved_filters_are_readable(before, editor@);
            }
        }
        match editor.index {
            Some(i) => {
                session.filters.set(i, expr);
            },
            None => {
                session.filters.push(expr);
            },
        }
        assert(session@.filters =~= editor@.saved(before));
        assert(session@ =~= SessionView { filters: editor@.saved(before), ..before });
        refilter(session);
        self.error = None;
    }
}

/// Enable or disable a filter of the session.
pub fn set_enabled(session: &mut Session, i: usize, enabled: bool)
    requires
        i < old(session)@.filters.len(),
    ensures
        final(session)@ == refiltered(
            old(session)@,
            old(session)@.filters.update(
                i as int,
                FilterView { enabled, ..old(session)@.filters[i as int] },
            ),
        ),
{
    let ghost before = session@;
    let f = &session.filters[i];
    assert(before.filters[i as int] == f@);
    let next = FilterExpr {
        sysid: f.sysid,
        compid: f.compid,
        name: match &f.name {
            Some(n) => Some(n.clone()),
            None => None,
        },
        exact: f.exact,
        source: f.source,
        enabled,
    };
    session.filters.set(i, next);
    proof {
        let want = before.filters.update(
            i as int,
            FilterView { enabled, ..before.filters[i as int] },
        );
        assert(next@ =~= FilterView { enabled, ..before.filters[i as int] });
        assert(session@.filters =~= want);
        assert(session@ =~= SessionView { filters: want, ..before });
    }
    refilter(session);
}

/// The label of a filter in the side block: its text form without the '!', since
/// a checkbox conveys whether it is enabled.
pub open spec fn row_text(f: FilterView) -> Seq<char> {
    if f.text().len() > 0 && f.text()[0] == '!' {
        f.text().skip(1)
    } else {
        f.text()
    }
}

/// The label of a filter in the side block.
pub fn row_label(f: &FilterExpr) -> (r: String)
    ensures
        r@ == row_text(f@),
{
    let chars = text::chars_of(f.to_text().as_str());
    if chars.len() > 0 && chars[0] == '!' {
        let rest = vstd::slice::slice_subrange(&chars, 1, chars.len());
        assert(rest@ =~= f@.text().skip(1));
        text::string_of(rest)
    } else {
        text::string_of(&chars)
    }
}

/// How many messages pass the filters, e.g. "3 of 10 messages shown".
pub fn shown_label(session: &Session) -> (r: String)
    ensures
        r@ == numeral::decimal(session@.filtered.len()) + " of "@ + numeral::decimal(
            session@.entries.len(),
        ) + " messages shown"@,
{
    let mut r = numeral::decimal_text(session.filtered.len() as u64);
    r.append(" of ");
    numeral::push_decimal(&mut r, session.entries.len() as u128);
    r.append(" messages shown");
    assert(session@.entries.len() == session.entries@.len());
    r
}

/// The title of the add/edit popup.
pub fn editor_title(editor: &FilterEditor) -> (r: &'static str)
    ensures
        r@ == if editor@.index is Some {
            "Edit filter"@
        } else {
            "New filter"@
        },
{
    if editor.index.is_some() {
        "Edit filter"
    } else {
        "New filter"
    }
}

/// Every filter that the editor saves can be loaded again: the session's filters
/// are all readable when they were before.
pub proof fn law_saved_filters_are_readable(s: SessionView, e: FilterEditorView)
    requires
        filter::all_readable(s.filters),
        e.fits(s),
        e.filter(s).complaint() is None,
    ensures
        e.filter(s).readable(),
        filter::all_readable(refiltered(s, e.saved(s)).filters),
{
    let f = e.filter(s);
    if e.type_choice > 0 {
        text::lemma_case_twice(s.type_options[e.type_choice - 1]);
    }
    assert(f.readable());
    assert forall|i: int| 0 <= i < e.saved(s).len() implies (
    #[trigger] e.saved(s)[i]).readable() by {
        if i < s.filters.len() {
            assert(s.filters[i].readable());
        }
    }
}

/// Removing, enabling and disabling filters and restoring a setup keep the
/// filters of a session readable.
pub proof fn law_filters_stay_readable(s: SessionView, i: int, enabled: bool, u: SetupView)
    requires
        filter::all_readable(s.filters),
    ensures
        0 <= i < s.filters.len() ==> {
            &&& filter::all_readable(refiltered(s, s.filters.remove(i)).filters)
            &&& filter::all_readable(
                refiltered(
                    s,
                    s.filters.update(i, FilterView { enabled, ..s.filters[i] }),
                ).filters,
            )
        },
        filter::all_readable(s.with_setup(u).filters),
{
    if 0 <= i < s.filters.len() {
        let rest = s.filters.remove(i);
        assert forall|k: int| 0 <= k < rest.len() implies (#[trigger] rest[k]).readable() by {
            assert(rest[k] == if k < i {
                s.filters[k]
            } else {
                s.filters[k + 1]
            });
        }
        assert(s.filters[i].readable());
        let now = s.filters.update(i, FilterView { enabled, ..s.filters[i] });
        assert forall|k: int| 0 <= k < now.len() implies (#[trigger] now[k]).readable() by {
            assert(s.filters[k].readable());
        }
    }
    filter::law_line_is_readable(u.filter);
}

/// Opening the editor for a filter and saving it unchanged keeps an exact filter
/// on ids and a type that the log has.
pub proof fn law_unchanged_edit_keeps_filter(s: SessionView, i: int)
    requires
        0 <= i < s.filters.len() <= usize::MAX,
        s.filters[i].exact,
        (s.filters[i].sysid is Some) == (s.filters[i].compid is Some),
        s.filters[i].sysid matches Some(x) ==> (s.filters[i].compid matches Some(y)
            ==> s.id_options.contains((x, y))),
        s.filters[i].name matches Some(n) ==> text::lower(n) == n && exists|k: int|
            0 <= k < s.type_options.len() && text::lower(#[trigger] s.type_options[k]) == n,
        s.id_options.len() < usize::MAX,
        s.type_options.len() < usize::MAX,
    ensures
        editor_of(s, i).filter(s) == s.filters[i],
        editor_of(s, i).saved(s) == s.filters,
{
    let f = s.filters[i];
    if let (Some(x), Some(y)) = (f.sysid, f.compid) {
        choices::law_id_choice_reads_back(s.id_options, (x, y));
    }
    if let Some(n) = f.name {
        let k = choose|k: int|
            0 <= k < s.type_options.len() && text::lower(#[trigger] s.type_options[k]) == n;
        choices::lemma_name_index(s.type_options, n, k);
    }
    assert(editor_of(s, i).filter(s) =~= f);
    assert(editor_of(s, i).saved(s) =~= s.filters);
}

/// What an editor saves: an exact filter for the chosen ids, type and log, of which 0
/// leaves each open. A new filter is enabled and comes last; an edited one stays in its
/// place and enabled or not as it was. The other filters stay as they are.
pub proof fn law_saved_filter(e: FilterEditorView, s: SessionView, k: int)
    requires
        e.fits(s),
    ensures
        ({
            let f = e.filter(s);
            let list = e.saved(s);
            &&& e.id_choice == 0 ==> f.sysid is None && f.compid is None
            &&& e.id_choice > 0 ==> f.sysid == Some(s.id_options[e.id_choice - 1].0) && f.compid
                == Some(s.id_options[e.id_choice - 1].1)
            &&& e.type_choice == 0 ==> f.name is None
            &&& e.type_choice > 0 ==> f.name == Some(text::lower(s.type_options[e.type_choice - 1]))
            &&& e.source_choice == 1 ==> f.source == Some(crate::entry::LogSourceId::Primary)
            &&& e.source_choice == 2 ==> f.source == Some(crate::entry::LogSourceId::Secondary)
            &&& e.source_choice == 0 ==> f.source is None
            &&& f.exact
            &&& e.index is None ==> {
                &&& f.enabled
                &&& list.len() == s.filters.len() + 1 && list[s.filters.len() as int] == f
                &&& 0 <= k < s.filters.len() ==> list[k] == s.filters[k]
            }
            &&& e.index matches Some(i) ==> {
                &&& f.enabled == s.filters[i as int].enabled
                &&& list.len() == s.filters.len() && list[i as int] == f
                &&& 0 <= k < s.filters.len() && k != i ==> list[k] == s.filters[k]
            }
        }),
{
}

/// With new filters a session shows what they show, and its filter line is their text;
/// the log, the columns, the marks and the plots stay.
pub proof fn law_refiltered(s: SessionView, list: Seq<FilterView>)
    ensures
        ({
            let r = refiltered(s, list);
            &&& r.filters == list
            &&& r.filter_text == filter::list_text(list)
            &&& r.filtered == crate::browse::shown(list, s.entries, s.entries.len() as int)
            &&& r.selected == crate::browse::nearest_visible(r.filtered, s.current())
            &&& r.entries == s.entries && r.data == s.data && r.marks == s.marks
            &&& r.columns == s.columns && r.plots == s.plots && r.saved_setup == s.saved_setup
            &&& r.time_format == s.time_format && r.start_us == s.start_us
        }),
{
}

/// A filter is listed by its text, without the '!' of a disabled one.
pub proof fn law_row_text(f: FilterView)
    ensures
        f.text().len() > 0 && f.text()[0] == '!' ==> seq!['!'] + row_text(f) == f.text(),
        f.text().len() > 0 && f.text()[0] != '!' ==> row_text(f) == f.text(),
{
    if f.text().len() > 0 && f.text()[0] == '!' {
        assert(seq!['!'] + row_text(f) =~= f.text());
    }
}

/// The choice for a log gives the log back.
pub proof fn law_source_choice_reads_back(source: Option<crate::entry::LogSourceId>)
    ensures
        choices::source_chosen(choice_of_source(source) as int) == source,
        choice_of_source(None) == 0,
        choice_of_source(Some(crate::entry::LogSourceId::Primary)) == 1,
        choice_of_source(Some(crate::entry::LogSourceId::Secondary)) == 2,
{
}

/// A filter opens for editing with its own ids, type and log chosen; what is not offered
/// is open. A new one opens with everything open.
pub proof fn law_editor_shows_filter(s: SessionView, i: int, k: int)
    requires
        0 <= i < s.filters.len() <= usize::MAX,
        s.type_options.len() < usize::MAX,
    ensures
        ({
            let e = editor_of(s, i);
            let f = s.filters[i];
            &&& e.index == Some(i as usize)
            &&& e.source_choice == choice_of_source(f.source)
            &&& f.name is None ==> e.type_choice == 0
            &&& f.name matches Some(n) ==> {
                &&& (forall|j: int|
                    0 <= j < s.type_options.len() ==> text::lower(#[trigger] s.type_options[j])
                        != text::lower(n)) ==> e.type_choice == 0
                &&& 0 <= k < s.type_options.len() && text::lower(s.type_options[k]) == text::lower(
                    n,
                ) && (forall|j: int|
                    0 <= j < k ==> text::lower(#[trigger] s.type_options[j]) != text::lower(n))
                    ==> e.type_choice == k + 1
            }
            &&& f.sysid is None || f.compid is None ==> e.id_choice == 0
            &&& e.id_query.len() == 0 && e.type_query.len() == 0
        }),
        ({
            let b = blank_editor();
            &&& b.index is None && b.id_choice == 0 && b.type_choice == 0 && b.source_choice == 0
            &&& b.id_query.len() == 0 && b.type_query.len() == 0
        }),
{
    if let Some(n) = s.filters[i].name {
        choices::law_name_index(s.type_options, k, n);
    }
}

/// An editor fits a session where its choices and its filter exist.
pub proof fn law_fits(e: FilterEditorView, s: SessionView)
    ensures
        e.fits(s) <==> e.id_choice < s.id_options.len() + 1 && e.type_choice < s.type_options.len()
            + 1 && (e.index is None || e.index->Some_0 < s.filters.len()),
{
}

} // verus!
