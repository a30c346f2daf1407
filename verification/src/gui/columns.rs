//! The Columns window: view, add, edit and remove the columns of a session.

use vstd::prelude::*;
use crate::column::{ColumnView, CustomColumn};
use crate::gui::{choices, filters};
use crate::session::{Session, SessionView};
use crate::setup::SetupView;
use crate::{browse, column, text, value};

verus! {

/// Open editor for a single custom column (name/id/type/field).
pub struct ColumnEditor {
    /// Index of the column being edited, or None when adding a new one.
    pub index: Option<usize>,
    pub name: String,
    /// 0 = any, otherwise 1 + index into `Session::id_options`.
    pub id_choice: usize,
    /// Index into `Session::type_options` (a type is required).
    pub type_choice: usize,
    pub field: String,
    /// 0 = any, 1 = primary (tlog), 2 = secondary (bin). Only used when merged.
    pub source_choice: usize,
    pub id_query: String,
    pub type_query: String,
    pub field_query: String,
}

/// What a column editor holds.
#[verifier::ext_equal]
pub struct ColumnEditorView {
    pub index: Option<usize>,
    pub name: Seq<char>,
    pub id_choice: usize,
    pub type_choice: usize,
    pub field: Seq<char>,
    pub source_choice: usize,
    pub id_query: Seq<char>,
    pub type_query: Seq<char>,
    pub field_query: Seq<char>,
}

impl View for ColumnEditor {
    type V = ColumnEditorView;

    open spec fn view(&self) -> ColumnEditorView {
        ColumnEditorView {
            index: self.index,
            name: self.name@,
            id_choice: self.id_choice,
            type_choice: self.type_choice,
            field: self.field@,
            source_choice: self.source_choice,
            id_query: self.id_query@,
            type_query: self.type_query@,
            field_query: self.field_query@,
        }
    }
}

/// State for the Columns window.
pub struct ColumnsState {
    pub editor: Option<ColumnEditor>,
    /// Set when Save is pressed without a field chosen.
    pub error: Option<String>,
    /// Focus the window's first button on the next frame, so keyboard
    /// (Tab/Enter) navigation starts inside a freshly opened window.
    pub focus_on_open: bool,
}

/// What the state of the Columns window holds.
#[verifier::ext_equal]
pub struct ColumnsView {
    pub editor: Option<ColumnEditorView>,
    pub error: Option<Seq<char>>,
    pub focus_on_open: bool,
}

/// What an optional editor holds.
pub open spec fn editor_view(e: Option<ColumnEditor>) -> Option<ColumnEditorView> {
    match e {
        Some(e) => Some(e@),
        None => None,
    }
}

impl View for ColumnsState {
    type V = ColumnsView;

    open spec fn view(&self) -> ColumnsView {
        ColumnsView {
            editor: editor_view(self.editor),
            error: value::text_of(self.error),
            focus_on_open: self.focus_on_open,
        }
    }
}

/// The editor for a new column.
pub open spec fn blank_editor() -> ColumnEditorView {
    ColumnEditorView {
        index: None,
        name: seq![],
        id_choice: 0,
        type_choice: 0,
        field: seq![],
        source_choice: 0,
        id_query: seq![],
        type_query: seq![],
        field_query: seq![],
    }
}

/// The type choice for a type name: its position among the options in any case,
/// or the first one.
pub open spec fn type_choice(options: Seq<Seq<char>>, name: Seq<char>) -> usize {
    if choices::name_index(options, name) < options.len() {
        choices::name_index(options, name) as usize
    } else {
        0
    }
}

/// The editor for an existing column.
pub open spec fn editor_of(s: SessionView, i: int) -> ColumnEditorView {
    let c = s.columns[i];
    ColumnEditorView {
        index: Some(i as usize),
        name: c.name,
        id_choice: choices::id_choice(s.id_options, c.sysid, c.compid) as usize,
        type_choice: type_choice(s.type_options, c.msg_type),
        field: c.field,
        source_choice: filters::choice_of_source(c.source),
        ..blank_editor()
    }
}

impl ColumnEditorView {
    /// Whether the choices are among the options of the session.
    pub open spec fn fits(self, s: SessionView) -> bool {
        &&& self.id_choice <= s.id_options.len()
        &&& self.type_choice < s.type_options.len()
        &&& self.index matches Some(i) ==> i < s.columns.len()
    }

    /// The column that the editor describes: an unnamed one is named after its
    /// field.
    pub open spec fn column(self, s: SessionView) -> ColumnView {
        let (sysid, compid) = choices::ids_chosen(s.id_options, self.id_choice as int);
        ColumnView {
            name: if text::trim(self.name).len() == 0 {
                self.field
            } else {
                text::trim(self.name)
            },
            sysid,
            compid,
            msg_type: text::upper(s.type_options[self.type_choice as int]),
            field: self.field,
            source: choices::source_chosen(self.source_choice as int),
            matches: seq![],
        }
    }

    /// The columns after the editor was saved.
    pub open spec fn saved(self, s: SessionView) -> Seq<ColumnView> {
        match self.index {
            Some(i) => s.columns.update(i as int, self.column(s)),
            None => s.columns.push(self.column(s)),
        }
    }

    /// The editor after a type was chosen: fields belong to a type, so another
    /// type clears the field.
    pub open spec fn with_type(self, choice: usize) -> ColumnEditorView {
        if choice == self.type_choice {
            self
        } else {
            ColumnEditorView { type_choice: choice, field: seq![], ..self }
        }
    }
}

/// The session with other columns, indexed anew.
pub open spec fn recolumned(s: SessionView, columns: Seq<ColumnView>) -> SessionView {
    SessionView {
        columns: browse::all_indexed(columns, s.entries),
        columns_text: column::list_text(columns),
        ..s
    }
}

/// The editor for a new or an existing column.
fn editor_for(session: &Session, index: Option<usize>) -> (r: ColumnEditor)
    requires
        index matches Some(i) ==> i < session@.columns.len(),
    ensures
        r@ == match index {
            Some(i) => editor_of(session@, i as int),
            None => blank_editor(),
        },
{
    match index {
        Some(i) => {
            let c = &session.columns[i];
            assert(session@.columns[i as int] == c@);
            let at = choices::find_name(&session.type_options, c.msg_type.as_str());
            let r = ColumnEditor {
                index,
                name: c.name.clone(),
                id_choice: choices::choice_of_ids(&session.id_options, c.sysid, c.compid),
                type_choice: if at < session.type_options.len() {
                    at
                } else {
                    0
                },
                field: c.field.clone(),
                source_choice: choices::source_choice(c.source),
                id_query: String::new(),
                type_query: String::new(),
                field_query: String::new(),
            };
            assert(r@ =~= editor_of(session@, i as int));
            r
        },
        None => {
            let r = ColumnEditor {
                index,
                name: String::new(),
                id_choice: 0,
                type_choice: 0,
                field: String::new(),
                source_choice: 0,
                id_query: String::new(),
                type_query: String::new(),
                field_query: String::new(),
            };
            assert(r@ =~= blank_editor());
            r
        },
    }
}

/// The columns of a session, left empty behind.
fn take_columns(session: &mut Session) -> (r: Vec<CustomColumn>)
    ensures
        column::column_views(r@) == old(session)@.columns,
        final(session)@ == (SessionView { columns: seq![], ..old(session)@ }),
{
    let mut columns: Vec<CustomColumn> = Vec::new();
    std::mem::swap(&mut columns, &mut session.columns);
    assert(session@.columns =~= seq![]);
    columns
}

impl ColumnEditor {
    /// Choose a type; fields belong to a type, so another type clears the
    /// field.
    pub fn choose_type(&mut self, choice: usize)
        ensures
            final(self)@ == old(self)@.with_type(choice),
    {
        if choice != self.type_choice {
            self.type_choice = choice;
            self.field = String::new();
            assert(self@ =~= old(self)@.with_type(choice));
        }
    }

    /// What the field dropdown shows as chosen.
    pub fn field_label(&self) -> (r: String)
        ensures
            r@ == if self@.field.len() == 0 {
                "(pick a field)"@
            } else {
                self@.field
            },
    {
        let chars = text::chars_of(self.field.as_str());
        if chars.len() == 0 {
            "(pick a field)".to_string()
        } else {
            self.field.clone()
        }
    }
}

impl Default for ColumnsState {
    fn default() -> (r: ColumnsState)
        ensures
            r@ == (ColumnsView { editor: None, error: None, focus_on_open: false }),
    {
        ColumnsState { editor: None, error: None, focus_on_open: false }
    }
}

impl ColumnsState {
    /// Whether an "add"/"edit" editor is currently open (used by the
    /// layered Esc handler: cancel the editor before closing the window).
    pub fn has_editor(&self) -> (r: bool)
        ensures
            r == self@.editor is Some,
    {
        self.editor.is_some()
    }

    /// Close the editor.
    pub fn cancel_editor(&mut self)
        ensures
            final(self)@ == (ColumnsView { editor: None, error: None, ..old(self)@ }),
    {
        self.editor = None;
        self.error = None;
    }

    /// Ask the window to grab keyboard focus when it is next shown.
    pub fn grab_focus(&mut self)
        ensures
            final(self)@ == (ColumnsView { focus_on_open: true, ..old(self)@ }),
    {
        self.focus_on_open = true;
    }

    /// Open the editor for a new column.
    pub fn open_add(&mut self, session: &Session)
        ensures
            final(self)@ == (ColumnsView {
                editor: Some(blank_editor()),
                error: None,
                ..old(self)@
            }),
    {
        self.editor = Some(editor_for(session, None));
        self.error = None;
    }

    /// Open the editor for an existing column.
    pub fn open_edit(&mut self, session: &Session, i: usize)
        requires
            i < session@.columns.len(),
        ensures
            final(self)@ == (ColumnsView {
                editor: Some(editor_of(session@, i as int)),
                error: None,
                ..old(self)@
            }),
    {
        self.editor = Some(editor_for(session, Some(i)));
        self.error = None;
    }

    /// Remove a column from the session; an editor open for it closes.
    pub fn remove(&mut self, session: &mut Session, i: usize)
        requires
            i < old(session)@.columns.len(),
        ensures
            final(session)@ == recolumned(old(session)@, old(session)@.columns.remove(i as int)),
            final(self)@ == (ColumnsView {
                editor: match old(self)@.editor {
                    Some(e) => if e.index == Some(i) {
                        None
                    } else {
                        Some(e)
                    },
                    None => None,
                },
                ..old(self)@
            }),
    {
        let ghost before = session@;
        let mut columns = take_columns(session);
        let ghost all = columns@;
        columns.remove(i);
        assert(column::column_views(columns@) =~= column::column_views(all).remove(i as int));
        session.set_columns(columns);
        assert(session@ =~= recolumned(before, before.columns.remove(i as int)));
        let close = match &self.editor {
            Some(e) => e.index == Some(i),
            None => false,
        };
        if close {
            self.editor = None;
        }
    }

    /// Save the open editor into the session and close it; without a field
    /// chosen, or for a column that could not be loaded again, complain and keep
    /// it open. Does nothing when no editor is open.
    pub fn save(&mut self, session: &mut Session)
        requires
            old(self)@.editor matches Some(e) ==> e.field.len() > 0 ==> e.fits(old(session)@),
        ensures
            match old(self)@.editor {
                None => final(self)@ == old(self)@ && final(session)@ == old(session)@,
                Some(e) => if e.field.len() == 0 {
                    &&& final(self)@ == (ColumnsView {
                        error: Some("Pick a message field before saving"@),
                        ..old(self)@
                    })
                    &&& final(session)@ == old(session)@
                } else if e.column(old(session)@).complaint() is Some {
                    &&& final(self)@ == (ColumnsView {
                        error: e.column(old(session)@).complaint(),
                        ..old(self)@
                    })
                    &&& final(session)@ == old(session)@
                } else {
                    &&& final(self)@ == (ColumnsView { editor: None, error: None, ..old(self)@ })
                    &&& final(session)@ == recolumned(old(session)@, e.saved(old(session)@))
                },
            },
            column::all_readable(old(session)@.columns) ==> column::all_readable(
                final(session)@.columns,
            ),
    {
        let picked = match &self.editor {
            Some(e) => text::chars_of(e.field.as_str()).len() > 0,
            None => return,
        };
        if !picked {
            self.error = Some("Pick a message field before saving".to_string());
            return;
        }
        let editor = match self.editor.take() {
            Some(e) => e,
            None => return,
        };
        let ghost before = session@;
        let chars = text::chars_of(editor.name.as_str());
        let trimmed = text::trimmed(&chars);
        let name = if trimmed.len() == 0 {
            editor.field.clone()
        } else {
            text::string_of(trimmed)
        };
        let (sysid, compid) = choices::ids_of_choice(&session.id_options, editor.id_choice);
        assert(before.type_options[editor.type_choice as int]
            == session.type_options@[editor.type_choice as int]@);
        let c = CustomColumn {
            name,
            sysid,
            compid,
            msg_type: text::string_of(
                &text::uppered(
                    &text::chars_of(session.type_options[editor.type_choice].as_str()),
                ),
            ),
            field: editor.field.clone(),
            source: choices::source_from_choice(editor.source_choice),
            matches: Vec::new(),
        };
        assert(c@ =~= editor@.column(before));
        if let Some(error) = c.complaint() {
            self.editor = Some(editor);
            self.error = Some(error);
            return;
        }
        proof {
            if column::all_readable(before.columns) {
                law_saved_columns_are_readable(before, editor@);
            }
        }
        let mut columns = take_columns(session);
        match editor.index {
            Some(i) => {
                columns.set(i, c);
            },
            None => {
                columns.push(c);
            },
        }
        assert(column::column_views(columns@) =~= editor@.saved(before));
        session.set_columns(columns);
        assert(session@ =~= recolumned(before, editor@.saved(before)));
        self.error = None;
    }
}

/// Every column that the editor saves can be loaded again: the session's columns
/// are all readable when they were before.
pub proof fn law_saved_columns_are_readable(s: SessionView, e: ColumnEditorView)
    requires
        column::all_readable(s.columns),
        e.fits(s),
        e.field.len() > 0,
        e.column(s).complaint() is None,
    ensures
        e.column(s).readable(),
        column::all_readable(recolumned(s, e.saved(s)).columns),
{
    let c = e.column(s);
    text::lemma_trim_edges(e.name);
    text::lemma_case_twice(s.type_options[e.type_choice as int]);
    if text::trim(e.name).len() == 0 {
        assert(text::is_solid(c.field));
    }
    assert(c.readable());
    assert(column::all_readable(e.saved(s))) by {
        assert forall|i: int| 0 <= i < e.saved(s).len() implies (
        #[trigger] e.saved(s)[i]).readable() by {
            if i < s.columns.len() {
                assert(s.columns[i].readable());
            }
        }
    }
    lemma_indexed_readable(s, e.saved(s));
}

/// Indexing columns does not change whether they can be read back.
proof fn lemma_indexed_readable(s: SessionView, columns: Seq<ColumnView>)
    requires
        column::all_readable(columns),
    ensures
        column::all_readable(recolumned(s, columns).columns),
{
    let now = recolumned(s, columns).columns;
    assert forall|i: int| 0 <= i < now.len() implies (#[trigger] now[i]).readable() by {
        assert(columns[i].readable());
    }
}

/// Removing a column and restoring a setup keep the columns of a session
/// readable.
pub proof fn law_columns_stay_readable(s: SessionView, i: int, u: SetupView)
    requires
        column::all_readable(s.columns),
    ensures
        0 <= i < s.columns.len() ==> column::all_readable(
            recolumned(s, s.columns.remove(i)).columns,
        ),
        column::all_readable(s.with_setup(u).columns),
{
    if 0 <= i < s.columns.len() {
        let rest = s.columns.remove(i);
        assert forall|k: int| 0 <= k < rest.len() implies (#[trigger] rest[k]).readable() by {
            assert(rest[k] == if k < i {
                s.columns[k]
            } else {
                s.columns[k + 1]
            });
        }
        lemma_indexed_readable(s, rest);
    }
    column::law_line_is_readable(u.columns);
    if let Ok(list) = column::columns_of(u.columns) {
        lemma_indexed_readable(s, list);
    }
}

/// A type choice stands for the type it was made for, in any case.
pub proof fn lemma_type_choice(options: Seq<Seq<char>>, name: Seq<char>)
    requires
        choices::listed(options, name),
        options.len() <= usize::MAX,
    ensures
        type_choice(options, name) < options.len(),
        text::same_ignoring_case(options[type_choice(options, name) as int], name),
{
    let k = choose|k: int|
        0 <= k < options.len() && text::same_ignoring_case(#[trigger] options[k], name);
    choices::lemma_name_index(options, name, k);
}

/// Opening the editor for a column and saving it unchanged keeps a column on ids
/// and a type that the log has, with the type's name in uppercase.
pub proof fn law_unchanged_edit_keeps_column(s: SessionView, i: int)
    requires
        0 <= i < s.columns.len() <= usize::MAX,
        choices::offered(s.id_options, s.columns[i].sysid, s.columns[i].compid),
        choices::listed(s.type_options, s.columns[i].msg_type),
        text::trim(s.columns[i].name) == s.columns[i].name,
        s.columns[i].name.len() > 0,
        s.id_options.len() < usize::MAX,
        s.type_options.len() <= usize::MAX,
    ensures
        editor_of(s, i).fits(s),
        editor_of(s, i).column(s) == (ColumnView {
            msg_type: text::upper(s.columns[i].msg_type),
            matches: seq![],
            ..s.columns[i]
        }),
{
    let c = s.columns[i];
    if let (Some(x), Some(y)) = (c.sysid, c.compid) {
        choices::law_id_choice_reads_back(s.id_options, (x, y));
    }
    lemma_type_choice(s.type_options, c.msg_type);
    let chosen = s.type_options[editor_of(s, i).type_choice as int];
    text::lemma_case_twice(chosen);
    text::lemma_case_twice(c.msg_type);
    assert(text::upper(chosen) == text::upper(text::lower(c.msg_type)));
}

/// What an editor saves: a column for the chosen ids, type, field and log, with the type
/// in uppercase, named as entered or by its field where the name is blank. A new column
/// comes last, an edited one stays in its place, and the others stay as they are.
pub proof fn law_saved_column(e: ColumnEditorView, s: SessionView, k: int)
    requires
        e.fits(s),
    ensures
        ({
            let c = e.column(s);
            let list = e.saved(s);
            &&& e.id_choice == 0 ==> c.sysid is None && c.compid is None
            &&& e.id_choice > 0 ==> c.sysid == Some(s.id_options[e.id_choice - 1].0) && c.compid
                == Some(s.id_options[e.id_choice - 1].1)
            &&& c.msg_type == text::upper(s.type_options[e.type_choice as int])
            &&& c.field == e.field
            &&& text::trim(e.name).len() > 0 ==> c.name == text::trim(e.name)
            &&& text::trim(e.name).len() == 0 ==> c.name == e.field
            &&& e.source_choice == 1 ==> c.source == Some(crate::entry::LogSourceId::Primary)
            &&& e.source_choice == 2 ==> c.source == Some(crate::entry::LogSourceId::Secondary)
            &&& e.source_choice == 0 ==> c.source is None
            &&& e.index is None ==> {
                &&& list.len() == s.columns.len() + 1 && list[s.columns.len() as int] == c
                &&& 0 <= k < s.columns.len() ==> list[k] == s.columns[k]
            }
            &&& e.index matches Some(i) ==> {
                &&& list.len() == s.columns.len() && list[i as int] == c
                &&& 0 <= k < s.columns.len() && k != i ==> list[k] == s.columns[k]
            }
        }),
{
}

/// Another type drops the field that was chosen, the same type keeps it.
pub proof fn law_new_type_drops_field(e: ColumnEditorView, choice: usize)
    ensures
        e.with_type(e.type_choice) == e,
        choice != e.type_choice ==> e.with_type(choice).field.len() == 0,
        e.with_type(choice).type_choice == choice,
        e.with_type(choice).name == e.name && e.with_type(choice).id_choice == e.id_choice
            && e.with_type(choice).index == e.index,
{
}

/// With new columns a session has them indexed and their text as its columns line; all
/// else stays.
pub proof fn law_recolumned(s: SessionView, list: Seq<ColumnView>)
    ensures
        recolumned(s, list) == (SessionView {
            columns: browse::all_indexed(list, s.entries),
            columns_text: column::list_text(list),
            ..s
        }),
{
}

} // verus!
