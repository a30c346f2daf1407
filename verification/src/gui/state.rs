//! The state of the whole frontend: an optional session (none until a file is
//! opened) plus what belongs to the windows around it.

use vstd::prelude::*;
use crate::gui::columns::{ColumnsState, ColumnsView};
use crate::gui::filters::{FiltersState, FiltersView};
use crate::gui::guard::{Guard, GuardView};
use crate::gui::plots::{PlotsState, PlotsView};
use crate::gui::plots;
use crate::session::{Session, SessionView};
use crate::{numeral, setup, value};

verus! {

/// The jump-to-time box of the toolbar.
pub struct JumpBox {
    pub input: String,
    /// Set when the input fails to parse.
    pub error: Option<String>,
    /// Set by the jump-focus shortcut; the toolbar requests focus on the box
    /// next time it's drawn, then clears this.
    pub focus: bool,
}

/// What the jump box holds.
#[verifier::ext_equal]
pub struct JumpView {
    pub input: Seq<char>,
    pub error: Option<Seq<char>>,
    pub focus: bool,
}

impl View for JumpBox {
    type V = JumpView;

    open spec fn view(&self) -> JumpView {
        JumpView { input: self.input@, error: value::text_of(self.error), focus: self.focus }
    }
}

/// The window that labels a mark.
pub struct LabelBox {
    /// Entry index currently being labeled, if the window is open.
    pub prompt: Option<usize>,
    pub input: String,
    /// Focus the text box when the window next opens.
    pub focus: bool,
}

/// What the label window holds.
#[verifier::ext_equal]
pub struct LabelView {
    pub prompt: Option<usize>,
    pub input: Seq<char>,
    pub focus: bool,
}

impl View for LabelBox {
    type V = LabelView;

    open spec fn view(&self) -> LabelView {
        LabelView { prompt: self.prompt, input: self.input@, focus: self.focus }
    }
}

/// The message list on the screen.
#[derive(Clone, Copy, Debug, PartialEq, Eq, Structural)]
pub struct ListState {
    /// When true, the list should scroll the selection into view next frame,
    /// then clear itself. Set by keyboard nav and jump-to-time, not by mouse
    /// clicks (so a click never fights the user for scroll position).
    pub scroll_to_selected: bool,
    /// Rows visible in the list on the last frame, for Page Up/Down.
    pub visible_rows: usize,
}

/// Which windows are open.
#[derive(Clone, Copy, Debug, PartialEq, Eq, Structural)]
pub struct Windows {
    pub columns_open: bool,
    pub settings_open: bool,
    /// Focus the Settings window's first control when it next opens.
    pub settings_focus: bool,
    pub help_open: bool,
}

/// Which side blocks are collapsed to just their header.
#[derive(Clone, Copy, Debug, PartialEq, Eq, Structural)]
pub struct Collapsed {
    pub filters: bool,
    pub plots: bool,
    pub marks: bool,
}

/// What is remembered of the previous frame.
#[derive(Clone, Copy, Debug, PartialEq, Eq, Structural)]
pub struct LastFrame {
    /// Whether a *text box* had keyboard focus: the Esc that released it must
    /// not also close a window.
    pub text_focused: bool,
    /// Whether Tab was pressed; only focus that *Tab* moved is pulled back into
    /// a popup, never focus the user clicked somewhere on purpose.
    pub tab_pressed: bool,
}

/// State of the frontend.
pub struct GuiState {
    pub session: Option<Session>,
    /// Transient status line (e.g. setup load result).
    pub status: Option<String>,
    /// Set when a file fails to open; shown in a modal until dismissed.
    pub error: Option<String>,
    pub jump: JumpBox,
    pub label: LabelBox,
    pub list: ListState,
    pub filters: FiltersState,
    pub columns: ColumnsState,
    pub plots: PlotsState,
    pub windows: Windows,
    pub collapsed: Collapsed,
    pub last_frame: LastFrame,
    pub guard: Guard,
}

/// What the state of the frontend holds.
#[verifier::ext_equal]
pub struct GuiView {
    pub session: Option<SessionView>,
    pub status: Option<Seq<char>>,
    pub error: Option<Seq<char>>,
    pub jump: JumpView,
    pub label: LabelView,
    pub list: ListState,
    pub filters: FiltersView,
    pub columns: ColumnsView,
    pub plots: PlotsView,
    pub windows: Windows,
    pub collapsed: Collapsed,
    pub last_frame: LastFrame,
    pub guard: GuardView,
}

/// What an optional session holds.
pub open spec fn session_view(s: Option<Session>) -> Option<SessionView> {
    match s {
        Some(s) => Some(s@),
        None => None,
    }
}

impl View for GuiState {
    type V = GuiView;

    open spec fn view(&self) -> GuiView {
        GuiView {
            session: session_view(self.session),
            status: value::text_of(self.status),
            error: value::text_of(self.error),
            jump: self.jump@,
            label: self.label@,
            list: self.list,
            filters: self.filters@,
            columns: self.columns@,
            plots: self.plots@,
            windows: self.windows,
            collapsed: self.collapsed,
            last_frame: self.last_frame,
            guard: self.guard@,
        }
    }
}

/// The state of a frontend that was just started.
pub open spec fn started(session: Option<SessionView>, status: Option<Seq<char>>) -> GuiView {
    GuiView {
        session,
        status,
        error: None,
        jump: JumpView { input: seq![], error: None, focus: false },
        label: LabelView { prompt: None, input: seq![], focus: false },
        list: ListState { scroll_to_selected: false, visible_rows: 20 },
        filters: FiltersView { editor: None, focus_on_open: false, error: None },
        columns: ColumnsView { editor: None, error: None, focus_on_open: false },
        plots: plots::nothing_open(),
        windows: Windows {
            columns_open: false,
            settings_open: false,
            settings_focus: false,
            help_open: false,
        },
        collapsed: Collapsed { filters: false, plots: false, marks: false },
        last_frame: LastFrame { text_focused: false, tab_pressed: false },
        guard: GuardView { pending: None, allow_close: false },
    }
}

impl GuiView {
    /// Whether there is a session with unsaved changes.
    pub open spec fn unsaved(self) -> bool {
        self.session matches Some(s) && s.dirty()
    }

    /// The state once another file is open.
    pub open spec fn with_file(self, s: SessionView, status: Option<Seq<char>>) -> GuiView {
        GuiView {
            session: Some(s),
            status,
            error: None,
            list: ListState { scroll_to_selected: true, ..self.list },
            filters: FiltersView { editor: None, error: None, ..self.filters },
            plots: plots::nothing_open(),
            ..self
        }
    }

    /// The state after the setup sidecar was written, or after writing it failed:
    /// the status tells which.
    pub open spec fn after_save(self, written: Result<(), String>) -> GuiView {
        match self.session {
            Some(s) => GuiView {
                session: Some(s.after_save(written is Ok)),
                status: Some(
                    match written {
                        Ok(_) => "Setup saved to "@ + setup::sidecar(s.path),
                        Err(e) => "Failed to save "@ + setup::sidecar(s.path) + ": "@ + e@,
                    },
                ),
                ..self
            },
            None => self,
        }
    }
}

/// Take note of what came of writing the setup of a session.
fn save_session(session: &mut Option<Session>, written: Result<(), String>) -> (r: Option<
    Result<String, String>,
>)
    ensures
        match session_view(*old(session)) {
            Some(s) => {
                &&& session_view(*final(session)) == Some(s.after_save(written is Ok))
                &&& match written {
                    Ok(_) => r matches Some(Ok(path)) && path@ == setup::sidecar(s.path),
                    Err(err) => r matches Some(Err(e)) && e@ == "Failed to save "@
                        + setup::sidecar(s.path) + ": "@ + err@,
                }
            },
            None => session_view(*final(session)) is None && r is None,
        },
{
    match session.take() {
        Some(mut s) => {
            let r = s.save_setup(written);
            *session = Some(s);
            Some(r)
        },
        None => None,
    }
}

impl GuiState {
    /// A frontend that was just started, with the session to show, if any, and
    /// what came of loading its setup.
    pub fn new(session: Option<Session>, status: Option<String>) -> (r: GuiState)
        ensures
            r@ == started(session_view(session), value::text_of(status)),
    {
        let r = GuiState {
            session,
            status,
            error: None,
            jump: JumpBox { input: String::new(), error: None, focus: false },
            label: LabelBox { prompt: None, input: String::new(), focus: false },
            list: ListState { scroll_to_selected: false, visible_rows: 20 },
            filters: FiltersState::default(),
            columns: ColumnsState::default(),
            plots: PlotsState::default(),
            windows: Windows {
                columns_open: false,
                settings_open: false,
                settings_focus: false,
                help_open: false,
            },
            collapsed: Collapsed { filters: false, plots: false, marks: false },
            last_frame: LastFrame { text_focused: false, tab_pressed: false },
            guard: Guard::default(),
        };
        assert(r@ =~= started(session_view(session), value::text_of(status)));
        r
    }

    /// The title in the toolbar: the open file and how many messages it has.
    pub fn title(&self) -> (r: String)
        ensures
            r@ == match self@.session {
                Some(s) => s.path + "  —  "@ + numeral::decimal(s.entries.len()) + " messages"@,
                None => "No file open"@,
            },
    {
        match &self.session {
            Some(s) => {
                let mut r = s.path.clone();
                r.append("  —  ");
                numeral::push_decimal(&mut r, s.entries.len() as u128);
                r.append(" messages");
                r
            },
            None => "No file open".to_string(),
        }
    }

    /// Whether there is a session with unsaved changes.
    pub fn has_unsaved(&self) -> (r: bool)
        ensures
            r == self@.unsaved(),
    {
        match &self.session {
            Some(s) => s.is_dirty(),
            None => false,
        }
    }

    /// Show a file that was loaded, with what came of loading its setup.
    pub fn opened(&mut self, session: Session, status: Option<String>)
        ensures
            final(self)@ == old(self)@.with_file(session@, value::text_of(status)),
    {
        self.status = status;
        self.filters.cancel_editor();
        self.session = Some(session);
        self.error = None;
        self.list.scroll_to_selected = true;
        // The extracted points are keyed by index into the old file's plots.
        self.plots.reset();
    }

    /// Report that a file could not be opened.
    pub fn open_failed(&mut self, message: String)
        ensures
            final(self)@ == (GuiView { error: Some(message@), ..old(self)@ }),
    {
        self.error = Some(message);
    }

    /// Dismiss the error.
    pub fn dismiss_error(&mut self)
        ensures
            final(self)@ == (GuiView { error: None, ..old(self)@ }),
    {
        self.error = None;
    }

    /// Take note of what came of writing the setup sidecar, and show it in the
    /// status bar.
    pub fn setup_written(&mut self, written: Result<(), String>)
        ensures
            final(self)@ == old(self)@.after_save(written),
    {
        match save_session(&mut self.session, written) {
            Some(Ok(path)) => {
                let mut t = "Setup saved to ".to_string();
                t.append(path.as_str());
                self.status = Some(t);
            },
            Some(Err(e)) => {
                self.status = Some(e);
            },
            None => {},
        }
    }

    /// Remember what the next frame needs of this one.
    pub fn end_frame(&mut self, text_focused: bool, tab_pressed: bool)
        ensures
            final(self)@ == (GuiView {
                last_frame: LastFrame { text_focused, tab_pressed },
                ..old(self)@
            }),
    {
        self.last_frame = LastFrame { text_focused, tab_pressed };
    }
}

/// A window starts with nothing open, nothing pending and 20 visible rows.
pub proof fn law_started(session: Option<SessionView>, status: Option<Seq<char>>)
    ensures
        ({
            let g = started(session, status);
            &&& g.session == session && g.status == status && g.error is None
            &&& g.list.visible_rows == 20 && !g.list.scroll_to_selected
            &&& g.label.prompt is None && g.filters.editor is None && g.columns.editor is None
            &&& g.plots.editor is None && g.plots.open == Set::<usize>::empty()
            &&& !g.windows.columns_open && !g.windows.settings_open && !g.windows.help_open
            &&& g.guard.pending is None && !g.guard.allow_close
            &&& !g.collapsed.filters && !g.collapsed.plots && !g.collapsed.marks
        }),
{
}

/// A newly loaded file replaces the session and its status, takes away the error, closes
/// the filter editor and every plot, and scrolls to the selected message.
pub proof fn law_new_file(g: GuiView, s: SessionView, status: Option<Seq<char>>)
    ensures
        ({
            let r = g.with_file(s, status);
            &&& r.session == Some(s) && r.status == status && r.error is None
            &&& r.list.scroll_to_selected && r.list.visible_rows == g.list.visible_rows
            &&& r.filters.editor is None && r.filters.error is None
            &&& r.plots.editor is None && r.plots.open == Set::<usize>::empty()
            &&& r.plots.cache == Map::<usize, Seq<crate::plot::DataView>>::empty()
            &&& r.windows == g.windows && r.guard == g.guard && r.collapsed == g.collapsed
        }),
{
}

/// Changes are unsaved where there is a session that differs from what was saved.
pub proof fn law_unsaved(g: GuiView)
    ensures
        g.session is None ==> !g.unsaved(),
        g.session matches Some(s) ==> g.unsaved() == s.dirty(),
{
}

/// After a save the status tells where the setup went, or why it did not; the session
/// counts as saved only in the first case.
pub proof fn law_save_is_told(g: GuiView, written: Result<(), String>)
    ensures
        g.session is None ==> g.after_save(written) == g,
        g.session matches Some(s) ==> {
            let r = g.after_save(written);
            &&& written is Ok ==> r.session == Some(
                SessionView { saved_setup: s.setup(), ..s },
            ) && r.status == Some("Setup saved to "@ + setup::sidecar(s.path))
            &&& written matches Err(e) ==> r.session == Some(s) && r.status == Some(
                "Failed to save "@ + setup::sidecar(s.path) + ": "@ + e@,
            )
            &&& r.error == g.error && r.guard == g.guard && r.plots == g.plots
        },
{
}

} // verus!
