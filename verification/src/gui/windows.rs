//! Windows, commands and keyboard focus.

use vstd::prelude::*;
use crate::gui::columns::ColumnsView;
use crate::gui::filters::FiltersView;
use crate::gui::guard::{Effect, EffectView};
use crate::gui::plots::PlotsView;
use crate::gui::state::{Collapsed, GuiState, GuiView, JumpView, LabelView, Windows};
use crate::gui::{filters, plots};
use crate::session::SessionView;
use crate::time::TimeFormat;
use crate::marks;

verus! {

/// A command of the toolbar, given by a modifier shortcut or a plain letter.
#[derive(Clone, Copy, Debug, PartialEq, Eq, Structural)]
pub enum Command {
    Quit,
    Open,
    Save,
    Jump,
    Filter,
    Columns,
    Plot,
    Settings,
    Help,
}

/// A side block under the detail pane.
#[derive(Clone, Copy, Debug, PartialEq, Eq, Structural)]
pub enum Block {
    Marks,
    Plots,
    Filters,
}

/// One for true, zero for false.
pub open spec fn one_if(b: bool) -> int {
    if b {
        1
    } else {
        0
    }
}

impl GuiView {
    /// The state with a blank filter editor, where a file is open.
    pub open spec fn adding_filter(self) -> GuiView {
        if self.session is Some {
            GuiView {
                filters: FiltersView {
                    editor: Some(filters::blank_editor()),
                    focus_on_open: true,
                    error: None,
                },
                ..self
            }
        } else {
            self
        }
    }

    /// The state with a blank plot dialog, where a file is open.
    pub open spec fn adding_plot(self) -> GuiView {
        if self.session is Some {
            GuiView { plots: self.plots.editing(plots::blank_editor()), ..self }
        } else {
            self
        }
    }

    /// The state with the Columns window open or closed; when it opens, it grabs
    /// the keyboard focus.
    pub open spec fn columns_shown(self, open: bool) -> GuiView {
        GuiView {
            windows: Windows { columns_open: open, ..self.windows },
            columns: if open {
                ColumnsView { focus_on_open: true, ..self.columns }
            } else {
                self.columns
            },
            ..self
        }
    }

    /// The state with the Settings window open or closed; when it opens, it
    /// grabs the keyboard focus.
    pub open spec fn settings_shown(self, open: bool) -> GuiView {
        GuiView {
            windows: Windows {
                settings_open: open,
                settings_focus: self.windows.settings_focus || open,
                ..self.windows
            },
            ..self
        }
    }

    /// The state with the Help window open or closed.
    pub open spec fn help_shown(self, open: bool) -> GuiView {
        GuiView { windows: Windows { help_open: open, ..self.windows }, ..self }
    }

    /// The state after a command.
    pub open spec fn commanded(self, c: Command) -> GuiView {
        match c {
            Command::Quit => GuiView { guard: self.guard.quitting(self.unsaved()), ..self },
            Command::Open | Command::Save => self,
            Command::Jump => GuiView { jump: JumpView { focus: true, ..self.jump }, ..self },
            Command::Filter => self.adding_filter(),
            Command::Columns => self.columns_shown(!self.windows.columns_open),
            Command::Plot => self.adding_plot(),
            Command::Settings => self.settings_shown(!self.windows.settings_open),
            Command::Help => self.help_shown(!self.windows.help_open),
        }
    }

    /// What a command takes in the outside world.
    pub open spec fn effect(self, c: Command) -> EffectView {
        match c {
            Command::Quit => if self.unsaved() {
                EffectView::Nothing
            } else {
                EffectView::Close
            },
            Command::Open => EffectView::PickFile,
            Command::Save => if self.session is Some {
                EffectView::SaveSetup
            } else {
                EffectView::Nothing
            },
            _ => EffectView::Nothing,
        }
    }

    /// The state after Esc: it closes whichever window is open, the most
    /// transient first, and an open editor before its window. An Esc that
    /// released a text box closes nothing.
    pub open spec fn escaped(self) -> GuiView {
        if self.last_frame.text_focused {
            self
        } else if self.error is Some {
            GuiView { error: None, ..self }
        } else if self.label.prompt is Some {
            GuiView { label: LabelView { prompt: None, ..self.label }, ..self }
        } else if self.windows.help_open {
            self.help_shown(false)
        } else if self.windows.settings_open {
            self.settings_shown(false)
        } else if self.filters.editor is Some {
            GuiView { filters: FiltersView { editor: None, error: None, ..self.filters }, ..self }
        } else if self.windows.columns_open && self.columns.editor is Some {
            GuiView {
                columns: ColumnsView { editor: None, error: None, ..self.columns },
                ..self
            }
        } else if self.windows.columns_open {
            self.columns_shown(false)
        } else if self.plots.editor is Some {
            GuiView { plots: PlotsView { editor: None, error: None, ..self.plots }, ..self }
        } else {
            self
        }
    }

    /// How many windows and editors Esc can close.
    pub open spec fn open_windows(self) -> int {
        one_if(self.error is Some) + one_if(self.label.prompt is Some) + one_if(
            self.windows.help_open,
        ) + one_if(self.windows.settings_open) + one_if(self.filters.editor is Some) + one_if(
            self.windows.columns_open && self.columns.editor is Some,
        ) + one_if(self.windows.columns_open) + one_if(self.plots.editor is Some)
    }

    /// The state after Tab moved the focus out of the popups: the top-most open
    /// popup takes it back.
    pub open spec fn refocused(self) -> GuiView {
        if self.label.prompt is Some {
            GuiView { label: LabelView { focus: true, ..self.label }, ..self }
        } else if self.filters.editor is Some {
            GuiView { filters: FiltersView { focus_on_open: true, ..self.filters }, ..self }
        } else if self.plots.editor is Some {
            GuiView { plots: PlotsView { editor_focus: true, ..self.plots }, ..self }
        } else if self.windows.columns_open {
            GuiView { columns: ColumnsView { focus_on_open: true, ..self.columns }, ..self }
        } else if self.windows.settings_open {
            GuiView { windows: Windows { settings_focus: true, ..self.windows }, ..self }
        } else {
            self
        }
    }
}

impl GuiState {
    /// Open the add-filter popup (grabbing keyboard focus so Tab/Enter start
    /// inside it). Without a file there is nothing to filter.
    pub fn open_new_filter(&mut self)
        ensures
            final(self)@ == old(self)@.adding_filter(),
    {
        if let Some(session) = &self.session {
            self.filters.open_add(session);
        }
    }

    /// Open the dialog for a new plot. Without a file there is nothing to plot.
    pub fn open_new_plot(&mut self)
        ensures
            final(self)@ == old(self)@.adding_plot(),
    {
        if let Some(session) = &self.session {
            self.plots.add_plot(session);
        }
    }

    /// Open or close the Columns window, letting it grab keyboard focus when it
    /// opens so Tab navigation starts inside it.
    pub fn show_columns(&mut self, open: bool)
        ensures
            final(self)@ == old(self)@.columns_shown(open),
    {
        self.windows.columns_open = open;
        if open {
            self.columns.grab_focus();
        }
    }

    /// Open or close the Settings window, letting it grab keyboard focus when it
    /// opens.
    pub fn show_settings(&mut self, open: bool)
        ensures
            final(self)@ == old(self)@.settings_shown(open),
    {
        self.windows.settings_open = open;
        if open {
            self.windows.settings_focus = true;
        }
    }

    /// Open or close the Help window.
    pub fn show_help(&mut self, open: bool)
        ensures
            final(self)@ == old(self)@.help_shown(open),
    {
        self.windows.help_open = open;
    }

    /// Ask the toolbar to focus the jump box.
    fn focus_jump(&mut self)
        ensures
            final(self)@ == (GuiView {
                jump: JumpView { focus: true, ..old(self)@.jump },
                ..old(self)@
            }),
    {
        self.jump.focus = true;
    }

    /// Carry out a command, and say what it takes in the outside world.
    pub fn perform(&mut self, c: Command) -> (r: Effect)
        ensures
            final(self)@ == old(self)@.commanded(c),
            r@ == old(self)@.effect(c),
    {
        match c {
            Command::Quit => return self.request_quit(),
            Command::Open => return Effect::PickFile,
            Command::Save => {
                if self.session.is_some() {
                    return Effect::SaveSetup;
                }
            },
            Command::Jump => self.focus_jump(),
            Command::Filter => self.open_new_filter(),
            Command::Columns => {
                let open = !self.windows.columns_open;
                self.show_columns(open);
            },
            Command::Plot => self.open_new_plot(),
            Command::Settings => {
                let open = !self.windows.settings_open;
                self.show_settings(open);
            },
            Command::Help => {
                let open = !self.windows.help_open;
                self.show_help(open);
            },
        }
        Effect::Nothing
    }

    /// Whether the plain letter of a command fires: never while typing in a text
    /// box, and without a file only for opening one and for help. Quitting has
    /// no letter.
    pub fn letter_fires(&self, c: Command, typing: bool) -> (r: bool)
        ensures
            r == (!typing && c != Command::Quit && (self@.session is Some || c == Command::Open || c
                == Command::Help)),
    {
        !typing && match c {
            Command::Quit => false,
            Command::Open | Command::Help => true,
            _ => self.session.is_some(),
        }
    }

    /// Esc closes whichever window is open, in a fixed precedence (most
    /// transient first). One press closes at most one window: it cancels an open
    /// editor before closing the editor's window.
    pub fn handle_escape(&mut self)
        ensures
            final(self)@ == old(self)@.escaped(),
    {
        if self.last_frame.text_focused {
            return;
        }
        if self.error.is_some() {
            self.error = None;
        } else if self.label.prompt.is_some() {
            self.cancel_label();
        } else if self.windows.help_open {
            self.show_help(false);
        } else if self.windows.settings_open {
            self.show_settings(false);
        } else if self.filters.has_editor() {
            self.filters.cancel_editor();
        } else if self.windows.columns_open && self.columns.has_editor() {
            self.columns.cancel_editor();
        } else if self.windows.columns_open {
            self.show_columns(false);
        } else if self.plots.has_editor() {
            self.plots.cancel_editor();
        }
    }

    /// Keep Tab traversal inside an open popup: where last frame's Tab moved the
    /// focus onto the background, the top-most popup takes it back. Only
    /// Tab-moved focus is corrected; a deliberate click on a background widget
    /// keeps the focus it asked for.
    pub fn keep_focus_in_popups(&mut self, on_background: bool)
        ensures
            final(self)@ == if old(self)@.last_frame.tab_pressed && on_background {
                old(self)@.refocused()
            } else {
                old(self)@
            },
    {
        if !self.last_frame.tab_pressed || !on_background {
            return;
        }
        if self.label.prompt.is_some() {
            self.label.focus = true;
        } else if self.filters.has_editor() {
            self.filters.grab_focus();
        } else if self.plots.has_editor() {
            self.plots.grab_editor_focus();
        } else if self.windows.columns_open {
            self.columns.grab_focus();
        } else if self.windows.settings_open {
            self.windows.settings_focus = true;
        }
    }

    /// With no file open, close what needs one, so that a later Esc is not
    /// silently swallowed by it.
    pub fn close_without_file(&mut self)
        ensures
            final(self)@ == if old(self)@.session is Some {
                old(self)@
            } else {
                GuiView {
                    filters: FiltersView { editor: None, error: None, ..old(self)@.filters },
                    label: LabelView { prompt: None, ..old(self)@.label },
                    windows: Windows {
                        settings_open: false,
                        columns_open: false,
                        ..old(self)@.windows
                    },
                    ..old(self)@
                }
            },
    {
        if self.session.is_none() {
            self.filters.cancel_editor();
            self.windows.settings_open = false;
            self.windows.columns_open = false;
            self.label.prompt = None;
        }
    }

    /// Choose how the time column is shown.
    pub fn set_time_format(&mut self, format: TimeFormat)
        ensures
            final(self)@ == (GuiView {
                session: match old(self)@.session {
                    Some(s) => Some(SessionView { time_format: format, ..s }),
                    None => None,
                },
                ..old(self)@
            }),
    {
        match self.session.take() {
            Some(mut s) => {
                s.time_format = format;
                self.session = Some(s);
            },
            None => {},
        }
    }

    /// Whether a side block is shown: only when it has content.
    pub fn shows_block(&self, block: Block) -> (r: bool)
        ensures
            r == (self@.session matches Some(s) && match block {
                Block::Marks => s.marks.dom() != Set::<usize>::empty(),
                Block::Plots => s.plots.len() > 0,
                Block::Filters => s.filters.len() > 0,
            }),
    {
        match &self.session {
            Some(s) => match block {
                Block::Marks => {
                    let list = marks::listed(&s.marks);
                    let ghost all = marks::pairs(list@);
                    proof {
                        if list@.len() > 0 {
                            assert(s@.marks.contains_key(all[0].0));
                            assert(s@.marks.dom().contains(all[0].0));
                        } else {
                            assert(s@.marks.dom() =~= Set::<usize>::empty());
                        }
                    }
                    list.len() > 0
                },
                Block::Plots => s.plots.len() > 0,
                Block::Filters => s.filters.len() > 0,
            },
            None => false,
        }
    }

    /// Whether a side block is collapsed to its header.
    pub fn is_collapsed(&self, block: Block) -> (r: bool)
        ensures
            r == match block {
                Block::Marks => self@.collapsed.marks,
                Block::Plots => self@.collapsed.plots,
                Block::Filters => self@.collapsed.filters,
            },
    {
        match block {
            Block::Marks => self.collapsed.marks,
            Block::Plots => self.collapsed.plots,
            Block::Filters => self.collapsed.filters,
        }
    }

    /// Collapse or expand a side block.
    pub fn toggle_block(&mut self, block: Block)
        ensures
            final(self)@ == (GuiView {
                collapsed: match block {
                    Block::Marks => Collapsed {
                        marks: !old(self)@.collapsed.marks,
                        ..old(self)@.collapsed
                    },
                    Block::Plots => Collapsed {
                        plots: !old(self)@.collapsed.plots,
                        ..old(self)@.collapsed
                    },
                    Block::Filters => Collapsed {
                        filters: !old(self)@.collapsed.filters,
                        ..old(self)@.collapsed
                    },
                },
                ..old(self)@
            }),
    {
        let c = self.collapsed;
        self.collapsed =
        match block {
            Block::Marks => Collapsed { marks: !c.marks, ..c },
            Block::Plots => Collapsed { plots: !c.plots, ..c },
            Block::Filters => Collapsed { filters: !c.filters, ..c },
        };
    }
}

/// One Esc closes one window or editor, as long as any is open; one that
/// released a text box, or that finds nothing open, changes nothing.
pub proof fn law_escape_closes_one(g: GuiView)
    ensures
        !g.last_frame.text_focused && g.open_windows() > 0 ==> g.escaped().open_windows()
            == g.open_windows() - 1,
        g.last_frame.text_focused || g.open_windows() == 0 ==> g.escaped() == g,
{
}

/// No command lets the window close or drops the session while there are unsaved
/// changes.
pub proof fn law_commands_keep_changes(g: GuiView, c: Command)
    requires
        g.unsaved(),
        !g.guard.allow_close,
    ensures
        g.commanded(c).session == g.session,
        !g.commanded(c).guard.allow_close,
        g.effect(c) != EffectView::Close,
{
}

/// What the commands do. The windows for columns, settings and help open and close; new
/// filters and plots are edited only with a log open; a jump puts the focus into its
/// box; opening, saving and quitting are left to their effects, and quitting is held
/// back by unsaved changes.
pub proof fn law_commands(g: GuiView)
    ensures
        g.commanded(Command::Columns).windows.columns_open == !g.windows.columns_open,
        g.commanded(Command::Settings).windows.settings_open == !g.windows.settings_open,
        g.commanded(Command::Help).windows.help_open == !g.windows.help_open,
        g.commanded(Command::Jump).jump.focus,
        g.session is None ==> g.commanded(Command::Filter) == g && g.commanded(Command::Plot) == g
            && g.effect(Command::Save) == EffectView::Nothing,
        g.session is Some ==> g.effect(Command::Save) == EffectView::SaveSetup,
        g.session is Some ==> (g.commanded(Command::Filter).filters.editor matches Some(e)
            && e.index is None && e.id_choice == 0 && e.type_choice == 0 && e.source_choice == 0),
        g.session is Some ==> (g.commanded(Command::Plot).plots.editor matches Some(e)
            && e.index is None && e.series.len() == 1 && e.show_marks),
        g.commanded(Command::Open) == g && g.commanded(Command::Save) == g,
        g.effect(Command::Open) == EffectView::PickFile,
        g.unsaved() ==> g.effect(Command::Quit) == EffectView::Nothing
            && g.commanded(Command::Quit).guard.pending is Some,
        !g.unsaved() ==> g.effect(Command::Quit) == EffectView::Close
            && g.commanded(Command::Quit).guard.allow_close,
        g.effect(Command::Jump) == EffectView::Nothing && g.effect(Command::Filter)
            == EffectView::Nothing && g.effect(Command::Columns) == EffectView::Nothing
            && g.effect(Command::Plot) == EffectView::Nothing && g.effect(Command::Settings)
            == EffectView::Nothing && g.effect(Command::Help) == EffectView::Nothing,
{
}

/// Which window Esc closes: the one that is on top. An error comes first, then the label
/// box, help, settings, the filter editor, the column editor, the columns, and last the
/// plot editor. Nothing is lost by it.
pub proof fn law_escape_closes_the_top(g: GuiView)
    requires
        !g.last_frame.text_focused,
    ensures
        ({
            let r = g.escaped();
            let w = g.windows;
            let editing = w.columns_open && g.columns.editor is Some;
            &&& r.session == g.session && r.status == g.status && r.guard == g.guard
            &&& r.error is None
            &&& g.error is Some ==> r == (GuiView { error: None, ..g })
            &&& g.error is None ==> r.label.prompt is None
            &&& g.error is Some || g.label.prompt is Some ==> r.windows == w && r.filters
                == g.filters && r.columns == g.columns && r.plots == g.plots
            &&& g.error is None && g.label.prompt is None ==> {
                &&& !r.windows.help_open
                &&& w.help_open ==> r.windows.settings_open == w.settings_open && r.filters
                    == g.filters && r.columns == g.columns && r.plots == g.plots
                &&& !w.help_open ==> !r.windows.settings_open
                &&& !w.help_open && w.settings_open ==> r.filters == g.filters && r.columns
                    == g.columns && r.plots == g.plots && r.windows.columns_open == w.columns_open
                &&& !w.help_open && !w.settings_open ==> {
                    &&& r.filters.editor is None
                    &&& g.filters.editor is Some ==> r.columns == g.columns && r.plots == g.plots
                        && r.windows == w
                    &&& g.filters.editor is None && editing ==> r.columns.editor is None
                        && r.windows == w && r.plots == g.plots
                    &&& g.filters.editor is None && !editing && w.columns_open
                        ==> !r.windows.columns_open && r.plots == g.plots
                    &&& g.filters.editor is None && !w.columns_open ==> r.plots.editor is None
                        && r.windows == w && r.columns == g.columns
                }
            }
        }),
{
}

/// The focus goes back into the popup that is on top, and nowhere else.
pub proof fn law_refocused(g: GuiView)
    ensures
        ({
            let r = g.refocused();
            &&& r.session == g.session
            &&& g.label.prompt is Some ==> r == (GuiView {
                label: LabelView { focus: true, ..g.label },
                ..g
            })
            &&& g.label.prompt is None && g.filters.editor is Some ==> r.filters.focus_on_open
                && r.plots == g.plots && r.columns == g.columns && r.windows == g.windows
            &&& g.label.prompt is None && g.filters.editor is None && g.plots.editor is Some
                ==> r.plots.editor_focus && r.columns == g.columns && r.windows == g.windows
            &&& g.label.prompt is None && g.filters.editor is None && g.plots.editor is None
                && g.windows.columns_open ==> r.columns.focus_on_open && r.windows == g.windows
            &&& g.label.prompt is None && g.filters.editor is None && g.plots.editor is None
                && !g.windows.columns_open && g.windows.settings_open ==> r.windows.settings_focus
            &&& g.label.prompt is None && g.filters.editor is None && g.plots.editor is None
                && !g.windows.columns_open && !g.windows.settings_open ==> r == g
        }),
{
}

} // verus!
