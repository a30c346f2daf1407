//! Moving through the message list and marking messages.

use vstd::prelude::*;
use crate::gui::state::{GuiState, GuiView, LabelView, ListState};
use crate::gui::state;
use crate::session::{Session, SessionView};
use crate::{browse, text, time};

verus! {

broadcast use vstd::std_specs::hash::group_hash_axioms;

/// A key that moves through the list or marks a message.
#[derive(Clone, Copy, Debug, PartialEq, Eq, Structural)]
pub enum NavKey {
    Down,
    Up,
    PageDown,
    PageUp,
    Home,
    End,
    Mark,
}

/// A context-menu action on a message row.
#[derive(Clone, Copy, Debug, PartialEq, Eq, Structural)]
pub enum MarkAction {
    Add,
    Remove,
    EditLabel,
}

/// A position moved down by some rows, within a list of `len` rows.
pub open spec fn moved_down(at: usize, by: usize, len: int) -> usize {
    if at + by < len {
        (at + by) as usize
    } else {
        (len - 1) as usize
    }
}

/// A position moved up by some rows, within a list of `len` rows.
pub open spec fn moved_up(at: usize, by: usize, len: int) -> usize {
    if at < by {
        0
    } else if at - by < len {
        (at - by) as usize
    } else {
        (len - 1) as usize
    }
}

/// A page is as many rows as were visible, at least one.
pub open spec fn page(rows: usize) -> usize {
    if rows == 0 {
        1
    } else {
        rows
    }
}

/// Where the selection lands on a navigation key in a non-empty list.
pub open spec fn row_after(key: NavKey, at: usize, rows: usize, len: int) -> usize {
    match key {
        NavKey::Down => moved_down(at, 1, len),
        NavKey::Up => moved_up(at, 1, len),
        NavKey::PageDown => moved_down(at, page(rows), len),
        NavKey::PageUp => moved_up(at, page(rows), len),
        NavKey::Home => 0,
        NavKey::End => (len - 1) as usize,
        NavKey::Mark => at,
    }
}

impl GuiView {
    /// The state with another selected row.
    pub open spec fn selecting(self, row: usize) -> GuiView {
        GuiView {
            session: match self.session {
                Some(s) => Some(SessionView { selected: row, ..s }),
                None => None,
            },
            ..self
        }
    }

    /// The state with another selected row, scrolled into view.
    pub open spec fn scrolling(self, row: usize) -> GuiView {
        GuiView {
            list: ListState { scroll_to_selected: true, ..self.list },
            ..self.selecting(row)
        }
    }

    /// The state after a key that moves the selection. In an empty list Home and
    /// End select the first row all the same.
    pub open spec fn moving(self, key: NavKey) -> GuiView {
        match self.session {
            None => self,
            Some(s) => if s.filtered.len() > 0 {
                self.scrolling(
                    row_after(key, s.selected, self.list.visible_rows, s.filtered.len() as int),
                )
            } else if key == NavKey::Home || key == NavKey::End {
                self.scrolling(0)
            } else {
                self
            },
        }
    }

    /// The marks of the session.
    pub open spec fn marks(self) -> Map<usize, Seq<char>> {
        match self.session {
            Some(s) => s.marks,
            None => Map::empty(),
        }
    }

    /// The state with other marks.
    pub open spec fn marking(self, m: Map<usize, Seq<char>>) -> GuiView {
        GuiView {
            session: match self.session {
                Some(s) => Some(SessionView { marks: m, ..s }),
                None => None,
            },
            ..self
        }
    }

    /// The state with the label window open for a message, prefilled with its
    /// current label.
    pub open spec fn labeling(self, entry_index: usize) -> GuiView {
        GuiView {
            label: LabelView {
                prompt: Some(entry_index),
                input: if self.marks().contains_key(entry_index) {
                    self.marks()[entry_index]
                } else {
                    seq![]
                },
                focus: true,
            },
            ..self
        }
    }

    /// The state after the mark of a message was toggled: unmarking discards the
    /// label, and a new mark opens the label window.
    pub open spec fn toggled(self, entry_index: usize) -> GuiView {
        if self.session is None {
            self
        } else if self.marks().contains_key(entry_index) {
            self.marking(self.marks().remove(entry_index))
        } else {
            self.marking(self.marks().insert(entry_index, seq![])).labeling(entry_index)
        }
    }

    /// The state after the mark of the selected message was toggled.
    pub open spec fn toggled_selected(self) -> GuiView {
        match self.session {
            Some(s) => match s.selected_entry() {
                Some(i) => self.toggled(i),
                None => self,
            },
            None => self,
        }
    }

    /// The state after a navigation key.
    pub open spec fn navigated(self, key: NavKey) -> GuiView {
        if key == NavKey::Mark {
            self.toggled_selected()
        } else {
            self.moving(key)
        }
    }

    /// The state after an action on the context menu of a message.
    pub open spec fn mark_acted(self, entry_index: usize, action: MarkAction) -> GuiView {
        match action {
            MarkAction::Add => self.marking(
                self.marks().insert(entry_index, seq![]),
            ).labeling(entry_index),
            MarkAction::Remove => self.marking(self.marks().remove(entry_index)),
            MarkAction::EditLabel => self.labeling(entry_index),
        }
    }
}

/// Select a row of an optional session.
fn set_selected(session: &mut Option<Session>, row: usize)
    ensures
        state::session_view(*final(session)) == match state::session_view(*old(session)) {
            Some(s) => Some(SessionView { selected: row, ..s }),
            None => None,
        },
{
    match session.take() {
        Some(mut s) => {
            s.selected = row;
            *session = Some(s);
        },
        None => {},
    }
}

/// Put a mark into an optional session.
fn put_mark(session: &mut Option<Session>, entry_index: usize, label: String)
    ensures
        state::session_view(*final(session)) == match state::session_view(*old(session)) {
            Some(s) => Some(SessionView { marks: s.marks.insert(entry_index, label@), ..s }),
            None => None,
        },
{
    match session.take() {
        Some(mut s) => {
            let ghost before = s@;
            s.marks.insert(entry_index, label);
            assert(s@.marks =~= before.marks.insert(entry_index, label@));
            *session = Some(s);
        },
        None => {},
    }
}

/// Take a mark from an optional session.
fn drop_mark(session: &mut Option<Session>, entry_index: usize)
    ensures
        state::session_view(*final(session)) == match state::session_view(*old(session)) {
            Some(s) => Some(SessionView { marks: s.marks.remove(entry_index), ..s }),
            None => None,
        },
{
    match session.take() {
        Some(mut s) => {
            let ghost before = s@;
            s.marks.remove(&entry_index);
            assert(s@.marks =~= before.marks.remove(entry_index));
            *session = Some(s);
        },
        None => {},
    }
}

/// Where a position moved down by some rows lands.
fn row_down(at: usize, by: usize, len: usize) -> (r: usize)
    requires
        len > 0,
    ensures
        r == moved_down(at, by, len as int),
{
    let room: usize = len - 1;
    if at <= room && by <= room - at {
        at + by
    } else {
        room
    }
}

/// Where a position moved up by some rows lands.
fn row_up(at: usize, by: usize, len: usize) -> (r: usize)
    requires
        len > 0,
    ensures
        r == moved_up(at, by, len as int),
{
    if at < by {
        0
    } else if at - by < len {
        at - by
    } else {
        len - 1
    }
}

/// Where the selection lands on a navigation key.
fn landing(key: NavKey, at: usize, rows: usize, len: usize) -> (r: usize)
    requires
        len > 0,
    ensures
        r == row_after(key, at, rows, len as int),
{
    let page_rows: usize = if rows == 0 {
        1
    } else {
        rows
    };
    match key {
        NavKey::Down => row_down(at, 1, len),
        NavKey::Up => row_up(at, 1, len),
        NavKey::PageDown => row_down(at, page_rows, len),
        NavKey::PageUp => row_up(at, page_rows, len),
        NavKey::Home => 0,
        NavKey::End => len - 1,
        NavKey::Mark => at,
    }
}

impl GuiState {
    /// Select the row that was clicked, without scrolling.
    pub fn row_clicked(&mut self, row: usize)
        ensures
            final(self)@ == old(self)@.selecting(row),
    {
        set_selected(&mut self.session, row);
    }

    /// Select a row and scroll it into view.
    fn scroll_to(&mut self, row: usize)
        ensures
            final(self)@ == old(self)@.scrolling(row),
    {
        self.row_clicked(row);
        self.list.scroll_to_selected = true;
    }

    /// Move the selection by `delta` rows, clamped to the visible range.
    pub fn move_selection(&mut self, delta: isize)
        ensures
            final(self)@ == match old(self)@.session {
                Some(s) => if s.filtered.len() == 0 {
                    old(self)@
                } else if delta >= 0 {
                    old(self)@.scrolling(
                        moved_down(s.selected, delta as usize, s.filtered.len() as int),
                    )
                } else {
                    old(self)@.scrolling(
                        moved_up(s.selected, (-delta) as usize, s.filtered.len() as int),
                    )
                },
                None => old(self)@,
            },
    {
        let row: usize = match &self.session {
            Some(s) => {
                let n: usize = s.filtered.len();
                if n == 0 {
                    return;
                }
                if delta >= 0 {
                    row_down(s.selected, delta as usize, n)
                } else if delta == isize::MIN {
                    row_up(s.selected, isize::MAX as usize + 1, n)
                } else {
                    row_up(s.selected, (-delta) as usize, n)
                }
            },
            None => return,
        };
        self.scroll_to(row);
    }

    /// Select a row, or the last one where there are fewer.
    pub fn select(&mut self, index: usize)
        ensures
            final(self)@ == match old(self)@.session {
                Some(s) => old(self)@.selecting(
                    browse::at_most_last(index as int, s.filtered.len() as int),
                ),
                None => old(self)@,
            },
    {
        let row: usize = match &self.session {
            Some(s) => {
                let n: usize = s.filtered.len();
                if index < n {
                    index
                } else if n > 0 {
                    n - 1
                } else {
                    0
                }
            },
            None => return,
        };
        self.row_clicked(row);
    }

    /// Move the selection on a navigation key.
    fn move_by_key(&mut self, key: NavKey)
        ensures
            final(self)@ == old(self)@.moving(key),
    {
        let row: usize = match &self.session {
            Some(s) => {
                let n: usize = s.filtered.len();
                if n > 0 {
                    landing(key, s.selected, self.list.visible_rows, n)
                } else {
                    match key {
                        NavKey::Home | NavKey::End => 0,
                        _ => return,
                    }
                }
            },
            None => return,
        };
        self.scroll_to(row);
    }

    /// Act on a navigation key, unless any widget has the focus: arrows and Space
    /// then belong to that widget.
    pub fn navigate(&mut self, key: NavKey, focused: bool)
        ensures
            final(self)@ == if focused {
                old(self)@
            } else {
                old(self)@.navigated(key)
            },
    {
        if focused {
            return;
        }
        match key {
            NavKey::Mark => self.toggle_mark(),
            _ => self.move_by_key(key),
        }
    }

    /// Where a jump to a time lands.
    fn jump_row(&mut self, target_us: u64)
        requires
            old(self)@.session matches Some(s) ==> browse::in_range(
                s.filtered,
                s.entries.len() as int,
            ),
        ensures
            final(self)@ == match old(self)@.session {
                Some(s) => old(self)@.selecting(
                    if s.filtered.len() == 0 {
                        s.selected
                    } else {
                        browse::at_most_last(
                            browse::first_from_time(s.filtered, s.entries, target_us),
                            s.filtered.len() as int,
                        )
                    },
                ),
                None => old(self)@,
            },
    {
        match self.session.take() {
            Some(mut s) => {
                s.jump_to_time(target_us);
                self.session = Some(s);
            },
            None => {},
        }
    }

    /// Parse and act on the jump-to-time box. For seconds, `micros` is what the
    /// seconds in the box stand for, in microseconds.
    pub fn jump_to_input(&mut self, micros: Option<i64>)
        requires
            old(self)@.session matches Some(s) ==> browse::in_range(
                s.filtered,
                s.entries.len() as int,
            ),
        ensures
            final(self)@ == match old(self)@.session {
                None => old(self)@,
                Some(s) => match time::jump_target(
                    old(self)@.jump.input,
                    s.time_format,
                    s.start_us,
                    micros,
                ) {
                    Ok(target_us) => GuiView {
                        jump: state::JumpView { error: None, ..old(self)@.jump },
                        ..old(self)@.scrolling(
                            if s.filtered.len() == 0 {
                                s.selected
                            } else {
                                browse::at_most_last(
                                    browse::first_from_time(s.filtered, s.entries, target_us),
                                    s.filtered.len() as int,
                                )
                            },
                        )
                    },
                    Err(e) => GuiView {
                        jump: state::JumpView { error: Some(e), ..old(self)@.jump },
                        ..old(self)@
                    },
                },
            },
    {
        let target = match &self.session {
            Some(s) => time::parse_jump(
                self.jump.input.as_str(),
                s.time_format,
                s.start_us,
                micros,
            ),
            None => return,
        };
        match target {
            Ok(target_us) => {
                self.jump_row(target_us);
                self.list.scroll_to_selected = true;
                self.jump.error = None;
            },
            Err(e) => {
                self.jump.error = Some(e);
            },
        }
    }

    /// Open the label window for a message, prefilled with its current label.
    pub fn open_label_editor(&mut self, entry_index: usize)
        ensures
            final(self)@ == old(self)@.labeling(entry_index),
    {
        let input = match &self.session {
            Some(s) => match s.marks.get(&entry_index) {
                Some(label) => label.clone(),
                None => String::new(),
            },
            None => String::new(),
        };
        self.label = state::LabelBox { prompt: Some(entry_index), input, focus: true };
        assert(self@ =~= old(self)@.labeling(entry_index));
    }

    /// Mark a message, with an empty label.
    fn add_mark(&mut self, entry_index: usize)
        ensures
            final(self)@ == old(self)@.marking(old(self)@.marks().insert(entry_index, seq![])),
    {
        let blank = String::new();
        assert(blank@ =~= seq![]);
        put_mark(&mut self.session, entry_index, blank);
    }

    /// Unmark a message.
    fn remove_mark(&mut self, entry_index: usize)
        ensures
            final(self)@ == old(self)@.marking(old(self)@.marks().remove(entry_index)),
    {
        drop_mark(&mut self.session, entry_index);
    }

    /// Toggle the mark on a message, opening the label window when a new mark is
    /// added. Unmarking discards the label.
    pub fn toggle_mark_for(&mut self, entry_index: usize)
        ensures
            final(self)@ == old(self)@.toggled(entry_index),
    {
        let marked = match &self.session {
            Some(s) => s.marks.contains_key(&entry_index),
            None => return,
        };
        assert(marked == self@.marks().contains_key(entry_index));
        if marked {
            self.remove_mark(entry_index);
        } else {
            self.add_mark(entry_index);
            self.open_label_editor(entry_index);
        }
    }

    /// Toggle the mark on the selected message.
    pub fn toggle_mark(&mut self)
        ensures
            final(self)@ == old(self)@.toggled_selected(),
    {
        let at = match &self.session {
            Some(s) => s.selected_entry_index(),
            None => None,
        };
        if let Some(i) = at {
            self.toggle_mark_for(i);
        }
    }

    /// Act on the context menu of a message.
    pub fn act_on_mark(&mut self, entry_index: usize, action: MarkAction)
        ensures
            final(self)@ == old(self)@.mark_acted(entry_index, action),
    {
        match action {
            MarkAction::Add => {
                self.add_mark(entry_index);
                self.open_label_editor(entry_index);
            },
            MarkAction::Remove => self.remove_mark(entry_index),
            MarkAction::EditLabel => self.open_label_editor(entry_index),
        }
    }

    /// Save the label in the label window, without the whitespace around it,
    /// and close the window.
    pub fn save_label(&mut self)
        ensures
            final(self)@ == match old(self)@.label.prompt {
                Some(i) => GuiView {
                    label: LabelView { prompt: None, ..old(self)@.label },
                    ..old(self)@.marking(
                        old(self)@.marks().insert(i, text::trim(old(self)@.label.input)),
                    )
                },
                None => old(self)@,
            },
    {
        if let Some(entry_index) = self.label.prompt {
            let chars = text::chars_of(self.label.input.as_str());
            put_mark(&mut self.session, entry_index, text::string_of(text::trimmed(&chars)));
            self.label.prompt = None;
        }
    }

    /// Close the label window.
    pub fn cancel_label(&mut self)
        ensures
            final(self)@ == (GuiView {
                label: LabelView { prompt: None, ..old(self)@.label },
                ..old(self)@
            }),
    {
        self.label.prompt = None;
    }

    /// Select the message of a mark that was clicked; a double click also
    /// scrolls the list to it.
    pub fn mark_clicked(&mut self, entry_index: usize, double: bool)
        ensures
            final(self)@ == (GuiView {
                list: ListState {
                    scroll_to_selected: old(self)@.list.scroll_to_selected || double,
                    ..old(self)@.list
                },
                ..match old(self)@.session {
                    Some(s) => old(self)@.selecting(
                        browse::visible_from(s.filtered, entry_index),
                    ),
                    None => old(self)@,
                }
            }),
    {
        match self.session.take() {
            Some(mut s) => {
                s.select_entry(entry_index);
                self.session = Some(s);
            },
            None => {},
        }
        if double {
            self.list.scroll_to_selected = true;
        }
    }
}

/// Moving through the list and marking the selected message keep the session
/// sound.
pub proof fn law_navigation_keeps_sound(g: GuiView, key: NavKey)
    requires
        g.session matches Some(s) && s.sound(),
    ensures
        g.navigated(key).session matches Some(s) && s.sound(),
{
    let s = g.session->Some_0;
    let next = g.navigated(key).session->Some_0;
    assert forall|k: usize| #[trigger] next.marks.contains_key(k) implies k < s.entries.len() by {
        if !s.marks.contains_key(k) {
            assert(s.selected_entry() == Some(k));
            assert(s.filtered[s.selected as int] == k);
        }
    }
}

/// Toggling a mark twice leaves the marks as they were, but for the label.
pub proof fn law_toggling_twice(g: GuiView, entry_index: usize)
    ensures
        !g.marks().contains_key(entry_index) ==> g.toggled(entry_index).toggled(entry_index).marks()
            == g.marks(),
        g.marks().contains_key(entry_index) ==> g.toggled(entry_index).toggled(entry_index).marks()
            == g.marks().insert(entry_index, seq![]),
{
    let twice = g.toggled(entry_index).toggled(entry_index);
    if g.session is Some {
        if g.marks().contains_key(entry_index) {
            assert(twice.marks() =~= g.marks().insert(entry_index, seq![]));
        } else {
            assert(twice.marks() =~= g.marks());
        }
    }
}

/// Where a key moves the selection: one row or one page down or up, and not beyond the
/// first and the last row; a page has as many rows as are visible, at least one. The
/// mark key moves nothing.
pub proof fn law_keys_move_rows(at: usize, rows: usize, len: int)
    requires
        at < len <= usize::MAX,
    ensures
        at + 1 < len ==> row_after(NavKey::Down, at, rows, len) == at + 1,
        at + 1 == len ==> row_after(NavKey::Down, at, rows, len) == at,
        at > 0 ==> row_after(NavKey::Up, at, rows, len) == at - 1,
        at == 0 ==> row_after(NavKey::Up, at, rows, len) == 0,
        rows > 0 && at + rows < len ==> row_after(NavKey::PageDown, at, rows, len) == at + rows,
        at + rows >= len ==> row_after(NavKey::PageDown, at, rows, len) == len - 1,
        rows > 0 && at >= rows ==> row_after(NavKey::PageUp, at, rows, len) == at - rows,
        at < rows ==> row_after(NavKey::PageUp, at, rows, len) == 0,
        rows == 0 ==> row_after(NavKey::PageDown, at, rows, len) == row_after(
            NavKey::Down,
            at,
            rows,
            len,
        ) && row_after(NavKey::PageUp, at, rows, len) == row_after(NavKey::Up, at, rows, len),
        row_after(NavKey::Home, at, rows, len) == 0,
        row_after(NavKey::End, at, rows, len) == len - 1,
        row_after(NavKey::Mark, at, rows, len) == at,
{
}

/// A moving key selects the row it leads to and scrolls there, and changes nothing
/// else. In an empty list only the keys for its ends do anything: they select row 0.
pub proof fn law_moving(g: GuiView, key: NavKey)
    requires
        key != NavKey::Mark,
    ensures
        g.navigated(key) == g.moving(key),
        g.session is None ==> g.moving(key) == g,
        g.session matches Some(s) ==> {
            let to = if s.filtered.len() > 0 {
                row_after(key, s.selected, g.list.visible_rows, s.filtered.len() as int)
            } else {
                0
            };
            let moved = s.filtered.len() > 0 || key == NavKey::Home || key == NavKey::End;
            &&& !moved ==> g.moving(key) == g
            &&& moved ==> g.moving(key) == (GuiView {
                session: Some(SessionView { selected: to, ..s }),
                list: ListState {
                    scroll_to_selected: true,
                    visible_rows: g.list.visible_rows,
                },
                ..g
            })
        },
{
}

/// Toggling a mark takes it off a marked message; else it marks the message without a
/// label and opens the label box for it, empty. No other mark changes.
pub proof fn law_toggling(g: GuiView, s: SessionView, i: usize, j: usize)
    requires
        g.session == Some(s),
    ensures
        ({
            let t = g.toggled(i);
            &&& s.marks.contains_key(i) ==> !t.marks().contains_key(i) && t.label == g.label
            &&& !s.marks.contains_key(i) ==> {
                &&& t.marks().contains_key(i) && t.marks()[i].len() == 0
                &&& t.label.prompt == Some(i) && t.label.input.len() == 0 && t.label.focus
            }
            &&& j != i ==> {
                &&& t.marks().contains_key(j) == s.marks.contains_key(j)
                &&& s.marks.contains_key(j) ==> t.marks()[j] == s.marks[j]
            }
            &&& t.session == Some(SessionView { marks: t.marks(), ..s })
        }),
        s.selected < s.filtered.len() ==> g.navigated(NavKey::Mark) == g.toggled(
            s.filtered[s.selected as int],
        ),
        s.selected >= s.filtered.len() ==> g.navigated(NavKey::Mark) == g,
{
    assert(g.toggled(i).session->Some_0 =~= SessionView { marks: g.toggled(i).marks(), ..s });
}

/// The menu of a message: adding a mark marks it without a label and opens the label
/// box, removing takes the mark off, and editing opens the label box with its label.
pub proof fn law_mark_actions(g: GuiView, s: SessionView, i: usize)
    requires
        g.session == Some(s),
    ensures
        ({
            let added = g.mark_acted(i, MarkAction::Add);
            let removed = g.mark_acted(i, MarkAction::Remove);
            let edited = g.mark_acted(i, MarkAction::EditLabel);
            &&& added.marks() == s.marks.insert(i, seq![])
            &&& added.label.prompt == Some(i) && added.label.input.len() == 0 && added.label.focus
            &&& removed.marks() == s.marks.remove(i) && removed.label == g.label
            &&& edited.marks() == s.marks
            &&& edited.label.prompt == Some(i) && edited.label.focus
            &&& s.marks.contains_key(i) ==> edited.label.input == s.marks[i]
            &&& !s.marks.contains_key(i) ==> edited.label.input.len() == 0
        }),
{
}

} // verus!
