//! The texts of the message list, the marks list and the detail pane.

use vstd::prelude::*;
use crate::column::ColumnView;
use crate::entry::{EntryKind, EntryView, LogEntry};
use crate::session::{Session, SessionView};
use crate::time::TimeFormat;
use crate::value::{Piece, PieceView};
use crate::{entry, marks, numeral, sound, text, time, value};

verus! {

broadcast use vstd::std_specs::hash::group_hash_axioms;

/// The label of a message in the list: a dot and its label where it is marked.
pub open spec fn mark_label(mark: Option<Seq<char>>) -> Seq<char> {
    match mark {
        Some(label) => if label.len() == 0 {
            "●"@
        } else {
            "● "@ + label
        },
        None => seq![],
    }
}

/// The mark of an entry.
pub open spec fn mark_of(m: Map<usize, Seq<char>>, i: usize) -> Option<Seq<char>> {
    if m.contains_key(i) {
        Some(m[i])
    } else {
        None
    }
}

/// How the time of a message is shown in lists.
pub open spec fn list_time(s: SessionView, timestamp_us: u64) -> Seq<char> {
    match s.time_format {
        TimeFormat::DateTime => time::datetime_label(
            time::utc_text(time::as_signed(timestamp_us), "%Y-%m-%d %H:%M:%S%.3f"@),
            timestamp_us,
        ),
        TimeFormat::OffsetSecs => time::offset_text(time::offset_us(timestamp_us, s.start_us)),
    }
}

/// The text of a mark in the marks list: time and name of its message, and the
/// label on a line of its own.
pub open spec fn mark_line(shown_time: Seq<char>, name: Seq<char>, label: Seq<char>) -> Seq<char> {
    "● "@ + shown_time + "  "@ + name + (if label.len() == 0 {
        seq![]
    } else {
        "\n   "@ + label
    })
}

/// The title of the detail pane.
pub open spec fn title_text(e: EntryView) -> Seq<char> {
    let id: nat = match e.kind {
        EntryKind::Mavlink { msg_id, .. } => msg_id as nat,
        EntryKind::Dataflash { msg_type } => msg_type as nat,
    };
    e.name + " (id "@ + numeral::decimal(id) + ")"@
}

/// What stands above the decoded message in the detail pane: both forms of its
/// time, and its mark.
pub open spec fn head_text(
    datetime: Seq<char>,
    offset: Seq<char>,
    mark: Option<Seq<char>>,
) -> Seq<char> {
    "Time: "@ + datetime + "  ("@ + offset + ")\n"@ + (match mark {
        Some(label) => if label.len() == 0 {
            "Mark: ●\n"@
        } else {
            "Mark: ● "@ + label + seq!['\n']
        },
        None => seq![],
    }) + seq!['\n']
}

/// The label of a message in the list.
pub fn mark_cell(mark: Option<&String>) -> (r: String)
    ensures
        r@ == mark_label(
            match mark {
                Some(s) => Some(s@),
                None => None,
            },
        ),
{
    match mark {
        Some(label) => {
            if text::chars_of(label.as_str()).len() == 0 {
                "●".to_string()
            } else {
                let mut r = "● ".to_string();
                r.append(label.as_str());
                r
            }
        },
        None => String::new(),
    }
}

/// The text of a mark in the marks list.
pub fn mark_text(shown_time: &str, name: &str, label: &str) -> (r: String)
    ensures
        r@ == mark_line(shown_time@, name@, label@),
{
    let mut r = "● ".to_string();
    r.append(shown_time);
    r.append("  ");
    r.append(name);
    if text::chars_of(label).len() > 0 {
        r.append("\n   ");
        r.append(label);
    }
    assert(r@ =~= mark_line(shown_time@, name@, label@));
    r
}

/// Whether `texts` are the texts of the listed marks.
pub open spec fn shows_marks(
    texts: Seq<(usize, Seq<char>)>,
    list: Seq<(usize, Seq<char>)>,
    s: SessionView,
) -> bool {
    &&& texts.len() == list.len()
    &&& forall|i: int|
        0 <= i < texts.len() ==> (#[trigger] texts[i]) == (
            list[i].0,
            mark_line(
                list_time(s, s.entries[list[i].0 as int].timestamp_us),
                s.entries[list[i].0 as int].name,
                list[i].1,
            ),
        )
}

/// The marks list: every mark in file order, with its text.
pub fn marks_list(session: &Session) -> (r: Vec<(usize, String)>)
    requires
        sound::marks_in_range(session@.marks, session@.entries.len() as int),
    ensures
        exists|list: Seq<(usize, Seq<char>)>| #[trigger]
            marks::lists(list, session@.marks) && shows_marks(
                marks::pairs(r@),
                list,
                session@,
            ),
{
    let list = marks::listed(&session.marks);
    let ghost all = marks::pairs(list@);
    let mut r: Vec<(usize, String)> = Vec::new();
    let mut i: usize = 0;
    while i < list.len()
        invariant
            i <= list.len(),
            all == marks::pairs(list@),
            marks::lists(all, session@.marks),
            sound::marks_in_range(session@.marks, session@.entries.len() as int),
            shows_marks(marks::pairs(r@), all.take(i as int), session@),
        decreases list.len() - i,
    {
        let k = list[i].0;
        assert(all[i as int] == (k, list@[i as int].1@));
        assert(session@.marks.contains_key(k));
        let e = &session.entries[k];
        assert(session@.entries[k as int] == e@);
        let shown_time = session.format_list_time(e.timestamp_us);
        let t = mark_text(shown_time.as_str(), e.name.as_str(), list[i].1.as_str());
        let ghost before = r@;
        r.push((k, t));
        i += 1;
        assert(marks::pairs(r@) =~= marks::pairs(before).push((k, t@)));
    }
    assert(all.take(i as int) =~= all);
    r
}

/// The title of the detail pane for a message.
pub fn detail_title(e: &LogEntry) -> (r: String)
    ensures
        r@ == title_text(e@),
{
    let mut r = e.name.clone();
    r.append(" (id ");
    numeral::push_decimal(&mut r, e.msg_id() as u128);
    r.append(")");
    r
}

/// What stands above the decoded message in the detail pane.
pub fn detail_head(datetime: &str, offset: &str, mark: Option<&String>) -> (r: String)
    ensures
        r@ == head_text(
            datetime@,
            offset@,
            match mark {
                Some(s) => Some(s@),
                None => None,
            },
        ),
{
    let mut r = "Time: ".to_string();
    r.append(datetime);
    r.append("  (");
    r.append(offset);
    r.append(")\n");
    let ghost time_line = r@;
    match mark {
        Some(label) => {
            if text::chars_of(label.as_str()).len() == 0 {
                r.append("Mark: ●\n");
            } else {
                r.append("Mark: ● ");
                r.append(label.as_str());
                r.push('\n');
            }
        },
        None => {},
    }
    r.push('\n');
    assert(r@ =~= head_text(
        datetime@,
        offset@,
        match mark {
            Some(s) => Some(s@),
            None => None,
        },
    ));
    r
}

/// The body of the detail pane for a message: both forms of its time, its mark,
/// and the decoded message or a hex dump.
pub fn detail_body(session: &Session, entry_index: usize) -> (r: Vec<Piece>)
    requires
        session@.wf(),
        entry_index < session@.entries.len(),
    ensures
        value::piece_views(r@) == seq![
            PieceView::Text(
                head_text(
                    time::datetime_label(
                        time::utc_text(
                            time::as_signed(session@.entries[entry_index as int].timestamp_us),
                            "%Y-%m-%d %H:%M:%S%.3f"@,
                        ),
                        session@.entries[entry_index as int].timestamp_us,
                    ),
                    time::offset_text(
                        time::offset_us(
                            session@.entries[entry_index as int].timestamp_us,
                            session@.start_us,
                        ),
                    ),
                    mark_of(session@.marks, entry_index),
                ),
            ),
        ] + session@.detail(session@.entries[entry_index as int]),
{
    let e = &session.entries[entry_index];
    assert(session@.entries[entry_index as int] == e@);
    let datetime = time::format_datetime(e.timestamp_us);
    let offset = time::format_offset(e.timestamp_us, session.start_us);
    let mark = session.marks.get(&entry_index);
    let head = detail_head(datetime.as_str(), offset.as_str(), mark);
    let mut decoded = session.decode_detail(e);
    let mut r: Vec<Piece> = Vec::new();
    let ghost rest = value::piece_views(decoded@);
    r.push(Piece::Text(head));
    let ghost front = r@;
    let ghost back = decoded@;
    r.append(&mut decoded);
    assert(value::piece_views(r@) =~= value::piece_views(front) + value::piece_views(back));
    assert(value::piece_views(front) =~= seq![PieceView::Text(head@)]);
    r
}

/// The header of a side block: a triangle that tells whether it is collapsed,
/// and its title.
pub fn panel_header(title: &str, collapsed: bool) -> (r: String)
    ensures
        r@ == (if collapsed {
            "▶ "@
        } else {
            "▼ "@
        }) + title@,
{
    let mut r = if collapsed {
        "▶ ".to_string()
    } else {
        "▼ ".to_string()
    };
    r.append(title);
    r
}

/// Tooltip text for a toolbar button: the modifier shortcut as the platform
/// writes it, plus its plain-letter equivalent.
pub fn hint(shortcut: &str, plain: &str) -> (r: String)
    ensures
        r@ == shortcut@ + " or "@ + plain@,
{
    let mut r = text::string_of(&text::chars_of(shortcut));
    r.append(" or ");
    r.append(plain);
    r
}

/// An example of what the jump box takes.
pub fn jump_hint(format: TimeFormat) -> (r: &'static str)
    ensures
        r@ == match format {
            TimeFormat::DateTime => "2024-07-17 07:06:40"@,
            TimeFormat::OffsetSecs => "T+4.5s"@,
        },
{
    match format {
        TimeFormat::DateTime => "2024-07-17 07:06:40",
        TimeFormat::OffsetSecs => "T+4.5s",
    }
}

/// One row of the message list.
pub struct MessageRow {
    pub entry_index: usize,
    pub time: String,
    pub ids: String,
    pub name: String,
    /// The value last seen of each custom column.
    pub values: Vec<Vec<Piece>>,
    pub label: String,
    pub selected: bool,
    pub marked: bool,
}

/// What a row of the message list holds.
#[verifier::ext_equal]
pub struct RowView {
    pub entry_index: usize,
    pub time: Seq<char>,
    pub ids: Seq<char>,
    pub name: Seq<char>,
    pub values: Seq<Seq<PieceView>>,
    pub label: Seq<char>,
    pub selected: bool,
    pub marked: bool,
}

/// What the values of a row hold.
pub open spec fn value_views(values: Seq<Vec<Piece>>) -> Seq<Seq<PieceView>> {
    values.map_values(|v: Vec<Piece>| value::piece_views(v@))
}

impl View for MessageRow {
    type V = RowView;

    open spec fn view(&self) -> RowView {
        RowView {
            entry_index: self.entry_index,
            time: self.time@,
            ids: self.ids@,
            name: self.name@,
            values: value_views(self.values@),
            label: self.label@,
            selected: self.selected,
            marked: self.marked,
        }
    }
}

/// The values that the columns of a session show at an entry.
pub open spec fn cells(s: SessionView, entry_index: usize) -> Seq<Seq<PieceView>> {
    s.columns.map_values(|c: ColumnView| s.cell(c, entry_index))
}

/// The row of the message list at a position.
pub open spec fn row_at(s: SessionView, row: int) -> RowView {
    let i = s.filtered[row];
    let e = s.entries[i as int];
    RowView {
        entry_index: i,
        time: list_time(s, e.timestamp_us),
        ids: match (e.sysid, e.compid) {
            (Some(sysid), Some(compid)) => entry::id_text(sysid, compid),
            _ => seq![],
        },
        name: e.name,
        values: cells(s, i),
        label: mark_label(mark_of(s.marks, i)),
        selected: row == s.selected,
        marked: s.marks.contains_key(i),
    }
}

/// The values that the columns of a session show at an entry.
fn cell_values(session: &Session, entry_index: usize) -> (r: Vec<Vec<Piece>>)
    requires
        session@.wf(),
        sound::columns_indexed(session@.columns, session@.entries.len() as int),
    ensures
        value_views(r@) == cells(session@, entry_index),
{
    let ghost all = cells(session@, entry_index);
    let mut r: Vec<Vec<Piece>> = Vec::new();
    let mut i: usize = 0;
    assert(value_views(r@) =~= all.take(0));
    while i < session.columns.len()
        invariant
            i <= session.columns.len(),
            all == cells(session@, entry_index),
            session@.wf(),
            sound::columns_indexed(session@.columns, session@.entries.len() as int),
            value_views(r@) == all.take(i as int),
        decreases session.columns.len() - i,
    {
        let ghost before = r@;
        assert(session@.columns[i as int] == session.columns@[i as int]@);
        let v = session.column_value(&session.columns[i], entry_index);
        let ghost shown = value::piece_views(v@);
        r.push(v);
        i += 1;
        assert(value_views(r@) =~= value_views(before).push(shown));
        assert(all.take(i as int) =~= all.take(i - 1).push(all[i - 1]));
    }
    assert(all.take(i as int) =~= all);
    r
}

/// The row of the message list at a position.
pub fn message_row(session: &Session, row: usize) -> (r: MessageRow)
    requires
        session@.sound(),
        row < session@.filtered.len(),
    ensures
        r@ == row_at(session@, row as int),
{
    let entry_index = session.filtered[row];
    assert(entry_index < session@.entries.len());
    let e = &session.entries[entry_index];
    assert(session@.entries[entry_index as int] == e@);
    let mark = session.marks.get(&entry_index);
    let r = MessageRow {
        entry_index,
        time: session.format_list_time(e.timestamp_us),
        ids: e.id_label(),
        name: e.name.clone(),
        values: cell_values(session, entry_index),
        label: mark_cell(mark),
        selected: row == session.selected,
        marked: mark.is_some(),
    };
    assert(r@ =~= row_at(session@, row as int));
    r
}

/// How a mark is shown: by a dot, and its label behind a space.
pub proof fn law_mark_label(label: Seq<char>)
    ensures
        mark_label(None).len() == 0,
        mark_label(Some(seq![])) == seq!['\u{25cf}'],
        label.len() > 0 ==> mark_label(Some(label)) == seq!['\u{25cf}', ' '] + label,
{
    reveal_strlit("●");
    reveal_strlit("● ");
    assert("●"@ =~= seq!['\u{25cf}']);
    assert("● "@ =~= seq!['\u{25cf}', ' ']);
}

/// How a mark is listed: a dot, the time, the name of the message, and its label on a
/// line of its own.
pub proof fn law_mark_line(shown_time: Seq<char>, name: Seq<char>, label: Seq<char>)
    ensures
        label.len() == 0 ==> mark_line(shown_time, name, label) == seq!['\u{25cf}', ' ']
            + shown_time + seq![' ', ' '] + name,
        label.len() > 0 ==> mark_line(shown_time, name, label) == seq!['\u{25cf}', ' ']
            + shown_time + seq![' ', ' '] + name + (seq!['\n', ' ', ' ', ' '] + label),
{
    reveal_strlit("● ");
    reveal_strlit("  ");
    reveal_strlit("\n   ");
    assert("● "@ =~= seq!['\u{25cf}', ' ']);
    assert("  "@ =~= seq![' ', ' ']);
    assert("\n   "@ =~= seq!['\n', ' ', ' ', ' ']);
    if label.len() == 0 {
        assert(mark_line(shown_time, name, label) =~= seq!['\u{25cf}', ' '] + shown_time + seq![
            ' ',
            ' ',
        ] + name);
    }
}

/// A row of the list shows the visible message at its place: its own time, ids and name,
/// the values of all columns at it, and its mark. It is selected where its place is.
pub proof fn law_row(s: SessionView, row: int, k: int)
    requires
        0 <= row < s.filtered.len(),
    ensures
        ({
            let r = row_at(s, row);
            let i = s.filtered[row];
            let e = s.entries[i as int];
            &&& r.entry_index == i
            &&& r.name == e.name
            &&& r.time == list_time(s, e.timestamp_us)
            &&& e.sysid is None || e.compid is None ==> r.ids.len() == 0
            &&& e.sysid is Some && e.compid is Some ==> r.ids == numeral::decimal(
                e.sysid->Some_0 as nat,
            ) + seq![':'] + numeral::decimal(e.compid->Some_0 as nat)
            &&& r.values.len() == s.columns.len()
            &&& 0 <= k < s.columns.len() ==> r.values[k] == s.cell(s.columns[k], i)
            &&& r.marked == s.marks.contains_key(i)
            &&& !s.marks.contains_key(i) ==> r.label.len() == 0
            &&& s.marks.contains_key(i) ==> r.label == mark_label(Some(s.marks[i]))
            &&& r.selected <==> row == s.selected
        }),
{
}

/// Times are shown as dates or relative to the start, as the session says.
pub proof fn law_list_time(s: SessionView, timestamp_us: u64)
    ensures
        s.time_format == TimeFormat::OffsetSecs ==> list_time(s, timestamp_us) == time::offset_text(
            time::offset_us(timestamp_us, s.start_us),
        ),
        s.time_format == TimeFormat::DateTime ==> list_time(s, timestamp_us)
            == time::datetime_label(
            time::utc_text(time::as_signed(timestamp_us), "%Y-%m-%d %H:%M:%S%.3f"@),
            timestamp_us,
        ),
{
}

/// The title of a message: its name and the id that its format has for it.
pub proof fn law_title(e: EntryView)
    ensures
        e.kind matches EntryKind::Mavlink { msg_id, .. } ==> title_text(e) == e.name + seq![
            ' ',
            '(',
            'i',
            'd',
            ' ',
        ] + numeral::decimal(msg_id as nat) + seq![')'],
        e.kind matches EntryKind::Dataflash { msg_type } ==> title_text(e) == e.name + seq![
            ' ',
            '(',
            'i',
            'd',
            ' ',
        ] + numeral::decimal(msg_type as nat) + seq![')'],
{
    reveal_strlit(" (id ");
    reveal_strlit(")");
    assert(" (id "@ =~= seq![' ', '(', 'i', 'd', ' ']);
    assert(")"@ =~= seq![')']);
}

/// What stands above the detail text: the time, absolute and relative, and the mark with
/// its label, where there is one.
pub proof fn law_head(datetime: Seq<char>, offset: Seq<char>, label: Seq<char>)
    ensures
        head_text(datetime, offset, None) == "Time: "@ + datetime + "  ("@ + offset + ")\n"@ + seq![
            '\n',
        ],
        head_text(datetime, offset, Some(seq![])) == "Time: "@ + datetime + "  ("@ + offset
            + ")\n"@ + "Mark: ●\n"@ + seq!['\n'],
        label.len() > 0 ==> head_text(datetime, offset, Some(label)) == "Time: "@ + datetime
            + "  ("@ + offset + ")\n"@ + ("Mark: ● "@ + label + seq!['\n']) + seq!['\n'],
{
    assert(head_text(datetime, offset, None) =~= "Time: "@ + datetime + "  ("@ + offset + ")\n"@
        + seq!['\n']);
}

/// The marks are listed in order, each with the time, the name and the label of its own
/// message.
pub proof fn law_marks_are_listed(
    texts: Seq<(usize, Seq<char>)>,
    list: Seq<(usize, Seq<char>)>,
    s: SessionView,
    i: int,
)
    requires
        shows_marks(texts, list, s),
    ensures
        texts.len() == list.len(),
        0 <= i < list.len() ==> texts[i].0 == list[i].0 && texts[i].1 == mark_line(
            list_time(s, s.entries[list[i].0 as int].timestamp_us),
            s.entries[list[i].0 as int].name,
            list[i].1,
        ),
{
}

} // verus!
