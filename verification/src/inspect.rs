//! Looking into messages: decoded fields, detail texts, column values and the
//! samples of plot series.

use vstd::prelude::*;
use vstd::slice::slice_subrange;
use crate::column::{ColumnView, CustomColumn};
use crate::entry::{EntryKind, EntryView, LogEntry};
use crate::plot::{SeriesDef, SeriesView};
use crate::session::{Session, SessionView};
use crate::value::{Field, FieldView, Number, Piece, PieceView};
use crate::{browse, dataflash, dialect, schema, text, tlog, value};

verus! {

impl SessionView {
    /// The payload of an entry.
    pub open spec fn payload(self, e: EntryView) -> Seq<u8> {
        self.data.subrange(e.start, e.end)
    }

    /// The fields of an entry, where its payload can be decoded.
    pub open spec fn fields(self, e: EntryView) -> Option<Seq<FieldView>> {
        match e.kind {
            EntryKind::Mavlink { .. } => tlog::decoded(self.data, e),
            EntryKind::Dataflash { msg_type } => match self.schema {
                Some(msgs) => dataflash::fields(msgs, msg_type, self.payload(e)),
                None => None,
            },
        }
    }

    /// The detail text of an entry, where its payload can be decoded.
    pub open spec fn decoded_detail(self, e: EntryView) -> Option<Seq<PieceView>> {
        match e.kind {
            EntryKind::Mavlink { msg_id, version } => match dialect::message_detail(
                version,
                msg_id,
                self.payload(e),
            ) {
                Some(s) => Some(seq![PieceView::Text(s)]),
                None => None,
            },
            EntryKind::Dataflash { msg_type } => match self.schema {
                Some(msgs) => dataflash::detail(msgs, msg_type, self.payload(e)),
                None => None,
            },
        }
    }

    /// The detail text of an entry: the decoded message, or a hex dump.
    pub open spec fn detail(self, e: EntryView) -> Seq<PieceView> {
        detail_or_dump(self.decoded_detail(e), self.payload(e))
    }

    /// How a column shows the value last seen at an entry: nothing before the
    /// first message it reads from, and a question mark where that message
    /// cannot be decoded or lacks the field.
    pub open spec fn cell(self, c: ColumnView, entry_index: usize) -> Seq<PieceView> {
        match latest(c.matches, entry_index) {
            None => seq![],
            Some(i) => shown_field(self.fields(self.entries[i as int]), c.field),
        }
    }

    /// The fields of the first message of a type, from `from` on, that can be
    /// decoded.
    pub open spec fn first_decoded(self, msg_type: Seq<char>, from: int) -> Option<Seq<FieldView>>
        decreases self.entries.len() - from,
    {
        if from < 0 || from >= self.entries.len() {
            None
        } else if self.entries[from].name == msg_type && self.fields(self.entries[from]) is Some {
            self.fields(self.entries[from])
        } else {
            self.first_decoded(msg_type, from + 1)
        }
    }

    /// The field names of a message type, from its first message that can be
    /// decoded.
    pub open spec fn field_names(self, msg_type: Seq<char>) -> Seq<Seq<char>> {
        match self.first_decoded(msg_type, 0) {
            Some(fields) => names_but_type(fields),
            None => seq![],
        }
    }

    /// The sample that an entry gives for a series: its time and the value of
    /// the field, where it is a number.
    pub open spec fn sample(self, e: EntryView, series: SeriesView) -> Option<(u64, Number)> {
        if e.is_from(series.sysid, series.compid, series.msg_type) {
            match number_under(self.fields(e), series.field) {
                Some(n) => Some((e.timestamp_us, n)),
                None => None,
            }
        } else {
            None
        }
    }

    /// The samples that the first `n` entries give for a series.
    pub open spec fn samples(self, series: SeriesView, n: int) -> Seq<(u64, Number)>
        decreases n,
    {
        if n <= 0 {
            seq![]
        } else {
            match self.sample(self.entries[n - 1], series) {
                Some(p) => self.samples(series, n - 1).push(p),
                None => self.samples(series, n - 1),
            }
        }
    }
}

/// A decoded detail text, or a hex dump of the payload.
pub open spec fn detail_or_dump(detail: Option<Seq<PieceView>>, payload: Seq<u8>) -> Seq<
    PieceView,
> {
    match detail {
        Some(p) => p,
        None => seq![
            PieceView::Text("undecodable payload:\n"@ + tlog::dump_lines(payload, 0)),
        ],
    }
}

/// How many elements at the start of a list are at most `x`.
pub open spec fn count_at_most(list: Seq<usize>, x: usize) -> int
    decreases list.len(),
{
    if list.len() == 0 || list[0] > x {
        0
    } else {
        1 + count_at_most(list.drop_first(), x)
    }
}

/// The last element of an ascending list that is at most `x`.
pub open spec fn latest(list: Seq<usize>, x: usize) -> Option<usize> {
    let n = count_at_most(list, x);
    if n > 0 {
        Some(list[n - 1])
    } else {
        None
    }
}

/// How the named field of a decoded message is shown.
pub open spec fn shown_field(fields: Option<Seq<FieldView>>, name: Seq<char>) -> Seq<PieceView> {
    match fields {
        None => seq![PieceView::Text("?"@)],
        Some(list) => match value::field_named(list, name) {
            None => seq![PieceView::Text("?"@)],
            Some(d) => d.pieces(),
        },
    }
}

/// The names of fields, without the message's own `type` tag.
pub open spec fn names_but_type(fields: Seq<FieldView>) -> Seq<Seq<char>>
    decreases fields.len(),
{
    if fields.len() == 0 {
        seq![]
    } else if fields.last().key == "type"@ {
        names_but_type(fields.drop_last())
    } else {
        names_but_type(fields.drop_last()).push(fields.last().key)
    }
}

/// The number in the named field of a decoded message.
pub open spec fn number_under(fields: Option<Seq<FieldView>>, name: Seq<char>) -> Option<Number> {
    match fields {
        None => None,
        Some(list) => match value::field_named(list, name) {
            None => None,
            Some(d) => d.number(),
        },
    }
}

/// What optional fields hold.
pub open spec fn fields_view(fields: Option<Vec<Field>>) -> Option<Seq<FieldView>> {
    match fields {
        Some(v) => Some(value::field_views(v@)),
        None => None,
    }
}

/// A count of leading elements, by what stands around it in an ascending list.
proof fn lemma_count_is(list: Seq<usize>, x: usize, n: int)
    requires
        browse::ascending(list),
        0 <= n <= list.len(),
        n > 0 ==> list[n - 1] <= x,
        n < list.len() ==> list[n] > x,
    ensures
        count_at_most(list, x) == n,
    decreases list.len(),
{
    if n > 0 {
        let rest = list.drop_first();
        assert(browse::ascending(rest)) by {
            assert forall|a: int, b: int| 0 <= a < b < rest.len() implies (#[trigger] rest[a]) < (
            #[trigger] rest[b]) by {
                assert(rest[a] == list[a + 1] && rest[b] == list[b + 1]);
            }
        }
        if n > 1 {
            assert(list[0] < list[n - 1]);
        }
        lemma_count_is(rest, x, n - 1);
    }
}

/// The last element of an ascending list that is at most `x`.
fn find_latest(list: &[usize], x: usize) -> (r: Option<usize>)
    requires
        browse::ascending(list@),
    ensures
        r == latest(list@, x),
        r matches Some(i) ==> list@.contains(i),
{
    let mut low: usize = 0;
    let mut high: usize = list.len();
    while low < high
        invariant
            low <= high <= list.len(),
            browse::ascending(list@),
            low > 0 ==> list@[low - 1] <= x,
            high < list@.len() ==> list@[high as int] > x,
        decreases high - low,
    {
        let mid: usize = low + (high - low) / 2;
        if list[mid] <= x {
            low = mid + 1;
        } else {
            high = mid;
        }
    }
    proof {
        lemma_count_is(list@, x, low as int);
    }
    if low > 0 {
        assert(list@.contains(list@[low - 1]));
        Some(list[low - 1])
    } else {
        None
    }
}

/// How the named field of a decoded message is shown.
pub fn show_field(fields: &Option<Vec<Field>>, name: &str) -> (r: Vec<Piece>)
    ensures
        value::piece_views(r@) == shown_field(fields_view(*fields), name@),
{
    let mut r: Vec<Piece> = Vec::new();
    assert(value::piece_views(r@) =~= seq![]);
    if let Some(list) = fields {
        if let Some(d) = value::find_field(list, name) {
            d.push_pieces(&mut r);
            assert(value::piece_views(r@) =~= d@.pieces());
            return r;
        }
    }
    r.push(Piece::Text("?".to_string()));
    assert(value::piece_views(r@) =~= seq![PieceView::Text("?"@)]);
    r
}

/// The names of fields, without the message's own `type` tag.
pub fn option_names(fields: &[Field]) -> (r: Vec<String>)
    ensures
        text::views(r@) == names_but_type(value::field_views(fields@)),
{
    let ghost all = value::field_views(fields@);
    let mut r: Vec<String> = Vec::new();
    let mut i: usize = 0;
    assert(all.take(0) =~= seq![]);
    assert(text::views(r@) =~= seq![]);
    while i < fields.len()
        invariant
            i <= fields.len(),
            all == value::field_views(fields@),
            text::views(r@) == names_but_type(all.take(i as int)),
        decreases fields.len() - i,
    {
        let ghost before = r@;
        let key = &fields[i].key;
        proof {
            assert(all.take(i + 1).drop_last() =~= all.take(i as int));
            assert(all.take(i + 1).last() == fields@[i as int]@);
        }
        if !text::same_str(key.as_str(), "type") {
            r.push(key.clone());
            assert(text::views(r@) =~= text::views(before).push(key@));
        }
        i += 1;
    }
    assert(all.take(i as int) =~= all);
    r
}

/// The number in the named field of a decoded message.
pub fn number_in(fields: &Option<Vec<Field>>, name: &str) -> (r: Option<Number>)
    ensures
        r == number_under(fields_view(*fields), name@),
{
    match fields {
        Some(list) => match value::find_field(list, name) {
            Some(d) => d.as_number(),
            None => None,
        },
        None => None,
    }
}

/// A decoded detail text, or a hex dump of the payload.
pub fn detail_of(detail: Option<Vec<Piece>>, payload: &[u8]) -> (r: Vec<Piece>)
    ensures
        value::piece_views(r@) == detail_or_dump(
            match detail {
                Some(v) => Some(value::piece_views(v@)),
                None => None,
            },
            payload@,
        ),
{
    match detail {
        Some(v) => v,
        None => {
            let mut r: Vec<Piece> = Vec::new();
            let dump = tlog::hex_dump(payload);
            r.push(Piece::Text(dump));
            assert(value::piece_views(r@) =~= seq![PieceView::Text(dump@)]);
            r
        },
    }
}

impl Session {
    /// Decode an entry's payload into a flat list of named values. The single
    /// place that knows how each log format turns bytes into named fields, so
    /// columns, plots and field discovery stay format-neutral.
    pub fn decode_fields(&self, entry: &LogEntry) -> (r: Option<Vec<Field>>)
        requires
            entry@.within(self@.data.len() as int),
        ensures
            fields_view(r) == self@.fields(entry@),
    {
        match entry.kind {
            EntryKind::Mavlink { .. } => tlog::decode(&self.data, entry),
            EntryKind::Dataflash { msg_type } => match &self.schema {
                Some(schema) => dataflash::decode_fields(
                    schema,
                    msg_type,
                    slice_subrange(&self.data, entry.payload.start, entry.payload.end),
                ),
                None => None,
            },
        }
    }

    /// The unit label a DataFlash schema records for a field, if any. Used to
    /// auto-fill a new plot series' unit. Always `None` for MAVLink logs.
    pub fn field_unit(&self, msg_type: &str, field: &str) -> (r: Option<String>)
        ensures
            value::text_of(r) == match self@.schema {
                Some(msgs) => schema::unit_of(msgs, msg_type@, field@),
                None => None,
            },
    {
        match &self.schema {
            Some(schema) => schema.field_unit(msg_type, field),
            None => None,
        }
    }

    /// The detail-pane body for an entry: the decoded message fields, or a hex
    /// dump when the payload can't be decoded.
    pub fn decode_detail(&self, entry: &LogEntry) -> (r: Vec<Piece>)
        requires
            entry@.within(self@.data.len() as int),
        ensures
            value::piece_views(r@) == self@.detail(entry@),
    {
        let payload = slice_subrange(&self.data, entry.payload.start, entry.payload.end);
        let decoded = match entry.kind {
            EntryKind::Mavlink { msg_id, version } => match dialect::detail_text(
                version,
                msg_id,
                payload,
            ) {
                Some(s) => {
                    let mut v: Vec<Piece> = Vec::new();
                    v.push(Piece::Text(s));
                    assert(value::piece_views(v@) =~= seq![PieceView::Text(s@)]);
                    Some(v)
                },
                None => None,
            },
            EntryKind::Dataflash { msg_type } => match &self.schema {
                Some(schema) => dataflash::decode_detail(schema, msg_type, payload),
                None => None,
            },
        };
        detail_of(decoded, payload)
    }

    /// The column's field value from the last matching message at or before
    /// the given entry.
    pub fn column_value(&self, col: &CustomColumn, entry_index: usize) -> (r: Vec<Piece>)
        requires
            self@.wf(),
            browse::ascending(col@.matches),
            browse::in_range(col@.matches, self@.entries.len() as int),
        ensures
            value::piece_views(r@) == self@.cell(col@, entry_index),
    {
        match find_latest(&col.matches, entry_index) {
            None => {
                let r: Vec<Piece> = Vec::new();
                assert(value::piece_views(r@) =~= seq![]);
                r  // nothing seen yet
            },
            Some(i) => {
                assert(i < self.entries@.len());
                assert(self@.entries[i as int] == self.entries@[i as int]@);
                let fields = self.decode_fields(&self.entries[i]);
                show_field(&fields, col.field.as_str())
            },
        }
    }

    /// Field names of a message type, from the first decodable sample in
    /// the file.
    pub fn field_options(&self, msg_type: &str) -> (r: Vec<String>)
        requires
            self@.wf(),
        ensures
            text::views(r@) == self@.field_names(msg_type@),
    {
        let mut i: usize = 0;
        while i < self.entries.len()
            invariant
                i <= self.entries.len(),
                self@.wf(),
                self@.first_decoded(msg_type@, 0) == self@.first_decoded(msg_type@, i as int),
            decreases self.entries.len() - i,
        {
            let e = &self.entries[i];
            assert(self@.entries[i as int] == e@);
            if text::same_str(e.name.as_str(), msg_type) {
                if let Some(fields) = self.decode_fields(e) {
                    return option_names(&fields);
                }
            }
            i += 1;
        }
        let r: Vec<String> = Vec::new();
        assert(text::views(r@) =~= seq![]);
        r
    }

    /// Dropdown option labels for a column-editor field (1 = id, 2 = type,
    /// else the fields of the chosen type).
    pub fn column_dropdown_labels(&self, field_row: usize, type_choice: usize) -> (r: Vec<String>)
        requires
            self@.wf(),
        ensures
            text::views(r@) == if field_row == 1 {
                self@.id_labels()
            } else if field_row == 2 {
                self@.type_options
            } else if type_choice < self@.type_options.len() {
                self@.field_names(self@.type_options[type_choice as int])
            } else {
                seq![]
            },
    {
        if field_row == 1 {
            self.id_labels()
        } else if field_row == 2 {
            text::copied_strings(&self.type_options)
        } else if type_choice < self.type_options.len() {
            assert(self@.type_options[type_choice as int] == self.type_options@[type_choice as int]@);
            self.field_options(self.type_options[type_choice].as_str())
        } else {
            let r: Vec<String> = Vec::new();
            assert(text::views(r@) =~= seq![]);
            r
        }
    }

    /// The samples of a series: scans entries matching the series' id/type,
    /// decodes each, and takes the named field where it is a number. Entries
    /// where the field is missing or not numeric (e.g. enum fields) are
    /// skipped.
    pub fn series_samples(&self, series: &SeriesDef) -> (r: Vec<(u64, Number)>)
        requires
            self@.wf(),
        ensures
            r@ == self@.samples(series@, self@.entries.len() as int),
    {
        let mut r: Vec<(u64, Number)> = Vec::new();
        let mut i: usize = 0;
        while i < self.entries.len()
            invariant
                i <= self.entries.len(),
                self@.wf(),
                r@ == self@.samples(series@, i as int),
            decreases self.entries.len() - i,
        {
            let e = &self.entries[i];
            assert(self@.entries[i as int] == e@);
            if e.comes_from(series.sysid, series.compid, series.msg_type.as_str()) {
                let fields = self.decode_fields(e);
                if let Some(n) = number_in(&fields, series.field.as_str()) {
                    r.push((e.timestamp_us, n));
                }
            }
            i += 1;
        }
        r
    }
}

/// A column shows the last message it reads from at or before an entry; before
/// the first such message it shows nothing.
pub proof fn law_latest_is_last_seen(list: Seq<usize>, x: usize)
    requires
        browse::ascending(list),
    ensures
        match latest(list, x) {
            Some(i) => {
                &&& list.contains(i)
                &&& i <= x
                &&& forall|k: int| 0 <= k < list.len() && (#[trigger] list[k]) <= x ==> list[k] <= i
            },
            None => forall|k: int| 0 <= k < list.len() ==> (#[trigger] list[k]) > x,
        },
{
    let n = count_at_most(list, x);
    lemma_count_bounds(list, x);
    assert forall|k: int| n <= k < list.len() implies (#[trigger] list[k]) > x by {
        if k > n {
            assert(list[n] < list[k]);
        }
    }
    if n > 0 {
        assert(list.contains(list[n - 1]));
        assert forall|k: int| 0 <= k < n implies (#[trigger] list[k]) <= list[n - 1] by {
            if k < n - 1 {
                assert(list[k] < list[n - 1]);
            }
        }
    }
}

/// What stands around a count of leading elements.
proof fn lemma_count_bounds(list: Seq<usize>, x: usize)
    ensures
        0 <= count_at_most(list, x) <= list.len(),
        count_at_most(list, x) > 0 ==> list[count_at_most(list, x) - 1] <= x,
        count_at_most(list, x) < list.len() ==> list[count_at_most(list, x)] > x,
    decreases list.len(),
{
    if list.len() > 0 && list[0] <= x {
        lemma_count_bounds(list.drop_first(), x);
    }
}

/// What a cell of a column shows at an entry: nothing where every message that the
/// column reads from comes later; else the field of the last one that does not, or a
/// question mark where that message cannot be decoded or lacks the field.
pub proof fn law_cell(s: SessionView, c: ColumnView, at: usize, seen: int, d: value::DatumView)
    requires
        browse::ascending(c.matches),
    ensures
        (forall|k: int| 0 <= k < c.matches.len() ==> (#[trigger] c.matches[k]) > at) ==> s.cell(
            c,
            at,
        ).len() == 0,
        0 <= seen < c.matches.len() && c.matches[seen] <= at && (seen + 1 < c.matches.len()
            ==> c.matches[seen + 1] > at) ==> {
            let fields = s.fields(s.entries[c.matches[seen] as int]);
            &&& fields is None ==> s.cell(c, at) == seq![PieceView::Text(seq!['?'])]
            &&& fields matches Some(list) ==> {
                &&& value::field_named(list, c.field) == Some(d) ==> s.cell(c, at) == d.pieces()
                &&& value::field_named(list, c.field) is None ==> s.cell(c, at) == seq![
                    PieceView::Text(seq!['?']),
                ]
            }
        },
{
    reveal_strlit("?");
    assert("?"@ =~= seq!['?']);
    if forall|k: int| 0 <= k < c.matches.len() ==> (#[trigger] c.matches[k]) > at {
        lemma_count_is(c.matches, at, 0);
    }
    if 0 <= seen < c.matches.len() && c.matches[seen] <= at && (seen + 1 < c.matches.len()
        ==> c.matches[seen + 1] > at) {
        lemma_count_is(c.matches, at, seen + 1);
    }
}

/// The names offered of fields are those of all fields in order, but for `type`.
pub proof fn law_field_names(fields: Seq<FieldView>, f: FieldView)
    ensures
        names_but_type(seq![]) == Seq::<Seq<char>>::empty(),
        f.key == seq!['t', 'y', 'p', 'e'] ==> names_but_type(fields.push(f)) == names_but_type(
            fields,
        ),
        f.key != seq!['t', 'y', 'p', 'e'] ==> names_but_type(fields.push(f)) == names_but_type(
            fields,
        ).push(f.key),
{
    reveal_strlit("type");
    assert("type"@ =~= seq!['t', 'y', 'p', 'e']);
    assert(fields.push(f).drop_last() =~= fields);
}

/// The field names of a type are those of its first message that can be decoded;
/// without one there are none.
pub proof fn law_names_of_first_decoded(s: SessionView, msg_type: Seq<char>, i: int)
    ensures
        0 <= i < s.entries.len() && s.entries[i].name == msg_type && (forall|k: int|
            0 <= k < i && (#[trigger] s.entries[k]).name == msg_type ==> s.fields(s.entries[k])
                is None) ==> (s.fields(s.entries[i]) matches Some(list) ==> s.field_names(msg_type)
            == names_but_type(list)),
        (forall|k: int|
            0 <= k < s.entries.len() && (#[trigger] s.entries[k]).name == msg_type ==> s.fields(
                s.entries[k],
            ) is None) ==> s.field_names(msg_type).len() == 0,
{
    if 0 <= i < s.entries.len() && s.entries[i].name == msg_type && (forall|k: int|
        0 <= k < i && (#[trigger] s.entries[k]).name == msg_type ==> s.fields(s.entries[k])
            is None) && s.fields(s.entries[i]) is Some {
        lemma_first_decoded(s, msg_type, 0, i);
    }
    if forall|k: int|
        0 <= k < s.entries.len() && (#[trigger] s.entries[k]).name == msg_type ==> s.fields(
            s.entries[k],
        ) is None {
        lemma_none_decoded(s, msg_type, 0);
    }
}

/// Which message of a type is the first that can be decoded.
proof fn lemma_first_decoded(s: SessionView, msg_type: Seq<char>, from: int, i: int)
    requires
        0 <= from <= i < s.entries.len(),
        s.entries[i].name == msg_type,
        s.fields(s.entries[i]) is Some,
        forall|k: int|
            from <= k < i && (#[trigger] s.entries[k]).name == msg_type ==> s.fields(s.entries[k])
                is None,
    ensures
        s.first_decoded(msg_type, from) == s.fields(s.entries[i]),
    decreases i - from,
{
    if from < i {
        assert(s.entries[from].name == msg_type ==> s.fields(s.entries[from]) is None);
        lemma_first_decoded(s, msg_type, from + 1, i);
    }
}

/// Where no message of a type can be decoded.
proof fn lemma_none_decoded(s: SessionView, msg_type: Seq<char>, from: int)
    requires
        0 <= from,
        forall|k: int|
            from <= k < s.entries.len() && (#[trigger] s.entries[k]).name == msg_type ==> s.fields(
                s.entries[k],
            ) is None,
    ensures
        s.first_decoded(msg_type, from) is None,
    decreases s.entries.len() - from,
{
    if from < s.entries.len() {
        assert(s.entries[from].name == msg_type ==> s.fields(s.entries[from]) is None);
        lemma_none_decoded(s, msg_type, from + 1);
    }
}

/// The samples of a series: a message with the ids and the type of the series whose
/// field is a number gives its own time and that number, behind the samples before it;
/// any other message gives none.
pub proof fn law_samples(s: SessionView, series: SeriesView, n: int, number: Number)
    requires
        0 <= n < s.entries.len(),
    ensures
        s.samples(series, 0).len() == 0,
        ({
            let e = s.entries[n];
            let asked = (series.sysid is None || series.sysid == e.sysid) && (series.compid is None
                || series.compid == e.compid) && text::lower(series.msg_type) == text::lower(
                e.name,
            );
            let next = s.samples(series, n + 1);
            &&& !asked ==> next == s.samples(series, n)
            &&& s.fields(e) is None ==> next == s.samples(series, n)
            &&& s.fields(e) matches Some(list) ==> {
                &&& value::field_named(list, series.field) is None ==> next == s.samples(series, n)
                &&& value::field_named(list, series.field) matches Some(d) ==> {
                    &&& d.number() is None ==> next == s.samples(series, n)
                    &&& asked && d.number() == Some(number) ==> next == s.samples(series, n).push(
                        (e.timestamp_us, number),
                    )
                }
            }
        }),
{
}

/// The detail text of a message is what it decodes to; where it does not, its payload
/// is dumped behind a line that says so. The payload is the part of the log between
/// the bounds of the message.
pub proof fn law_detail(s: SessionView, e: EntryView)
    requires
        0 <= e.start <= e.end <= s.data.len(),
    ensures
        s.payload(e).len() == e.end - e.start,
        forall|i: int|
            0 <= i < e.end - e.start ==> #[trigger] s.payload(e)[i] == s.data[e.start + i],
        s.decoded_detail(e) matches Some(p) ==> s.detail(e) == p,
        s.decoded_detail(e) is None ==> s.detail(e) == seq![
            PieceView::Text("undecodable payload:\n"@ + tlog::dump_lines(s.payload(e), 0)),
        ],
        e.kind matches EntryKind::Mavlink { msg_id, version } ==> {
            &&& dialect::message_detail(version, msg_id, s.payload(e)) matches Some(t)
                ==> s.decoded_detail(e) == Some(seq![PieceView::Text(t)])
            &&& dialect::message_detail(version, msg_id, s.payload(e)) is None
                ==> s.decoded_detail(e) is None
        },
        e.kind matches EntryKind::Dataflash { msg_type } ==> {
            &&& s.schema is None ==> s.decoded_detail(e) is None && s.fields(e) is None
            &&& s.schema matches Some(msgs) ==> s.decoded_detail(e) == dataflash::detail(
                msgs,
                msg_type,
                s.payload(e),
            ) && s.fields(e) == dataflash::fields(msgs, msg_type, s.payload(e))
        },
{
}

} // verus!
