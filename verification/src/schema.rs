//! The layout of DataFlash records: what `FMT` records declare, refined by the
//! units and multipliers of `FMTU`, `UNIT` and `MULT` records.

use std::collections::HashMap;

use vstd::prelude::*;
use vstd::slice::slice_subrange;
use crate::{text, value};

verus! {

broadcast use vstd::std_specs::hash::group_hash_axioms;

/// The multiplier 1, by the bits of its IEEE 754 binary64 form.
pub const ONE: u64 = 0x3FF0_0000_0000_0000;

/// The multiplier 0.01.
pub const HUNDREDTH: u64 = 0x3F84_7AE1_47AE_147B;

/// The multiplier 1e-7.
pub const TEN_MILLIONTH: u64 = 0x3E7A_D7F2_9ABC_AF48;

/// One field within a message type.
pub struct FieldFmt {
    pub label: String,
    pub code: u8,
    /// Byte offset within the record payload (i.e. after the 3-byte header).
    pub offset: usize,
    pub size: usize,
    /// Effective multiplier applied to the raw value (from `FMTU`/`MULT` when
    /// present, otherwise the format char's built-in scale), by the bits of its
    /// IEEE 754 binary64 form.
    pub multiplier: u64,
    /// Unit label from `FMTU`/`UNIT`, if any.
    pub unit: Option<String>,
}

/// What a field layout holds.
#[verifier::ext_equal]
pub struct FieldFmtView {
    pub label: Seq<char>,
    pub code: u8,
    pub offset: int,
    pub size: int,
    pub multiplier: u64,
    pub unit: Option<Seq<char>>,
}

impl View for FieldFmt {
    type V = FieldFmtView;

    open spec fn view(&self) -> FieldFmtView {
        FieldFmtView {
            label: self.label@,
            code: self.code,
            offset: self.offset as int,
            size: self.size as int,
            multiplier: self.multiplier,
            unit: value::text_of(self.unit),
        }
    }
}

/// What the field layouts of a list hold.
pub open spec fn fmt_views(fields: Seq<FieldFmt>) -> Seq<FieldFmtView> {
    fields.map_values(|f: FieldFmt| f@)
}

/// The layout of one DataFlash message type.
pub struct MsgFmt {
    pub name: String,
    pub fields: Vec<FieldFmt>,
    /// Total record length including the 3-byte header.
    pub length: u8,
}

/// What a message layout holds.
#[verifier::ext_equal]
pub struct MsgFmtView {
    pub name: Seq<char>,
    pub fields: Seq<FieldFmtView>,
    pub length: u8,
}

impl View for MsgFmt {
    type V = MsgFmtView;

    open spec fn view(&self) -> MsgFmtView {
        MsgFmtView { name: self.name@, fields: fmt_views(self.fields@), length: self.length }
    }
}

/// Byte width of a format code, or `None` if unrecognised.
pub open spec fn width(code: u8) -> Option<int> {
    if code == 'b' as u8 || code == 'B' as u8 || code == 'M' as u8 {
        Some(1)
    } else if code == 'h' as u8 || code == 'H' as u8 || code == 'c' as u8 || code == 'C' as u8 {
        Some(2)
    } else if code == 'i' as u8 || code == 'I' as u8 || code == 'f' as u8 || code == 'e' as u8
        || code == 'E' as u8 || code == 'L' as u8 {
        Some(4)
    } else if code == 'd' as u8 || code == 'q' as u8 || code == 'Q' as u8 {
        Some(8)
    } else if code == 'n' as u8 {
        Some(4)
    } else if code == 'N' as u8 {
        Some(16)
    } else if code == 'Z' as u8 || code == 'a' as u8 {
        Some(64)
    } else {
        None
    }
}

/// The multiplier a format code implies on its own.
pub open spec fn scale(code: u8) -> u64 {
    if code == 'c' as u8 || code == 'C' as u8 || code == 'e' as u8 || code == 'E' as u8 {
        HUNDREDTH
    } else if code == 'L' as u8 {
        TEN_MILLIONTH
    } else {
        ONE
    }
}

/// Bytes up to the first NUL.
pub open spec fn until_nul(b: Seq<u8>) -> Seq<u8>
    decreases b.len(),
{
    if b.len() == 0 || b[0] == 0 {
        seq![]
    } else {
        seq![b[0]] + until_nul(b.drop_first())
    }
}

/// The text that `String::from_utf8_lossy` makes of bytes.
pub uninterp spec fn lossy_text(b: Seq<u8>) -> Seq<char>;

/// `String::from_utf8_lossy`: the bytes determine the text, and valid UTF-8 is
/// decoded as it is. What stands in for invalid bytes is left unsaid.
#[verifier::external_body]
fn lossy(b: &[u8]) -> (r: String)
    ensures
        r@ == lossy_text(b@),
        vstd::utf8::valid_utf8(b@) ==> r@ == vstd::utf8::decode_utf8(b@),
{
    String::from_utf8_lossy(b).into_owned()
}

/// The text of a NUL-padded field.
pub open spec fn fixed_text(b: Seq<u8>) -> Seq<char> {
    lossy_text(until_nul(b))
}

/// A NUL-terminated, NUL-padded fixed field as a `String` (lossy UTF-8).
pub fn trim_str(bytes: &[u8]) -> (r: String)
    ensures
        r@ == fixed_text(bytes@),
        vstd::utf8::valid_utf8(until_nul(bytes@)) ==> r@ == vstd::utf8::decode_utf8(
            until_nul(bytes@),
        ),
{
    let end = nul_position(bytes);
    let text = slice_subrange(bytes, 0, end);
    assert(text@ =~= until_nul(bytes@));
    lossy(text)
}

/// Position of the first NUL, or the number of bytes.
fn nul_position(b: &[u8]) -> (n: usize)
    ensures
        n <= b@.len(),
        until_nul(b@) == b@.take(n as int),
{
    let mut i: usize = 0;
    assert(b@.skip(0) =~= b@);
    assert(b@.take(0) + until_nul(b@.skip(0)) =~= until_nul(b@));
    while i < b.len() && b[i] != 0
        invariant
            i <= b.len(),
            b@.take(i as int) + until_nul(b@.skip(i as int)) == until_nul(b@),
        decreases b.len() - i,
    {
        proof {
            assert(b@.skip(i as int).drop_first() =~= b@.skip(i + 1));
            assert(b@.take(i + 1) =~= b@.take(i as int).push(b@[i as int]));
            assert(b@.take(i + 1) + until_nul(b@.skip(i + 1)) =~= b@.take(i as int) + until_nul(
                b@.skip(i as int),
            ));
        }
        i += 1;
    }
    assert(b@.take(i as int) + until_nul(b@.skip(i as int)) =~= b@.take(i as int));
    i
}

/// The pieces that are not empty.
pub open spec fn not_empty(pieces: Seq<Seq<char>>) -> Seq<Seq<char>>
    decreases pieces.len(),
{
    if pieces.len() == 0 {
        seq![]
    } else if pieces.last().len() == 0 {
        not_empty(pieces.drop_last())
    } else {
        not_empty(pieces.drop_last()).push(pieces.last())
    }
}

/// Where the last of some consecutive fields ends.
pub open spec fn layout_end(fields: Seq<FieldFmtView>) -> int {
    if fields.len() == 0 {
        0
    } else {
        fields.last().offset + fields.last().size
    }
}

/// Consecutive fields with the given codes and labels, or `None` where a code
/// is unrecognised.
pub open spec fn layout(codes: Seq<u8>, labels: Seq<Seq<char>>) -> Option<Seq<FieldFmtView>>
    decreases codes.len(),
{
    if codes.len() == 0 {
        Some(seq![])
    } else {
        match (layout(codes.drop_last(), labels.drop_last()), width(codes.last())) {
            (Some(fields), Some(size)) => Some(
                fields.push(
                    FieldFmtView {
                        label: labels.last(),
                        code: codes.last(),
                        offset: layout_end(fields),
                        size,
                        multiplier: scale(codes.last()),
                        unit: None,
                    },
                ),
            ),
            _ => None,
        }
    }
}

/// The message layout that an `FMT` record body declares: Type(1) Length(1)
/// Name(4) Format(16) Columns(64). `None` where the number of labels is not
/// that of format codes, or a code is unrecognised.
pub open spec fn declared(body: Seq<u8>) -> Option<MsgFmtView> {
    let codes = until_nul(body.subrange(6, 22));
    let labels = not_empty(text::split(fixed_text(body.subrange(22, 86)), ','));
    if body.len() < 86 || codes.len() != labels.len() {
        None
    } else {
        match layout(codes, labels) {
            Some(fields) => Some(
                MsgFmtView { name: fixed_text(body.subrange(2, 6)), fields, length: body[1] },
            ),
            None => None,
        }
    }
}

impl MsgFmtView {
    /// Whether every field has a known code with its width, and the record
    /// layout is of moderate size.
    pub open spec fn wf(self) -> bool {
        forall|i: int|
            0 <= i < self.fields.len() ==> {
                &&& width((#[trigger] self.fields[i]).code) == Some(self.fields[i].size)
                &&& 0 <= self.fields[i].offset <= 1024
            }
    }

    /// Position of the first field with the given label, or the number of
    /// fields.
    pub open spec fn index_of(self, label: Seq<char>) -> int {
        label_index(self.fields, label)
    }

    /// The first field with the given label.
    pub open spec fn field(self, label: Seq<char>) -> Option<FieldFmtView> {
        let i = self.index_of(label);
        if 0 <= i < self.fields.len() {
            Some(self.fields[i])
        } else {
            None
        }
    }

    /// The raw bytes of the first field with the given label, where the payload
    /// holds them.
    pub open spec fn bytes(self, payload: Seq<u8>, label: Seq<char>) -> Option<Seq<u8>> {
        match self.field(label) {
            Some(f) => f.bytes(payload),
            None => None,
        }
    }
}

impl FieldFmtView {
    /// The raw bytes of the field, where the payload holds them.
    pub open spec fn bytes(self, payload: Seq<u8>) -> Option<Seq<u8>> {
        if self.offset + self.size <= payload.len() {
            Some(payload.subrange(self.offset, self.offset + self.size))
        } else {
            None
        }
    }
}

/// Position of the first field with the given label, or the number of fields.
pub open spec fn label_index(fields: Seq<FieldFmtView>, label: Seq<char>) -> int
    decreases fields.len(),
{
    if fields.len() == 0 || fields[0].label == label {
        0
    } else {
        1 + label_index(fields.drop_first(), label)
    }
}

impl MsgFmt {
    /// The first field with the given label.
    pub fn field(&self, label: &str) -> (r: Option<&FieldFmt>)
        ensures
            match self@.field(label@) {
                Some(f) => r matches Some(g) && g@ == f && self.fields@.contains(*g),
                None => r is None,
            },
    {
        let ghost all = fmt_views(self.fields@);
        let mut i: usize = 0;
        assert(all.skip(0) =~= all);
        while i < self.fields.len()
            invariant
                i <= self.fields.len(),
                all == fmt_views(self.fields@),
                label_index(all, label@) == i + label_index(all.skip(i as int), label@),
            decreases self.fields.len() - i,
        {
            assert(all.skip(i as int)[0] == self.fields@[i as int]@);
            if text::same_str(self.fields[i].label.as_str(), label) {
                return Some(&self.fields[i]);
            }
            assert(all.skip(i as int).drop_first() =~= all.skip(i + 1));
            i += 1;
        }
        None
    }
}

/// Byte width of a format code, or `None` if unrecognised.
pub fn code_size(code: u8) -> (r: Option<usize>)
    ensures
        match r {
            Some(n) => width(code) == Some(n as int) && 1 <= n <= 64,
            None => width(code) is None,
        },
{
    let c = code as char;
    if c == 'b' || c == 'B' || c == 'M' {
        Some(1)
    } else if c == 'h' || c == 'H' || c == 'c' || c == 'C' {
        Some(2)
    } else if c == 'i' || c == 'I' || c == 'f' || c == 'e' || c == 'E' || c == 'L' {
        Some(4)
    } else if c == 'd' || c == 'q' || c == 'Q' {
        Some(8)
    } else if c == 'n' {
        Some(4)
    } else if c == 'N' {
        Some(16)
    } else if c == 'Z' || c == 'a' {
        Some(64)
    } else {
        None
    }
}

/// The multiplier a format code implies on its own, used when no `FMTU`
/// overrides it.
pub fn code_scale(code: u8) -> (r: u64)
    ensures
        r == scale(code),
{
    let c = code as char;
    if c == 'c' || c == 'C' || c == 'e' || c == 'E' {
        HUNDREDTH
    } else if c == 'L' {
        TEN_MILLIONTH
    } else {
        ONE
    }
}

/// The fields of a layout are well-formed and follow each other.
proof fn lemma_layout(codes: Seq<u8>, labels: Seq<Seq<char>>)
    ensures
        layout(codes, labels) matches Some(fields) ==> {
            &&& fields.len() == codes.len()
            &&& forall|i: int|
                0 <= i < fields.len() ==> {
                    &&& width((#[trigger] fields[i]).code) == Some(fields[i].size)
                    &&& 0 <= fields[i].offset <= 64 * i
                }
            &&& 0 <= layout_end(fields) <= 64 * codes.len()
        },
    decreases codes.len(),
{
    if codes.len() > 0 {
        lemma_layout(codes.drop_last(), labels.drop_last());
    }
}

/// The labels of a layout, in order.
pub open spec fn labels_in(m: MsgFmtView) -> Seq<Seq<char>> {
    m.fields.map_values(|f: FieldFmtView| f.label)
}

/// The fields of a layout have the given labels.
proof fn lemma_layout_labels(codes: Seq<u8>, labels: Seq<Seq<char>>)
    requires
        codes.len() == labels.len(),
    ensures
        layout(codes, labels) matches Some(fields) ==> {
            &&& fields.len() == labels.len()
            &&& forall|i: int| 0 <= i < fields.len() ==> (#[trigger] fields[i]).label == labels[i]
        },
    decreases codes.len(),
{
    if codes.len() > 0 {
        lemma_layout_labels(codes.drop_last(), labels.drop_last());
    }
}

/// The layout of a prefix fails only where the whole layout does.
proof fn lemma_layout_prefix(codes: Seq<u8>, labels: Seq<Seq<char>>, n: int)
    requires
        0 <= n <= codes.len(),
        codes.len() == labels.len(),
        layout(codes.take(n), labels.take(n)) is None,
    ensures
        layout(codes, labels) is None,
    decreases codes.len(),
{
    if n == codes.len() {
        assert(codes.take(n) =~= codes);
        assert(labels.take(n) =~= labels);
    } else {
        assert(codes.drop_last().take(n) =~= codes.take(n));
        assert(labels.drop_last().take(n) =~= labels.take(n));
        lemma_layout_prefix(codes.drop_last(), labels.drop_last(), n);
    }
}

/// The type id an `FMT` body declares (its first field).
pub fn fmt_defined_type(body: &[u8]) -> (t: u8)
    requires
        body@.len() > 0,
    ensures
        t == body@[0],
{
    body[0]
}

/// The pieces of a text between commas that are not empty.
fn labels_of<'a>(chars: &'a [char]) -> (r: Vec<&'a [char]>)
    ensures
        text::slices(r@) == not_empty(text::split(chars@, ',')),
{
    let parts = text::pieces(chars, ',');
    let ghost all = text::slices(parts@);
    let mut r: Vec<&'a [char]> = Vec::new();
    let mut i: usize = 0;
    assert(all.take(0) =~= seq![]);
    assert(text::slices(r@) =~= seq![]);
    while i < parts.len()
        invariant
            i <= parts.len(),
            all == text::slices(parts@),
            all == text::split(chars@, ','),
            text::slices(r@) == not_empty(all.take(i as int)),
        decreases parts.len() - i,
    {
        let ghost before = r@;
        proof {
            assert(all.take(i + 1).drop_last() =~= all.take(i as int));
            assert(all.take(i + 1).last() == parts@[i as int]@);
        }
        if parts[i].len() > 0 {
            r.push(parts[i]);
            assert(text::slices(r@) =~= text::slices(before).push(parts@[i as int]@));
        }
        i += 1;
    }
    assert(all.take(i as int) =~= all);
    r
}

/// Parse an `FMT` record body (everything after the 3-byte header) into a
/// [`MsgFmt`]. Layout: Type(1) Length(1) Name(4) Format(16) Columns(64).
pub fn parse_fmt(body: &[u8]) -> (r: Option<MsgFmt>)
    ensures
        match declared(body@) {
            Some(v) => r matches Some(f) && f@ == v && v.wf(),
            None => r is None,
        },
        r matches Some(f) ==> {
            let name = until_nul(body@.subrange(2, 6));
            let columns = until_nul(body@.subrange(22, 86));
            &&& vstd::utf8::valid_utf8(name) ==> f.name@ == vstd::utf8::decode_utf8(name)
            &&& vstd::utf8::valid_utf8(columns) ==> labels_in(f@) == not_empty(
                text::split(vstd::utf8::decode_utf8(columns), ','),
            )
        },
{
    if body.len() < 86 {
        return None;
    }
    let length: u8 = body[1];
    let name = trim_str(slice_subrange(body, 2, 6));
    let format = slice_subrange(body, 6, 22);
    let line = trim_str(slice_subrange(body, 22, 86));
    let columns = text::chars_of(line.as_str());
    let count = nul_position(format);
    let codes = slice_subrange(format, 0, count);
    assert(codes@ =~= until_nul(format@));
    let labels = labels_of(&columns);
    if codes.len() != labels.len() {
        return None; // malformed FMT; skip it rather than mis-decode
    }
    let ghost all = text::slices(labels@);
    let mut fields: Vec<FieldFmt> = Vec::new();
    let mut offset: usize = 0;
    let mut i: usize = 0;
    proof {
        assert(codes@.take(0) =~= seq![]);
        assert(fmt_views(fields@) =~= seq![]);
    }
    while i < codes.len()
        invariant
            i <= codes.len() <= 16,
            codes@.len() == labels@.len(),
            all == text::slices(labels@),
            layout(codes@.take(i as int), all.take(i as int)) == Some(fmt_views(fields@)),
            offset == layout_end(fmt_views(fields@)),
            offset <= 64 * i,
            body@.len() >= 86,
            codes@ == until_nul(body@.subrange(6, 22)),
            all == not_empty(text::split(fixed_text(body@.subrange(22, 86)), ',')),
            all == not_empty(text::split(line@, ',')),
        decreases codes.len() - i,
    {
        let code = codes[i];
        proof {
            assert(codes@.take(i + 1).drop_last() =~= codes@.take(i as int));
            assert(all.take(i + 1).drop_last() =~= all.take(i as int));
            assert(all.take(i + 1).last() == labels@[i as int]@);
            assert(codes@.take(i + 1).last() == code);
        }
        let size = match code_size(code) {
            Some(n) => n,
            None => {
                proof {
                    lemma_layout_prefix(codes@, all, i + 1);
                }
                return None;
            },
        };
        let f = FieldFmt {
            label: text::string_of(labels[i]),
            code,
            offset,
            size,
            multiplier: code_scale(code),
            unit: None,
        };
        let ghost before = fields@;
        fields.push(f);
        assert(fmt_views(fields@) =~= fmt_views(before).push(f@));
        offset += size;
        i += 1;
    }
    proof {
        assert(codes@.take(i as int) =~= codes@);
        assert(all.take(i as int) =~= all);
        lemma_layout(codes@, all);
        lemma_layout_labels(codes@, all);
        assert(fmt_views(fields@).map_values(|f: FieldFmtView| f.label) =~= all);
    }
    Some(MsgFmt { name, fields, length })
}

/// A field with the unit and multiplier that an `FMTU` record refers to, for
/// the field at position `i`.
pub open spec fn refined_field(
    f: FieldFmtView,
    i: int,
    refs: (Seq<u8>, Seq<u8>),
    units: Map<u8, Seq<char>>,
    mults: Map<u8, u64>,
) -> FieldFmtView {
    FieldFmtView {
        multiplier: if i >= refs.1.len() {
            f.multiplier
        } else if mults.contains_key(refs.1[i]) {
            mults[refs.1[i]]
        } else {
            ONE
        },
        unit: if i >= refs.0.len() {
            f.unit
        } else if units.contains_key(refs.0[i]) && units[refs.0[i]].len() > 0 {
            Some(units[refs.0[i]])
        } else {
            None
        },
        ..f
    }
}

/// A message layout with the units and multipliers that an `FMTU` record refers
/// to.
pub open spec fn refined(
    m: MsgFmtView,
    refs: (Seq<u8>, Seq<u8>),
    units: Map<u8, Seq<char>>,
    mults: Map<u8, u64>,
) -> MsgFmtView {
    MsgFmtView {
        fields: Seq::new(
            m.fields.len(),
            |i: int| refined_field(m.fields[i], i, refs, units, mults),
        ),
        ..m
    }
}

/// Message layouts with the units and multipliers that `FMTU` records refer to.
/// Where a type has such a record, the multiplier it refers to is
/// authoritative; otherwise the built-in scale stands.
pub open spec fn resolved(
    msgs: Map<u8, MsgFmtView>,
    units: Map<u8, Seq<char>>,
    mults: Map<u8, u64>,
    fmtus: Map<u8, (Seq<u8>, Seq<u8>)>,
) -> Map<u8, MsgFmtView> {
    msgs.map_entries(
        |t: u8, m: MsgFmtView|
            if fmtus.contains_key(t) {
                refined(m, fmtus[t], units, mults)
            } else {
                m
            },
    )
}

/// The message layouts of a table.
pub open spec fn msg_views(msgs: Map<u8, MsgFmt>) -> Map<u8, MsgFmtView> {
    msgs.map_values(|m: MsgFmt| m@)
}

/// The texts of a table.
pub open spec fn text_views(texts: Map<u8, String>) -> Map<u8, Seq<char>> {
    texts.map_values(|s: String| s@)
}

/// The references of a table.
pub open spec fn ref_views(refs: Map<u8, (Vec<u8>, Vec<u8>)>) -> Map<u8, (Seq<u8>, Seq<u8>)> {
    refs.map_values(|r: (Vec<u8>, Vec<u8>)| (r.0@, r.1@))
}

/// Apply the references of an `FMTU` record to a message layout.
fn refine(
    m: MsgFmt,
    unit_ids: &[u8],
    mult_ids: &[u8],
    units: &HashMap<u8, String>,
    mults: &HashMap<u8, u64>,
) -> (r: MsgFmt)
    ensures
        r@ == refined(m@, (unit_ids@, mult_ids@), text_views(units@), mults@),
{
    let mut fields: Vec<FieldFmt> = Vec::new();
    let ghost refs = (unit_ids@, mult_ids@);
    let ghost want = refined(m@, refs, text_views(units@), mults@).fields;
    let mut i: usize = 0;
    while i < m.fields.len()
        invariant
            i <= m.fields.len(),
            refs == (unit_ids@, mult_ids@),
            want == refined(m@, refs, text_views(units@), mults@).fields,
            fmt_views(fields@) =~= want.take(i as int),
        decreases m.fields.len() - i,
    {
        let f = &m.fields[i];
        let multiplier: u64 = if i < mult_ids.len() {
            match mults.get(&mult_ids[i]) {
                Some(x) => *x,
                None => ONE,
            }
        } else {
            f.multiplier
        };
        let unit = if i < unit_ids.len() {
            match units.get(&unit_ids[i]) {
                Some(label) => {
                    let chars = text::chars_of(label.as_str());
                    if chars.len() > 0 {
                        Some(label.clone())
                    } else {
                        None
                    }
                },
                None => None,
            }
        } else {
            match &f.unit {
                Some(u) => Some(u.clone()),
                None => None,
            }
        };
        let g = FieldFmt {
            label: f.label.clone(),
            code: f.code,
            offset: f.offset,
            size: f.size,
            multiplier,
            unit,
        };
        let ghost before = fields@;
        proof {
            assert(m@.fields[i as int] == f@);
            assert(g@ =~= want[i as int]);
        }
        fields.push(g);
        i += 1;
        proof {
            assert(fmt_views(fields@) =~= fmt_views(before).push(g@));
            assert(want.take(i as int) =~= want.take(i - 1).push(want[i - 1]));
        }
    }
    assert(want.take(i as int) =~= want);
    MsgFmt { name: m.name, fields, length: m.length }
}

/// Apply the `FMTU`/`UNIT`/`MULT` metadata onto each field. When a type has a
/// `FMTU` entry the referenced multiplier is authoritative (so the format
/// char's built-in scale is not applied as well); otherwise the built-in scale
/// set at parse time stands.
pub fn resolve_units_and_mults(
    msgs: &mut HashMap<u8, MsgFmt>,
    units: &HashMap<u8, String>,
    mults: &HashMap<u8, u64>,
    fmtus: &HashMap<u8, (Vec<u8>, Vec<u8>)>,
)
    ensures
        msg_views(final(msgs)@) == resolved(
            msg_views(old(msgs)@),
            text_views(units@),
            mults@,
            ref_views(fmtus@),
        ),
{
    let ghost start = msg_views(msgs@);
    let ghost want = resolved(start, text_views(units@), mults@, ref_views(fmtus@));
    let mut t: u16 = 0;
    while t < 256
        invariant
            t <= 256,
            want == resolved(start, text_views(units@), mults@, ref_views(fmtus@)),
            msg_views(msgs@).dom() == start.dom(),
            forall|k: u8| #[trigger]
                start.contains_key(k) ==> msg_views(msgs@)[k] == if k < t {
                    want[k]
                } else {
                    start[k]
                },
        decreases 256 - t,
    {
        let id: u8 = t as u8;
        let ghost before = msgs@;
        if let Some(refs) = fmtus.get(&id) {
            if let Some(m) = msgs.remove(&id) {
                proof {
                    assert(msg_views(before).contains_key(id));
                    assert(m@ == start[id]);
                    assert(ref_views(fmtus@)[id] == (refs.0@, refs.1@));
                }
                let r = refine(m, &refs.0, &refs.1, units, mults);
                proof {
                    assert(want[id] == r@);
                }
                msgs.insert(id, r);
                assert(msg_views(msgs@) =~= msg_views(before).insert(id, r@));
                assert(msg_views(msgs@).dom() =~= start.dom());
            } else {
                assert(msg_views(msgs@) =~= msg_views(before));
                assert(!msg_views(before).contains_key(id));
            }
        } else {
            assert(!ref_views(fmtus@).contains_key(id));
            assert(start.contains_key(id) ==> want[id] == start[id]);
        }
        t += 1;
    }
    assert(msg_views(msgs@) =~= want);
}

/// Message layouts parsed from a log's `FMT` records, keyed by type id.
pub struct Schema {
    msgs: HashMap<u8, MsgFmt>,
}

/// Whether every message layout of a table is well-formed.
pub open spec fn all_wf(msgs: Map<u8, MsgFmtView>) -> bool {
    forall|t: u8| #[trigger] msgs.contains_key(t) ==> msgs[t].wf()
}

impl View for Schema {
    type V = Map<u8, MsgFmtView>;

    closed spec fn view(&self) -> Map<u8, MsgFmtView> {
        msg_views(self.msgs@)
    }
}

/// The lowest type id from `from` on whose message has the given name in any
/// case, or 256.
pub open spec fn type_named(msgs: Map<u8, MsgFmtView>, name: Seq<char>, from: int) -> int
    decreases 256 - from,
{
    if from >= 256 {
        256
    } else if from >= 0 && msgs.contains_key(from as u8) && text::same_ignoring_case(
        msgs[from as u8].name,
        name,
    ) {
        from
    } else {
        type_named(msgs, name, from + 1)
    }
}

/// Position of the first field with the given label in any case, or the number
/// of fields.
pub open spec fn loose_index(fields: Seq<FieldFmtView>, label: Seq<char>) -> int
    decreases fields.len(),
{
    if fields.len() == 0 || text::same_ignoring_case(fields[0].label, label) {
        0
    } else {
        1 + loose_index(fields.drop_first(), label)
    }
}

/// The unit of the first field with the given label in the message with the
/// given name, both in any case.
pub open spec fn unit_of(
    msgs: Map<u8, MsgFmtView>,
    msg_name: Seq<char>,
    field: Seq<char>,
) -> Option<Seq<char>> {
    let t = type_named(msgs, msg_name, 0);
    if t >= 256 {
        None
    } else {
        let fields = msgs[t as u8].fields;
        let i = loose_index(fields, field);
        if 0 <= i < fields.len() {
            fields[i].unit
        } else {
            None
        }
    }
}

impl Schema {
    /// Every message layout of a schema is well-formed.
    #[verifier::type_invariant]
    closed spec fn wf(self) -> bool {
        all_wf(msg_views(self.msgs@))
    }

    /// The schema with the given message layouts.
    pub fn from_layouts(msgs: HashMap<u8, MsgFmt>) -> (r: Schema)
        requires
            all_wf(msg_views(msgs@)),
        ensures
            r@ == msg_views(msgs@),
    {
        Schema { msgs }
    }

    /// The layout of a message type.
    pub fn get(&self, msg_type: u8) -> (r: Option<&MsgFmt>)
        ensures
            match r {
                Some(m) => self@.contains_key(msg_type) && self@[msg_type] == m@ && m@.wf(),
                None => !self@.contains_key(msg_type),
            },
    {
        proof {
            use_type_invariant(self);
            assert(msg_views(self.msgs@).contains_key(msg_type) == self.msgs@.contains_key(
                msg_type,
            ));
        }
        self.msgs.get(&msg_type)
    }

    /// The unit label for a field, looked up by message and field name
    /// (case-insensitive). `None` when unknown or the field has no unit. Of two
    /// messages with the same name, that with the lower type id counts.
    pub fn field_unit(&self, msg_name: &str, field: &str) -> (r: Option<String>)
        ensures
            value::text_of(r) == unit_of(self@, msg_name@, field@),
    {
        let mut t: u16 = 0;
        while t < 256
            invariant
                t <= 256,
                type_named(self@, msg_name@, 0) == type_named(self@, msg_name@, t as int),
            decreases 256 - t,
        {
            if let Some(m) = self.get(t as u8) {
                if text::matches_ignoring_case(m.name.as_str(), msg_name) {
                    return unit_in(m, field);
                }
            }
            t += 1;
        }
        None
    }
}

/// The unit of the first field with the given label in any case.
fn unit_in(m: &MsgFmt, label: &str) -> (r: Option<String>)
    ensures
        value::text_of(r) == {
            let i = loose_index(m@.fields, label@);
            if 0 <= i < m@.fields.len() {
                m@.fields[i].unit
            } else {
                None
            }
        },
{
    let ghost all = m@.fields;
    let mut i: usize = 0;
    assert(all.skip(0) =~= all);
    while i < m.fields.len()
        invariant
            i <= m.fields.len(),
            all == m@.fields,
            loose_index(all, label@) == i + loose_index(all.skip(i as int), label@),
        decreases m.fields.len() - i,
    {
        assert(all.skip(i as int)[0] == m.fields@[i as int]@);
        if text::matches_ignoring_case(m.fields[i].label.as_str(), label) {
            return match &m.fields[i].unit {
                Some(u) => Some(u.clone()),
                None => None,
            };
        }
        assert(all.skip(i as int).drop_first() =~= all.skip(i + 1));
        i += 1;
    }
    None
}

/// As many NUL bytes as given.
pub open spec fn nuls(n: int) -> Seq<u8> {
    Seq::new(n as nat, |i: int| 0u8)
}

/// A text without NUL, padded with NULs, reads as it is.
pub proof fn law_padding_is_dropped(text: Seq<u8>, n: int)
    requires
        forall|i: int| 0 <= i < text.len() ==> #[trigger] text[i] != 0,
        0 <= n,
    ensures
        until_nul(text + nuls(n)) == text,
        fixed_text(text + nuls(n)) == lossy_text(text),
    decreases text.len(),
{
    let padded = text + nuls(n);
    if text.len() > 0 {
        let rest = text.drop_first();
        assert forall|i: int| 0 <= i < rest.len() implies #[trigger] rest[i] != 0 by {
            assert(rest[i] == text[i + 1]);
        }
        law_padding_is_dropped(rest, n);
        assert(padded.drop_first() =~= rest + nuls(n));
        assert(padded[0] == text[0]);
        assert(seq![text[0]] + rest =~= text);
    } else if n > 0 {
        assert(padded[0] == nuls(n)[0]);
        assert(until_nul(padded) =~= text);
    } else {
        assert(padded =~= text);
    }
}

/// What stands behind a NUL does not matter.
pub proof fn law_nul_ends_text(text: Seq<u8>, rest: Seq<u8>)
    requires
        forall|i: int| 0 <= i < text.len() ==> #[trigger] text[i] != 0,
    ensures
        until_nul(text + seq![0u8] + rest) == text,
    decreases text.len(),
{
    let whole = text + seq![0u8] + rest;
    if text.len() > 0 {
        let tail = text.drop_first();
        assert forall|i: int| 0 <= i < tail.len() implies #[trigger] tail[i] != 0 by {
            assert(tail[i] == text[i + 1]);
        }
        law_nul_ends_text(tail, rest);
        assert(whole.drop_first() =~= tail + seq![0u8] + rest);
        assert(whole[0] == text[0]);
        assert(seq![text[0]] + tail =~= text);
    } else {
        assert(whole[0] == 0);
        assert(until_nul(whole) =~= text);
    }
}

/// Every format code with the number of its bytes and the multiplier it implies:
/// 1, 0.01 or 1e-7, by its bits. Any other byte is no format code.
pub proof fn law_format_codes(other: u8)
    ensures
        width(98) == Some(1int) && width(66) == Some(1int) && width(77) == Some(1int),
        width(104) == Some(2int) && width(72) == Some(2int),
        width(99) == Some(2int) && width(67) == Some(2int),
        width(105) == Some(4int) && width(73) == Some(4int) && width(102) == Some(4int),
        width(101) == Some(4int) && width(69) == Some(4int) && width(76) == Some(4int),
        width(100) == Some(8int) && width(113) == Some(8int) && width(81) == Some(8int),
        width(110) == Some(4int) && width(78) == Some(16int) && width(90) == Some(64int),
        width(97) == Some(64int),
        !seq![
            98u8,
            66,
            77,
            104,
            72,
            99,
            67,
            105,
            73,
            102,
            101,
            69,
            76,
            100,
            113,
            81,
            110,
            78,
            90,
            97,
        ].contains(other) ==> width(other) is None,
        scale(99) == 0x3F84_7AE1_47AE_147B && scale(67) == 0x3F84_7AE1_47AE_147B,
        scale(101) == 0x3F84_7AE1_47AE_147B && scale(69) == 0x3F84_7AE1_47AE_147B,
        scale(76) == 0x3E7A_D7F2_9ABC_AF48,
        ![99u8, 67, 101, 69, 76]@.contains(other) ==> scale(other) == 0x3FF0_0000_0000_0000,
{
    let codes = seq![
        98u8,
        66,
        77,
        104,
        72,
        99,
        67,
        105,
        73,
        102,
        101,
        69,
        76,
        100,
        113,
        81,
        110,
        78,
        90,
        97,
    ];
    assert(codes[0] == 98 && codes[1] == 66 && codes[2] == 77 && codes[3] == 104 && codes[4] == 72);
    assert(codes[5] == 99 && codes[6] == 67 && codes[7] == 105 && codes[8] == 73 && codes[9] == 102);
    assert(codes[10] == 101 && codes[11] == 69 && codes[12] == 76 && codes[13] == 100);
    assert(codes[14] == 113 && codes[15] == 81 && codes[16] == 110 && codes[17] == 78);
    assert(codes[18] == 90 && codes[19] == 97);
    let scaled = [99u8, 67, 101, 69, 76]@;
    assert(scaled[0] == 99 && scaled[1] == 67 && scaled[2] == 101 && scaled[3] == 69 && scaled[4]
        == 76);
}

/// The body of an `FMT` record, field by field, each padded to its width.
pub open spec fn fmt_body(
    msg_type: u8,
    length: u8,
    name: Seq<u8>,
    codes: Seq<u8>,
    columns: Seq<u8>,
) -> Seq<u8> {
    seq![msg_type, length] + (name + nuls(4 - name.len())) + (codes + nuls(16 - codes.len())) + (
    columns + nuls(64 - columns.len()))
}

/// Where the parts of an `FMT` body stand.
proof fn lemma_fmt_body(
    msg_type: u8,
    length: u8,
    name: Seq<u8>,
    codes: Seq<u8>,
    columns: Seq<u8>,
    rest: Seq<u8>,
)
    requires
        name.len() <= 4,
        codes.len() <= 16,
        columns.len() <= 64,
    ensures
        ({
            let body = fmt_body(msg_type, length, name, codes, columns) + rest;
            &&& body.len() == 86 + rest.len()
            &&& body[0] == msg_type
            &&& body[1] == length
            &&& body.subrange(2, 6) == name + nuls(4 - name.len())
            &&& body.subrange(6, 22) == codes + nuls(16 - codes.len())
            &&& body.subrange(22, 86) == columns + nuls(64 - columns.len())
        }),
{
    let body = fmt_body(msg_type, length, name, codes, columns) + rest;
    assert(body.subrange(2, 6) =~= name + nuls(4 - name.len()));
    assert(body.subrange(6, 22) =~= codes + nuls(16 - codes.len()));
    assert(body.subrange(22, 86) =~= columns + nuls(64 - columns.len()));
}

/// Pieces of which none is empty are all kept.
proof fn lemma_none_empty(pieces: Seq<Seq<char>>)
    requires
        forall|i: int| 0 <= i < pieces.len() ==> (#[trigger] pieces[i]).len() > 0,
    ensures
        not_empty(pieces) == pieces,
    decreases pieces.len(),
{
    if pieces.len() > 0 {
        let front = pieces.drop_last();
        assert forall|i: int| 0 <= i < front.len() implies (#[trigger] front[i]).len() > 0 by {
            assert(front[i] == pieces[i]);
        }
        lemma_none_empty(front);
        assert(pieces.last() == pieces[pieces.len() - 1]);
        assert(front.push(pieces.last()) =~= pieces);
    } else {
        assert(not_empty(pieces) =~= pieces);
    }
}

/// Comma-free labels that are not empty, joined by commas, are the labels read.
proof fn lemma_labels(labels: Seq<Seq<char>>)
    requires
        forall|i: int|
            0 <= i < labels.len() ==> (#[trigger] labels[i]).len() > 0 && !labels[i].contains(','),
    ensures
        not_empty(text::split(text::join(labels, seq![',']), ',')) == labels,
{
    if labels.len() > 0 {
        text::law_split_of_joined(labels, ',');
        lemma_none_empty(labels);
    } else {
        let none: Seq<char> = seq![];
        assert(text::split(none, ',') == seq![none]);
        reveal_with_fuel(not_empty, 2);
        assert(seq![none].drop_last() =~= seq![]);
        assert(not_empty(seq![none]) =~= labels);
    }
}

/// Fields with the given codes and labels follow each other without a gap.
pub open spec fn lays_out(
    fields: Seq<FieldFmtView>,
    codes: Seq<u8>,
    labels: Seq<Seq<char>>,
) -> bool {
    &&& fields.len() == codes.len()
    &&& fields.len() > 0 ==> fields[0].offset == 0
    &&& forall|i: int|
        0 <= i < fields.len() ==> {
            let f = #[trigger] fields[i];
            &&& f.label == labels[i]
            &&& f.code == codes[i]
            &&& width(codes[i]) == Some(f.size)
            &&& f.multiplier == scale(codes[i])
            &&& f.unit is None
            &&& i > 0 ==> f.offset == fields[i - 1].offset + fields[i - 1].size
        }
}

/// A layout of known codes has each of them, and one with an unknown code is none.
proof fn lemma_lays_out(codes: Seq<u8>, labels: Seq<Seq<char>>)
    requires
        codes.len() == labels.len(),
    ensures
        (forall|i: int| 0 <= i < codes.len() ==> width(#[trigger] codes[i]) is Some) ==> (layout(
            codes,
            labels,
        ) matches Some(fields) && lays_out(fields, codes, labels)),
        (exists|i: int| 0 <= i < codes.len() && width(#[trigger] codes[i]) is None) ==> layout(
            codes,
            labels,
        ) is None,
    decreases codes.len(),
{
    if codes.len() > 0 {
        let (c, l) = (codes.drop_last(), labels.drop_last());
        lemma_lays_out(c, l);
        let n = c.len() as int;
        assert(codes.last() == codes[n]);
        if forall|i: int| 0 <= i < codes.len() ==> width(#[trigger] codes[i]) is Some {
            assert forall|i: int| 0 <= i < c.len() implies width(#[trigger] c[i]) is Some by {
                assert(c[i] == codes[i]);
            }
            assert(width(codes[n]) is Some);
            let front = layout(c, l)->Some_0;
            let fields = layout(codes, labels)->Some_0;
            assert(layout(codes, labels) is Some);
            assert forall|i: int| 0 <= i < fields.len() implies ({
                let f = #[trigger] fields[i];
                &&& f.label == labels[i]
                &&& f.code == codes[i]
                &&& width(codes[i]) == Some(f.size)
                &&& f.multiplier == scale(codes[i])
                &&& f.unit is None
                &&& i > 0 ==> f.offset == fields[i - 1].offset + fields[i - 1].size
            }) by {
                if i < n {
                    assert(fields[i] == front[i]);
                    assert(c[i] == codes[i] && l[i] == labels[i]);
                    if i > 0 {
                        assert(fields[i - 1] == front[i - 1]);
                    }
                } else if n > 0 {
                    assert(fields[n - 1] == front[n - 1]);
                }
            }
            if n > 0 {
                assert(fields[0] == front[0]);
            }
        }
        if exists|i: int| 0 <= i < codes.len() && width(#[trigger] codes[i]) is None {
            let i = choose|i: int| 0 <= i < codes.len() && width(#[trigger] codes[i]) is None;
            if i < n {
                assert(c[i] == codes[i]);
            }
        }
    }
}

/// An `FMT` body that was written from a type, a length, a name, format codes and
/// as many labels declares just that: the name, the length, and for each code a
/// field with its label, behind the field before it. With another number of labels,
/// or with an unknown code, it declares nothing; nor does a body that is too short.
pub proof fn law_fmt_body_is_read(
    msg_type: u8,
    length: u8,
    name: Seq<u8>,
    codes: Seq<u8>,
    columns: Seq<u8>,
    labels: Seq<Seq<char>>,
    rest: Seq<u8>,
)
    requires
        name.len() <= 4,
        forall|i: int| 0 <= i < name.len() ==> #[trigger] name[i] != 0,
        codes.len() <= 16,
        forall|i: int| 0 <= i < codes.len() ==> #[trigger] codes[i] != 0,
        columns.len() <= 64,
        forall|i: int| 0 <= i < columns.len() ==> #[trigger] columns[i] != 0,
        lossy_text(columns) == text::join(labels, seq![',']),
        forall|i: int|
            0 <= i < labels.len() ==> (#[trigger] labels[i]).len() > 0 && !labels[i].contains(','),
    ensures
        ({
            let body = seq![msg_type, length] + (name + nuls(4 - name.len())) + (codes + nuls(
                16 - codes.len(),
            )) + (columns + nuls(64 - columns.len()));
            let known = forall|i: int| 0 <= i < codes.len() ==> width(#[trigger] codes[i]) is Some;
            &&& labels.len() == codes.len() && known ==> (declared(body + rest) matches Some(m) && {
                &&& m.name == lossy_text(name)
                &&& m.length == length
                &&& lays_out(m.fields, codes, labels)
            })
            &&& labels.len() != codes.len() || !known ==> declared(body + rest) is None
            &&& forall|n: int| 0 <= n < 86 ==> declared(#[trigger] body.take(n)) is None
        }),
{
    let body = fmt_body(msg_type, length, name, codes, columns);
    lemma_fmt_body(msg_type, length, name, codes, columns, rest);
    law_padding_is_dropped(name, 4 - name.len());
    law_padding_is_dropped(codes, 16 - codes.len());
    law_padding_is_dropped(columns, 64 - columns.len());
    lemma_labels(labels);
    if labels.len() == codes.len() {
        lemma_lays_out(codes, labels);
    }
}

/// The first field with a label is the one found under it, and there is none where
/// no field has the label.
pub proof fn law_field_is_found(m: MsgFmtView, i: int, label: Seq<char>)
    ensures
        0 <= i < m.fields.len() && m.fields[i].label == label && (forall|k: int|
            0 <= k < i ==> (#[trigger] m.fields[k]).label != label) ==> m.field(label) == Some(
            m.fields[i],
        ),
        (forall|k: int| 0 <= k < m.fields.len() ==> (#[trigger] m.fields[k]).label != label)
            ==> m.field(label) is None,
{
    lemma_label_index(m.fields, label);
    let n = label_index(m.fields, label);
    if 0 <= i < m.fields.len() && m.fields[i].label == label && (forall|k: int|
        0 <= k < i ==> (#[trigger] m.fields[k]).label != label) {
        if n < i {
            assert(m.fields[n].label != label);
        }
    }
}

/// Where the first field with a label stands.
proof fn lemma_label_index(fields: Seq<FieldFmtView>, label: Seq<char>)
    ensures
        0 <= label_index(fields, label) <= fields.len(),
        label_index(fields, label) < fields.len() ==> fields[label_index(fields, label)].label
            == label,
        forall|k: int| 0 <= k < label_index(fields, label) ==> (#[trigger] fields[k]).label != label,
    decreases fields.len(),
{
    if fields.len() > 0 && fields[0].label != label {
        let rest = fields.drop_first();
        lemma_label_index(rest, label);
        assert forall|k: int| 0 <= k < label_index(fields, label) implies (
        #[trigger] fields[k]).label != label by {
            if k > 0 {
                assert(rest[k - 1] == fields[k]);
            }
        }
    }
}

/// The bytes of a field are those of the payload from its offset on, as many as
/// its size says; a payload that ends before has none.
pub proof fn law_field_bytes(f: FieldFmtView, before: Seq<u8>, b: Seq<u8>, behind: Seq<u8>)
    requires
        f.offset == before.len(),
        f.size == b.len(),
    ensures
        f.bytes(before + b + behind) == Some(b),
        forall|n: int|
            0 <= n < before.len() + b.len() ==> f.bytes(#[trigger] (before + b).take(n)) is None,
{
    let payload = before + b + behind;
    assert(payload.subrange(f.offset, f.offset + f.size) =~= b);
}

/// What units and multipliers do to the field at a position: nothing to where it
/// stands; nothing at all without references for its type. With them the field has
/// the multiplier with the id at its position, 1 where there is none with that id,
/// and the unit with the id at its position, none where that is unknown or empty.
/// A field behind the references keeps what it has.
pub proof fn law_units_and_multipliers(
    msgs: Map<u8, MsgFmtView>,
    units: Map<u8, Seq<char>>,
    mults: Map<u8, u64>,
    fmtus: Map<u8, (Seq<u8>, Seq<u8>)>,
    t: u8,
    i: int,
)
    ensures
        resolved(msgs, units, mults, fmtus).contains_key(t) == msgs.contains_key(t),
        msgs.contains_key(t) && 0 <= i < msgs[t].fields.len() ==> {
            let m = resolved(msgs, units, mults, fmtus)[t];
            let f = m.fields[i];
            let old_f = msgs[t].fields[i];
            let unit_ids = fmtus[t].0;
            let mult_ids = fmtus[t].1;
            &&& m.name == msgs[t].name && m.length == msgs[t].length
            &&& m.fields.len() == msgs[t].fields.len()
            &&& f.label == old_f.label && f.code == old_f.code
            &&& f.offset == old_f.offset && f.size == old_f.size
            &&& !fmtus.contains_key(t) ==> f == old_f
            &&& fmtus.contains_key(t) ==> {
                &&& i >= mult_ids.len() ==> f.multiplier == old_f.multiplier
                &&& i < mult_ids.len() && mults.contains_key(mult_ids[i]) ==> f.multiplier
                    == mults[mult_ids[i]]
                &&& i < mult_ids.len() && !mults.contains_key(mult_ids[i]) ==> f.multiplier
                    == 0x3FF0_0000_0000_0000
                &&& i >= unit_ids.len() ==> f.unit == old_f.unit
                &&& i < unit_ids.len() && units.contains_key(unit_ids[i])
                    && units[unit_ids[i]].len() > 0 ==> f.unit == Some(units[unit_ids[i]])
                &&& i < unit_ids.len() && units.contains_key(unit_ids[i])
                    && units[unit_ids[i]].len() == 0 ==> f.unit is None
                &&& i < unit_ids.len() && !units.contains_key(unit_ids[i]) ==> f.unit is None
            }
        },
{
}

/// The unit of a field is that of the first field with its label in the message
/// with the lowest type and the given name, both in any case.
pub proof fn law_unit_is_found(
    msgs: Map<u8, MsgFmtView>,
    t: u8,
    i: int,
    msg_name: Seq<char>,
    label: Seq<char>,
)
    requires
        msgs.contains_key(t),
        text::lower(msgs[t].name) == text::lower(msg_name),
        forall|u: u8|
            u < t && #[trigger] msgs.contains_key(u) ==> text::lower(msgs[u].name) != text::lower(
                msg_name,
            ),
        0 <= i < msgs[t].fields.len(),
        text::lower(msgs[t].fields[i].label) == text::lower(label),
        forall|k: int|
            0 <= k < i ==> text::lower((#[trigger] msgs[t].fields[k]).label) != text::lower(label),
    ensures
        unit_of(msgs, msg_name, label) == msgs[t].fields[i].unit,
{
    lemma_type_named(msgs, msg_name, 0);
    let n = type_named(msgs, msg_name, 0);
    assert(n == t) by {
        if n < t {
            assert(msgs.contains_key(n as u8));
        }
    }
    lemma_loose_index(msgs[t].fields, label);
    let k = loose_index(msgs[t].fields, label);
    if k < i {
        assert(text::lower(msgs[t].fields[k].label) != text::lower(label));
    }
}

/// An unknown message or an unknown field has no unit.
pub proof fn law_unknown_has_no_unit(
    msgs: Map<u8, MsgFmtView>,
    msg_name: Seq<char>,
    label: Seq<char>,
)
    requires
        forall|t: u8, i: int|
            msgs.contains_key(t) && 0 <= i < msgs[t].fields.len() && text::lower(msgs[t].name)
                == text::lower(msg_name) ==> text::lower((#[trigger] msgs[t].fields[i]).label)
                != text::lower(label),
    ensures
        unit_of(msgs, msg_name, label) is None,
{
    lemma_type_named(msgs, msg_name, 0);
    let n = type_named(msgs, msg_name, 0);
    if n < 256 {
        lemma_loose_index(msgs[n as u8].fields, label);
        let k = loose_index(msgs[n as u8].fields, label);
        if k < msgs[n as u8].fields.len() {
            assert(text::lower(msgs[n as u8].fields[k].label) != text::lower(label));
        }
    }
}

/// Which type id has a name.
proof fn lemma_type_named(msgs: Map<u8, MsgFmtView>, name: Seq<char>, from: int)
    requires
        0 <= from <= 256,
    ensures
        from <= type_named(msgs, name, from) <= 256,
        type_named(msgs, name, from) < 256 ==> msgs.contains_key(
            type_named(msgs, name, from) as u8,
        ) && text::lower(msgs[type_named(msgs, name, from) as u8].name) == text::lower(name),
        forall|u: u8|
            from <= u < type_named(msgs, name, from) && #[trigger] msgs.contains_key(u)
                ==> text::lower(msgs[u].name) != text::lower(name),
    decreases 256 - from,
{
    if from < 256 {
        lemma_type_named(msgs, name, from + 1);
    }
}

/// Where the first field with a label in any case stands.
proof fn lemma_loose_index(fields: Seq<FieldFmtView>, label: Seq<char>)
    ensures
        0 <= loose_index(fields, label) <= fields.len(),
        loose_index(fields, label) < fields.len() ==> text::lower(
            fields[loose_index(fields, label)].label,
        ) == text::lower(label),
        forall|k: int|
            0 <= k < loose_index(fields, label) ==> text::lower((#[trigger] fields[k]).label)
                != text::lower(label),
    decreases fields.len(),
{
    if fields.len() > 0 && text::lower(fields[0].label) != text::lower(label) {
        let rest = fields.drop_first();
        lemma_loose_index(rest, label);
        assert forall|k: int| 0 <= k < loose_index(fields, label) implies text::lower(
            (#[trigger] fields[k]).label,
        ) != text::lower(label) by {
            if k > 0 {
                assert(rest[k - 1] == fields[k]);
            }
        }
    }
}

} // verus!
