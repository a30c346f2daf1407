//! Decoded field values. Real numbers are held by what determines them (a raw
//! integer and a multiplier, or the bits of the number), so that a value is
//! exact until it is shown.

use vstd::prelude::*;
use crate::{numeral, schema, text};

verus! {

/// A real number of a log record. Multipliers and doubles are given by the
/// bits of their IEEE 754 binary64 form, singles by those of binary32.
#[derive(Clone, Copy, Debug, PartialEq, Eq, Structural)]
pub enum Real {
    /// A signed integer times a multiplier.
    Signed { raw: i64, multiplier: u64 },
    /// An unsigned integer times a multiplier.
    Unsigned { count: u64, multiplier: u64 },
    /// A single times a multiplier.
    Single { bits_32: u32, multiplier: u64 },
    /// A double times a multiplier.
    Double { bits_64: u64, multiplier: u64 },
}

/// A number of a log record.
#[derive(Clone, Copy, Debug, PartialEq, Eq, Structural)]
pub enum Number {
    Signed(i64),
    Unsigned(u64),
    Real(Real),
}

/// A value that the MAVLink dialect has serialised and that is no string.
pub struct JsonValue {
    /// The value as JSON text.
    pub text: String,
    /// The string under `type`, for enum fields, which serialise as an object.
    pub enum_name: Option<String>,
    /// The value as an unsigned integer, if it is one.
    pub unsigned: Option<u64>,
    /// The bits of the value as a double, if it is a number.
    pub double: Option<u64>,
}

/// One decoded value.
pub enum Datum {
    Number(Number),
    Text(String),
    List(Vec<Number>),
    Null,
    Json(JsonValue),
}

/// What a decoded value holds.
#[verifier::ext_equal]
pub enum DatumView {
    Number(Number),
    Text(Seq<char>),
    List(Seq<Number>),
    Null,
    Json {
        text: Seq<char>,
        enum_name: Option<Seq<char>>,
        unsigned: Option<u64>,
        double: Option<u64>,
    },
}

/// The characters of an optional string.
pub open spec fn text_of(s: Option<String>) -> Option<Seq<char>> {
    match s {
        Some(s) => Some(s@),
        None => None,
    }
}

impl View for Datum {
    type V = DatumView;

    open spec fn view(&self) -> DatumView {
        match self {
            Datum::Number(n) => DatumView::Number(*n),
            Datum::Text(s) => DatumView::Text(s@),
            Datum::List(v) => DatumView::List(v@),
            Datum::Null => DatumView::Null,
            Datum::Json(j) => DatumView::Json {
                text: j.text@,
                enum_name: text_of(j.enum_name),
                unsigned: j.unsigned,
                double: j.double,
            },
        }
    }
}

/// A named value.
pub struct Field {
    pub key: String,
    pub value: Datum,
}

/// What a named value holds.
#[verifier::ext_equal]
pub struct FieldView {
    pub key: Seq<char>,
    pub value: DatumView,
}

impl View for Field {
    type V = FieldView;

    open spec fn view(&self) -> FieldView {
        FieldView { key: self.key@, value: self.value@ }
    }
}

/// What the named values of a list hold.
pub open spec fn field_views(fields: Seq<Field>) -> Seq<FieldView> {
    fields.map_values(|f: Field| f@)
}

/// A stretch of shown text: characters, or a real number still to be written
/// out.
pub enum Piece {
    Text(String),
    Real(Real),
}

/// What a stretch of shown text holds.
#[verifier::ext_equal]
pub enum PieceView {
    Text(Seq<char>),
    Real(Real),
}

impl View for Piece {
    type V = PieceView;

    open spec fn view(&self) -> PieceView {
        match self {
            Piece::Text(s) => PieceView::Text(s@),
            Piece::Real(r) => PieceView::Real(*r),
        }
    }
}

/// What the stretches of a shown text hold.
pub open spec fn piece_views(pieces: Seq<Piece>) -> Seq<PieceView> {
    pieces.map_values(|p: Piece| p@)
}

/// How a number is shown.
pub open spec fn number_piece(n: Number) -> PieceView {
    match n {
        Number::Signed(i) => PieceView::Text(numeral::signed_decimal(i as int)),
        Number::Unsigned(u) => PieceView::Text(numeral::decimal(u as nat)),
        Number::Real(r) => PieceView::Real(r),
    }
}

/// How the numbers of a list are shown, with commas between them.
pub open spec fn number_pieces(list: Seq<Number>) -> Seq<PieceView>
    decreases list.len(),
{
    if list.len() == 0 {
        seq![]
    } else if list.len() == 1 {
        seq![number_piece(list[0])]
    } else {
        number_pieces(list.drop_last()).push(PieceView::Text(seq![','])).push(
            number_piece(list.last()),
        )
    }
}

impl DatumView {
    /// How the value is shown: strings as they are, enum values by their name,
    /// everything else in JSON notation.
    pub open spec fn pieces(self) -> Seq<PieceView> {
        match self {
            DatumView::Number(n) => seq![number_piece(n)],
            DatumView::Text(s) => seq![PieceView::Text(s)],
            DatumView::List(list) => seq![PieceView::Text(seq!['['])] + number_pieces(list) + seq![
                PieceView::Text(seq![']']),
            ],
            DatumView::Null => seq![PieceView::Text("null"@)],
            DatumView::Json { text, enum_name, .. } => match enum_name {
                Some(name) => seq![PieceView::Text(name)],
                None => seq![PieceView::Text(text)],
            },
        }
    }

    /// The value as a number, if it is one.
    pub open spec fn number(self) -> Option<Number> {
        match self {
            DatumView::Number(n) => Some(n),
            DatumView::Json { double: Some(bits), .. } => Some(
                Number::Real(Real::Double { bits_64: bits, multiplier: schema::ONE }),
            ),
            _ => None,
        }
    }

    /// The value as an unsigned integer, if it is one.
    pub open spec fn unsigned(self) -> Option<u64> {
        match self {
            DatumView::Number(Number::Unsigned(u)) => Some(u),
            DatumView::Number(Number::Signed(i)) => if i >= 0 {
                Some(i as u64)
            } else {
                None
            },
            DatumView::Json { unsigned, .. } => unsigned,
            _ => None,
        }
    }
}

/// Whether the keys of a list come in order, each once.
pub open spec fn in_key_order(fields: Seq<FieldView>) -> bool {
    forall|i: int, j: int|
        0 <= i < j < fields.len() ==> text::precedes(
            (#[trigger] fields[i]).key,
            (#[trigger] fields[j]).key,
        )
}

/// A list in key order with one more field, in place of the one with the same
/// key if there is one.
pub open spec fn put(fields: Seq<FieldView>, f: FieldView) -> Seq<FieldView>
    decreases fields.len(),
{
    if fields.len() == 0 {
        seq![f]
    } else if fields[0].key == f.key {
        seq![f] + fields.drop_first()
    } else if text::precedes(f.key, fields[0].key) {
        seq![f] + fields
    } else {
        seq![fields[0]] + put(fields.drop_first(), f)
    }
}

/// What `put` does to a list in key order.
pub proof fn lemma_put(fields: Seq<FieldView>, f: FieldView)
    requires
        in_key_order(fields),
    ensures
        in_key_order(put(fields, f)),
        forall|g: FieldView| #[trigger]
            put(fields, f).contains(g) <==> g == f || (g.key != f.key && fields.contains(g)),
    decreases fields.len(),
{
    let r = put(fields, f);
    if fields.len() == 0 {
        assert(r[0] == f);
    } else {
        let head = fields[0];
        let tail = fields.drop_first();
        assert(in_key_order(tail)) by {
            assert forall|i: int, j: int| 0 <= i < j < tail.len() implies text::precedes(
                (#[trigger] tail[i]).key,
                (#[trigger] tail[j]).key,
            ) by {
                assert(tail[i] == fields[i + 1] && tail[j] == fields[j + 1]);
            }
        }
        assert forall|i: int| 0 <= i < tail.len() implies text::precedes(
            head.key,
            (#[trigger] tail[i]).key,
        ) by {
            assert(tail[i] == fields[i + 1]);
        }
        lemma_first_or_rest(fields);
        text::law_order(f.key, head.key);
        if head.key == f.key {
            assert(r =~= seq![f] + tail);
            lemma_first_or_rest(r);
            assert(r.drop_first() =~= tail);
            assert forall|g: FieldView| tail.contains(g) implies g.key != f.key by {
                let k = choose|k: int| 0 <= k < tail.len() && tail[k] == g;
                text::law_order(head.key, tail[k].key);
            }
        } else if text::precedes(f.key, head.key) {
            assert(r =~= seq![f] + fields);
            lemma_first_or_rest(r);
            assert(r.drop_first() =~= fields);
            assert forall|i: int| 0 <= i < fields.len() implies text::precedes(
                f.key,
                (#[trigger] fields[i]).key,
            ) by {
                if i > 0 {
                    text::law_order_transitive(f.key, head.key, fields[i].key);
                }
            }
            assert forall|g: FieldView| fields.contains(g) implies g.key != f.key by {
                let k = choose|k: int| 0 <= k < fields.len() && fields[k] == g;
                text::law_order(f.key, fields[k].key);
            }
        } else {
            lemma_put(tail, f);
            let rest = put(tail, f);
            assert(r =~= seq![head] + rest);
            lemma_first_or_rest(r);
            assert(r.drop_first() =~= rest);
            assert forall|i: int| 0 <= i < rest.len() implies text::precedes(
                head.key,
                (#[trigger] rest[i]).key,
            ) by {
                assert(rest.contains(rest[i]));
                if rest[i] != f {
                    let k = choose|k: int| 0 <= k < tail.len() && tail[k] == rest[i];
                    assert(text::precedes(head.key, tail[k].key));
                }
            }
        }
    }
}

/// An element is the first one or in the rest.
proof fn lemma_first_or_rest(s: Seq<FieldView>)
    requires
        s.len() > 0,
    ensures
        forall|g: FieldView| #[trigger]
            s.contains(g) <==> g == s[0] || s.drop_first().contains(g),
{
    assert forall|g: FieldView| #[trigger] s.contains(g) implies g == s[0]
        || s.drop_first().contains(g) by {
        let k = choose|k: int| 0 <= k < s.len() && s[k] == g;
        if k > 0 {
            assert(s.drop_first()[k - 1] == g);
        }
    }
    assert forall|g: FieldView| g == s[0] || s.drop_first().contains(g) implies
        #[trigger] s.contains(g) by {
        if g != s[0] {
            let k = choose|k: int| 0 <= k < s.drop_first().len() && s.drop_first()[k] == g;
            assert(s[k + 1] == g);
        } else {
            assert(s[0] == g);
        }
    }
}

/// Two lists in key order with the same elements are the same.
pub proof fn lemma_order_unique(a: Seq<FieldView>, b: Seq<FieldView>)
    requires
        in_key_order(a),
        in_key_order(b),
        forall|g: FieldView| #[trigger] a.contains(g) <==> b.contains(g),
    ensures
        a == b,
    decreases a.len(),
{
    if a.len() == 0 {
        if b.len() > 0 {
            assert(b.contains(b[0]));
            assert(a.contains(b[0]));
        }
        assert(a =~= b);
    } else {
        assert(a.contains(a[0]));
        assert(b.contains(a[0]));
        let j = choose|j: int| 0 <= j < b.len() && b[j] == a[0];
        assert(b.contains(b[0]));
        assert(a.contains(b[0]));
        let i = choose|i: int| 0 <= i < a.len() && a[i] == b[0];
        if j > 0 {
            assert(text::precedes(b[0].key, b[j].key));
            text::law_order(b[0].key, a[0].key);
            if i > 0 {
                assert(text::precedes(a[0].key, a[i].key));
            }
        }
        assert(a[0] == b[0]);
        let ta = a.drop_first();
        let tb = b.drop_first();
        lemma_first_or_rest(a);
        lemma_first_or_rest(b);
        assert forall|g: FieldView| #[trigger] ta.contains(g) implies tb.contains(g) by {
            let k = choose|k: int| 0 <= k < ta.len() && ta[k] == g;
            assert(a[k + 1] == g);
            assert(text::precedes(a[0].key, a[k + 1].key));
            text::law_order(a[0].key, g.key);
            assert(a.contains(g));
            assert(b.contains(g));
        }
        assert forall|g: FieldView| #[trigger] tb.contains(g) implies ta.contains(g) by {
            let k = choose|k: int| 0 <= k < tb.len() && tb[k] == g;
            assert(b[k + 1] == g);
            assert(text::precedes(b[0].key, b[k + 1].key));
            text::law_order(b[0].key, g.key);
            assert(b.contains(g));
            assert(a.contains(g));
        }
        assert forall|x: int, y: int| 0 <= x < y < ta.len() implies text::precedes(
            (#[trigger] ta[x]).key,
            (#[trigger] ta[y]).key,
        ) by {
            assert(ta[x] == a[x + 1] && ta[y] == a[y + 1]);
        }
        assert forall|x: int, y: int| 0 <= x < y < tb.len() implies text::precedes(
            (#[trigger] tb[x]).key,
            (#[trigger] tb[y]).key,
        ) by {
            assert(tb[x] == b[x + 1] && tb[y] == b[y + 1]);
        }
        lemma_order_unique(ta, tb);
        assert(a =~= seq![a[0]] + ta);
        assert(b =~= seq![b[0]] + tb);
    }
}

/// Position of the first field with the given name in any case, or the number
/// of fields.
pub open spec fn field_index(fields: Seq<FieldView>, name: Seq<char>) -> int
    decreases fields.len(),
{
    if fields.len() == 0 || text::same_ignoring_case(fields[0].key, name) {
        0
    } else {
        1 + field_index(fields.drop_first(), name)
    }
}

/// The value of the first field with the given name in any case.
pub open spec fn field_named(fields: Seq<FieldView>, name: Seq<char>) -> Option<DatumView> {
    let i = field_index(fields, name);
    if 0 <= i < fields.len() {
        Some(fields[i].value)
    } else {
        None
    }
}

/// The first field with the given name in any case.
pub fn find_field<'a>(fields: &'a [Field], name: &str) -> (r: Option<&'a Datum>)
    ensures
        match field_named(field_views(fields@), name@) {
            Some(d) => r matches Some(v) && v@ == d,
            None => r is None,
        },
{
    let ghost all = field_views(fields@);
    let mut i: usize = 0;
    assert(all.skip(0) =~= all);
    while i < fields.len()
        invariant
            i <= fields.len(),
            all == field_views(fields@),
            field_index(all, name@) == i + field_index(all.skip(i as int), name@),
        decreases fields.len() - i,
    {
        assert(all.skip(i as int)[0] == fields@[i as int]@);
        if text::matches_ignoring_case(fields[i].key.as_str(), name) {
            return Some(&fields[i].value);
        }
        assert(all.skip(i as int).drop_first() =~= all.skip(i + 1));
        i += 1;
    }
    None
}

/// Append a piece of text made of one character.
fn push_char_piece(r: &mut Vec<Piece>, c: char)
    ensures
        piece_views(final(r)@) == piece_views(old(r)@).push(PieceView::Text(seq![c])),
{
    let mut s = String::new();
    s.push(c);
    let ghost before = r@;
    assert(s@ =~= seq![c]);
    r.push(Piece::Text(s));
    assert(piece_views(r@) =~= piece_views(before).push(PieceView::Text(seq![c])));
}

/// Append how a number is shown.
fn push_number(r: &mut Vec<Piece>, n: Number)
    ensures
        piece_views(final(r)@) == piece_views(old(r)@).push(number_piece(n)),
{
    let ghost before = r@;
    let piece = match n {
        Number::Signed(i) => {
            let mut s = String::new();
            numeral::push_signed(&mut s, i);
            assert(s@ =~= numeral::signed_decimal(i as int));
            Piece::Text(s)
        },
        Number::Unsigned(u) => Piece::Text(numeral::decimal_text(u)),
        Number::Real(x) => Piece::Real(x),
    };
    r.push(piece);
    assert(piece_views(r@) =~= piece_views(before).push(number_piece(n)));
}

impl Datum {
    /// Append how the value is shown.
    pub fn push_pieces(&self, r: &mut Vec<Piece>)
        ensures
            piece_views(final(r)@) == piece_views(old(r)@) + self@.pieces(),
    {
        let ghost start = piece_views(r@);
        match self {
            Datum::Number(n) => {
                push_number(r, *n);
            },
            Datum::Text(s) => {
                let ghost before = r@;
                r.push(Piece::Text(s.clone()));
                assert(piece_views(r@) =~= piece_views(before) + self@.pieces());
            },
            Datum::List(list) => {
                push_char_piece(r, '[');
                let ghost open = piece_views(r@);
                let mut i: usize = 0;
                assert(list@.take(0) =~= seq![]);
                while i < list.len()
                    invariant
                        i <= list.len(),
                        piece_views(r@) =~= open + number_pieces(list@.take(i as int)),
                    decreases list.len() - i,
                {
                    if i > 0 {
                        push_char_piece(r, ',');
                    }
                    push_number(r, list[i]);
                    i += 1;
                    assert(list@.take(i as int).drop_last() =~= list@.take(i - 1));
                    assert(list@.take(i as int).last() == list@[i - 1]);
                }
                assert(list@.take(i as int) =~= list@);
                push_char_piece(r, ']');
            },
            Datum::Null => {
                let ghost before = r@;
                r.push(Piece::Text("null".to_string()));
                assert(piece_views(r@) =~= piece_views(before) + self@.pieces());
            },
            Datum::Json(j) => {
                let ghost before = r@;
                let shown = match &j.enum_name {
                    Some(name) => name.clone(),
                    None => j.text.clone(),
                };
                r.push(Piece::Text(shown));
                assert(piece_views(r@) =~= piece_views(before) + self@.pieces());
            },
        }
        assert(piece_views(r@) =~= start + self@.pieces());
    }

    /// A copy of the value.
    pub fn copied(&self) -> (r: Datum)
        ensures
            r@ == self@,
    {
        match self {
            Datum::Number(n) => Datum::Number(*n),
            Datum::Text(s) => Datum::Text(s.clone()),
            Datum::List(list) => {
                let mut v: Vec<Number> = Vec::new();
                v.extend_from_slice(list);
                assert(v@ =~= list@);
                Datum::List(v)
            },
            Datum::Null => Datum::Null,
            Datum::Json(j) => Datum::Json(
                JsonValue {
                    text: j.text.clone(),
                    enum_name: match &j.enum_name {
                        Some(n) => Some(n.clone()),
                        None => None,
                    },
                    unsigned: j.unsigned,
                    double: j.double,
                },
            ),
        }
    }

    /// The value as a number, if it is one.
    pub fn as_number(&self) -> (r: Option<Number>)
        ensures
            r == self@.number(),
    {
        match self {
            Datum::Number(n) => Some(*n),
            Datum::Json(j) => match j.double {
                Some(bits) => Some(
                    Number::Real(Real::Double { bits_64: bits, multiplier: schema::ONE }),
                ),
                None => None,
            },
            _ => None,
        }
    }

    /// The value as an unsigned integer, if it is one.
    pub fn as_unsigned(&self) -> (r: Option<u64>)
        ensures
            r == self@.unsigned(),
    {
        match self {
            Datum::Number(Number::Unsigned(u)) => Some(*u),
            Datum::Number(Number::Signed(i)) => if *i >= 0 {
                Some(*i as u64)
            } else {
                None
            },
            Datum::Json(j) => j.unsigned,
            _ => None,
        }
    }
}

/// The value found under a name is that of the first field with this name in any
/// case, and there is none where no field has it.
pub proof fn law_field_is_found(fields: Seq<FieldView>, i: int, name: Seq<char>)
    ensures
        0 <= i < fields.len() && text::lower(fields[i].key) == text::lower(name) && (forall|k: int|
            0 <= k < i ==> text::lower((#[trigger] fields[k]).key) != text::lower(name))
            ==> field_named(fields, name) == Some(fields[i].value),
        (forall|k: int|
            0 <= k < fields.len() ==> text::lower((#[trigger] fields[k]).key) != text::lower(name))
            ==> field_named(fields, name) is None,
{
    lemma_field_index(fields, name);
    let n = field_index(fields, name);
    if n < i && 0 <= i < fields.len() {
        assert(text::lower(fields[n].key) == text::lower(name));
    }
}

/// Where the first field with a name stands.
proof fn lemma_field_index(fields: Seq<FieldView>, name: Seq<char>)
    ensures
        0 <= field_index(fields, name) <= fields.len(),
        field_index(fields, name) < fields.len() ==> text::lower(
            fields[field_index(fields, name)].key,
        ) == text::lower(name),
        forall|k: int|
            0 <= k < field_index(fields, name) ==> text::lower((#[trigger] fields[k]).key)
                != text::lower(name),
    decreases fields.len(),
{
    if fields.len() > 0 && text::lower(fields[0].key) != text::lower(name) {
        let rest = fields.drop_first();
        lemma_field_index(rest, name);
        assert forall|k: int| 0 <= k < field_index(fields, name) implies text::lower(
            (#[trigger] fields[k]).key,
        ) != text::lower(name) by {
            if k > 0 {
                assert(rest[k - 1] == fields[k]);
            }
        }
    }
}

/// How an integer is shown: by digits that stand for it, behind a '-' when it is
/// negative.
pub proof fn law_integers_are_shown(i: i64, u: u64)
    ensures
        i >= 0 ==> (number_piece(Number::Signed(i)) matches PieceView::Text(s)
            && numeral::all_digits(s) && numeral::number(s) == i),
        i < 0 ==> (number_piece(Number::Signed(i)) matches PieceView::Text(s) && s.len() > 0 && s[0]
            == '-' && numeral::all_digits(s.skip(1)) && numeral::number(s.skip(1)) == -i),
        number_piece(Number::Unsigned(u)) matches PieceView::Text(s) && numeral::all_digits(s)
            && numeral::number(s) == u,
{
    numeral::law_decimal_reads_back(u as nat, 0);
    if i >= 0 {
        numeral::law_decimal_reads_back(i as nat, 0);
    } else {
        numeral::law_decimal_reads_back((-i) as nat, 0);
        let s = numeral::signed_decimal(i as int);
        assert(s.skip(1) =~= numeral::decimal((-i) as nat));
    }
}

/// How values are shown: numbers one by one, a list in brackets with commas between
/// its numbers, text as it is, a value with a name by the name, any other by its
/// notation, and no value as `null`.
pub proof fn law_values_are_shown(
    n: Number,
    list: Seq<Number>,
    s: Seq<char>,
    name: Seq<char>,
    unsigned: Option<u64>,
    double: Option<u64>,
)
    ensures
        DatumView::Number(n).pieces() == seq![number_piece(n)],
        DatumView::Text(s).pieces() == seq![PieceView::Text(s)],
        DatumView::Null.pieces() == seq![PieceView::Text(seq!['n', 'u', 'l', 'l'])],
        DatumView::List(seq![]).pieces() == seq![
            PieceView::Text(seq!['[']),
            PieceView::Text(seq![']']),
        ],
        DatumView::List(seq![n]).pieces() == seq![
            PieceView::Text(seq!['[']),
            number_piece(n),
            PieceView::Text(seq![']']),
        ],
        list.len() > 0 ==> DatumView::List(list.push(n)).pieces() == DatumView::List(
            list,
        ).pieces().drop_last() + seq![
            PieceView::Text(seq![',']),
            number_piece(n),
            PieceView::Text(seq![']']),
        ],
        (DatumView::Json { text: s, enum_name: Some(name), unsigned, double }).pieces() == seq![
            PieceView::Text(name),
        ],
        (DatumView::Json { text: s, enum_name: None, unsigned, double }).pieces() == seq![
            PieceView::Text(s),
        ],
{
    reveal_strlit("null");
    assert("null"@ =~= seq!['n', 'u', 'l', 'l']);
    let none: Seq<Number> = seq![];
    assert(DatumView::List(none).pieces() =~= seq![
        PieceView::Text(seq!['[']),
        PieceView::Text(seq![']']),
    ]);
    assert(DatumView::List(seq![n]).pieces() =~= seq![
        PieceView::Text(seq!['[']),
        number_piece(n),
        PieceView::Text(seq![']']),
    ]);
    if list.len() > 0 {
        assert(list.push(n).drop_last() =~= list);
        assert(DatumView::List(list.push(n)).pieces() =~= DatumView::List(
            list,
        ).pieces().drop_last() + seq![
            PieceView::Text(seq![',']),
            number_piece(n),
            PieceView::Text(seq![']']),
        ]);
    }
}

/// Which values are numbers: numbers themselves, and JSON numbers by the bits of their
/// double, unscaled; no text, no list and nothing else.
pub proof fn law_numbers(
    n: Number,
    s: Seq<char>,
    list: Seq<Number>,
    enum_name: Option<Seq<char>>,
    unsigned: Option<u64>,
    bits: u64,
    i: i64,
    u: u64,
)
    ensures
        DatumView::Number(n).number() == Some(n),
        (DatumView::Json { text: s, enum_name, unsigned, double: Some(bits) }).number() == Some(
            Number::Real(Real::Double { bits_64: bits, multiplier: 0x3FF0_0000_0000_0000 }),
        ),
        (DatumView::Json { text: s, enum_name, unsigned, double: None }).number() is None,
        DatumView::Text(s).number() is None && DatumView::List(list).number() is None
            && DatumView::Null.number() is None,
        DatumView::Number(Number::Unsigned(u)).unsigned() == Some(u),
        i >= 0 ==> (DatumView::Number(Number::Signed(i)).unsigned() matches Some(v) && v == i),
        i < 0 ==> DatumView::Number(Number::Signed(i)).unsigned() is None,
        (DatumView::Json { text: s, enum_name, unsigned, double: None }).unsigned() == unsigned,
        DatumView::Text(s).unsigned() is None && DatumView::List(list).unsigned() is None
            && DatumView::Null.unsigned() is None,
{
}

} // verus!
