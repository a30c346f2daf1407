//! Custom list columns: definitions and their text syntax.

use vstd::prelude::*;
use vstd::slice::slice_subrange;
use crate::entry::LogSourceId;
use crate::{ids, text, value};

verus! {

/// A user-defined list column showing the last-seen value of one field of
/// one message type.
pub struct CustomColumn {
    pub name: String,
    pub sysid: Option<u8>,
    pub compid: Option<u8>,
    /// Exact message-type name, uppercase.
    pub msg_type: String,
    pub field: String,
    /// The log of a merged session that the column was defined for.
    pub source: Option<LogSourceId>,
    /// Entry indices of messages this column reads from, ascending.
    pub matches: Vec<usize>,
}

/// What a column holds.
#[verifier::ext_equal]
pub struct ColumnView {
    pub name: Seq<char>,
    pub sysid: Option<u8>,
    pub compid: Option<u8>,
    pub msg_type: Seq<char>,
    pub field: Seq<char>,
    pub source: Option<LogSourceId>,
    pub matches: Seq<usize>,
}

impl View for CustomColumn {
    type V = ColumnView;

    open spec fn view(&self) -> ColumnView {
        ColumnView {
            name: self.name@,
            sysid: self.sysid,
            compid: self.compid,
            msg_type: self.msg_type@,
            field: self.field@,
            source: self.source,
            matches: self.matches@,
        }
    }
}

/// What the columns of a list hold.
pub open spec fn column_views(columns: Seq<CustomColumn>) -> Seq<ColumnView> {
    columns.map_values(|c: CustomColumn| c@)
}

impl ColumnView {
    /// The ids of the text form, with the space behind them; nothing when both
    /// are open.
    pub open spec fn id_prefix(self) -> Seq<char> {
        if self.sysid is Some || self.compid is Some {
            ids::ids_text(self.sysid, self.compid) + seq![' ']
        } else {
            seq![]
        }
    }

    /// The text form: `NAME = [ids] TYPE.FIELD`.
    pub open spec fn text(self) -> Seq<char> {
        self.name + " = "@ + self.id_prefix() + self.msg_type + seq!['.'] + self.field
    }

    /// Whether the text form can be read back.
    pub open spec fn readable(self) -> bool {
        &&& self.name.len() > 0
        &&& !text::is_white(self.name[0])
        &&& !text::is_white(self.name.last())
        &&& !self.name.contains('=')
        &&& !self.name.contains(',')
        &&& self.msg_type.len() > 0
        &&& text::upper(self.msg_type) == self.msg_type
        &&& text::is_solid(self.msg_type)
        &&& !self.msg_type.contains(',')
        &&& !self.msg_type.contains('.')
        &&& self.field.len() > 0
        &&& text::is_solid(self.field)
        &&& !self.field.contains(',')
    }

    /// What is wrong with a column whose text form could not be read back: its
    /// name holds what separates definitions from each other or names from
    /// fields, or the message type or the field is not a single word.
    pub open spec fn complaint(self) -> Option<Seq<char>> {
        if self.name.contains(',') || self.name.contains('=') {
            Some("A column name cannot contain ',' or '='"@)
        } else if self.msg_type.len() == 0 || !text::is_solid(self.msg_type)
            || self.msg_type.contains(',') || self.msg_type.contains('.') || !text::is_solid(
            self.field,
        ) || self.field.contains(',') {
            Some("A column cannot name this message field"@)
        } else {
            None
        }
    }

    /// The definition alone, as it is read from text: not indexed yet, and for
    /// either log.
    pub open spec fn definition(self) -> ColumnView {
        ColumnView { source: None, matches: seq![], ..self }
    }
}

/// The complaint about a definition that lacks the expected shape.
pub open spec fn usage(whole: Seq<char>) -> Seq<char> {
    "expected NAME = [sys[:comp]] TYPE.FIELD in '"@ + whole + "'"@
}

/// What the tokens behind the `=` have given so far.
#[verifier::ext_equal]
pub struct TargetView {
    /// Whether a token was read as ids.
    pub ids_seen: bool,
    pub sysid: Option<u8>,
    pub compid: Option<u8>,
    pub type_field: Option<(Seq<char>, Seq<char>)>,
}

/// `t` with one more token, or the complaint about that token within `whole`.
pub open spec fn with_token(t: TargetView, token: Seq<char>, whole: Seq<char>) -> Result<
    TargetView,
    Seq<char>,
> {
    let dot = text::index_of(token, '.');
    if ids::is_id_spec(token) {
        if t.ids_seen {
            Err("more than one id spec in '"@ + whole + "'"@)
        } else {
            match ids::id_values(token, whole) {
                Ok((sysid, compid)) => Ok(TargetView { ids_seen: true, sysid, compid, ..t }),
                Err(e) => Err(e),
            }
        }
    } else if t.type_field is Some || dot == 0 || dot >= token.len() - 1 {
        Err(usage(whole))
    } else {
        Ok(
            TargetView {
                type_field: Some((text::upper(token.take(dot)), token.skip(dot + 1))),
                ..t
            },
        )
    }
}

/// What the tokens behind the `=` give, or the first complaint.
pub open spec fn target(tokens: Seq<Seq<char>>, whole: Seq<char>) -> Result<TargetView, Seq<char>>
    decreases tokens.len(),
{
    if tokens.len() == 0 {
        Ok(TargetView { ids_seen: false, sysid: None, compid: None, type_field: None })
    } else {
        match target(tokens.drop_last(), whole) {
            Ok(t) => with_token(t, tokens.last(), whole),
            Err(e) => Err(e),
        }
    }
}

/// What the text between two commas defines: nothing when it is blank.
pub open spec fn definition(part: Seq<char>) -> Result<Option<ColumnView>, Seq<char>> {
    let p = text::trim(part);
    let eq = text::index_of(p, '=');
    let name = text::trim(p.take(eq));
    if p.len() == 0 {
        Ok(None)
    } else if eq >= p.len() || name.len() == 0 {
        Err(usage(p))
    } else {
        match target(text::words(p.skip(eq + 1)), p) {
            Err(e) => Err(e),
            Ok(t) => match t.type_field {
                None => Err(usage(p)),
                Some((msg_type, field)) => Ok(
                    Some(
                        ColumnView {
                            name,
                            sysid: t.sysid,
                            compid: t.compid,
                            msg_type,
                            field,
                            source: None,
                            matches: seq![],
                        },
                    ),
                ),
            },
        }
    }
}

/// What a list of definitions stands for, or the first complaint.
pub open spec fn definitions(parts: Seq<Seq<char>>) -> Result<Seq<ColumnView>, Seq<char>>
    decreases parts.len(),
{
    if parts.len() == 0 {
        Ok(seq![])
    } else {
        match definitions(parts.drop_last()) {
            Err(e) => Err(e),
            Ok(done) => match definition(parts.last()) {
                Err(e) => Err(e),
                Ok(None) => Ok(done),
                Ok(Some(c)) => Ok(done.push(c)),
            },
        }
    }
}

/// What comma-separated definitions stand for.
pub open spec fn columns_of(input: Seq<char>) -> Result<Seq<ColumnView>, Seq<char>> {
    definitions(text::split(input, ','))
}

/// Whether the text forms of all columns can be read back.
pub open spec fn all_readable(columns: Seq<ColumnView>) -> bool {
    forall|i: int| 0 <= i < columns.len() ==> (#[trigger] columns[i]).readable()
}

impl CustomColumn {
    /// What is wrong with a column whose text form could not be read back.
    pub fn complaint(&self) -> (r: Option<String>)
        ensures
            value::text_of(r) == self@.complaint(),
    {
        let name = text::chars_of(self.name.as_str());
        let msg_type = text::chars_of(self.msg_type.as_str());
        let field = text::chars_of(self.field.as_str());
        if text::holds(&name, ',') || text::holds(&name, '=') {
            Some("A column name cannot contain ',' or '='".to_string())
        } else if msg_type.len() == 0 || !text::is_word(&msg_type) || text::holds(&msg_type, ',')
            || text::holds(&msg_type, '.') || !text::is_word(&field) || text::holds(&field, ',') {
            Some("A column cannot name this message field".to_string())
        } else {
            None
        }
    }

    /// Text form accepted by `parse_columns`.
    pub fn to_text(&self) -> (r: String)
        ensures
            r@ == self@.text(),
    {
        let mut r = self.name.clone();
        r.append(" = ");
        if self.sysid.is_some() || self.compid.is_some() {
            ids::push_ids(&mut r, self.sysid, self.compid);
            r.push(' ');
        }
        r.append(self.msg_type.as_str());
        r.push('.');
        r.append(self.field.as_str());
        assert(r@ =~= self@.text());
        r
    }

    /// A copy of the column.
    pub fn copied(&self) -> (r: CustomColumn)
        ensures
            r@ == self@,
    {
        let mut matches: Vec<usize> = Vec::new();
        let mut i: usize = 0;
        while i < self.matches.len()
            invariant
                i <= self.matches.len(),
                matches@ =~= self.matches@.take(i as int),
            decreases self.matches.len() - i,
        {
            matches.push(self.matches[i]);
            i += 1;
        }
        CustomColumn {
            name: self.name.clone(),
            sysid: self.sysid,
            compid: self.compid,
            msg_type: self.msg_type.clone(),
            field: self.field.clone(),
            source: self.source,
            matches,
        }
    }
}

/// What the tokens behind the `=` have given so far.
struct Target {
    ids_seen: bool,
    sysid: Option<u8>,
    compid: Option<u8>,
    type_field: Option<(String, String)>,
}

impl View for Target {
    type V = TargetView;

    closed spec fn view(&self) -> TargetView {
        TargetView {
            ids_seen: self.ids_seen,
            sysid: self.sysid,
            compid: self.compid,
            type_field: match self.type_field {
                Some((t, f)) => Some((t@, f@)),
                None => None,
            },
        }
    }
}

/// The complaint about a definition that lacks the expected shape.
fn usage_text(whole: &[char]) -> (r: String)
    ensures
        r@ == usage(whole@),
{
    let mut r = "expected NAME = [sys[:comp]] TYPE.FIELD in '".to_string();
    text::push_chars(&mut r, whole);
    r.append("'");
    r
}

/// Add one token to a definition.
fn add_token(t: Target, token: &[char], whole: &[char]) -> (r: Result<Target, String>)
    ensures
        match with_token(t@, token@, whole@) {
            Ok(n) => r matches Ok(g) && g@ == n,
            Err(e) => r matches Err(m) && m@ == e,
        },
{
    let mut t = t;
    if ids::looks_like_ids(token) {
        if t.ids_seen {
            let mut r = "more than one id spec in '".to_string();
            text::push_chars(&mut r, whole);
            r.append("'");
            return Err(r);
        }
        return match ids::parse_ids(token, whole) {
            Ok((sysid, compid)) => {
                t.ids_seen = true;
                t.sysid = sysid;
                t.compid = compid;
                Ok(t)
            },
            Err(e) => Err(e),
        };
    }
    let dot = text::position(token, '.');
    if t.type_field.is_some() || dot == 0 || dot >= token.len() || dot == token.len() - 1 {
        return Err(usage_text(whole));
    }
    let msg_type = slice_subrange(token, 0, dot);
    let field = slice_subrange(token, dot + 1, token.len());
    assert(msg_type@ =~= token@.take(dot as int));
    assert(field@ =~= token@.skip(dot + 1));
    t.type_field = Some((text::string_of(&text::uppered(msg_type)), text::string_of(field)));
    Ok(t)
}

/// A complaint about a prefix of the tokens is the complaint about them all.
proof fn lemma_first_complaint(tokens: Seq<Seq<char>>, whole: Seq<char>, n: int)
    requires
        0 <= n <= tokens.len(),
        target(tokens.take(n), whole) is Err,
    ensures
        target(tokens, whole) == target(tokens.take(n), whole),
    decreases tokens.len(),
{
    if n == tokens.len() {
        assert(tokens.take(n) =~= tokens);
    } else {
        assert(tokens.drop_last().take(n) =~= tokens.take(n));
        lemma_first_complaint(tokens.drop_last(), whole, n);
    }
}

/// A complaint about a prefix of the parts is the complaint about them all.
proof fn lemma_first_bad_part(parts: Seq<Seq<char>>, n: int)
    requires
        0 <= n <= parts.len(),
        definitions(parts.take(n)) is Err,
    ensures
        definitions(parts) == definitions(parts.take(n)),
    decreases parts.len(),
{
    if n == parts.len() {
        assert(parts.take(n) =~= parts);
    } else {
        assert(parts.drop_last().take(n) =~= parts.take(n));
        lemma_first_bad_part(parts.drop_last(), n);
    }
}

/// Parse what stands behind the `=`.
fn parse_target(expr: &[char], whole: &[char]) -> (r: Result<Target, String>)
    ensures
        match target(text::words(expr@), whole@) {
            Ok(t) => r matches Ok(g) && g@ == t,
            Err(e) => r matches Err(m) && m@ == e,
        },
{
    let tokens = text::tokens(expr);
    let ghost all = text::slices(tokens@);
    let mut t = Target { ids_seen: false, sysid: None, compid: None, type_field: None };
    let mut i: usize = 0;
    assert(all.take(0) =~= seq![]);
    while i < tokens.len()
        invariant
            i <= tokens.len(),
            all == text::slices(tokens@),
            all == text::words(expr@),
            target(all.take(i as int), whole@) == Ok::<TargetView, Seq<char>>(t@),
        decreases tokens.len() - i,
    {
        proof {
            assert(all.take(i + 1).drop_last() =~= all.take(i as int));
            assert(all.take(i + 1).last() == tokens@[i as int]@);
        }
        match add_token(t, tokens[i], whole) {
            Ok(next) => {
                t = next;
            },
            Err(e) => {
                proof {
                    lemma_first_complaint(all, whole@, i + 1);
                }
                return Err(e);
            },
        }
        i += 1;
    }
    assert(all.take(i as int) =~= all);
    Ok(t)
}

/// Parse what stands between two commas.
fn parse_definition(part: &[char]) -> (r: Result<Option<CustomColumn>, String>)
    ensures
        match definition(part@) {
            Ok(None) => r == Ok::<Option<CustomColumn>, String>(None),
            Ok(Some(c)) => r matches Ok(Some(g)) && g@ == c,
            Err(e) => r matches Err(m) && m@ == e,
        },
{
    let p = text::trimmed(part);
    if p.len() == 0 {
        return Ok(None);
    }
    let eq = text::position(p, '=');
    if eq == p.len() {
        return Err(usage_text(p));
    }
    let before = slice_subrange(p, 0, eq);
    let expr = slice_subrange(p, eq + 1, p.len());
    assert(before@ =~= p@.take(eq as int));
    assert(expr@ =~= p@.skip(eq + 1));
    let name = text::trimmed(before);
    if name.len() == 0 {
        return Err(usage_text(p));
    }
    match parse_target(expr, p) {
        Err(e) => Err(e),
        Ok(t) => match t.type_field {
            None => Err(usage_text(p)),
            Some((msg_type, field)) => Ok(
                Some(
                    CustomColumn {
                        name: text::string_of(name),
                        sysid: t.sysid,
                        compid: t.compid,
                        msg_type,
                        field,
                        source: None,
                        matches: Vec::new(),
                    },
                ),
            ),
        },
    }
}

/// Parse comma-separated column definitions: `NAME = [sys[:comp]] TYPE.FIELD`,
/// e.g. "alt = 1:1 GLOBAL_POSITION_INT.relative_alt". Empty input clears.
pub fn parse_columns(input: &str) -> (r: Result<Vec<CustomColumn>, String>)
    ensures
        match columns_of(input@) {
            Ok(list) => r matches Ok(v) && column_views(v@) == list,
            Err(e) => r matches Err(m) && m@ == e,
        },
{
    let chars = text::chars_of(input);
    let parts = text::pieces(&chars, ',');
    let ghost all = text::slices(parts@);
    let mut columns: Vec<CustomColumn> = Vec::new();
    let mut i: usize = 0;
    assert(all.take(0) =~= seq![]);
    assert(column_views(columns@) =~= seq![]);
    while i < parts.len()
        invariant
            i <= parts.len(),
            all == text::slices(parts@),
            all == text::split(input@, ','),
            definitions(all.take(i as int)) == Ok::<Seq<ColumnView>, Seq<char>>(
                column_views(columns@),
            ),
        decreases parts.len() - i,
    {
        proof {
            assert(all.take(i + 1).drop_last() =~= all.take(i as int));
            assert(all.take(i + 1).last() == parts@[i as int]@);
        }
        match parse_definition(parts[i]) {
            Ok(None) => {},
            Ok(Some(c)) => {
                let ghost before = columns@;
                columns.push(c);
                assert(column_views(columns@) =~= column_views(before).push(c@));
            },
            Err(e) => {
                proof {
                    lemma_first_bad_part(all, i + 1);
                }
                return Err(e);
            },
        }
        i += 1;
    }
    assert(all.take(i as int) =~= all);
    Ok(columns)
}

/// The text form of a column is read back as its definition, whether it stands
/// alone or behind a space.
pub proof fn law_text_reads_back(c: ColumnView)
    requires
        c.readable(),
    ensures
        definition(c.text()) == Ok::<Option<ColumnView>, Seq<char>>(Some(c.definition())),
        definition(seq![' '] + c.text()) == Ok::<Option<ColumnView>, Seq<char>>(
            Some(c.definition()),
        ),
        !c.text().contains(','),
{
    reveal_strlit(" = ");
    let t = c.text();
    let last = c.msg_type + seq!['.'] + c.field;
    let ids = ids::ids_text(c.sysid, c.compid);
    let before = c.name + seq![' '];
    let front = seq![' '] + c.id_prefix();
    let eq = before.len() as int;
    assert(t =~= before + seq!['='] + front + last);
    ids::law_ids_read_back(c.sysid, c.compid, t);
    assert(!t.contains(',')) by {
        if t.contains(',') {
            let k = choose|k: int| 0 <= k < t.len() && t[k] == ',';
            let a = c.name.len() as int;
            let b = a + 3;
            let d = b + c.id_prefix().len();
            let e = d + c.msg_type.len();
            if k < a {
                assert(c.name[k] == ',');
            } else if b <= k < d {
                assert(c.id_prefix()[k - b] == ',');
                if k - b < ids.len() {
                    assert(ids::is_id_char(ids[k - b]));
                }
            } else if d <= k < e {
                assert(c.msg_type[k - d] == ',');
            } else if k > e {
                assert(c.field[k - e - 1] == ',');
            }
        }
    }
    assert(t[0] == c.name[0]);
    assert(t.last() == c.field.last());
    text::lemma_trimmed(t);
    assert forall|k: int| 0 <= k < eq implies t[k] != '=' by {
        if k < c.name.len() {
            assert(t[k] == c.name[k]);
        }
    }
    text::lemma_index_is(t, '=', eq);
    assert(t.take(eq) =~= before);
    assert(text::trim(before) == c.name) by {
        text::lemma_trimmed(c.name);
        text::lemma_trimmed_behind(c.name);
    }
    let expr = t.skip(eq + 1);
    assert(expr =~= front + last);
    assert(text::is_solid(last)) by {
        assert forall|k: int| 0 <= k < last.len() implies !text::is_white(#[trigger] last[k]) by {
            let n = c.msg_type.len() as int;
            if k < n {
                assert(!text::is_white(c.msg_type[k]));
            } else if k > n {
                assert(!text::is_white(c.field[k - n - 1]));
            }
        }
    }
    // The type and field token.
    let n = c.msg_type.len() as int;
    assert forall|k: int| 0 <= k < n implies last[k] != '.' by {
        assert(last[k] == c.msg_type[k]);
    }
    text::lemma_index_is(last, '.', n);
    assert(last.take(n) =~= c.msg_type);
    assert(last.skip(n + 1) =~= c.field);
    assert(!ids::is_id_spec(last)) by {
        assert(!ids::is_id_char(last[n]));
    }
    let none = Seq::<Seq<char>>::empty();
    if c.sysid is Some || c.compid is Some {
        assert(text::is_solid(ids)) by {
            assert forall|k: int| 0 <= k < ids.len() implies !text::is_white(#[trigger] ids[k]) by {
                assert(ids::is_id_char(ids[k]));
            }
        }
        assert(expr =~= (none_text() + seq![' '] + ids) + seq![' '] + last);
        text::lemma_words_append(none_text(), ids);
        text::lemma_words_append(none_text() + seq![' '] + ids, last);
        let tokens = seq![ids, last];
        assert(text::words(expr) =~= tokens);
        assert(tokens.drop_last() =~= seq![ids]);
        assert(seq![ids].drop_last() =~= none);
        assert(target(none, t) is Ok);
        assert(target(seq![ids], t) == Ok::<TargetView, Seq<char>>(
            TargetView { ids_seen: true, sysid: c.sysid, compid: c.compid, type_field: None },
        ));
        assert(target(tokens, t) is Ok);
    } else {
        assert(expr =~= none_text() + seq![' '] + last);
        text::lemma_words_append(none_text(), last);
        let tokens = seq![last];
        assert(text::words(expr) =~= tokens);
        assert(tokens.drop_last() =~= none);
        assert(target(none, t) is Ok);
        assert(target(tokens, t) is Ok);
    }
}

/// The empty text.
spec fn none_text() -> Seq<char> {
    seq![]
}

/// Text form of a list of columns, as the columns line shows it.
pub open spec fn list_text(columns: Seq<ColumnView>) -> Seq<char> {
    text::join(columns.map_values(|c: ColumnView| c.text()), ", "@)
}

/// The text form of a list of columns is read back as their definitions.
pub proof fn law_list_reads_back(columns: Seq<ColumnView>)
    requires
        all_readable(columns),
    ensures
        columns_of(list_text(columns)) == Ok::<Seq<ColumnView>, Seq<char>>(
            columns.map_values(|c: ColumnView| c.definition()),
        ),
    decreases columns.len(),
{
    let texts = columns.map_values(|c: ColumnView| c.text());
    let plain = columns.map_values(|c: ColumnView| c.definition());
    let whole = list_text(columns);
    reveal_strlit(", ");
    if columns.len() == 0 {
        text::lemma_split_none(whole, ',');
        assert(text::split(whole, ',').drop_last() =~= seq![]);
        assert(definitions(text::split(whole, ',').drop_last()) == Ok::<
            Seq<ColumnView>,
            Seq<char>,
        >(seq![]));
        assert(plain =~= seq![]);
    } else {
        let c = columns.last();
        law_text_reads_back(c);
        let front = columns.drop_last();
        assert(plain =~= front.map_values(|c: ColumnView| c.definition()).push(c.definition()));
        if columns.len() == 1 {
            assert(whole == c.text());
            text::lemma_split_none(whole, ',');
            assert(text::split(whole, ',').drop_last() =~= seq![]);
            assert(front.map_values(|c: ColumnView| c.definition()) =~= seq![]);
            assert(definitions(text::split(whole, ',').drop_last()) == Ok::<
                Seq<ColumnView>,
                Seq<char>,
            >(seq![]));
        } else {
            law_list_reads_back(front);
            assert(texts.drop_last() =~= front.map_values(|c: ColumnView| c.text()));
            let piece = seq![' '] + c.text();
            let before = list_text(front);
            assert(whole =~= before + seq![','] + piece);
            if piece.contains(',') {
                let k = choose|k: int| 0 <= k < piece.len() && piece[k] == ',';
                assert(c.text()[k - 1] == ',');
            }
            text::lemma_split_append(before, ',', piece);
            assert(text::split(whole, ',').drop_last() =~= text::split(before, ','));
            assert(text::split(whole, ',').last() == piece);
        }
    }
}

/// What the tokens behind the `=` give can be read back.
proof fn lemma_target_readable(tokens: Seq<Seq<char>>, whole: Seq<char>)
    requires
        forall|i: int|
            0 <= i < tokens.len() ==> text::is_solid(#[trigger] tokens[i]) && !tokens[i].contains(
                ',',
            ),
    ensures
        target(tokens, whole) matches Ok(t) ==> (t.type_field matches Some((msg_type, field)) ==> {
            &&& msg_type.len() > 0
            &&& text::upper(msg_type) == msg_type
            &&& text::is_solid(msg_type)
            &&& !msg_type.contains(',')
            &&& !msg_type.contains('.')
            &&& field.len() > 0
            &&& text::is_solid(field)
            &&& !field.contains(',')
        }),
    decreases tokens.len(),
{
    if tokens.len() > 0 {
        let token = tokens.last();
        assert(token == tokens[tokens.len() - 1]);
        assert forall|i: int| 0 <= i < tokens.drop_last().len() implies text::is_solid(
            #[trigger] tokens.drop_last()[i],
        ) && !tokens.drop_last()[i].contains(',') by {
            assert(tokens.drop_last()[i] == tokens[i]);
        }
        lemma_target_readable(tokens.drop_last(), whole);
        let dot = text::index_of(token, '.');
        text::lemma_index_of(token, '.');
        if 0 < dot < token.len() - 1 {
            let head = token.take(dot);
            let m = text::upper(head);
            let f = token.skip(dot + 1);
            text::lemma_case_twice(head);
            assert forall|k: int| 0 <= k < m.len() implies !text::is_white(#[trigger] m[k]) && m[k]
                != ',' && m[k] != '.' by {
                text::lemma_case(head[k]);
                assert(head[k] == token[k]);
                assert(!text::is_white(token[k]));
                if token[k] == ',' {
                    assert(token.contains(','));
                }
            }
            assert forall|k: int| 0 <= k < f.len() implies !text::is_white(#[trigger] f[k]) && f[k]
                != ',' by {
                assert(f[k] == token[k + dot + 1]);
                assert(!text::is_white(token[k + dot + 1]));
                if f[k] == ',' {
                    assert(token.contains(','));
                }
            }
        }
    }
}

/// Every column that is read from text can be written and read back.
pub proof fn law_parsed_is_readable(part: Seq<char>)
    requires
        !part.contains(','),
    ensures
        definition(part) matches Ok(Some(c)) ==> c.readable() && c.definition() == c,
{
    let p = text::trim(part);
    text::lemma_trim_edges(part);
    let eq = text::index_of(p, '=');
    text::lemma_index_of(p, '=');
    if p.len() > 0 && eq < p.len() {
        let before = p.take(eq);
        let name = text::trim(before);
        text::lemma_trim_edges(before);
        assert forall|k: int| 0 <= k < name.len() implies name[k] != '=' && name[k] != ',' by {
            assert(before.contains(name[k]));
            let j = choose|j: int| 0 <= j < before.len() && before[j] == name[k];
            assert(p[j] == name[k]);
            assert(part.contains(p[j]));
        }
        let expr = p.skip(eq + 1);
        let tokens = text::words(expr);
        assert forall|i: int| 0 <= i < tokens.len() implies text::is_solid(#[trigger] tokens[i])
            && !tokens[i].contains(',') by {
            text::lemma_words(expr, i);
            if tokens[i].contains(',') {
                let k = choose|k: int| 0 <= k < tokens[i].len() && tokens[i][k] == ',';
                assert(expr.contains(tokens[i][k]));
                let j = choose|j: int| 0 <= j < expr.len() && expr[j] == ',';
                assert(part.contains(p[j + eq + 1]));
            }
        }
        lemma_target_readable(tokens, p);
    }
}

/// Every column of a list comes from one of its parts.
proof fn lemma_from_parts(parts: Seq<Seq<char>>)
    requires
        forall|i: int| 0 <= i < parts.len() ==> !(#[trigger] parts[i]).contains(','),
    ensures
        definitions(parts) matches Ok(list) ==> forall|i: int|
            0 <= i < list.len() ==> (#[trigger] list[i]).readable() && list[i].definition()
                == list[i],
    decreases parts.len(),
{
    if parts.len() > 0 {
        assert forall|i: int| 0 <= i < parts.drop_last().len() implies !(
        #[trigger] parts.drop_last()[i]).contains(',') by {
            assert(parts.drop_last()[i] == parts[i]);
        }
        lemma_from_parts(parts.drop_last());
        assert(parts.last() == parts[parts.len() - 1]);
        law_parsed_is_readable(parts.last());
    }
}

/// Every column of a columns line can be written and read back.
pub proof fn law_line_is_readable(input: Seq<char>)
    ensures
        columns_of(input) matches Ok(list) ==> all_readable(list) && forall|i: int|
            0 <= i < list.len() ==> (#[trigger] list[i]).definition() == list[i],
{
    let parts = text::split(input, ',');
    assert forall|i: int| 0 <= i < parts.len() implies !(#[trigger] parts[i]).contains(',') by {
        text::lemma_pieces(input, ',', i);
    }
    lemma_from_parts(parts);
}

/// Writing what was read from a columns line and reading it again gives the
/// same columns.
pub proof fn law_line_is_stable(input: Seq<char>)
    ensures
        columns_of(input) matches Ok(list) ==> columns_of(list_text(list)) == Ok::<
            Seq<ColumnView>,
            Seq<char>,
        >(list),
{
    law_line_is_readable(input);
    if let Ok(list) = columns_of(input) {
        law_list_reads_back(list);
        assert(list.map_values(|c: ColumnView| c.definition()) =~= list);
    }
}

/// The text of a column: its name, `=` between spaces, the ids where one is given, and
/// the type and the field with a dot between them.
pub proof fn law_column_text(c: ColumnView)
    ensures
        c.sysid is None && c.compid is None ==> c.text() == c.name + seq![' ', '=', ' ']
            + c.msg_type + seq!['.'] + c.field,
        c.sysid is Some || c.compid is Some ==> c.text() == c.name + seq![' ', '=', ' ']
            + ids::id_part(c.sysid) + seq![':'] + ids::id_part(c.compid) + seq![' '] + c.msg_type
            + seq!['.'] + c.field,
{
    reveal_strlit(" = ");
    assert(" = "@ =~= seq![' ', '=', ' ']);
    if c.sysid is None && c.compid is None {
        assert(c.text() =~= c.name + seq![' ', '=', ' '] + c.msg_type + seq!['.'] + c.field);
    } else {
        assert(c.text() =~= c.name + seq![' ', '=', ' '] + ids::id_part(c.sysid) + seq![':']
            + ids::id_part(c.compid) + seq![' '] + c.msg_type + seq!['.'] + c.field);
    }
}

/// What a token behind the `=` gives: one of digits, colons and stars the ids, any
/// other the type in uppercase before its first dot and the field behind it, neither
/// of them empty. Each may come once.
pub proof fn law_token(t: TargetView, token: Seq<char>, whole: Seq<char>, kind: Seq<char>, field: Seq<char>)
    requires
        token.len() > 0,
        !kind.contains('.'),
    ensures
        ({
            let r = with_token(t, token, whole);
            let ids = forall|i: int|
                0 <= i < token.len() ==> ('0' <= #[trigger] token[i] && token[i] <= '9')
                    || token[i] == ':' || token[i] == '*';
            &&& ids && t.ids_seen ==> r is Err
            &&& ids && !t.ids_seen ==> match ids::id_values(token, whole) {
                Ok((sysid, compid)) => r == Ok::<TargetView, Seq<char>>(
                    TargetView { ids_seen: true, sysid, compid, type_field: t.type_field },
                ),
                Err(e) => r == Err::<TargetView, Seq<char>>(e),
            }
            &&& !ids && t.type_field is Some ==> r is Err
            &&& !ids && !token.contains('.') ==> r is Err
            &&& token == kind + seq!['.'] + field && !ids && t.type_field is None ==> {
                &&& kind.len() > 0 && field.len() > 0 ==> r == Ok::<TargetView, Seq<char>>(
                    TargetView { type_field: Some((text::upper(kind), field)), ..t },
                )
                &&& kind.len() == 0 || field.len() == 0 ==> r is Err
            }
        }),
{
    let ids = forall|i: int|
        0 <= i < token.len() ==> ('0' <= #[trigger] token[i] && token[i] <= '9') || token[i] == ':'
            || token[i] == '*';
    if ids {
        assert forall|i: int| 0 <= i < token.len() implies ids::is_id_char(#[trigger] token[i]) by {}
        assert(ids::is_id_spec(token));
    }
    if ids::is_id_spec(token) {
        assert forall|i: int| 0 <= i < token.len() implies ('0' <= #[trigger] token[i] && token[i]
            <= '9') || token[i] == ':' || token[i] == '*' by {
            assert(ids::is_id_char(token[i]));
        }
    }
    text::lemma_index_of(token, '.');
    if token == kind + seq!['.'] + field {
        let n = kind.len() as int;
        assert forall|k: int| 0 <= k < n implies token[k] != '.' by {
            assert(token[k] == kind[k]);
            assert(kind.contains(kind[k]));
        }
        assert(token[n] == '.');
        text::lemma_index_is(token, '.', n);
        assert(token.take(n) =~= kind);
        assert(token.skip(n + 1) =~= field);
    }
}

/// A definition: blank it is nothing; without a `=` or without a name before the first
/// of them it is refused; else what is before it, trimmed, is the name, and the words
/// behind it tell what the column shows.
pub proof fn law_definition(front: Seq<char>, p: Seq<char>, back: Seq<char>, left: Seq<char>, right: Seq<char>)
    requires
        forall|k: int| 0 <= k < front.len() ==> text::is_white(#[trigger] front[k]),
        forall|k: int| 0 <= k < back.len() ==> text::is_white(#[trigger] back[k]),
        p.len() > 0 ==> !text::is_white(p[0]) && !text::is_white(p.last()),
        !left.contains('='),
    ensures
        ({
            let r = definition(front + p + back);
            &&& p.len() == 0 ==> r == Ok::<Option<ColumnView>, Seq<char>>(None)
            &&& p.len() > 0 && !p.contains('=') ==> r is Err
            &&& p == left + seq!['='] + right && text::trim(left).len() == 0 ==> r is Err
            &&& p == left + seq!['='] + right && text::trim(left).len() > 0 ==> match target(
                text::words(right),
                p,
            ) {
                Err(e) => r == Err::<Option<ColumnView>, Seq<char>>(e),
                Ok(t) => match t.type_field {
                    None => r is Err,
                    Some(shown) => r == Ok::<Option<ColumnView>, Seq<char>>(
                        Some(
                            ColumnView {
                                name: text::trim(left),
                                sysid: t.sysid,
                                compid: t.compid,
                                msg_type: shown.0,
                                field: shown.1,
                                source: None,
                                matches: seq![],
                            },
                        ),
                    ),
                },
            }
        }),
{
    text::law_trim(front, p, back);
    text::lemma_index_of(p, '=');
    if p == left + seq!['='] + right {
        let n = left.len() as int;
        assert forall|k: int| 0 <= k < n implies p[k] != '=' by {
            assert(p[k] == left[k]);
            assert(left.contains(left[k]));
        }
        assert(p[n] == '=');
        text::lemma_index_is(p, '=', n);
        assert(p.take(n) =~= left);
        assert(p.skip(n + 1) =~= right);
    }
}

/// Definitions with commas between them stand for columns in order, without the blank
/// ones; one that is refused is the complaint about the whole list.
pub proof fn law_list_in_order(parts: Seq<Seq<char>>, next: Seq<char>)
    requires
        forall|i: int| 0 <= i < parts.len() ==> !(#[trigger] parts[i]).contains(','),
        !next.contains(','),
        parts.len() > 0,
    ensures
        ({
            let before = columns_of(text::join(parts, seq![',']));
            let after = columns_of(text::join(parts.push(next), seq![',']));
            &&& before matches Err(e) ==> after == Err::<Seq<ColumnView>, Seq<char>>(e)
            &&& before matches Ok(list) ==> match definition(next) {
                Err(e) => after == Err::<Seq<ColumnView>, Seq<char>>(e),
                Ok(None) => after == Ok::<Seq<ColumnView>, Seq<char>>(list),
                Ok(Some(c)) => after == Ok::<Seq<ColumnView>, Seq<char>>(list.push(c)),
            }
        }),
{
    let longer = parts.push(next);
    text::law_split_of_joined(parts, ',');
    text::law_split_of_joined(longer, ',');
    assert(longer.drop_last() =~= parts);
}

/// A column is accepted where its name holds neither ',' nor '=', its type is one word
/// without ',' and '.', and its field holds neither whitespace nor ','; any other is
/// refused.
pub proof fn law_refused_columns(c: ColumnView)
    ensures
        c.complaint() is None <==> {
            &&& !c.name.contains(',') && !c.name.contains('=')
            &&& c.msg_type.len() > 0
            &&& forall|k: int|
                0 <= k < c.msg_type.len() ==> !text::is_white(#[trigger] c.msg_type[k])
            &&& !c.msg_type.contains(',') && !c.msg_type.contains('.')
            &&& forall|k: int| 0 <= k < c.field.len() ==> !text::is_white(#[trigger] c.field[k])
            &&& !c.field.contains(',')
        },
{
    if c.complaint() is None {
        assert forall|k: int| 0 <= k < c.msg_type.len() implies !text::is_white(
            #[trigger] c.msg_type[k],
        ) by {}
        assert forall|k: int| 0 <= k < c.field.len() implies !text::is_white(
            #[trigger] c.field[k],
        ) by {}
    }
}

} // verus!
