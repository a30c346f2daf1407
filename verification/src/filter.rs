//! Message filtering: expressions matched against log entries, plus the
//! dropdown label matcher.

use vstd::prelude::*;
use vstd::slice::slice_subrange;
use crate::entry::{EntryView, LogEntry, LogSourceId};
use crate::{glob, ids, numeral, text, value};

verus! {

/// One filter expression; every part that is present must match. A message
/// is shown if any expression matches it.
pub struct FilterExpr {
    pub sysid: Option<u8>,
    pub compid: Option<u8>,
    /// Lowercase message-type pattern, may contain '*' wildcards.
    pub name: Option<String>,
    /// Match the type name exactly instead of substring/glob.
    pub exact: bool,
    /// Restrict to one log of a merged session. `None` matches either.
    pub source: Option<LogSourceId>,
    /// Disabled expressions are kept and persisted (with a '!' text prefix)
    /// but do not participate in filtering.
    pub enabled: bool,
}

/// What a filter expression holds.
#[verifier::ext_equal]
pub struct FilterView {
    pub sysid: Option<u8>,
    pub compid: Option<u8>,
    pub name: Option<Seq<char>>,
    pub exact: bool,
    pub source: Option<LogSourceId>,
    pub enabled: bool,
}

impl View for FilterExpr {
    type V = FilterView;

    open spec fn view(&self) -> FilterView {
        FilterView {
            sysid: self.sysid,
            compid: self.compid,
            name: match self.name {
                Some(n) => Some(n@),
                None => None,
            },
            exact: self.exact,
            source: self.source,
            enabled: self.enabled,
        }
    }
}

/// What the expressions of a list hold.
pub open spec fn filter_views(filters: Seq<FilterExpr>) -> Seq<FilterView> {
    filters.map_values(|f: FilterExpr| f@)
}

/// Message-type match without regard to case: substring by default, glob when
/// the pattern contains '*'.
pub open spec fn type_matches(pattern: Seq<char>, name: Seq<char>) -> bool {
    if pattern.contains('*') {
        glob::glob(text::lower(pattern), text::lower(name))
    } else {
        text::contains(text::lower(name), text::lower(pattern))
    }
}

impl FilterView {
    /// Whether every part that is present matches the entry.
    pub open spec fn accepts(self, entry: EntryView) -> bool {
        &&& self.source is None || self.source == Some(entry.source)
        &&& self.sysid is None || self.sysid == entry.sysid
        &&& self.compid is None || self.compid == entry.compid
        &&& match self.name {
            None => true,
            Some(p) => if self.exact {
                text::same_ignoring_case(entry.name, p)
            } else {
                type_matches(p, entry.name)
            },
        }
    }

    /// Whether no part is present but perhaps a type pattern.
    pub open spec fn names_only(self) -> bool {
        self.sysid is None && self.compid is None && self.source is None
    }

    /// Whether the expression is enabled and consists of a type pattern that
    /// starts with '!'. On its own that pattern would be read as a disabled
    /// expression.
    pub open spec fn starts_negated(self) -> bool {
        &&& self.enabled
        &&& self.names_only()
        &&& !self.exact
        &&& self.name matches Some(n) && n.len() > 0 && n[0] == '!'
    }

    /// Whether the text form has ids: those that are present, or open ones in
    /// front of a type pattern that starts with '!'.
    pub open spec fn shows_ids(self) -> bool {
        self.sysid is Some || self.compid is Some || self.starts_negated()
    }

    /// The parts of the text form.
    pub open spec fn parts(self) -> Seq<Seq<char>> {
        let source = match self.source {
            Some(s) => seq![seq!['@'] + source_text(s)],
            None => seq![],
        };
        let ids = if self.shows_ids() {
            seq![ids::ids_text(self.sysid, self.compid)]
        } else {
            seq![]
        };
        let name = match self.name {
            Some(n) => seq![
                if self.exact {
                    seq!['='] + text::upper(n)
                } else {
                    text::upper(n)
                },
            ],
            None => seq![],
        };
        source + ids + name
    }

    /// The text form: the parts with spaces between them, or `*` when there is
    /// none, behind a '!' when the expression is disabled.
    pub open spec fn text(self) -> Seq<char> {
        let body = if self.parts().len() == 0 {
            seq!['*']
        } else {
            text::join(self.parts(), seq![' '])
        };
        if self.enabled {
            body
        } else {
            seq!['!'] + body
        }
    }
}

/// The qualifier for a source.
pub open spec fn source_text(source: LogSourceId) -> Seq<char> {
    match source {
        LogSourceId::Primary => "tlog"@,
        LogSourceId::Secondary => "bin"@,
    }
}

/// The source that a qualifier names, in any case.
pub open spec fn source_named(s: Seq<char>) -> Option<LogSourceId> {
    if text::lower(s) == "tlog"@ {
        Some(LogSourceId::Primary)
    } else if text::lower(s) == "bin"@ {
        Some(LogSourceId::Secondary)
    } else {
        None
    }
}

/// An expression without any part.
pub open spec fn blank(enabled: bool) -> FilterView {
    FilterView { sysid: None, compid: None, name: None, exact: false, source: None, enabled }
}

/// Whether a token is read as ids; a bare `*` is a type pattern.
pub open spec fn is_id_token(token: Seq<char>) -> bool {
    token != seq!['*'] && ids::is_id_spec(token)
}

/// Whether one of the tokens is read as ids.
pub open spec fn has_ids(tokens: Seq<Seq<char>>) -> bool {
    exists|i: int| 0 <= i < tokens.len() && is_id_token(#[trigger] tokens[i])
}

/// `f` with one more token, or the complaint about that token within `whole`;
/// `seen` tells whether an earlier token was read as ids.
pub open spec fn with_token(
    f: FilterView,
    seen: bool,
    token: Seq<char>,
    whole: Seq<char>,
) -> Result<FilterView, Seq<char>> {
    if token.len() > 0 && token[0] == '@' {
        if f.source is Some {
            Err("more than one source in '"@ + whole + "'"@)
        } else {
            match source_named(token.skip(1)) {
                Some(s) => Ok(FilterView { source: Some(s), ..f }),
                None => Err("unknown source '@"@ + token.skip(1) + "' (use @tlog or @bin)"@),
            }
        }
    } else if is_id_token(token) {
        if seen {
            Err("more than one id spec in '"@ + whole + "'"@)
        } else {
            match ids::id_values(token, whole) {
                Ok((sysid, compid)) => Ok(FilterView { sysid, compid, ..f }),
                Err(e) => Err(e),
            }
        }
    } else if f.name is Some {
        Err("more than one message type in '"@ + whole + "'"@)
    } else if token.len() > 0 && token[0] == '=' {
        Ok(FilterView { name: Some(text::lower(token.skip(1))), exact: true, ..f })
    } else {
        Ok(FilterView { name: Some(text::lower(token)), ..f })
    }
}

/// `f` with the tokens of an expression, or the first complaint.
pub open spec fn with_tokens(f: FilterView, tokens: Seq<Seq<char>>, whole: Seq<char>) -> Result<
    FilterView,
    Seq<char>,
>
    decreases tokens.len(),
{
    if tokens.len() == 0 {
        Ok(f)
    } else {
        match with_tokens(f, tokens.drop_last(), whole) {
            Ok(g) => with_token(g, has_ids(tokens.drop_last()), tokens.last(), whole),
            Err(e) => Err(e),
        }
    }
}

/// What the text between two commas stands for: nothing when it is blank.
pub open spec fn expression(part: Seq<char>) -> Result<Option<FilterView>, Seq<char>> {
    let p = text::trim(part);
    if p.len() == 0 {
        Ok(None)
    } else {
        let enabled = p[0] != '!';
        let body = if enabled {
            p
        } else {
            text::trim_start(p.skip(1))
        };
        if body.len() == 0 {
            Err("empty filter expression after '!'"@)
        } else {
            match with_tokens(blank(enabled), text::words(body), body) {
                Ok(f) => Ok(Some(f)),
                Err(e) => Err(e),
            }
        }
    }
}

/// What a list of expressions stands for, or the first complaint.
pub open spec fn expressions(parts: Seq<Seq<char>>) -> Result<Seq<FilterView>, Seq<char>>
    decreases parts.len(),
{
    if parts.len() == 0 {
        Ok(seq![])
    } else {
        match expressions(parts.drop_last()) {
            Err(e) => Err(e),
            Ok(done) => match expression(parts.last()) {
                Err(e) => Err(e),
                Ok(None) => Ok(done),
                Ok(Some(f)) => Ok(done.push(f)),
            },
        }
    }
}

/// What a comma-separated list of expressions stands for.
pub open spec fn filters_of(input: Seq<char>) -> Result<Seq<FilterView>, Seq<char>> {
    expressions(text::split(input, ','))
}

/// Text token for a source qualifier (`@tlog` / `@bin`); also the label used
/// in merged-session editors. Primary is always the tlog, Secondary the bin.
pub fn source_token(source: LogSourceId) -> (r: &'static str)
    ensures
        r@ == source_text(source),
{
    match source {
        LogSourceId::Primary => "tlog",
        LogSourceId::Secondary => "bin",
    }
}

fn parse_source_token(s: &[char]) -> (r: Option<LogSourceId>)
    ensures
        r == source_named(s@),
{
    let low = text::lowered(s);
    if text::same(&low, &text::chars_of("tlog")) {
        Some(LogSourceId::Primary)
    } else if text::same(&low, &text::chars_of("bin")) {
        Some(LogSourceId::Secondary)
    } else {
        None
    }
}

/// `before`, the quoted text, `after`.
fn quote(before: &str, s: &[char], after: &str) -> (r: String)
    ensures
        r@ == before@ + s@ + after@,
{
    let mut r = before.to_string();
    text::push_chars(&mut r, s);
    r.append(after);
    r
}

impl FilterExpr {
    /// Whether every part that is present matches the entry.
    pub fn matches(&self, entry: &LogEntry) -> (r: bool)
        ensures
            r == self@.accepts(entry@),
    {
        if self.source.is_some() && self.source != Some(entry.source) {
            return false;
        }
        if self.sysid.is_some() && self.sysid != entry.sysid {
            return false;
        }
        if self.compid.is_some() && self.compid != entry.compid {
            return false;
        }
        match &self.name {
            None => true,
            Some(p) => if self.exact {
                text::matches_ignoring_case(entry.name.as_str(), p.as_str())
            } else {
                name_matches(p.as_str(), entry.name.as_str())
            },
        }
    }

    /// What is wrong with an exact expression whose text form could not be read
    /// back.
    pub fn complaint(&self) -> (r: Option<String>)
        ensures
            value::text_of(r) == self@.complaint(),
    {
        match &self.name {
            Some(n) => {
                let chars = text::chars_of(n.as_str());
                if !text::is_word(&chars) || text::holds(&chars, ',') {
                    Some("A filter cannot name this message type".to_string())
                } else {
                    None
                }
            },
            None => None,
        }
    }

    /// Whether the expression is enabled and consists of a type pattern that
    /// starts with '!'.
    fn is_negated(&self) -> (r: bool)
        ensures
            r == self@.starts_negated(),
    {
        if !self.enabled || self.exact || self.source.is_some() || self.sysid.is_some()
            || self.compid.is_some() {
            return false;
        }
        match &self.name {
            Some(n) => {
                let chars = text::chars_of(n.as_str());
                chars.len() > 0 && chars[0] == '!'
            },
            None => false,
        }
    }

    /// Text form accepted by `parse_filters`.
    pub fn to_text(&self) -> (r: String)
        ensures
            r@ == self@.text(),
    {
        let mut parts: Vec<String> = Vec::new();
        if let Some(source) = self.source {
            let mut p = "@".to_string();
            p.append(source_token(source));
            parts.push(p);
            proof {
                reveal_strlit("@");
                assert("@"@ =~= seq!['@']);
            }
        }
        if self.sysid.is_some() || self.compid.is_some() || self.is_negated() {
            let mut p = String::new();
            ids::push_ids(&mut p, self.sysid, self.compid);
            parts.push(p);
            assert(p@ =~= ids::ids_text(self.sysid, self.compid));
        }
        if let Some(name) = &self.name {
            let up = text::uppered(&text::chars_of(name.as_str()));
            let mut p = String::new();
            if self.exact {
                p.push('=');
            }
            text::push_chars(&mut p, &up);
            parts.push(p);
            assert(p@ =~= if self.exact {
                seq!['='] + text::upper(name@)
            } else {
                text::upper(name@)
            });
        }
        assert(text::views(parts@) =~= self@.parts());
        let body = if parts.len() == 0 {
            proof {
                reveal_strlit("*");
                assert("*"@ =~= seq!['*']);
            }
            "*".to_string()
        } else {
            proof {
                reveal_strlit(" ");
                assert(" "@ =~= seq![' ']);
            }
            text::joined(&parts, " ")
        };
        if self.enabled {
            body
        } else {
            let mut r = "!".to_string();
            proof {
                reveal_strlit("!");
                assert("!"@ =~= seq!['!']);
            }
            r.append(body.as_str());
            r
        }
    }
}

/// One more token.
pub proof fn lemma_has_ids(tokens: Seq<Seq<char>>, token: Seq<char>)
    ensures
        has_ids(tokens.push(token)) == (has_ids(tokens) || is_id_token(token)),
{
    let more = tokens.push(token);
    assert(more[tokens.len() as int] == token);
    if has_ids(tokens) {
        let i = choose|i: int| 0 <= i < tokens.len() && is_id_token(#[trigger] tokens[i]);
        assert(more[i] == tokens[i]);
    }
    if has_ids(more) {
        let i = choose|i: int| 0 <= i < more.len() && is_id_token(#[trigger] more[i]);
        if i < tokens.len() {
            assert(tokens[i] == more[i]);
        }
    }
}

/// A complaint about a prefix of the tokens is the complaint about them all.
proof fn lemma_first_complaint(f: FilterView, tokens: Seq<Seq<char>>, whole: Seq<char>, n: int)
    requires
        0 <= n <= tokens.len(),
        with_tokens(f, tokens.take(n), whole) is Err,
    ensures
        with_tokens(f, tokens, whole) == with_tokens(f, tokens.take(n), whole),
    decreases tokens.len(),
{
    if n == tokens.len() {
        assert(tokens.take(n) =~= tokens);
    } else {
        assert(tokens.drop_last().take(n) =~= tokens.take(n));
        lemma_first_complaint(f, tokens.drop_last(), whole, n);
    }
}

/// A complaint about a prefix of the parts is the complaint about them all.
proof fn lemma_first_bad_part(parts: Seq<Seq<char>>, n: int)
    requires
        0 <= n <= parts.len(),
        expressions(parts.take(n)) is Err,
    ensures
        expressions(parts) == expressions(parts.take(n)),
    decreases parts.len(),
{
    if n == parts.len() {
        assert(parts.take(n) =~= parts);
    } else {
        assert(parts.drop_last().take(n) =~= parts.take(n));
        lemma_first_bad_part(parts.drop_last(), n);
    }
}

/// Whether a token is read as ids; a bare `*` is a type pattern.
pub fn reads_as_ids(token: &[char]) -> (r: bool)
    ensures
        r == is_id_token(token@),
{
    let bare_star = token.len() == 1 && token[0] == '*';
    proof {
        if bare_star {
            assert(token@ =~= seq!['*']);
        } else if token@ == seq!['*'] {
            assert(token@[0] == '*');
        }
    }
    !bare_star && ids::looks_like_ids(token)
}

/// Add one token to an expression; `seen` tells whether an earlier one was read
/// as ids.
fn add_token(expr: FilterExpr, seen: bool, token: &[char], whole: &[char]) -> (r: Result<
    FilterExpr,
    String,
>)
    ensures
        match with_token(expr@, seen, token@, whole@) {
            Ok(f) => r matches Ok(g) && g@ == f,
            Err(e) => r matches Err(m) && m@ == e,
        },
{
    let mut expr = expr;
    if token.len() > 0 && token[0] == '@' {
        if expr.source.is_some() {
            return Err(quote("more than one source in '", whole, "'"));
        }
        let name = slice_subrange(token, 1, token.len());
        assert(name@ =~= token@.skip(1));
        return match parse_source_token(name) {
            Some(s) => {
                expr.source = Some(s);
                Ok(expr)
            },
            None => Err(quote("unknown source '@", name, "' (use @tlog or @bin)")),
        };
    }
    if reads_as_ids(token) {
        if seen {
            return Err(quote("more than one id spec in '", whole, "'"));
        }
        return match ids::parse_ids(token, whole) {
            Ok((sysid, compid)) => {
                expr.sysid = sysid;
                expr.compid = compid;
                Ok(expr)
            },
            Err(e) => Err(e),
        };
    }
    if expr.name.is_some() {
        return Err(quote("more than one message type in '", whole, "'"));
    }
    if token.len() > 0 && token[0] == '=' {
        let rest = slice_subrange(token, 1, token.len());
        assert(rest@ =~= token@.skip(1));
        expr.name = Some(text::string_of(&text::lowered(rest)));
        expr.exact = true;
    } else {
        expr.name = Some(text::string_of(&text::lowered(token)));
    }
    Ok(expr)
}

/// Parse what stands between two commas.
fn parse_expression(part: &[char]) -> (r: Result<Option<FilterExpr>, String>)
    ensures
        match expression(part@) {
            Ok(None) => r == Ok::<Option<FilterExpr>, String>(None),
            Ok(Some(f)) => r matches Ok(Some(g)) && g@ == f,
            Err(e) => r matches Err(m) && m@ == e,
        },
{
    let p = text::trimmed(part);
    if p.len() == 0 {
        return Ok(None);
    }
    let enabled = p[0] != '!';
    let body = if enabled {
        p
    } else {
        let rest = slice_subrange(p, 1, p.len());
        assert(rest@ =~= p@.skip(1));
        text::trimmed_start(rest)
    };
    if body.len() == 0 {
        return Err("empty filter expression after '!'".to_string());
    }
    let mut expr = FilterExpr {
        sysid: None,
        compid: None,
        name: None,
        exact: false,
        source: None,
        enabled,
    };
    let tokens = text::tokens(body);
    let ghost all = text::slices(tokens@);
    let mut seen = false;
    let mut i: usize = 0;
    assert(all.take(0) =~= seq![]);
    while i < tokens.len()
        invariant
            i <= tokens.len(),
            all == text::slices(tokens@),
            seen == has_ids(all.take(i as int)),
            with_tokens(blank(enabled), all.take(i as int), body@) == Ok::<FilterView, Seq<char>>(
                expr@,
            ),
            match with_tokens(blank(enabled), all, body@) {
                Ok(f) => expression(part@) == Ok::<Option<FilterView>, Seq<char>>(Some(f)),
                Err(e) => expression(part@) == Err::<Option<FilterView>, Seq<char>>(e),
            },
        decreases tokens.len() - i,
    {
        proof {
            assert(all.take(i + 1).drop_last() =~= all.take(i as int));
            assert(all.take(i + 1).last() == tokens@[i as int]@);
        }
        match add_token(expr, seen, tokens[i], body) {
            Ok(next) => {
                expr = next;
                seen = seen || reads_as_ids(tokens[i]);
                proof {
                    lemma_has_ids(all.take(i as int), all[i as int]);
                    assert(all.take(i + 1) =~= all.take(i as int).push(all[i as int]));
                }
            },
            Err(e) => {
                proof {
                    lemma_first_complaint(blank(enabled), all, body@, i + 1);
                }
                return Err(e);
            },
        }
        i += 1;
    }
    assert(all.take(i as int) =~= all);
    Ok(Some(expr))
}

/// Parse a comma-separated list of filter expressions. Each expression is an
/// optional `sys[:comp]` id spec and/or a message-type pattern, e.g.
/// "1:1 HEARTBEAT, GPS*, 255". An empty input clears the filter.
pub fn parse_filters(input: &str) -> (r: Result<Vec<FilterExpr>, String>)
    ensures
        match filters_of(input@) {
            Ok(list) => r matches Ok(v) && filter_views(v@) == list,
            Err(e) => r matches Err(m) && m@ == e,
        },
{
    let chars = text::chars_of(input);
    let parts = text::pieces(&chars, ',');
    let ghost all = text::slices(parts@);
    let mut exprs: Vec<FilterExpr> = Vec::new();
    let mut i: usize = 0;
    assert(all.take(0) =~= seq![]);
    assert(filter_views(exprs@) =~= seq![]);
    while i < parts.len()
        invariant
            i <= parts.len(),
            all == text::slices(parts@),
            all == text::split(input@, ','),
            expressions(all.take(i as int)) == Ok::<Seq<FilterView>, Seq<char>>(
                filter_views(exprs@),
            ),
        decreases parts.len() - i,
    {
        proof {
            assert(all.take(i + 1).drop_last() =~= all.take(i as int));
            assert(all.take(i + 1).last() == parts@[i as int]@);
        }
        match parse_expression(parts[i]) {
            Ok(None) => {},
            Ok(Some(f)) => {
                let ghost before = exprs@;
                exprs.push(f);
                assert(filter_views(exprs@) =~= filter_views(before).push(f@));
            },
            Err(e) => {
                proof {
                    lemma_first_bad_part(all, i + 1);
                }
                return Err(e);
            },
        }
        i += 1;
    }
    assert(all.take(i as int) =~= all);
    Ok(exprs)
}

/// Case-insensitive message-type match: substring by default, glob when the
/// pattern contains '*'.
pub fn name_matches(pattern: &str, name: &str) -> (r: bool)
    ensures
        r == type_matches(pattern@, name@),
{
    let p = text::lowered(&text::chars_of(pattern));
    let n = text::lowered(&text::chars_of(name));
    proof {
        text::lemma_index_of(p@, '*');
        text::lemma_lower_keeps_star(pattern@);
    }
    if text::position(&p, '*') == p.len() {
        text::find(&n, &p).is_some()
    } else {
        glob::matches(&p, &n)
    }
}

/// Indices of labels containing the query, case-insensitive.
pub fn match_labels(labels: &[String], query: &str) -> (r: Vec<usize>)
    ensures
        forall|k: int| 0 <= k < r@.len() ==> (#[trigger] r@[k]) < labels@.len(),
        forall|a: int, b: int| 0 <= a < b < r@.len() ==> r@[a] < r@[b],
        forall|i: usize| #[trigger]
            r@.contains(i) <==> i < labels@.len() && text::contains(
                text::lower(labels@[i as int]@),
                text::lower(query@),
            ),
{
    let q = text::lowered(&text::chars_of(query));
    let mut r: Vec<usize> = Vec::new();
    let mut i: usize = 0;
    while i < labels.len()
        invariant
            i <= labels.len(),
            q@ == text::lower(query@),
            forall|k: int| 0 <= k < r@.len() ==> (#[trigger] r@[k]) < i,
            forall|a: int, b: int| 0 <= a < b < r@.len() ==> r@[a] < r@[b],
            forall|j: usize| #[trigger]
                r@.contains(j) <==> j < i && text::contains(text::lower(labels@[j as int]@), q@),
        decreases labels.len() - i,
    {
        let label = text::lowered(&text::chars_of(labels[i].as_str()));
        let ghost before = r@;
        if text::find(&label, &q).is_some() {
            r.push(i);
            assert(r@[r@.len() - 1] == i);
            assert forall|j: usize| #[trigger] r@.contains(j) <==> before.contains(j) || j == i by {
                if before.contains(j) {
                    let k = choose|k: int| 0 <= k < before.len() && before[k] == j;
                    assert(r@[k] == j);
                }
                if r@.contains(j) && j != i {
                    let k = choose|k: int| 0 <= k < r@.len() && r@[k] == j;
                    assert(before[k] == j);
                }
            }
        }
        i += 1;
    }
    r
}

impl FilterView {
    /// Whether the text form can be read back: the type pattern is lowercase,
    /// holds neither whitespace nor commas, and is not taken for another part.
    pub open spec fn readable(self) -> bool {
        match self.name {
            None => true,
            Some(n) => {
                &&& text::lower(n) == n
                &&& text::is_solid(n)
                &&& !n.contains(',')
                &&& !self.exact ==> {
                    &&& n.len() > 0
                    &&& n[0] != '@'
                    &&& n[0] != '='
                    &&& !is_id_token(n)
                }
            },
        }
    }

    /// What is wrong with an exact expression whose text form could not be read
    /// back: its type is not a single word.
    pub open spec fn complaint(self) -> Option<Seq<char>> {
        match self.name {
            Some(n) => if !text::is_solid(n) || n.contains(',') {
                Some("A filter cannot name this message type"@)
            } else {
                None
            },
            None => None,
        }
    }

    /// The same expression as it is read back from its text form: without any
    /// part it is written `*`, and without a type there is nothing to match
    /// exactly.
    pub open spec fn normal(self) -> FilterView {
        if self.name is Some {
            self
        } else if self.names_only() {
            FilterView { name: Some(seq!['*']), exact: false, ..self }
        } else {
            FilterView { exact: false, ..self }
        }
    }
}

/// Whether the text forms of all expressions can be read back.
pub open spec fn all_readable(filters: Seq<FilterView>) -> bool {
    forall|i: int| 0 <= i < filters.len() ==> (#[trigger] filters[i]).readable()
}

/// The parts of a readable expression are words without commas.
proof fn lemma_parts(f: FilterView)
    requires
        f.readable(),
    ensures
        forall|i: int|
            0 <= i < f.parts().len() ==> text::is_solid(#[trigger] f.parts()[i])
                && f.parts()[i].len() > 0 && !f.parts()[i].contains(','),
        f.parts().len() <= 3,
{
    reveal_strlit("tlog");
    reveal_strlit("bin");
    let parts = f.parts();
    assert forall|i: int| 0 <= i < parts.len() implies text::is_solid(#[trigger] parts[i])
        && parts[i].len() > 0 && !parts[i].contains(',') by {
        let n1: int = if f.source is Some {
            1
        } else {
            0
        };
        let n2: int = n1 + if f.shows_ids() {
            1int
        } else {
            0int
        };
        if i < n1 {
            assert(parts[i] == seq!['@'] + source_text(f.source->Some_0));
        } else if i < n2 {
            let t = ids::ids_text(f.sysid, f.compid);
            ids::law_ids_read_back(f.sysid, f.compid, seq![]);
            assert(parts[i] == t);
            assert forall|k: int| 0 <= k < t.len() implies !text::is_white(#[trigger] t[k]) && t[k]
                != ',' by {
                assert(ids::is_id_char(t[k]));
            }
        } else {
            let n = f.name->Some_0;
            let u = text::upper(n);
            let t = if f.exact {
                seq!['='] + u
            } else {
                u
            };
            assert(parts[i] == t);
            assert forall|k: int| 0 <= k < t.len() implies !text::is_white(#[trigger] t[k]) && t[k]
                != ',' by {
                let j = if f.exact {
                    k - 1
                } else {
                    k
                };
                if 0 <= j {
                    text::lemma_case(n[j]);
                    assert(t[k] == text::upper_char(n[j]));
                    assert(!text::is_white(n[j]));
                    if n[j] == ',' {
                        assert(n.contains(','));
                    }
                }
            }
        }
    }
}

/// Every character of words joined by spaces is that of a word or a space, and
/// the ends are those of the outer words.
proof fn lemma_joined(list: Seq<Seq<char>>)
    requires
        list.len() > 0,
        forall|i: int|
            0 <= i < list.len() ==> text::is_solid(#[trigger] list[i]) && list[i].len() > 0
                && !list[i].contains(','),
    ensures
        text::join(list, seq![' ']).len() > 0,
        text::join(list, seq![' '])[0] == list[0][0],
        text::join(list, seq![' ']).last() == list.last().last(),
        !text::join(list, seq![' ']).contains(','),
    decreases list.len(),
{
    let t = text::join(list, seq![' ']);
    if list.len() > 1 {
        let front = list.drop_last();
        lemma_joined(front);
        let j = text::join(front, seq![' ']);
        assert(t =~= j + seq![' '] + list.last());
        if t.contains(',') {
            let k = choose|k: int| 0 <= k < t.len() && t[k] == ',';
            if k < j.len() {
                assert(j[k] == ',');
            } else if k > j.len() {
                assert(list.last()[k - j.len() - 1] == ',');
            }
        }
    }
}

/// One more token.
proof fn lemma_one_more(f: FilterView, tokens: Seq<Seq<char>>, token: Seq<char>, whole: Seq<char>)
    ensures
        with_tokens(f, tokens.push(token), whole) == match with_tokens(f, tokens, whole) {
            Ok(g) => with_token(g, has_ids(tokens), token, whole),
            Err(e) => Err(e),
        },
{
    assert(tokens.push(token).drop_last() =~= tokens);
}

/// The parts of a readable expression, taken as tokens, give the expression.
proof fn lemma_parts_read_back(f: FilterView, whole: Seq<char>)
    requires
        f.readable(),
        f.parts().len() > 0,
    ensures
        with_tokens(blank(f.enabled), f.parts(), whole) == Ok::<FilterView, Seq<char>>(f.normal()),
{
    reveal_strlit("tlog");
    reveal_strlit("bin");
    let f0 = blank(f.enabled);
    let none = Seq::<Seq<char>>::empty();
    let f1 = FilterView { source: f.source, ..f0 };
    let p1 = match f.source {
        Some(s) => none.push(seq!['@'] + source_text(s)),
        None => none,
    };
    assert(with_tokens(f0, p1, whole) == Ok::<FilterView, Seq<char>>(f1)) by {
        if let Some(s) = f.source {
            let token = seq!['@'] + source_text(s);
            lemma_one_more(f0, none, token, whole);
            assert(token.skip(1) =~= source_text(s));
            assert(text::lower(source_text(s)) =~= source_text(s));
            if s is Secondary {
                assert("bin"@.len() != "tlog"@.len());
            }
        }
    }
    let f2 = FilterView { sysid: f.sysid, compid: f.compid, ..f1 };
    let t2 = ids::ids_text(f.sysid, f.compid);
    let p2 = if f.shows_ids() {
        p1.push(t2)
    } else {
        p1
    };
    assert(with_tokens(f0, p2, whole) == Ok::<FilterView, Seq<char>>(f2)) by {
        if f.shows_ids() {
            lemma_one_more(f0, p1, t2, whole);
            assert(!has_ids(p1)) by {
                if let Some(s) = f.source {
                    let token = seq!['@'] + source_text(s);
                    lemma_has_ids(none, token);
                    assert(!ids::is_id_char(token[0]));
                }
            }
            ids::law_ids_read_back(f.sysid, f.compid, whole);
            assert(t2.len() > 1) by {
                numeral::lemma_decimal(match f.sysid {
                    Some(b) => b as nat,
                    None => 0,
                });
            }
            assert(t2 != seq!['*']);
            assert(ids::is_id_char(t2[0]));
        }
    }
    if let Some(n) = f.name {
        let u = text::upper(n);
        text::lemma_case_twice(n);
        let t3 = if f.exact {
            seq!['='] + u
        } else {
            u
        };
        let p3 = p2.push(t3);
        assert(f.parts() =~= p3);
        lemma_one_more(f0, p2, t3, whole);
        if f.exact {
            assert(t3.skip(1) =~= u);
            assert(!is_id_token(t3)) by {
                assert(!ids::is_id_char(t3[0]));
            }
        } else {
            text::lemma_case(n[0]);
            lemma_id_token_case(n);
        }
    } else {
        assert(f.parts() =~= p2);
    }
}

/// Case does not matter for whether a token is read as ids.
proof fn lemma_id_token_case(n: Seq<char>)
    ensures
        is_id_token(text::upper(n)) == is_id_token(n),
        is_id_token(text::lower(n)) == is_id_token(n),
{
    let u = text::upper(n);
    let l = text::lower(n);
    assert forall|i: int| 0 <= i < n.len() implies {
        &&& ids::is_id_char(#[trigger] u[i]) == ids::is_id_char(n[i])
        &&& ids::is_id_char(#[trigger] l[i]) == ids::is_id_char(n[i])
        &&& (u[i] == '*') == (n[i] == '*')
        &&& (l[i] == '*') == (n[i] == '*')
    } by {
        text::lemma_case(n[i]);
    }
    if ids::is_id_spec(u) {
        assert forall|i: int| 0 <= i < n.len() implies ids::is_id_char(#[trigger] n[i]) by {
            assert(ids::is_id_char(u[i]));
        }
    }
    if ids::is_id_spec(l) {
        assert forall|i: int| 0 <= i < n.len() implies ids::is_id_char(#[trigger] n[i]) by {
            assert(ids::is_id_char(l[i]));
        }
    }
    let star = seq!['*'];
    if n == star {
        assert(u[0] == '*' && l[0] == '*');
        assert(u =~= star);
        assert(l =~= star);
    }
    if u == star {
        assert(u.len() == 1 && u[0] == '*');
        assert(n =~= star);
    }
    if l == star {
        assert(l.len() == 1 && l[0] == '*');
        assert(n =~= star);
    }
}

/// The text form of an expression is read back as that expression, whether it
/// stands alone or behind a space.
pub proof fn law_text_reads_back(f: FilterView)
    requires
        f.readable(),
    ensures
        expression(f.text()) == Ok::<Option<FilterView>, Seq<char>>(Some(f.normal())),
        expression(seq![' '] + f.text()) == Ok::<Option<FilterView>, Seq<char>>(Some(f.normal())),
        !f.text().contains(','),
{
    let parts = f.parts();
    lemma_parts(f);
    let tokens = if parts.len() == 0 {
        seq![seq!['*']]
    } else {
        parts
    };
    assert forall|i: int| 0 <= i < tokens.len() implies text::is_solid(#[trigger] tokens[i])
        && tokens[i].len() > 0 && !tokens[i].contains(',') by {
        if parts.len() > 0 {
            assert(text::is_solid(parts[i]));
        }
    }
    let body = text::join(tokens, seq![' ']);
    lemma_joined(tokens);
    text::lemma_words_of_joined(tokens);
    assert(!text::is_white(tokens[0][0])) by {
        assert(text::is_solid(tokens[0]));
    }
    assert(!text::is_white(tokens.last().last())) by {
        assert(text::is_solid(tokens[tokens.len() - 1]));
    }
    text::lemma_trimmed(body);
    let t = f.text();
    if parts.len() == 0 {
        let none = Seq::<Seq<char>>::empty();
        lemma_one_more(blank(f.enabled), none, seq!['*'], body);
        assert(none.push(seq!['*']) =~= tokens);
        assert(text::lower(seq!['*']) =~= seq!['*']);
    } else {
        lemma_parts_read_back(f, body);
    }
    assert(with_tokens(blank(f.enabled), tokens, body) == Ok::<FilterView, Seq<char>>(f.normal()));
    if f.enabled {
        assert(t == body);
        assert(body[0] != '!') by {
            assert(body[0] == tokens[0][0]);
            lemma_first_char(f);
        }
    } else {
        assert(t == seq!['!'] + body);
        text::lemma_trimmed(t);
        assert(t.skip(1) =~= body);
        if t.contains(',') {
            let k = choose|k: int| 0 <= k < t.len() && t[k] == ',';
            assert(body[k - 1] == ',');
        }
    }
}

/// The text of a readable expression starts and ends without whitespace.
pub proof fn lemma_text_edges(f: FilterView)
    requires
        f.readable(),
    ensures
        f.text().len() > 0,
        !text::is_white(f.text()[0]),
        !text::is_white(f.text().last()),
{
    let parts = f.parts();
    lemma_parts(f);
    if parts.len() > 0 {
        lemma_joined(parts);
        assert(text::is_solid(parts[0]));
        assert(text::is_solid(parts[parts.len() - 1]));
    }
}

/// The text of an enabled readable expression does not start with '!'.
proof fn lemma_first_char(f: FilterView)
    requires
        f.readable(),
        f.enabled,
    ensures
        f.parts().len() > 0 ==> f.parts()[0].len() > 0 && f.parts()[0][0] != '!',
{
    if f.parts().len() > 0 {
        lemma_parts(f);
        assert(text::is_solid(f.parts()[0]));
        if f.source is Some {
            assert(f.parts()[0][0] == '@');
        } else if f.shows_ids() {
            let t = ids::ids_text(f.sysid, f.compid);
            ids::law_ids_read_back(f.sysid, f.compid, seq![]);
            assert(f.parts()[0] == t);
            assert(ids::is_id_char(t[0]));
        } else {
            let n = f.name->Some_0;
            if f.exact {
                assert(f.parts()[0][0] == '=');
            } else {
                text::lemma_case(n[0]);
                assert(f.parts()[0][0] == text::upper_char(n[0]));
            }
        }
    }
}

/// Text form of a list of expressions, as the filter line shows it.
pub open spec fn list_text(filters: Seq<FilterView>) -> Seq<char> {
    text::join(filters.map_values(|f: FilterView| f.text()), ", "@)
}

/// The text form of a list of expressions is read back as that list.
pub proof fn law_list_reads_back(filters: Seq<FilterView>)
    requires
        all_readable(filters),
    ensures
        filters_of(list_text(filters)) == Ok::<Seq<FilterView>, Seq<char>>(
            filters.map_values(|f: FilterView| f.normal()),
        ),
    decreases filters.len(),
{
    let texts = filters.map_values(|f: FilterView| f.text());
    let normals = filters.map_values(|f: FilterView| f.normal());
    let whole = list_text(filters);
    reveal_strlit(", ");
    if filters.len() == 0 {
        text::lemma_split_none(whole, ',');
        assert(text::split(whole, ',').drop_last() =~= seq![]);
        assert(expressions(text::split(whole, ',').drop_last()) == Ok::<
            Seq<FilterView>,
            Seq<char>,
        >(seq![]));
        assert(normals =~= seq![]);
    } else {
        let f = filters.last();
        law_text_reads_back(f);
        let front = filters.drop_last();
        assert(normals =~= front.map_values(|f: FilterView| f.normal()).push(f.normal()));
        if filters.len() == 1 {
            assert(whole == f.text());
            text::lemma_split_none(whole, ',');
            assert(text::split(whole, ',').drop_last() =~= seq![]);
            assert(front.map_values(|f: FilterView| f.normal()) =~= seq![]);
            assert(expressions(text::split(whole, ',').drop_last()) == Ok::<
                Seq<FilterView>,
                Seq<char>,
            >(seq![]));
        } else {
            law_list_reads_back(front);
            assert(texts.drop_last() =~= front.map_values(|f: FilterView| f.text()));
            let piece = seq![' '] + f.text();
            let before = list_text(front);
            assert(whole =~= before + seq![','] + piece);
            if piece.contains(',') {
                let k = choose|k: int| 0 <= k < piece.len() && piece[k] == ',';
                assert(f.text()[k - 1] == ',');
            }
            text::lemma_split_append(before, ',', piece);
            assert(text::split(whole, ',').drop_last() =~= text::split(before, ','));
            assert(text::split(whole, ',').last() == piece);
        }
    }
}

/// Reading an expression back from its text form does not change what it
/// accepts, nor its text form.
pub proof fn law_normal_form_is_equivalent(f: FilterView, entry: EntryView)
    ensures
        f.normal().accepts(entry) == f.accepts(entry),
        f.normal().text() == f.text(),
        f.normal().normal() == f.normal(),
{
    if f.name is None {
        if f.names_only() {
            let star = seq!['*'];
            assert(star.contains('*')) by {
                assert(star[0] == '*');
            }
            glob::law_star_is_any_run(seq![], text::lower(entry.name));
            assert(star + Seq::<char>::empty() =~= star);
            let n = text::lower(entry.name);
            assert(glob::glob(seq![], n.skip(n.len() as int)));
            assert(text::upper(star) =~= star);
            assert(text::lower(star) =~= star);
            assert(f.normal().parts() =~= seq![star]);
            assert(f.parts() =~= seq![]);
        } else {
            assert(f.normal().parts() =~= f.parts());
        }
    }
}

/// What the tokens of an expression contribute can be read back.
proof fn lemma_tokens_readable(enabled: bool, tokens: Seq<Seq<char>>, whole: Seq<char>)
    requires
        forall|i: int|
            0 <= i < tokens.len() ==> text::is_solid(#[trigger] tokens[i]) && tokens[i].len() > 0
                && !tokens[i].contains(','),
    ensures
        with_tokens(blank(enabled), tokens, whole) matches Ok(f) ==> {
            &&& f.enabled == enabled
            &&& FilterView { source: Some(LogSourceId::Primary), ..f }.readable()
        },
    decreases tokens.len(),
{
    if tokens.len() > 0 {
        let token = tokens.last();
        assert(token == tokens[tokens.len() - 1]);
        assert forall|i: int| 0 <= i < tokens.drop_last().len() implies text::is_solid(
            #[trigger] tokens.drop_last()[i],
        ) && tokens.drop_last()[i].len() > 0 && !tokens.drop_last()[i].contains(',') by {
            assert(tokens.drop_last()[i] == tokens[i]);
        }
        lemma_tokens_readable(enabled, tokens.drop_last(), whole);
        let rest = if token[0] == '=' {
            token.skip(1)
        } else {
            token
        };
        let n = text::lower(rest);
        text::lemma_case_twice(rest);
        assert forall|i: int| 0 <= i < n.len() implies !text::is_white(#[trigger] n[i]) && n[i]
            != ',' by {
            text::lemma_case(rest[i]);
            let j = if token[0] == '=' {
                i + 1
            } else {
                i
            };
            assert(rest[i] == token[j]);
            assert(!text::is_white(token[j]));
            if rest[i] == ',' {
                assert(token.contains(','));
            }
        }
        lemma_id_token_case(rest);
        text::lemma_case(rest[0]);
    }
}

/// Every expression that is read from text can be written and read back.
pub proof fn law_parsed_is_readable(part: Seq<char>)
    requires
        !part.contains(','),
    ensures
        expression(part) matches Ok(Some(f)) ==> f.readable(),
{
    let p = text::trim(part);
    text::lemma_trim_edges(part);
    if p.len() > 0 {
        let enabled = p[0] != '!';
        let cut = p.skip(1);
        let body = if enabled {
            p
        } else {
            text::trim_start(cut)
        };
        text::lemma_trim_start(cut);
        let tokens = text::words(body);
        assert forall|i: int| 0 <= i < tokens.len() implies text::is_solid(#[trigger] tokens[i])
            && tokens[i].len() > 0 && !tokens[i].contains(',') by {
            text::lemma_words(body, i);
            if tokens[i].contains(',') {
                let k = choose|k: int| 0 <= k < tokens[i].len() && tokens[i][k] == ',';
                assert(body.contains(tokens[i][k]));
                let j = choose|j: int| 0 <= j < body.len() && body[j] == ',';
                if enabled {
                    assert(part.contains(p[j]));
                } else {
                    assert(cut.contains(body[j]));
                    let l = choose|l: int| 0 <= l < cut.len() && cut[l] == ',';
                    assert(part.contains(p[l + 1]));
                }
            }
        }
        lemma_tokens_readable(enabled, tokens, body);
    }
}

/// Every expression of a list comes from one of its parts.
proof fn lemma_from_parts(parts: Seq<Seq<char>>)
    requires
        forall|i: int| 0 <= i < parts.len() ==> !(#[trigger] parts[i]).contains(','),
    ensures
        expressions(parts) matches Ok(list) ==> all_readable(list),
    decreases parts.len(),
{
    if parts.len() > 0 {
        assert forall|i: int| 0 <= i < parts.drop_last().len() implies !(
        #[trigger] parts.drop_last()[i]).contains(',') by {
            assert(parts.drop_last()[i] == parts[i]);
        }
        lemma_from_parts(parts.drop_last());
        assert(parts.last() == parts[parts.len() - 1]);
        law_parsed_is_readable(parts.last());
    }
}

/// Every expression of a filter line can be written and read back.
pub proof fn law_line_is_readable(input: Seq<char>)
    ensures
        filters_of(input) matches Ok(list) ==> all_readable(list),
{
    let parts = text::split(input, ',');
    assert forall|i: int| 0 <= i < parts.len() implies !(#[trigger] parts[i]).contains(',') by {
        text::lemma_pieces(input, ',', i);
    }
    lemma_from_parts(parts);
}

/// Lists of parts whose first parts stand for the same do so themselves.
proof fn lemma_same_lead(a: Seq<char>, b: Seq<char>, rest: Seq<Seq<char>>)
    requires
        expression(a) == expression(b),
    ensures
        expressions(seq![a] + rest) == expressions(seq![b] + rest),
    decreases rest.len(),
{
    let (x, y) = (seq![a] + rest, seq![b] + rest);
    if rest.len() == 0 {
        assert(x.drop_last() =~= y.drop_last());
        assert(x.last() == a && y.last() == b);
    } else {
        lemma_same_lead(a, b, rest.drop_last());
        assert(x.drop_last() =~= seq![a] + rest.drop_last());
        assert(y.drop_last() =~= seq![b] + rest.drop_last());
        assert(x.last() == y.last());
    }
}

/// Whitespace in front of a filter line does not matter.
proof fn lemma_leading_space(line: Seq<char>)
    ensures
        filters_of(text::trim_start(line)) == filters_of(line),
    decreases line.len(),
{
    if line.len() > 0 && text::is_white(line[0]) {
        let rest = line.drop_first();
        lemma_leading_space(rest);
        text::lemma_split_lead(line, ',');
        let parts = text::split(rest, ',');
        let first = seq![line[0]] + parts[0];
        assert(first.drop_first() =~= parts[0]);
        assert(expression(first) == expression(parts[0]));
        lemma_same_lead(first, parts[0], parts.drop_first());
        assert(seq![parts[0]] + parts.drop_first() =~= parts);
    }
}

/// Whitespace behind a filter line does not matter.
proof fn lemma_trailing_space(line: Seq<char>)
    ensures
        filters_of(text::trim_end(line)) == filters_of(line),
    decreases line.len(),
{
    if line.len() > 0 && text::is_white(line.last()) {
        let rest = line.drop_last();
        lemma_trailing_space(rest);
        text::lemma_split_tail(line, ',');
        let (x, y) = (text::split(line, ',').last(), text::split(rest, ',').last());
        text::lemma_trim_tail(x);
        assert(x.drop_last() =~= y);
        assert(expression(x) == expression(y));
    }
}

/// Whitespace at the ends of a filter line does not matter.
pub proof fn law_trimmed_line_reads_the_same(line: Seq<char>)
    ensures
        filters_of(text::trim(line)) == filters_of(line),
{
    lemma_leading_space(line);
    lemma_trailing_space(text::trim_start(line));
}

/// Writing what was read from a filter line and reading it again gives the
/// same expressions.
pub proof fn law_line_is_stable(input: Seq<char>)
    ensures
        filters_of(input) matches Ok(list) ==> filters_of(list_text(list)) == Ok::<
            Seq<FilterView>,
            Seq<char>,
        >(list.map_values(|f: FilterView| f.normal())),
{
    law_line_is_readable(input);
    if let Ok(list) = filters_of(input) {
        law_list_reads_back(list);
    }
}

/// Every part of an expression that is present must match: an expression for a
/// system, a component or a log accepts no message of another one or of none, and one
/// for a type no message whose type does not match. An expression whose parts all
/// match the message accepts it.
pub proof fn law_present_parts_must_match(f: FilterView, e: EntryView, id: u8, log: LogSourceId)
    ensures
        f.sysid == Some(id) && e.sysid != Some(id) ==> !f.accepts(e),
        f.compid == Some(id) && e.compid != Some(id) ==> !f.accepts(e),
        f.source == Some(log) && e.source != log ==> !f.accepts(e),
        f.name matches Some(p) ==> {
            &&& f.exact && text::lower(p) != text::lower(e.name) ==> !f.accepts(e)
            &&& !f.exact && !type_matches(p, e.name) ==> !f.accepts(e)
        },
        (f.sysid is None || f.sysid == e.sysid) && (f.compid is None || f.compid == e.compid) && (
        f.source is None || f.source == Some(e.source)) && (f.name is None || (f.exact
            && text::lower(f.name->Some_0) == text::lower(e.name)) || (!f.exact && type_matches(
            f.name->Some_0,
            e.name,
        ))) ==> f.accepts(e),
{
}

/// A type pattern without wildcards matches a type that holds it, in any case, at any
/// place, and no other.
pub proof fn law_plain_pattern(pattern: Seq<char>, front: Seq<char>, part: Seq<char>, back: Seq<char>)
    requires
        !pattern.contains('*'),
    ensures
        text::lower(part) == text::lower(pattern) ==> type_matches(pattern, front + part + back),
        type_matches(pattern, part) ==> exists|i: int|
            #![trigger part.skip(i)]
            0 <= i <= part.len() - pattern.len() && text::lower(
                part.skip(i).take(pattern.len() as int),
            ) == text::lower(pattern),
{
    let p = text::lower(pattern);
    let whole = front + part + back;
    if text::lower(part) == p {
        assert(p.len() == pattern.len() && text::lower(part).len() == part.len());
        let i = front.len() as int;
        let here = text::lower(whole).subrange(i, i + p.len());
        assert(here =~= text::lower(part));
        assert(text::occurs_at(text::lower(whole), p, i));
    }
    if type_matches(pattern, part) {
        let i = choose|i: int| text::occurs_at(text::lower(part), p, i);
        assert(text::occurs_at(text::lower(part), p, i));
        let here = part.skip(i).take(pattern.len() as int);
        assert(text::lower(here) =~= text::lower(part).subrange(i, i + p.len()));
    }
}

/// A type pattern with wildcards has to match the whole type, in any case: what stands
/// before its first '*' starts the type, and the rest matches behind some run of
/// characters.
pub proof fn law_wildcard_pattern(front: Seq<char>, rest: Seq<char>, name: Seq<char>)
    requires
        !front.contains('*'),
    ensures
        type_matches(front + seq!['*'] + rest, name) <==> front.len() <= name.len() && text::lower(
            name.take(front.len() as int),
        ) == text::lower(front) && exists|k: int|
            front.len() <= k <= name.len() && #[trigger] glob::glob(
                text::lower(rest),
                text::lower(name).skip(k),
            ),
{
    let pattern = front + seq!['*'] + rest;
    assert(pattern[front.len() as int] == '*');
    assert(pattern.contains('*'));
    let (a, b, n) = (text::lower(front), text::lower(rest), text::lower(name));
    assert(text::lower(pattern) =~= a + seq!['*'] + b);
    text::lemma_lower_keeps_star(front);
    lemma_front(a, b, n);
    let m = front.len() as int;
    if m <= n.len() {
        assert(text::lower(name.take(m)) =~= n.take(m));
        glob::law_star_is_any_run(b, n.skip(m));
        if exists|k: int| 0 <= k <= n.skip(m).len() && #[trigger] glob::glob(b, n.skip(m).skip(k)) {
            let k = choose|k: int|
                0 <= k <= n.skip(m).len() && #[trigger] glob::glob(b, n.skip(m).skip(k));
            assert(n.skip(m).skip(k) =~= n.skip(m + k));
            assert(glob::glob(b, n.skip(m + k)));
        }
        if exists|k: int| m <= k <= name.len() && #[trigger] glob::glob(b, n.skip(k)) {
            let k = choose|k: int| m <= k <= name.len() && #[trigger] glob::glob(b, n.skip(k));
            assert(n.skip(m).skip(k - m) =~= n.skip(k));
            assert(glob::glob(b, n.skip(m).skip(k - m)));
        }
    }
}

/// What stands before the first wildcard of a pattern.
proof fn lemma_front(front: Seq<char>, rest: Seq<char>, name: Seq<char>)
    requires
        !front.contains('*'),
    ensures
        glob::glob(front + seq!['*'] + rest, name) <==> front.len() <= name.len() && name.take(
            front.len() as int,
        ) == front && glob::glob(seq!['*'] + rest, name.skip(front.len() as int)),
    decreases front.len(),
{
    let pattern = front + seq!['*'] + rest;
    if front.len() == 0 {
        assert(pattern =~= seq!['*'] + rest);
        assert(name.skip(0) =~= name);
        assert(name.take(0) =~= front);
    } else {
        let tail = front.drop_first();
        assert(front.contains(front[0]));
        assert(!tail.contains('*')) by {
            if tail.contains('*') {
                let k = choose|k: int| 0 <= k < tail.len() && tail[k] == '*';
                assert(front[k + 1] == '*');
            }
        }
        assert(pattern.drop_first() =~= tail + seq!['*'] + rest);
        assert(pattern[0] == front[0]);
        if name.len() > 0 {
            let short = name.drop_first();
            lemma_front(tail, rest, short);
            if front.len() <= name.len() {
                assert(short.skip(tail.len() as int) =~= name.skip(front.len() as int));
                if short.take(tail.len() as int) == tail && name[0] == front[0] {
                    assert forall|k: int| 0 <= k < front.len() implies name[k] == front[k] by {
                        if k > 0 {
                            assert(short.take(tail.len() as int)[k - 1] == tail[k - 1]);
                        }
                    }
                    assert(name.take(front.len() as int) =~= front);
                }
                if name.take(front.len() as int) == front {
                    assert(name.take(front.len() as int)[0] == front[0]);
                    assert forall|k: int| 0 <= k < tail.len() implies short[k] == tail[k] by {
                        assert(name.take(front.len() as int)[k + 1] == front[k + 1]);
                    }
                    assert(short.take(tail.len() as int) =~= tail);
                }
            }
        }
    }
}

/// The qualifiers for the two logs, in any case.
pub proof fn law_source_qualifiers(s: Seq<char>)
    ensures
        source_text(LogSourceId::Primary) == seq!['t', 'l', 'o', 'g'],
        source_text(LogSourceId::Secondary) == seq!['b', 'i', 'n'],
        text::lower(s) == seq!['t', 'l', 'o', 'g'] ==> source_named(s) == Some(
            LogSourceId::Primary,
        ),
        text::lower(s) == seq!['b', 'i', 'n'] ==> source_named(s) == Some(LogSourceId::Secondary),
        text::lower(s) != seq!['t', 'l', 'o', 'g'] && text::lower(s) != seq!['b', 'i', 'n']
            ==> source_named(s) is None,
{
    reveal_strlit("tlog");
    reveal_strlit("bin");
    assert("tlog"@ =~= seq!['t', 'l', 'o', 'g']);
    assert("bin"@ =~= seq!['b', 'i', 'n']);
    assert("tlog"@.len() == 4 && "bin"@.len() == 3);
}

/// What a token adds to an expression. Behind an '@' it names a log; made of digits,
/// colons and stars, and no single star, it gives ids; else it is a type pattern, in
/// lowercase, exact behind a '='. Each of these may come once.
pub proof fn law_token(f: FilterView, seen: bool, token: Seq<char>, whole: Seq<char>)
    requires
        token.len() > 0,
    ensures
        ({
            let r = with_token(f, seen, token, whole);
            let rest = token.skip(1);
            let ids = token != seq!['*'] && forall|i: int|
                0 <= i < token.len() ==> ('0' <= #[trigger] token[i] && token[i] <= '9')
                    || token[i] == ':' || token[i] == '*';
            &&& token[0] == '@' && f.source is None && text::lower(rest) == seq![
                't',
                'l',
                'o',
                'g',
            ] ==> r == Ok::<FilterView, Seq<char>>(
                FilterView { source: Some(LogSourceId::Primary), ..f },
            )
            &&& token[0] == '@' && f.source is None && text::lower(rest) == seq!['b', 'i', 'n']
                ==> r == Ok::<FilterView, Seq<char>>(
                FilterView { source: Some(LogSourceId::Secondary), ..f },
            )
            &&& token[0] == '@' && (f.source is Some || (text::lower(rest) != seq![
                't',
                'l',
                'o',
                'g',
            ] && text::lower(rest) != seq!['b', 'i', 'n'])) ==> r is Err
            &&& ids && seen ==> r is Err
            &&& ids && !seen ==> match ids::id_values(token, whole) {
                Ok((sysid, compid)) => r == Ok::<FilterView, Seq<char>>(
                    FilterView { sysid, compid, ..f },
                ),
                Err(e) => r == Err::<FilterView, Seq<char>>(e),
            }
            &&& token[0] != '@' && !ids && f.name is Some ==> r is Err
            &&& token[0] == '=' && f.name is None ==> r == Ok::<FilterView, Seq<char>>(
                FilterView { name: Some(text::lower(rest)), exact: true, ..f },
            )
            &&& token[0] != '@' && token[0] != '=' && !ids && f.name is None ==> r == Ok::<
                FilterView,
                Seq<char>,
            >(FilterView { name: Some(text::lower(token)), ..f })
        }),
{
    law_source_qualifiers(token.skip(1));
    let ids = token != seq!['*'] && forall|i: int|
        0 <= i < token.len() ==> ('0' <= #[trigger] token[i] && token[i] <= '9') || token[i] == ':'
            || token[i] == '*';
    if ids {
        assert(ids::is_id_spec(token)) by {
            assert forall|i: int| 0 <= i < token.len() implies ids::is_id_char(
                #[trigger] token[i],
            ) by {}
        }
        assert(token[0] != '@' && token[0] != '=');
    }
    if is_id_token(token) {
        assert forall|i: int| 0 <= i < token.len() implies ('0' <= #[trigger] token[i] && token[i]
            <= '9') || token[i] == ':' || token[i] == '*' by {
            assert(ids::is_id_char(token[i]));
        }
        assert(ids);
        assert(ids::is_id_char(token[0]));
    }
}

/// The tokens of an expression are taken in order, and the first that is refused is
/// the complaint.
pub proof fn law_tokens_in_order(
    f: FilterView,
    tokens: Seq<Seq<char>>,
    next: Seq<char>,
    whole: Seq<char>,
)
    ensures
        with_tokens(f, seq![], whole) == Ok::<FilterView, Seq<char>>(f),
        with_tokens(f, tokens, whole) matches Err(e) ==> with_tokens(f, tokens.push(next), whole)
            == Err::<FilterView, Seq<char>>(e),
        with_tokens(f, tokens, whole) matches Ok(g) ==> with_tokens(f, tokens.push(next), whole)
            == with_token(
            g,
            exists|i: int|
                0 <= i < tokens.len() && #[trigger] tokens[i] != seq!['*'] && ids::is_id_spec(
                    tokens[i],
                ),
            next,
            whole,
        ),
{
    assert(tokens.push(next).drop_last() =~= tokens);
    if has_ids(tokens) {
        let i = choose|i: int| 0 <= i < tokens.len() && is_id_token(#[trigger] tokens[i]);
        assert(tokens[i] != seq!['*'] && ids::is_id_spec(tokens[i]));
    }
    if exists|i: int|
        0 <= i < tokens.len() && #[trigger] tokens[i] != seq!['*'] && ids::is_id_spec(tokens[i]) {
        let i = choose|i: int|
            0 <= i < tokens.len() && #[trigger] tokens[i] != seq!['*'] && ids::is_id_spec(
                tokens[i],
            );
        assert(is_id_token(tokens[i]));
    }
}

/// What stands between two commas: blank it is nothing; else its words are the tokens
/// of an enabled expression, or of a disabled one behind a '!'. A '!' alone is refused.
pub proof fn law_expression(front: Seq<char>, body: Seq<char>, back: Seq<char>, gap: Seq<char>)
    requires
        forall|k: int| 0 <= k < front.len() ==> text::is_white(#[trigger] front[k]),
        forall|k: int| 0 <= k < back.len() ==> text::is_white(#[trigger] back[k]),
        forall|k: int| 0 <= k < gap.len() ==> text::is_white(#[trigger] gap[k]),
        body.len() > 0 ==> !text::is_white(body[0]) && !text::is_white(body.last()),
    ensures
        body.len() == 0 ==> expression(front + body + back) == Ok::<
            Option<FilterView>,
            Seq<char>,
        >(None),
        body.len() > 0 && body[0] != '!' ==> expression(front + body + back) == match with_tokens(
            FilterView {
                sysid: None,
                compid: None,
                name: None,
                exact: false,
                source: None,
                enabled: true,
            },
            text::words(body),
            body,
        ) {
            Ok(f) => Ok::<Option<FilterView>, Seq<char>>(Some(f)),
            Err(e) => Err(e),
        },
        body.len() > 0 ==> expression(front + (seq!['!'] + gap + body) + back)
            == match with_tokens(
            FilterView {
                sysid: None,
                compid: None,
                name: None,
                exact: false,
                source: None,
                enabled: false,
            },
            text::words(body),
            body,
        ) {
            Ok(f) => Ok::<Option<FilterView>, Seq<char>>(Some(f)),
            Err(e) => Err(e),
        },
        expression(front + seq!['!'] + back) is Err,
{
    text::law_trim(front, body, back);
    let bang = seq!['!'];
    text::law_white('!');
    text::law_trim(front, bang, back);
    assert(bang.skip(1) =~= seq![]);
    assert(expression(front + bang + back) is Err);
    if body.len() > 0 {
        let negated = seq!['!'] + gap + body;
        assert(negated.last() == body.last());
        assert(negated[0] == '!');
        text::law_trim(front, negated, back);
        assert(negated.skip(1) =~= gap + body);
        lemma_gap(gap, body);
    }
}

/// Whitespace in front of a text that starts without any is what is trimmed.
proof fn lemma_gap(gap: Seq<char>, body: Seq<char>)
    requires
        forall|k: int| 0 <= k < gap.len() ==> text::is_white(#[trigger] gap[k]),
        body.len() > 0,
        !text::is_white(body[0]),
    ensures
        text::trim_start(gap + body) == body,
    decreases gap.len(),
{
    let whole = gap + body;
    if gap.len() > 0 {
        assert(whole[0] == gap[0]);
        assert(whole.drop_first() =~= gap.drop_first() + body);
        lemma_gap(gap.drop_first(), body);
    } else {
        assert(whole =~= body);
    }
}

/// A list of expressions with commas between them stands for the expressions in
/// order, without the blank ones; one that is refused is the complaint about the
/// whole list.
pub proof fn law_list_in_order(parts: Seq<Seq<char>>, next: Seq<char>)
    requires
        forall|i: int| 0 <= i < parts.len() ==> !(#[trigger] parts[i]).contains(','),
        !next.contains(','),
        parts.len() > 0,
    ensures
        ({
            let before = filters_of(text::join(parts, seq![',']));
            let after = filters_of(text::join(parts.push(next), seq![',']));
            &&& before matches Err(e) ==> after == Err::<Seq<FilterView>, Seq<char>>(e)
            &&& before matches Ok(list) ==> match expression(next) {
                Err(e) => after == Err::<Seq<FilterView>, Seq<char>>(e),
                Ok(None) => after == Ok::<Seq<FilterView>, Seq<char>>(list),
                Ok(Some(f)) => after == Ok::<Seq<FilterView>, Seq<char>>(list.push(f)),
            }
        }),
        filters_of(next) == match expression(next) {
            Err(e) => Err(e),
            Ok(None) => Ok::<Seq<FilterView>, Seq<char>>(seq![]),
            Ok(Some(f)) => Ok(seq![f]),
        },
{
    let longer = parts.push(next);
    text::law_split_of_joined(parts, ',');
    text::law_split_of_joined(longer, ',');
    assert(longer.drop_last() =~= parts);
    text::lemma_split_none(next, ',');
    let one = seq![next];
    assert(one.drop_last() =~= seq![]);
    assert(expressions(one.drop_last()) == Ok::<Seq<FilterView>, Seq<char>>(seq![]));
    if let Ok(Some(f)) = expression(next) {
        assert(Seq::<FilterView>::empty().push(f) =~= seq![f]);
    }
}

/// The text of an expression, part by part: the log behind an '@', the ids, the type
/// in uppercase and behind a '=' when exact, all of it behind a '!' when disabled.
pub proof fn law_expression_text(f: FilterView, off: FilterView)
    requires
        off == (FilterView { enabled: false, ..f }),
    ensures
        off.text().len() > 0 && off.text()[0] == '!',
        f.enabled && !(f.names_only() && !f.exact) ==> off.text() == seq!['!'] + f.text(),
        f.enabled && f.names_only() && f.name is None ==> f.text() == seq!['*'],
        f.enabled && f.names_only() && f.exact ==> (f.name matches Some(n) ==> f.text() == seq!['=']
            + text::upper(n)),
        f.enabled && f.names_only() && !f.exact ==> (f.name matches Some(n) ==> n.len() > 0 && n[0]
            != '!' ==> f.text() == text::upper(n)),
        f.enabled && f.source is None && f.name is None && (f.sysid is Some || f.compid is Some)
            ==> f.text() == ids::id_part(f.sysid) + seq![':'] + ids::id_part(f.compid),
        f.enabled && f.sysid is None && f.compid is None && f.name is None ==> {
            &&& f.source == Some(LogSourceId::Primary) ==> f.text() == seq!['@', 't', 'l', 'o', 'g']
            &&& f.source == Some(LogSourceId::Secondary) ==> f.text() == seq!['@', 'b', 'i', 'n']
        },
{
    law_source_qualifiers(seq![]);
    if f.enabled && !(f.names_only() && !f.exact) {
        assert(off.parts() =~= f.parts());
    }
    if f.names_only() && f.name is None {
        assert(f.parts() =~= seq![]);
    }
    if let Some(n) = f.name {
        if f.names_only() && f.exact {
            assert(f.parts() =~= seq![seq!['='] + text::upper(n)]);
        }
        if f.names_only() && !f.exact && f.enabled && n.len() > 0 && n[0] != '!' {
            assert(f.parts() =~= seq![text::upper(n)]);
        }
    }
    if f.source is None && f.name is None && (f.sysid is Some || f.compid is Some) {
        assert(f.parts() =~= seq![ids::ids_text(f.sysid, f.compid)]);
    }
    if f.enabled && f.sysid is None && f.compid is None && f.name is None {
        if f.source == Some(LogSourceId::Primary) {
            assert(f.parts() =~= seq![seq!['@'] + source_text(LogSourceId::Primary)]);
            assert(seq!['@'] + source_text(LogSourceId::Primary) =~= seq!['@', 't', 'l', 'o', 'g']);
        }
        if f.source == Some(LogSourceId::Secondary) {
            assert(f.parts() =~= seq![seq!['@'] + source_text(LogSourceId::Secondary)]);
            assert(seq!['@'] + source_text(LogSourceId::Secondary) =~= seq!['@', 'b', 'i', 'n']);
        }
    }
}

/// An exact filter is refused where the type it names holds whitespace or a ','.
pub proof fn law_refused_filters(f: FilterView)
    ensures
        f.name is None ==> f.complaint() is None,
        f.name matches Some(n) ==> (f.complaint() is None <==> !n.contains(',') && forall|k: int|
            0 <= k < n.len() ==> !text::is_white(#[trigger] n[k])),
{
    if let Some(n) = f.name {
        if f.complaint() is None {
            assert forall|k: int| 0 <= k < n.len() implies !text::is_white(#[trigger] n[k]) by {}
        }
    }
}

} // verus!
