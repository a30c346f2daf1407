//! The `sys:comp` id notation shared by filters and columns. Either side may
//! be `*` or empty to leave that id open.

use vstd::prelude::*;
use vstd::slice::slice_subrange;
use crate::{numeral, text};

verus! {

/// Whether a token is made of the characters of the id notation only.
pub open spec fn is_id_spec(token: Seq<char>) -> bool {
    forall|i: int| 0 <= i < token.len() ==> is_id_char(#[trigger] token[i])
}

/// Whether a character belongs to the id notation.
pub open spec fn is_id_char(c: char) -> bool {
    text::is_digit(c) || c == ':' || c == '*'
}

/// One side of the notation: open when it is empty or `*`, else a byte.
pub open spec fn id_value(s: Seq<char>) -> Result<Option<u8>, ()> {
    if s.len() == 0 || s == seq!['*'] {
        Ok(None)
    } else {
        match numeral::byte_value(s) {
            Some(b) => Ok(Some(b)),
            None => Err(()),
        }
    }
}

/// The part of a token before its first colon.
pub open spec fn sys_side(token: Seq<char>) -> Seq<char> {
    token.take(text::index_of(token, ':'))
}

/// The part of a token after its first colon, empty when there is none.
pub open spec fn comp_side(token: Seq<char>) -> Seq<char> {
    let i = text::index_of(token, ':');
    if i < token.len() {
        token.skip(i + 1)
    } else {
        seq![]
    }
}

/// The complaint about one side of an id notation.
pub open spec fn bad_id(s: Seq<char>, whole: Seq<char>) -> Seq<char> {
    "bad id '"@ + s + "' in '"@ + whole + "'"@
}

/// The ids that a token of the id notation stands for, or the complaint about
/// its first bad side within `whole`.
pub open spec fn id_values(token: Seq<char>, whole: Seq<char>) -> Result<
    (Option<u8>, Option<u8>),
    Seq<char>,
> {
    match (id_value(sys_side(token)), id_value(comp_side(token))) {
        (Err(_), _) => Err(bad_id(sys_side(token), whole)),
        (_, Err(_)) => Err(bad_id(comp_side(token), whole)),
        (Ok(sys), Ok(comp)) => Ok((sys, comp)),
    }
}

/// One id as text, `*` when it is open.
pub open spec fn id_part(id: Option<u8>) -> Seq<char> {
    match id {
        Some(b) => numeral::decimal(b as nat),
        None => seq!['*'],
    }
}

/// The notation for a pair of ids.
pub open spec fn ids_text(sysid: Option<u8>, compid: Option<u8>) -> Seq<char> {
    id_part(sysid) + seq![':'] + id_part(compid)
}

/// Whether a token is made of the characters of the id notation only.
pub fn looks_like_ids(token: &[char]) -> (r: bool)
    ensures
        r == is_id_spec(token@),
{
    let mut i: usize = 0;
    while i < token.len()
        invariant
            i <= token.len(),
            forall|k: int| 0 <= k < i ==> is_id_char(#[trigger] token@[k]),
        decreases token.len() - i,
    {
        let c = token[i];
        if !(('0' <= c && c <= '9') || c == ':' || c == '*') {
            assert(!is_id_char(token@[i as int]));
            return false;
        }
        i += 1;
    }
    true
}

/// Read one side of the notation.
fn parse_id(s: &[char]) -> (r: Result<Option<u8>, ()>)
    ensures
        r == id_value(s@),
{
    if s.len() == 0 {
        return Ok(None);
    }
    if s.len() == 1 && s[0] == '*' {
        assert(s@ =~= seq!['*']);
        return Ok(None);
    }
    proof {
        if s@ == seq!['*'] {
            assert(s@[0] == '*');
        }
    }
    match numeral::parse_byte(s) {
        Some(b) => Ok(Some(b)),
        None => Err(()),
    }
}

/// Read a token of the id notation.
pub fn parse_ids(token: &[char], whole: &[char]) -> (r: Result<(Option<u8>, Option<u8>), String>)
    ensures
        match id_values(token@, whole@) {
            Ok(ids) => r == Ok::<(Option<u8>, Option<u8>), String>(ids),
            Err(e) => r matches Err(m) && m@ == e,
        },
{
    let i = text::position(token, ':');
    let sys = slice_subrange(token, 0, i);
    let comp = if i < token.len() {
        slice_subrange(token, i + 1, token.len())
    } else {
        slice_subrange(token, i, i)
    };
    assert(sys@ =~= sys_side(token@));
    assert(comp@ =~= comp_side(token@));
    match parse_id(sys) {
        Err(_) => Err(complain(sys, whole)),
        Ok(s) => match parse_id(comp) {
            Err(_) => Err(complain(comp, whole)),
            Ok(c) => Ok((s, c)),
        },
    }
}

/// The complaint about one side of an id notation.
fn complain(s: &[char], whole: &[char]) -> (r: String)
    ensures
        r@ == bad_id(s@, whole@),
{
    let mut r = "bad id '".to_string();
    text::push_chars(&mut r, s);
    r.append("' in '");
    text::push_chars(&mut r, whole);
    r.append("'");
    r
}

/// Append one id.
fn push_id(r: &mut String, id: Option<u8>)
    ensures
        final(r)@ == old(r)@ + id_part(id),
{
    let ghost start = r@;
    match id {
        Some(b) => numeral::push_decimal(r, b as u128),
        None => r.push('*'),
    }
    assert(r@ =~= start + id_part(id));
}

/// Append the notation for a pair of ids.
pub fn push_ids(r: &mut String, sysid: Option<u8>, compid: Option<u8>)
    ensures
        final(r)@ == old(r)@ + ids_text(sysid, compid),
{
    let ghost start = r@;
    push_id(r, sysid);
    r.push(':');
    push_id(r, compid);
    assert(r@ =~= start + ids_text(sysid, compid));
}

/// The notation for one id is made of the characters of the notation, holds no
/// colon, and is read back as that id.
proof fn lemma_id_part(id: Option<u8>)
    ensures
        is_id_spec(id_part(id)),
        id_part(id).len() > 0,
        forall|i: int| 0 <= i < id_part(id).len() ==> #[trigger] id_part(id)[i] != ':',
        id_value(id_part(id)) == Ok::<Option<u8>, ()>(id),
{
    match id {
        Some(b) => {
            let s = numeral::decimal(b as nat);
            numeral::lemma_decimal(b as nat);
            numeral::law_byte_notation(b);
            assert forall|i: int| 0 <= i < s.len() implies is_id_char(#[trigger] s[i]) && s[i]
                != ':' by {
                assert(text::is_digit(s[i]));
            }
            if s == seq!['*'] {
                assert(text::is_digit(s[0]));
                assert(s[0] == '*');
            }
        },
        None => {},
    }
}

/// Reading the notation for a pair of ids gives the pair.
pub proof fn law_ids_read_back(sysid: Option<u8>, compid: Option<u8>, whole: Seq<char>)
    ensures
        is_id_spec(ids_text(sysid, compid)),
        id_values(ids_text(sysid, compid), whole) == Ok::<
            (Option<u8>, Option<u8>),
            Seq<char>,
        >((sysid, compid)),
{
    lemma_id_part(sysid);
    lemma_id_part(compid);
    let t = ids_text(sysid, compid);
    let a = id_part(sysid);
    let b = id_part(compid);
    assert forall|i: int| 0 <= i < t.len() implies is_id_char(#[trigger] t[i]) by {
        if i < a.len() {
            assert(t[i] == a[i]);
        } else if i > a.len() {
            assert(t[i] == b[i - a.len() - 1]);
        }
    }
    assert forall|i: int| 0 <= i < a.len() implies t[i] != ':' by {
        assert(t[i] == a[i]);
    }
    text::lemma_index_is(t, ':', a.len() as int);
    assert(t.take(a.len() as int) =~= a);
    assert(t.skip(a.len() as int + 1) =~= b);
}

/// Whether one side of the notation stands for an id: an open one is empty or `*`,
/// any other is written in decimal digits.
pub open spec fn stands_for(s: Seq<char>, id: Option<u8>) -> bool {
    match id {
        None => s.len() == 0 || s == seq!['*'],
        Some(b) => {
            &&& s.len() > 0
            &&& forall|i: int| 0 <= i < s.len() ==> '0' <= (#[trigger] s[i]) && s[i] <= '9'
            &&& numeral::number(s) == b
        },
    }
}

/// What stands before the first colon is the system id, what stands behind it the
/// component id; without a colon the component id is open. A side that stands for no
/// id is refused.
pub proof fn law_id_notation(
    sys: Seq<char>,
    comp: Seq<char>,
    sysid: Option<u8>,
    compid: Option<u8>,
    whole: Seq<char>,
)
    requires
        !sys.contains(':'),
    ensures
        stands_for(sys, sysid) && stands_for(comp, compid) ==> id_values(
            sys + seq![':'] + comp,
            whole,
        ) == Ok::<(Option<u8>, Option<u8>), Seq<char>>((sysid, compid)),
        stands_for(sys, sysid) ==> id_values(sys, whole) == Ok::<
            (Option<u8>, Option<u8>),
            Seq<char>,
        >((sysid, None)),
        (forall|id: Option<u8>| !stands_for(sys, id)) ==> id_values(sys, whole) is Err && id_values(
            sys + seq![':'] + comp,
            whole,
        ) is Err,
        (forall|id: Option<u8>| !stands_for(comp, id)) ==> id_values(
            sys + seq![':'] + comp,
            whole,
        ) is Err,
{
    let token = sys + seq![':'] + comp;
    let n = sys.len() as int;
    assert forall|k: int| 0 <= k < n implies token[k] != ':' by {
        assert(token[k] == sys[k]);
        assert(sys.contains(sys[k]));
    }
    text::lemma_index_is(token, ':', n);
    assert(token.take(n) =~= sys);
    assert(token.skip(n + 1) =~= comp);
    assert forall|k: int| 0 <= k < n implies sys[k] != ':' by {
        assert(sys.contains(sys[k]));
    }
    text::lemma_index_is(sys, ':', n);
    assert(sys.take(n) =~= sys);
    lemma_stands_for(sys, sysid);
    lemma_stands_for(comp, compid);
    assert(comp_side(sys) =~= seq![]);
    if forall|id: Option<u8>| !stands_for(sys, id) {
        lemma_stands_for(sys, None);
        lemma_stands_for(sys, Some(numeral::number(sys) as u8));
        assert(!stands_for(sys, Some(numeral::number(sys) as u8)));
        assert(!stands_for(sys, None));
    }
    if forall|id: Option<u8>| !stands_for(comp, id) {
        lemma_stands_for(comp, None);
        lemma_stands_for(comp, Some(numeral::number(comp) as u8));
        assert(!stands_for(comp, Some(numeral::number(comp) as u8)));
        assert(!stands_for(comp, None));
    }
}

/// One side that stands for an id is read as that id.
proof fn lemma_stands_for(s: Seq<char>, id: Option<u8>)
    ensures
        stands_for(s, id) <==> id_value(s) == Ok::<Option<u8>, ()>(id),
{
    if s == seq!['*'] {
        assert(s[0] == '*');
    }
    if id is Some && stands_for(s, id) {
        assert(numeral::all_digits(s)) by {
            assert forall|i: int| 0 <= i < s.len() implies text::is_digit(#[trigger] s[i]) by {}
        }
    }
    if id_value(s) == Ok::<Option<u8>, ()>(id) && id is Some {
        assert forall|i: int| 0 <= i < s.len() implies '0' <= (#[trigger] s[i]) && s[i] <= '9' by {
            assert(text::is_digit(s[i]));
        }
    }
}

} // verus!
