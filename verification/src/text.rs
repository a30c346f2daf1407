//! Text primitives: the string operations that the filter, column and record
//! parsers share, stated over sequences of characters.

use vstd::prelude::*;
use vstd::slice::slice_subrange;

verus! {

/// `String::push` appends the given character to the end of the string.
pub assume_specification[ String::push ](s: &mut String, c: char)
    ensures
        final(s)@ == old(s)@.push(c),
;

/// The characters with the Unicode `White_Space` property.
pub open spec fn is_white(c: char) -> bool {
    let n = c as u32;
    ||| 0x09 <= n <= 0x0D
    ||| n == 0x20
    ||| n == 0x85
    ||| n == 0xA0
    ||| n == 0x1680
    ||| 0x2000 <= n <= 0x200A
    ||| n == 0x2028
    ||| n == 0x2029
    ||| n == 0x202F
    ||| n == 0x205F
    ||| n == 0x3000
}

/// `s` without its leading whitespace.
pub open spec fn trim_start(s: Seq<char>) -> Seq<char>
    decreases s.len(),
{
    if s.len() > 0 && is_white(s[0]) {
        trim_start(s.drop_first())
    } else {
        s
    }
}

/// `s` without its trailing whitespace.
pub open spec fn trim_end(s: Seq<char>) -> Seq<char>
    decreases s.len(),
{
    if s.len() > 0 && is_white(s.last()) {
        trim_end(s.drop_last())
    } else {
        s
    }
}

/// `s` without the whitespace at either end.
pub open spec fn trim(s: Seq<char>) -> Seq<char> {
    trim_end(trim_start(s))
}

/// Position of the first `c` in `s`, or the length of `s` when there is none.
pub open spec fn index_of(s: Seq<char>, c: char) -> int
    decreases s.len(),
{
    if s.len() == 0 || s[0] == c {
        0
    } else {
        1 + index_of(s.drop_first(), c)
    }
}

/// The pieces of `s` between occurrences of `c`; there is always at least one.
pub open spec fn split(s: Seq<char>, c: char) -> Seq<Seq<char>>
    decreases s.len(),
{
    let i = index_of(s, c);
    if 0 <= i < s.len() {
        seq![s.take(i)] + split(s.skip(i + 1), c)
    } else {
        seq![s]
    }
}

/// Length of the run of non-whitespace characters that `s` starts with.
pub open spec fn word_len(s: Seq<char>) -> int
    decreases s.len(),
{
    if s.len() == 0 || is_white(s[0]) {
        0
    } else {
        1 + word_len(s.drop_first())
    }
}

/// The maximal runs of non-whitespace characters in `s`, in order.
pub open spec fn words(s: Seq<char>) -> Seq<Seq<char>>
    decreases s.len(),
{
    if s.len() == 0 {
        seq![]
    } else if is_white(s[0]) {
        words(s.drop_first())
    } else {
        let n = word_len(s);
        if 0 < n <= s.len() {
            seq![s.take(n)] + words(s.skip(n))
        } else {
            seq![]
        }
    }
}

/// The ASCII lowercase form of a character.
pub open spec fn lower_char(c: char) -> char {
    if 'A' <= c && c <= 'Z' {
        (c as u8 + 32) as u8 as char
    } else {
        c
    }
}

/// The ASCII uppercase form of a character.
pub open spec fn upper_char(c: char) -> char {
    if 'a' <= c && c <= 'z' {
        (c as u8 - 32) as u8 as char
    } else {
        c
    }
}

/// `s` with its ASCII letters in lowercase.
pub open spec fn lower(s: Seq<char>) -> Seq<char> {
    s.map_values(|c: char| lower_char(c))
}

/// `s` with its ASCII letters in uppercase.
pub open spec fn upper(s: Seq<char>) -> Seq<char> {
    s.map_values(|c: char| upper_char(c))
}

/// Whether two texts differ at most in the case of their ASCII letters.
pub open spec fn same_ignoring_case(a: Seq<char>, b: Seq<char>) -> bool {
    lower(a) == lower(b)
}

/// Whether `part` stands in `s` at position `i`.
pub open spec fn occurs_at(s: Seq<char>, part: Seq<char>, i: int) -> bool {
    0 <= i && i + part.len() <= s.len() && s.subrange(i, i + part.len()) == part
}

/// Whether `part` stands anywhere in `s`.
pub open spec fn contains(s: Seq<char>, part: Seq<char>) -> bool {
    exists|i: int| occurs_at(s, part, i)
}

/// The pieces with `sep` between each two neighbours.
pub open spec fn join(pieces: Seq<Seq<char>>, sep: Seq<char>) -> Seq<char>
    decreases pieces.len(),
{
    if pieces.len() == 0 {
        seq![]
    } else if pieces.len() == 1 {
        pieces[0]
    } else {
        join(pieces.drop_last(), sep) + sep + pieces.last()
    }
}

/// Whether `a` comes before `b` in the order of strings: by the first character
/// in which they differ, and a prefix first.
pub open spec fn precedes(a: Seq<char>, b: Seq<char>) -> bool
    decreases a.len(),
{
    &&& b.len() > 0
    &&& a.len() == 0 || a[0] < b[0] || (a[0] == b[0] && precedes(a.drop_first(), b.drop_first()))
}

/// Whether `c` is an ASCII digit.
pub open spec fn is_digit(c: char) -> bool {
    '0' <= c && c <= '9'
}

/// The views of a list of strings.
pub open spec fn views(list: Seq<String>) -> Seq<Seq<char>> {
    list.map_values(|s: String| s@)
}

/// The characters of a string.
pub fn chars_of(s: &str) -> (v: Vec<char>)
    ensures
        v@ == s@,
{
    let mut v: Vec<char> = Vec::new();
    for c in it: s.chars()
        invariant
            v@ =~= it.seq().take(it.index() as int),
    {
        v.push(c);
    }
    v
}

/// The string made of the given characters.
pub fn string_of(s: &[char]) -> (r: String)
    ensures
        r@ == s@,
{
    let mut r = String::new();
    push_chars(&mut r, s);
    assert(r@ =~= s@);
    r
}

/// Append characters to a string.
pub fn push_chars(r: &mut String, s: &[char])
    ensures
        final(r)@ == old(r)@ + s@,
{
    let mut i: usize = 0;
    while i < s.len()
        invariant
            i <= s.len(),
            r@ == old(r)@ + s@.take(i as int),
        decreases s.len() - i,
    {
        r.push(s[i]);
        i += 1;
        assert(s@.take(i as int) =~= s@.take(i - 1).push(s@[i - 1]));
    }
    assert(s@.take(i as int) =~= s@);
}

/// Whether a character is whitespace.
pub fn white(c: char) -> (b: bool)
    ensures
        b == is_white(c),
{
    let n: u32 = c as u32;
    (0x09 <= n && n <= 0x0D) || n == 0x20 || n == 0x85 || n == 0xA0 || n == 0x1680 || (0x2000 <= n
        && n <= 0x200A) || n == 0x2028 || n == 0x2029 || n == 0x202F || n == 0x205F || n == 0x3000
}

/// The text without the whitespace at its start.
pub fn trimmed_start(s: &[char]) -> (r: &[char])
    ensures
        r@ == trim_start(s@),
{
    let mut i: usize = 0;
    assert(s@.skip(0) =~= s@);
    while i < s.len() && white(s[i])
        invariant
            i <= s.len(),
            trim_start(s@) == trim_start(s@.skip(i as int)),
        decreases s.len() - i,
    {
        assert(s@.skip(i as int).drop_first() =~= s@.skip(i + 1));
        i += 1;
    }
    assert(s@.subrange(i as int, s@.len() as int) =~= s@.skip(i as int));
    slice_subrange(s, i, s.len())
}

/// The text without the whitespace at its end.
pub fn trimmed_end(s: &[char]) -> (r: &[char])
    ensures
        r@ == trim_end(s@),
{
    let mut n: usize = s.len();
    assert(s@.take(n as int) =~= s@);
    while n > 0 && white(s[n - 1])
        invariant
            n <= s.len(),
            trim_end(s@) == trim_end(s@.take(n as int)),
        decreases n,
    {
        assert(s@.take(n as int).drop_last() =~= s@.take(n - 1));
        n -= 1;
    }
    assert(s@.subrange(0, n as int) =~= s@.take(n as int));
    slice_subrange(s, 0, n)
}

/// The text without the whitespace at either end.
pub fn trimmed(s: &[char]) -> (r: &[char])
    ensures
        r@ == trim(s@),
{
    trimmed_end(trimmed_start(s))
}

/// Position of the first `c`, or the length of the text.
pub fn position(s: &[char], c: char) -> (n: usize)
    ensures
        n == index_of(s@, c),
        n <= s@.len(),
{
    let mut i: usize = 0;
    assert(s@.skip(0) =~= s@);
    while i < s.len() && s[i] != c
        invariant
            i <= s.len(),
            index_of(s@, c) == i + index_of(s@.skip(i as int), c),
        decreases s.len() - i,
    {
        assert(s@.skip(i as int).drop_first() =~= s@.skip(i + 1));
        i += 1;
    }
    i
}

/// Where the first `c` stands, by what is before it.
pub proof fn lemma_index_is(s: Seq<char>, c: char, i: int)
    requires
        0 <= i <= s.len(),
        forall|k: int| 0 <= k < i ==> s[k] != c,
        i < s.len() ==> s[i] == c,
    ensures
        index_of(s, c) == i,
    decreases s.len(),
{
    if i > 0 {
        lemma_index_is(s.drop_first(), c, i - 1);
    }
}

/// The first `c` stands at `index_of`, and none before it.
pub proof fn lemma_index_of(s: Seq<char>, c: char)
    ensures
        0 <= index_of(s, c) <= s.len(),
        forall|k: int| 0 <= k < index_of(s, c) ==> #[trigger] s[k] != c,
        index_of(s, c) < s.len() ==> s[index_of(s, c)] == c,
        index_of(s, c) < s.len() <==> s.contains(c),
    decreases s.len(),
{
    if s.len() > 0 && s[0] != c {
        let rest = s.drop_first();
        lemma_index_of(rest, c);
        assert forall|k: int| 0 <= k < index_of(s, c) implies #[trigger] s[k] != c by {
            if k > 0 {
                assert(s[k] == rest[k - 1]);
            }
        }
        if s.contains(c) {
            let k = choose|k: int| 0 <= k < s.len() && s[k] == c;
            assert(rest[k - 1] == c);
        }
        if rest.contains(c) {
            let k = choose|k: int| 0 <= k < rest.len() && rest[k] == c;
            assert(s[k + 1] == c);
        }
    } else if s.len() > 0 {
        assert(s[0] == c);
    }
}

/// The texts of a list of character slices.
pub open spec fn slices(list: Seq<&[char]>) -> Seq<Seq<char>> {
    list.map_values(|s: &[char]| s@)
}

/// The pieces between occurrences of `c`.
pub fn pieces<'a>(s: &'a [char], c: char) -> (r: Vec<&'a [char]>)
    ensures
        slices(r@) == split(s@, c),
{
    let mut r: Vec<&'a [char]> = Vec::new();
    let mut rest: &'a [char] = s;
    let mut i: usize = position(rest, c);
    assert(slices(r@) + split(rest@, c) =~= split(s@, c));
    while i < rest.len()
        invariant
            i == index_of(rest@, c),
            i <= rest@.len(),
            slices(r@) + split(rest@, c) == split(s@, c),
        decreases rest@.len(),
    {
        let ghost before = r@;
        let piece = slice_subrange(rest, 0, i);
        let next = slice_subrange(rest, i + 1, rest.len());
        r.push(piece);
        proof {
            assert(rest@.subrange(0, i as int) =~= rest@.take(i as int));
            assert(rest@.subrange(i + 1, rest@.len() as int) =~= rest@.skip(i + 1));
            assert(slices(r@) =~= slices(before).push(rest@.take(i as int)));
            assert(slices(r@) + split(next@, c) =~= slices(before) + split(rest@, c));
        }
        rest = next;
        i = position(rest, c);
    }
    let ghost before = r@;
    r.push(rest);
    assert(slices(r@) =~= slices(before) + split(rest@, c));
    r
}

/// The runs of non-whitespace characters.
pub fn tokens<'a>(s: &'a [char]) -> (r: Vec<&'a [char]>)
    ensures
        slices(r@) == words(s@),
{
    let mut r: Vec<&'a [char]> = Vec::new();
    let mut rest: &'a [char] = s;
    assert(slices(r@) + words(rest@) =~= words(s@));
    while rest.len() > 0
        invariant
            slices(r@) + words(rest@) == words(s@),
        decreases rest@.len(),
    {
        let ghost before = r@;
        if white(rest[0]) {
            let next = slice_subrange(rest, 1, rest.len());
            assert(next@ =~= rest@.drop_first());
            rest = next;
        } else {
            let n = run_len(rest);
            let word = slice_subrange(rest, 0, n);
            let next = slice_subrange(rest, n, rest.len());
            r.push(word);
            proof {
                assert(rest@.subrange(0, n as int) =~= rest@.take(n as int));
                assert(next@ =~= rest@.skip(n as int));
                assert(slices(r@) =~= slices(before).push(rest@.take(n as int)));
                assert(slices(r@) + words(next@) =~= slices(before) + words(rest@));
            }
            rest = next;
        }
    }
    assert(slices(r@) + words(rest@) =~= slices(r@));
    r
}

/// Length of the run of non-whitespace characters at the start.
fn run_len(s: &[char]) -> (n: usize)
    ensures
        n == word_len(s@),
        n <= s@.len(),
        s@.len() > 0 && !is_white(s@[0]) ==> n > 0,
{
    let mut i: usize = 0;
    assert(s@.skip(0) =~= s@);
    while i < s.len() && !white(s[i])
        invariant
            i <= s.len(),
            word_len(s@) == i + word_len(s@.skip(i as int)),
        decreases s.len() - i,
    {
        assert(s@.skip(i as int).drop_first() =~= s@.skip(i + 1));
        i += 1;
    }
    proof {
        if s@.len() > 0 && !is_white(s@[0]) {
            lemma_word_len(s@);
        }
    }
    i
}

proof fn lemma_word_len(s: Seq<char>)
    ensures
        0 <= word_len(s) <= s.len(),
        s.len() > 0 && !is_white(s[0]) ==> word_len(s) > 0,
        forall|k: int| 0 <= k < word_len(s) ==> !is_white(#[trigger] s[k]),
        word_len(s) < s.len() ==> is_white(s[word_len(s)]),
    decreases s.len(),
{
    if s.len() > 0 && !is_white(s[0]) {
        lemma_word_len(s.drop_first());
        assert forall|k: int| 0 <= k < word_len(s) implies !is_white(#[trigger] s[k]) by {
            if k > 0 {
                assert(s[k] == s.drop_first()[k - 1]);
            }
        }
    }
}

/// The ASCII lowercase form of a character.
pub fn lowered_char(c: char) -> (r: char)
    ensures
        r == lower_char(c),
{
    if 'A' <= c && c <= 'Z' {
        (c as u8 + 32) as char
    } else {
        c
    }
}

/// The ASCII uppercase form of a character.
pub fn uppered_char(c: char) -> (r: char)
    ensures
        r == upper_char(c),
{
    if 'a' <= c && c <= 'z' {
        (c as u8 - 32) as char
    } else {
        c
    }
}

/// The text with its ASCII letters in lowercase.
pub fn lowered(s: &[char]) -> (r: Vec<char>)
    ensures
        r@ == lower(s@),
{
    let mut r: Vec<char> = Vec::new();
    let mut i: usize = 0;
    while i < s.len()
        invariant
            i <= s.len(),
            r@ =~= lower(s@).take(i as int),
        decreases s.len() - i,
    {
        r.push(lowered_char(s[i]));
        i += 1;
    }
    r
}

/// The text with its ASCII letters in uppercase.
pub fn uppered(s: &[char]) -> (r: Vec<char>)
    ensures
        r@ == upper(s@),
{
    let mut r: Vec<char> = Vec::new();
    let mut i: usize = 0;
    while i < s.len()
        invariant
            i <= s.len(),
            r@ =~= upper(s@).take(i as int),
        decreases s.len() - i,
    {
        r.push(uppered_char(s[i]));
        i += 1;
    }
    r
}

/// The strings with `sep` between each two neighbours.
pub fn joined(list: &[String], sep: &str) -> (r: String)
    ensures
        r@ == join(views(list@), sep@),
{
    let mut r = String::new();
    let ghost all = views(list@);
    let mut i: usize = 0;
    assert(all.take(0) =~= seq![]);
    while i < list.len()
        invariant
            i <= list.len(),
            all == views(list@),
            r@ == join(all.take(i as int), sep@),
        decreases list.len() - i,
    {
        if i > 0 {
            r.append(sep);
        }
        r.append(list[i].as_str());
        i += 1;
        assert(all.take(i as int).drop_last() =~= all.take(i - 1));
        assert(all.take(i as int).last() == list@[i - 1]@);
        assert(r@ =~= join(all.take(i as int), sep@));
    }
    assert(all.take(i as int) =~= all);
    r
}

/// A copy of a list of strings.
pub fn copied_strings(list: &[String]) -> (r: Vec<String>)
    ensures
        views(r@) == views(list@),
{
    let ghost all = views(list@);
    let mut r: Vec<String> = Vec::new();
    let mut i: usize = 0;
    while i < list.len()
        invariant
            i <= list.len(),
            all == views(list@),
            views(r@) =~= all.take(i as int),
        decreases list.len() - i,
    {
        let ghost before = r@;
        let s = list[i].clone();
        r.push(s);
        i += 1;
        assert(views(r@) =~= views(before).push(s@));
        assert(all.take(i as int) =~= all.take(i - 1).push(all[i - 1]));
    }
    assert(all.take(i as int) =~= all);
    r
}

/// Whether two texts are equal.
pub fn same(a: &[char], b: &[char]) -> (r: bool)
    ensures
        r == (a@ == b@),
{
    if a.len() != b.len() {
        return false;
    }
    let mut i: usize = 0;
    while i < a.len()
        invariant
            i <= a.len(),
            a@.len() == b@.len(),
            a@.take(i as int) =~= b@.take(i as int),
        decreases a.len() - i,
    {
        if a[i] != b[i] {
            return false;
        }
        i += 1;
        assert(a@.take(i as int) =~= a@.take(i - 1).push(a@[i - 1]));
        assert(b@.take(i as int) =~= b@.take(i - 1).push(b@[i - 1]));
    }
    assert(a@.take(i as int) =~= a@);
    assert(b@.take(i as int) =~= b@);
    true
}

/// Whether two strings are equal.
pub fn same_str(a: &str, b: &str) -> (r: bool)
    ensures
        r == (a@ == b@),
{
    let x = chars_of(a);
    let y = chars_of(b);
    same(&x, &y)
}

/// Whether two strings differ at most in the case of their ASCII letters.
pub fn matches_ignoring_case(a: &str, b: &str) -> (r: bool)
    ensures
        r == same_ignoring_case(a@, b@),
{
    let x = lowered(&chars_of(a));
    let y = lowered(&chars_of(b));
    same(&x, &y)
}

/// Whether `part` stands in `s` at position `i`.
pub fn stands_at(s: &[char], part: &[char], i: usize) -> (r: bool)
    requires
        i <= s@.len(),
    ensures
        r == occurs_at(s@, part@, i as int),
{
    if part.len() > s.len() - i {
        return false;
    }
    same(slice_subrange(s, i, i + part.len()), part)
}

/// The first position at which `part` stands in `s`.
pub fn find(s: &[char], part: &[char]) -> (r: Option<usize>)
    ensures
        match r {
            Some(i) => occurs_at(s@, part@, i as int) && forall|k: int|
                0 <= k < i ==> !occurs_at(s@, part@, k),
            None => !contains(s@, part@),
        },
{
    let mut i: usize = 0;
    while i <= s.len() && part.len() <= s.len() - i
        invariant
            i <= s.len() + 1,
            forall|k: int| 0 <= k < i ==> !occurs_at(s@, part@, k),
        decreases s.len() + 1 - i,
    {
        if stands_at(s, part, i) {
            return Some(i);
        }
        if i == s.len() {
            return None;
        }
        i += 1;
    }
    None
}

/// Whether `s` holds no whitespace.
pub open spec fn is_solid(s: Seq<char>) -> bool {
    forall|i: int| 0 <= i < s.len() ==> !is_white(#[trigger] s[i])
}

/// Whether a text is one word, or empty.
pub fn is_word(s: &[char]) -> (r: bool)
    ensures
        r == is_solid(s@),
{
    let mut i: usize = 0;
    while i < s.len()
        invariant
            i <= s.len(),
            forall|k: int| 0 <= k < i ==> !is_white(#[trigger] s@[k]),
        decreases s.len() - i,
    {
        if white(s[i]) {
            return false;
        }
        i += 1;
    }
    true
}

/// Whether a character stands in a text.
pub fn holds(s: &[char], c: char) -> (r: bool)
    ensures
        r == s@.contains(c),
{
    proof {
        lemma_index_of(s@, c);
    }
    position(s, c) < s.len()
}

/// Appending a piece behind a separator adds that piece to the split text.
pub proof fn lemma_split_append(s: Seq<char>, c: char, piece: Seq<char>)
    requires
        !piece.contains(c),
    ensures
        split(s + seq![c] + piece, c) == split(s, c).push(piece),
    decreases s.len(),
{
    let whole = s + seq![c] + piece;
    let i = index_of(s, c);
    lemma_index_of(s, c);
    assert forall|k: int| 0 <= k < i implies whole[k] != c by {
        assert(whole[k] == s[k]);
    }
    if i < s.len() {
        assert(whole[i] == s[i]);
        lemma_index_is(whole, c, i);
        assert(whole.take(i) =~= s.take(i));
        assert(whole.skip(i + 1) =~= s.skip(i + 1) + seq![c] + piece);
        lemma_split_append(s.skip(i + 1), c, piece);
        assert(split(whole, c) =~= split(s, c).push(piece));
    } else {
        lemma_index_is(whole, c, i);
        assert(whole.take(i) =~= s);
        assert(whole.skip(i + 1) =~= piece);
        lemma_split_none(piece, c);
        assert(split(whole, c) =~= split(s, c).push(piece));
    }
}

/// A text without the separator is its only piece.
pub proof fn lemma_split_none(s: Seq<char>, c: char)
    requires
        !s.contains(c),
    ensures
        split(s, c) == seq![s],
{
    lemma_index_of(s, c);
}

/// A character in front of a text that is no separator stands in front of the
/// first piece.
pub proof fn lemma_split_lead(s: Seq<char>, c: char)
    requires
        s.len() > 0,
        s[0] != c,
    ensures
        split(s.drop_first(), c).len() > 0,
        split(s, c) == seq![seq![s[0]] + split(s.drop_first(), c)[0]] + split(
            s.drop_first(),
            c,
        ).drop_first(),
{
    let d = s.drop_first();
    let i = index_of(d, c);
    lemma_index_of(d, c);
    let rest = split(d, c).drop_first();
    if i < d.len() {
        assert(s.skip(i + 2) =~= d.skip(i + 1));
        assert(s.take(i + 1) =~= seq![s[0]] + d.take(i));
        assert(rest =~= split(d.skip(i + 1), c));
    } else {
        assert(s =~= seq![s[0]] + d);
        assert(rest =~= seq![]);
    }
    assert(split(s, c) =~= seq![seq![s[0]] + split(d, c)[0]] + rest);
}

/// A character behind a text that is no separator stands behind the last piece.
pub proof fn lemma_split_tail(s: Seq<char>, c: char)
    requires
        s.len() > 0,
        s.last() != c,
    ensures
        split(s.drop_last(), c).len() > 0,
        split(s, c).len() > 0,
        split(s, c).drop_last() == split(s.drop_last(), c).drop_last(),
        split(s, c).last() == split(s.drop_last(), c).last().push(s.last()),
    decreases s.len(),
{
    let d = s.drop_last();
    let i = index_of(d, c);
    lemma_index_of(d, c);
    if i < d.len() {
        assert forall|k: int| 0 <= k < i implies s[k] != c by {
            assert(d[k] == s[k]);
        }
        assert(s[i] == d[i]);
        lemma_index_is(s, c, i);
        let (a, b) = (s.skip(i + 1), d.skip(i + 1));
        assert(a.drop_last() =~= b);
        assert(a.last() == s.last());
        lemma_split_tail(a, c);
        assert(s.take(i) =~= d.take(i));
        assert(split(s, c) =~= seq![s.take(i)] + split(a, c));
        assert(split(d, c) =~= seq![d.take(i)] + split(b, c));
        assert(split(s, c).drop_last() =~= seq![s.take(i)] + split(a, c).drop_last());
        assert(split(d, c).drop_last() =~= seq![d.take(i)] + split(b, c).drop_last());
    } else {
        assert(!s.contains(c)) by {
            if s.contains(c) {
                let k = choose|k: int| 0 <= k < s.len() && s[k] == c;
                assert(d[k] == c);
            }
        }
        lemma_split_none(s, c);
        lemma_split_none(d, c);
        assert(split(s, c).drop_last() =~= split(d, c).drop_last());
        assert(s =~= d.push(s.last()));
    }
}

/// Whitespace behind a text does not change its trimmed form.
pub proof fn lemma_trim_tail(s: Seq<char>)
    requires
        s.len() > 0,
        is_white(s.last()),
    ensures
        trim(s) == trim(s.drop_last()),
    decreases s.len(),
{
    let d = s.drop_last();
    if is_white(s[0]) {
        let f = s.drop_first();
        if s.len() > 1 {
            lemma_trim_tail(f);
            assert(f.drop_last() =~= d.drop_first());
        } else {
            assert(f =~= d);
        }
    } else {
        assert(d[0] == s[0]);
    }
}

/// Trimming a text twice is trimming it once.
pub proof fn lemma_trim_twice(s: Seq<char>)
    ensures
        trim(trim(s)) == trim(s),
{
    lemma_trim_edges(s);
    if trim(s).len() > 0 {
        lemma_trimmed(trim(s));
    }
}

/// The pieces of a text hold no separator.
pub proof fn lemma_pieces(s: Seq<char>, c: char, i: int)
    requires
        0 <= i < split(s, c).len(),
    ensures
        !split(s, c)[i].contains(c),
    decreases s.len(),
{
    let n = index_of(s, c);
    lemma_index_of(s, c);
    if n < s.len() {
        if i == 0 {
            let head = s.take(n);
            assert(split(s, c)[0] == head);
            if head.contains(c) {
                let k = choose|k: int| 0 <= k < head.len() && head[k] == c;
                assert(s[k] == c);
            }
        } else {
            lemma_pieces(s.skip(n + 1), c, i - 1);
            assert(split(s, c)[i] == split(s.skip(n + 1), c)[i - 1]);
        }
    }
}

/// Appending a word behind a space adds that word to the words of a text.
pub proof fn lemma_words_append(s: Seq<char>, word: Seq<char>)
    requires
        is_solid(word),
        word.len() > 0,
    ensures
        words(s + seq![' '] + word) == words(s).push(word),
    decreases s.len(),
{
    let whole = s + seq![' '] + word;
    if s.len() == 0 {
        assert(whole.drop_first() =~= word);
        lemma_words_single(word);
        assert(words(whole) =~= words(s).push(word));
    } else if is_white(s[0]) {
        assert(whole.drop_first() =~= s.drop_first() + seq![' '] + word);
        lemma_words_append(s.drop_first(), word);
    } else {
        let n = word_len(s);
        lemma_word_len(s);
        lemma_word_len(whole);
        assert(word_len(whole) == n) by {
            if word_len(whole) < n {
                assert(whole[word_len(whole)] == s[word_len(whole)]);
            }
            if word_len(whole) > n {
                assert(!is_white(whole[n]));
                if n < s.len() {
                    assert(whole[n] == s[n]);
                } else {
                    assert(whole[n] == ' ');
                }
            }
        }
        assert(whole.take(n) =~= s.take(n));
        assert(whole.skip(n) =~= s.skip(n) + seq![' '] + word);
        lemma_words_append(s.skip(n), word);
        assert(words(whole) =~= words(s).push(word));
    }
}

/// A text without whitespace is its only word.
pub proof fn lemma_words_single(word: Seq<char>)
    requires
        is_solid(word),
        word.len() > 0,
    ensures
        words(word) == seq![word],
{
    lemma_word_len(word);
    assert(word.take(word.len() as int) =~= word);
    assert(word.skip(word.len() as int) =~= seq![]);
    assert(words(word.skip(word.len() as int)) =~= seq![]);
    assert(words(word) =~= seq![word]);
}

/// The words of words joined by spaces are these words.
pub proof fn lemma_words_of_joined(list: Seq<Seq<char>>)
    requires
        forall|i: int|
            0 <= i < list.len() ==> is_solid(#[trigger] list[i]) && list[i].len() > 0,
    ensures
        words(join(list, seq![' '])) == list,
    decreases list.len(),
{
    if list.len() == 0 {
        assert(words(join(list, seq![' '])) =~= list);
    } else if list.len() == 1 {
        lemma_words_single(list[0]);
        assert(words(join(list, seq![' '])) =~= list);
    } else {
        lemma_words_of_joined(list.drop_last());
        lemma_words_append(join(list.drop_last(), seq![' ']), list.last());
        assert(list.drop_last().push(list.last()) =~= list);
    }
}

/// The words of a text are not empty, hold no whitespace, and are made of
/// characters of the text.
pub proof fn lemma_words(s: Seq<char>, i: int)
    requires
        0 <= i < words(s).len(),
    ensures
        is_solid(words(s)[i]),
        words(s)[i].len() > 0,
        forall|k: int| 0 <= k < words(s)[i].len() ==> s.contains(#[trigger] words(s)[i][k]),
        !is_white(s[0]) ==> words(s)[0][0] == s[0],
    decreases s.len(),
{
    if is_white(s[0]) {
        let rest = s.drop_first();
        lemma_words(rest, i);
        assert forall|k: int| 0 <= k < words(s)[i].len() implies s.contains(
            #[trigger] words(s)[i][k],
        ) by {
            let c = words(rest)[i][k];
            assert(rest.contains(c));
            let j = choose|j: int| 0 <= j < rest.len() && rest[j] == c;
            assert(s[j + 1] == c);
        }
    } else {
        let n = word_len(s);
        lemma_word_len(s);
        let rest = s.skip(n);
        assert(words(s)[0] == s.take(n));
        if i == 0 {
            let w = s.take(n);
            assert forall|k: int| 0 <= k < w.len() implies !is_white(#[trigger] w[k]) by {
                assert(w[k] == s[k]);
            }
            assert forall|k: int| 0 <= k < w.len() implies s.contains(#[trigger] w[k]) by {
                assert(s[k] == w[k]);
            }
        } else {
            lemma_words(rest, i - 1);
            assert(words(s)[i] == words(rest)[i - 1]);
            assert forall|k: int| 0 <= k < words(s)[i].len() implies s.contains(
                #[trigger] words(s)[i][k],
            ) by {
                let c = words(rest)[i - 1][k];
                assert(rest.contains(c));
                let j = choose|j: int| 0 <= j < rest.len() && rest[j] == c;
                assert(s[j + n] == c);
            }
        }
    }
}

/// A text that starts and ends without whitespace is its own trimmed form, and
/// so is what it is behind a space.
pub proof fn lemma_trimmed(s: Seq<char>)
    requires
        s.len() > 0,
        !is_white(s[0]),
        !is_white(s.last()),
    ensures
        trim(s) == s,
        trim_start(s) == s,
        trim(seq![' '] + s) == s,
{
    let spaced = seq![' '] + s;
    assert(spaced.drop_first() =~= s);
}

/// A space behind a text does not change its trimmed form.
pub proof fn lemma_trimmed_behind(s: Seq<char>)
    requires
        s.len() > 0,
        !is_white(s[0]),
        !is_white(s.last()),
    ensures
        trim(s + seq![' ']) == s,
{
    let spaced = s + seq![' '];
    assert(spaced[0] == s[0]);
    assert(spaced.drop_last() =~= s);
    assert(trim_start(spaced) == spaced);
    assert(trim_end(s) == s);
}

/// The trimmed form of a text starts and ends without whitespace, and is made
/// of characters of the text.
pub proof fn lemma_trim_edges(s: Seq<char>)
    ensures
        trim(s).len() > 0 ==> !is_white(trim(s)[0]) && !is_white(trim(s).last()),
        forall|k: int| 0 <= k < trim(s).len() ==> s.contains(#[trigger] trim(s)[k]),
{
    let a = trim_start(s);
    lemma_trim_start(s);
    lemma_trim_end(a);
    let b = trim(s);
    assert forall|k: int| 0 <= k < b.len() implies s.contains(#[trigger] b[k]) by {
        assert(a.contains(b[k]));
        let j = choose|j: int| 0 <= j < a.len() && a[j] == b[k];
        assert(s.contains(a[j]));
    }
}

/// What `trim_start` leaves.
pub proof fn lemma_trim_start(s: Seq<char>)
    ensures
        trim_start(s).len() > 0 ==> !is_white(trim_start(s)[0]),
        forall|k: int|
            0 <= k < trim_start(s).len() ==> s.contains(#[trigger] trim_start(s)[k]),
        s.len() > 0 && !is_white(s.last()) ==> trim_start(s).len() > 0 && trim_start(s).last()
            == s.last(),
    decreases s.len(),
{
    if s.len() > 0 && is_white(s[0]) {
        let rest = s.drop_first();
        lemma_trim_start(rest);
        assert forall|k: int| 0 <= k < trim_start(s).len() implies s.contains(
            #[trigger] trim_start(s)[k],
        ) by {
            let c = trim_start(rest)[k];
            assert(rest.contains(c));
            let j = choose|j: int| 0 <= j < rest.len() && rest[j] == c;
            assert(s[j + 1] == c);
        }
    } else {
        assert forall|k: int| 0 <= k < s.len() implies s.contains(#[trigger] s[k]) by {}
    }
}

/// What `trim_end` leaves.
proof fn lemma_trim_end(s: Seq<char>)
    ensures
        trim_end(s).len() > 0 ==> !is_white(trim_end(s).last()) && trim_end(s)[0] == s[0],
        forall|k: int| 0 <= k < trim_end(s).len() ==> s.contains(#[trigger] trim_end(s)[k]),
    decreases s.len(),
{
    if s.len() > 0 && is_white(s.last()) {
        let rest = s.drop_last();
        lemma_trim_end(rest);
        assert forall|k: int| 0 <= k < trim_end(s).len() implies s.contains(
            #[trigger] trim_end(s)[k],
        ) by {
            let c = trim_end(rest)[k];
            assert(rest.contains(c));
            let j = choose|j: int| 0 <= j < rest.len() && rest[j] == c;
            assert(s[j] == c);
        }
    } else {
        assert forall|k: int| 0 <= k < s.len() implies s.contains(#[trigger] s[k]) by {}
    }
}

/// Changing the case of a character keeps what it is otherwise.
pub proof fn lemma_case(c: char)
    ensures
        is_white(lower_char(c)) == is_white(c),
        is_white(upper_char(c)) == is_white(c),
        lower_char(lower_char(c)) == lower_char(c),
        upper_char(upper_char(c)) == upper_char(c),
        lower_char(upper_char(c)) == lower_char(c),
        upper_char(lower_char(c)) == upper_char(c),
        !('a' <= c && c <= 'z') && !('A' <= c && c <= 'Z') ==> lower_char(c) == c && upper_char(c)
            == c,
        ('a' <= c && c <= 'z') || ('A' <= c && c <= 'Z') ==> 'a' <= lower_char(c) && lower_char(c)
            <= 'z' && 'A' <= upper_char(c) && upper_char(c) <= 'Z',
{
}

/// Lowering the case of a text neither adds nor removes a '*'.
pub proof fn lemma_lower_keeps_star(s: Seq<char>)
    ensures
        lower(s).contains('*') == s.contains('*'),
{
    assert forall|i: int| 0 <= i < s.len() implies (#[trigger] lower(s)[i] == '*') == (s[i]
        == '*') by {
        lemma_case(s[i]);
    }
    if s.contains('*') {
        let i = choose|i: int| 0 <= i < s.len() && s[i] == '*';
        assert(lower(s)[i] == '*');
    }
    if lower(s).contains('*') {
        let i = choose|i: int| 0 <= i < lower(s).len() && lower(s)[i] == '*';
        assert(s[i] == '*');
    }
}

/// Changing the case of a text twice is changing it once.
pub proof fn lemma_case_twice(s: Seq<char>)
    ensures
        lower(lower(s)) == lower(s),
        lower(upper(s)) == lower(s),
        upper(lower(s)) == upper(s),
        upper(upper(s)) == upper(s),
{
    assert forall|i: int| 0 <= i < s.len() implies {
        &&& lower(lower(s))[i] == lower(s)[i]
        &&& lower(upper(s))[i] == lower(s)[i]
        &&& upper(lower(s))[i] == upper(s)[i]
        &&& upper(upper(s))[i] == upper(s)[i]
    } by {
        lemma_case(s[i]);
    }
    assert(lower(lower(s)) =~= lower(s));
    assert(lower(upper(s)) =~= lower(s));
    assert(upper(lower(s)) =~= upper(s));
    assert(upper(upper(s)) =~= upper(s));
}

/// The order of strings is a strict total order.
pub proof fn law_order(a: Seq<char>, b: Seq<char>)
    ensures
        !precedes(a, a),
        precedes(a, b) ==> !precedes(b, a) && a != b,
        a == b || precedes(a, b) || precedes(b, a),
    decreases a.len(),
{
    if a.len() > 0 {
        law_order(a.drop_first(), a.drop_first());
        if b.len() > 0 {
            law_order(a.drop_first(), b.drop_first());
            if a[0] == b[0] && a.drop_first() == b.drop_first() {
                assert(a =~= seq![a[0]] + a.drop_first());
                assert(b =~= seq![b[0]] + b.drop_first());
            }
        }
    } else if b.len() == 0 {
        assert(a =~= b);
    }
}

/// The order of strings is transitive.
pub proof fn law_order_transitive(a: Seq<char>, b: Seq<char>, c: Seq<char>)
    requires
        precedes(a, b),
        precedes(b, c),
    ensures
        precedes(a, c),
    decreases a.len(),
{
    if a.len() > 0 && a[0] == b[0] && b[0] == c[0] {
        law_order_transitive(a.drop_first(), b.drop_first(), c.drop_first());
    }
}

/// Whether `a` comes before `b` in the order of strings.
pub fn comes_before(a: &[char], b: &[char]) -> (r: bool)
    ensures
        r == precedes(a@, b@),
{
    let mut i: usize = 0;
    assert(a@.skip(0) =~= a@);
    assert(b@.skip(0) =~= b@);
    while i < a.len() && i < b.len() && a[i] == b[i]
        invariant
            i <= a.len(),
            i <= b.len(),
            precedes(a@, b@) == precedes(a@.skip(i as int), b@.skip(i as int)),
        decreases a.len() - i,
    {
        assert(a@.skip(i as int).drop_first() =~= a@.skip(i + 1));
        assert(b@.skip(i as int).drop_first() =~= b@.skip(i + 1));
        i += 1;
    }
    i < b.len() && (i == a.len() || a[i] < b[i])
}

/// A letter changes its case by its distance in the table of characters, and
/// nothing else changes.
pub proof fn law_letter_case(c: char)
    ensures
        'A' <= c && c <= 'Z' ==> lower_char(c) as u32 == c as u32 + 32 && upper_char(c) == c,
        'a' <= c && c <= 'z' ==> upper_char(c) as u32 == c as u32 - 32 && lower_char(c) == c,
        !('A' <= c && c <= 'Z') && !('a' <= c && c <= 'z') ==> lower_char(c) == c && upper_char(c)
            == c,
{
}

/// Texts are the same in any case where they have the same length and differ at
/// most by the case of letters.
pub proof fn law_same_in_any_case(a: Seq<char>, b: Seq<char>)
    ensures
        same_ignoring_case(a, b) <==> a.len() == b.len() && forall|i: int|
            0 <= i < a.len() ==> {
                ||| #[trigger] a[i] == b[i]
                ||| 'A' <= a[i] && a[i] <= 'Z' && b[i] as u32 == a[i] as u32 + 32
                ||| 'A' <= b[i] && b[i] <= 'Z' && a[i] as u32 == b[i] as u32 + 32
            },
{
    let (x, y) = (lower(a), lower(b));
    if same_ignoring_case(a, b) {
        assert(x.len() == a.len() && y.len() == b.len());
        assert forall|i: int| 0 <= i < a.len() implies {
            ||| #[trigger] a[i] == b[i]
            ||| 'A' <= a[i] && a[i] <= 'Z' && b[i] as u32 == a[i] as u32 + 32
            ||| 'A' <= b[i] && b[i] <= 'Z' && a[i] as u32 == b[i] as u32 + 32
        } by {
            assert(x[i] == lower_char(a[i]));
            assert(y[i] == lower_char(b[i]));
            law_letter_case(a[i]);
            law_letter_case(b[i]);
        }
    }
    if a.len() == b.len() && forall|i: int|
        0 <= i < a.len() ==> {
            ||| #[trigger] a[i] == b[i]
            ||| 'A' <= a[i] && a[i] <= 'Z' && b[i] as u32 == a[i] as u32 + 32
            ||| 'A' <= b[i] && b[i] <= 'Z' && a[i] as u32 == b[i] as u32 + 32
        } {
        assert forall|i: int| 0 <= i < a.len() implies x[i] == y[i] by {
            assert(a[i] == a[i]);
            law_letter_case(a[i]);
            law_letter_case(b[i]);
        }
        assert(x =~= y);
    }
}

/// A text contains another where its characters stand one behind the other at
/// some position, and nowhere else.
pub proof fn law_contains(s: Seq<char>, part: Seq<char>, i: int)
    requires
        0 <= i <= s.len() - part.len(),
    ensures
        (forall|k: int| 0 <= k < part.len() ==> s[i + k] == #[trigger] part[k]) ==> contains(
            s,
            part,
        ),
        contains(s, part) ==> exists|j: int|
            #![trigger s.skip(j)]
            0 <= j <= s.len() - part.len() && forall|k: int|
                0 <= k < part.len() ==> s[j + k] == #[trigger] part[k],
{
    if forall|k: int| 0 <= k < part.len() ==> s[i + k] == #[trigger] part[k] {
        assert(s.subrange(i, i + part.len()) =~= part);
        assert(occurs_at(s, part, i));
    }
    if contains(s, part) {
        let j = choose|j: int| occurs_at(s, part, j);
        assert(s.skip(j) == s.skip(j));
        assert forall|k: int| 0 <= k < part.len() implies s[j + k] == #[trigger] part[k] by {
            assert(s.subrange(j, j + part.len())[k] == part[k]);
        }
    }
}

/// Joining puts the separator between neighbours, and nowhere else.
pub proof fn law_join(pieces: Seq<Seq<char>>, sep: Seq<char>, next: Seq<char>)
    ensures
        join(seq![], sep) == Seq::<char>::empty(),
        join(seq![next], sep) == next,
        pieces.len() > 0 ==> join(pieces.push(next), sep) == join(pieces, sep) + sep + next,
{
    assert(pieces.push(next).drop_last() =~= pieces);
}

/// Pieces joined by a character that stands in none of them are the pieces that
/// splitting gives back.
pub proof fn law_split_of_joined(pieces: Seq<Seq<char>>, c: char)
    requires
        pieces.len() > 0,
        forall|i: int| 0 <= i < pieces.len() ==> !(#[trigger] pieces[i]).contains(c),
    ensures
        split(join(pieces, seq![c]), c) == pieces,
    decreases pieces.len(),
{
    if pieces.len() == 1 {
        lemma_split_none(pieces[0], c);
        assert(seq![pieces[0]] =~= pieces);
    } else {
        let front = pieces.drop_last();
        assert forall|i: int| 0 <= i < front.len() implies !(#[trigger] front[i]).contains(c) by {
            assert(front[i] == pieces[i]);
        }
        law_split_of_joined(front, c);
        lemma_split_append(join(front, seq![c]), c, pieces.last());
        assert(front.push(pieces.last()) =~= pieces);
    }
}

/// The pieces of a text, joined by the character that they were split at, are the
/// text; that character stands in none of them.
pub proof fn law_joined_pieces(s: Seq<char>, c: char)
    ensures
        join(split(s, c), seq![c]) == s,
        forall|i: int| 0 <= i < split(s, c).len() ==> !(#[trigger] split(s, c)[i]).contains(c),
    decreases s.len(),
{
    assert forall|i: int| 0 <= i < split(s, c).len() implies !(#[trigger] split(s, c)[i]).contains(
        c,
    ) by {
        lemma_pieces(s, c, i);
    }
    let i = index_of(s, c);
    lemma_index_of(s, c);
    if i < s.len() {
        let rest = s.skip(i + 1);
        law_joined_pieces(rest, c);
        lemma_join_front(s.take(i), split(rest, c), seq![c]);
        assert(s.take(i) + seq![c] + rest =~= s);
    }
}

/// A piece in front of others stands in front of them, with the separator between.
proof fn lemma_join_front(first: Seq<char>, rest: Seq<Seq<char>>, sep: Seq<char>)
    requires
        rest.len() > 0,
    ensures
        join(seq![first] + rest, sep) == first + sep + join(rest, sep),
    decreases rest.len(),
{
    let all = seq![first] + rest;
    if rest.len() == 1 {
        assert(all.drop_last() =~= seq![first]);
        assert(join(seq![first], sep) == first);
        assert(all.last() == rest[0]);
    } else {
        lemma_join_front(first, rest.drop_last(), sep);
        assert(all.drop_last() =~= seq![first] + rest.drop_last());
        assert(all.last() == rest.last());
        assert(join(all, sep) =~= first + sep + join(rest, sep));
    }
}

/// What trimming leaves stands in the text with nothing but whitespace on either
/// side, and neither starts nor ends with whitespace.
pub proof fn law_trim(front: Seq<char>, s: Seq<char>, back: Seq<char>)
    requires
        forall|k: int| 0 <= k < front.len() ==> is_white(#[trigger] front[k]),
        forall|k: int| 0 <= k < back.len() ==> is_white(#[trigger] back[k]),
        s.len() > 0 ==> !is_white(s[0]) && !is_white(s.last()),
    ensures
        trim(front + s + back) == s,
    decreases front.len() + back.len(),
{
    let whole = front + s + back;
    if back.len() > 0 {
        assert(whole.last() == back.last());
        lemma_trim_tail(whole);
        assert(whole.drop_last() =~= front + s + back.drop_last());
        law_trim(front, s, back.drop_last());
    } else if front.len() > 0 {
        assert(whole[0] == front[0]);
        assert(whole.drop_first() =~= front.drop_first() + s + back);
        law_trim(front.drop_first(), s, back);
    } else {
        assert(whole =~= s);
        if s.len() > 0 {
            lemma_trimmed(s);
        }
    }
}

/// Spaces, tabs and line ends are whitespace, the printable ASCII characters are
/// not.
pub proof fn law_white(c: char)
    ensures
        is_white(' ') && is_white('\t') && is_white('\n') && is_white('\r'),
        '!' <= c && c <= '~' ==> !is_white(c),
{
}

/// The words of a text: whitespace in front of a text adds none, and a run without
/// whitespace is one more.
pub proof fn law_words(word: Seq<char>, space: char, s: Seq<char>)
    requires
        word.len() > 0,
        forall|k: int| 0 <= k < word.len() ==> !is_white(#[trigger] word[k]),
        is_white(space),
    ensures
        words(seq![]) == Seq::<Seq<char>>::empty(),
        words(seq![space] + s) == words(s),
        words(word) == seq![word],
        words(word + seq![space] + s) == seq![word] + words(s),
{
    let spaced = seq![space] + s;
    assert(spaced.drop_first() =~= s);
    assert(spaced[0] == space);
    assert(words(spaced) == words(s));
    lemma_words_single(word);
    let whole = word + seq![space] + s;
    lemma_word_len(whole);
    let n = word_len(whole);
    assert(n == word.len()) by {
        if n < word.len() {
            assert(whole[n] == word[n]);
        }
        if n > word.len() {
            assert(whole[word.len() as int] == space);
        }
    }
    assert(whole.take(n) =~= word);
    assert(whole.skip(n) =~= spaced);
    assert(whole[0] == word[0]);
    assert(!is_white(word[0]));
    assert(words(whole) == seq![whole.take(n)] + words(whole.skip(n)));
    assert(words(whole) =~= seq![word] + words(s));
}

/// Of two texts, that comes first which has the lesser character where they first
/// differ, or which ends there.
pub proof fn law_first_difference_decides(same: Seq<char>, a: Seq<char>, b: Seq<char>)
    requires
        b.len() > 0,
        a.len() > 0 ==> a[0] != b[0],
    ensures
        precedes(same + a, same + b) <==> a.len() == 0 || a[0] < b[0],
    decreases same.len(),
{
    if same.len() > 0 {
        assert((same + a).drop_first() =~= same.drop_first() + a);
        assert((same + b).drop_first() =~= same.drop_first() + b);
        assert((same + a)[0] == same[0] && (same + b)[0] == same[0]);
        law_first_difference_decides(same.drop_first(), a, b);
    } else {
        assert(same + a =~= a);
        assert(same + b =~= b);
    }
}

} // verus!
