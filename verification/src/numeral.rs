//! Numbers as text: decimal and hexadecimal notation.

use vstd::prelude::*;
use crate::text;

verus! {

/// The digit of value `d` in decimal or hexadecimal notation.
pub open spec fn digit_char(d: int) -> char {
    if d < 10 {
        (48 + d) as u8 as char
    } else {
        (87 + d) as u8 as char
    }
}

/// `n` in decimal notation.
pub open spec fn decimal(n: nat) -> Seq<char>
    decreases n,
{
    if n < 10 {
        seq![digit_char(n as int)]
    } else {
        decimal(n / 10).push(digit_char((n % 10) as int))
    }
}

/// `i` in decimal notation, with a minus sign when it is negative.
pub open spec fn signed_decimal(i: int) -> Seq<char> {
    if i < 0 {
        seq!['-'] + decimal((-i) as nat)
    } else {
        decimal(i as nat)
    }
}

/// `n` in lowercase hexadecimal notation.
pub open spec fn hexadecimal(n: nat) -> Seq<char>
    decreases n,
{
    if n < 16 {
        seq![digit_char(n as int)]
    } else {
        hexadecimal(n / 16).push(digit_char((n % 16) as int))
    }
}

/// `s` with `fill` in front, up to `width` characters.
pub open spec fn pad_start(s: Seq<char>, width: nat, fill: char) -> Seq<char> {
    if s.len() < width {
        Seq::new((width - s.len()) as nat, |i: int| fill) + s
    } else {
        s
    }
}

/// `s` with `fill` behind it, up to `width` characters.
pub open spec fn pad_end(s: Seq<char>, width: nat, fill: char) -> Seq<char> {
    if s.len() < width {
        s + Seq::new((width - s.len()) as nat, |i: int| fill)
    } else {
        s
    }
}

/// Whether every character of `s` is a decimal digit.
pub open spec fn all_digits(s: Seq<char>) -> bool {
    forall|i: int| 0 <= i < s.len() ==> text::is_digit(#[trigger] s[i])
}

/// The number that a text of decimal digits stands for.
pub open spec fn number(s: Seq<char>) -> nat
    decreases s.len(),
{
    if s.len() == 0 {
        0
    } else {
        number(s.drop_last()) * 10 + (s.last() as nat - 48) as nat
    }
}

/// The byte that a text of decimal digits stands for.
pub open spec fn byte_value(s: Seq<char>) -> Option<u8> {
    if s.len() > 0 && all_digits(s) && number(s) <= 255 {
        Some(number(s) as u8)
    } else {
        None
    }
}

/// A digit is the character that stands for its value.
pub proof fn law_digits(d: int)
    requires
        0 <= d < 16,
    ensures
        d < 10 ==> digit_char(d) as u32 == '0' as u32 + d,
        d >= 10 ==> digit_char(d) as u32 == 'a' as u32 + (d - 10),
{
}

/// What a text of digits stands for: each digit weighs ten times the one behind
/// it.
pub proof fn law_digits_weigh(s: Seq<char>, d: int)
    requires
        0 <= d < 10,
    ensures
        number(seq![]) == 0,
        number(s.push(('0' as u32 + d) as char)) == 10 * number(s) + d,
{
    let t = s.push(('0' as u32 + d) as char);
    assert(t.drop_last() =~= s);
    assert(t.last() as nat == 48 + d);
}

/// Decimal notation reads back as the number it was made from.
pub proof fn law_decimal_reads_back(n: nat, i: int)
    ensures
        number(decimal(n)) == n,
        all_digits(decimal(n)),
        i < 0 ==> signed_decimal(i) == seq!['-'] + decimal((-i) as nat),
        i >= 0 ==> signed_decimal(i) == decimal(i as nat),
        n >= 10 ==> decimal(n)[0] != '0',
    decreases n,
{
    lemma_decimal(n);
    if n >= 10 {
        law_decimal_reads_back(n / 10, i);
        assert(decimal(n)[0] == decimal(n / 10)[0]);
    }
}

/// Reading the decimal notation of a byte gives the byte.
pub proof fn law_byte_notation(b: u8)
    ensures
        byte_value(decimal(b as nat)) == Some(b),
{
    lemma_decimal(b as nat);
}

/// Decimal notation consists of digits and stands for the number it was made
/// from.
pub proof fn lemma_decimal(n: nat)
    ensures
        decimal(n).len() > 0,
        all_digits(decimal(n)),
        number(decimal(n)) == n,
    decreases n,
{
    if n < 10 {
        let s = decimal(n);
        assert(s.drop_last() =~= seq![]);
        assert(number(s.drop_last()) == 0);
    } else {
        lemma_decimal(n / 10);
        let s = decimal(n);
        assert(s.drop_last() =~= decimal(n / 10));
        assert forall|i: int| 0 <= i < s.len() implies text::is_digit(#[trigger] s[i]) by {
            if i < s.len() - 1 {
                assert(s[i] == decimal(n / 10)[i]);
            }
        }
    }
}

/// The digit of the given value.
fn digit(d: u8) -> (c: char)
    requires
        d < 16,
    ensures
        c == digit_char(d as int),
{
    if d < 10 {
        (48 + d) as char
    } else {
        (87 + d) as char
    }
}

/// Append `n` in decimal notation.
pub fn push_decimal(r: &mut String, n: u128)
    ensures
        final(r)@ == old(r)@ + decimal(n as nat),
    decreases n,
{
    let ghost start = r@;
    if n >= 10 {
        push_decimal(r, n / 10);
    }
    r.push(digit((n % 10) as u8));
    assert(r@ =~= start + decimal(n as nat));
}

/// Append `n` in decimal notation, with a minus sign when it is negative.
pub fn push_signed(r: &mut String, n: i64)
    ensures
        final(r)@ == old(r)@ + signed_decimal(n as int),
{
    let ghost start = r@;
    if n < 0 {
        r.push('-');
        let m: u64 = if n == i64::MIN {
            0x8000_0000_0000_0000
        } else {
            (-n) as u64
        };
        push_decimal(r, m as u128);
    } else {
        push_decimal(r, n as u128);
    }
    assert(r@ =~= start + signed_decimal(n as int));
}

/// `n` in decimal notation.
pub fn decimal_text(n: u64) -> (r: String)
    ensures
        r@ == decimal(n as nat),
{
    let mut r = String::new();
    push_decimal(&mut r, n as u128);
    assert(r@ =~= decimal(n as nat));
    r
}

/// `n` in lowercase hexadecimal notation.
fn hex_digits(n: usize) -> (v: Vec<char>)
    ensures
        v@ == hexadecimal(n as nat),
    decreases n,
{
    let mut v: Vec<char> = if n >= 16 {
        hex_digits(n / 16)
    } else {
        Vec::new()
    };
    v.push(digit((n % 16) as u8));
    assert(v@ =~= hexadecimal(n as nat));
    v
}

/// Append `n` in hexadecimal notation, with leading zeros up to `width`
/// digits.
pub fn push_padded_hex(r: &mut String, n: usize, width: usize)
    ensures
        final(r)@ == old(r)@ + pad_start(hexadecimal(n as nat), width as nat, '0'),
{
    let ghost start = r@;
    let digits = hex_digits(n);
    let mut i: usize = digits.len();
    while i < width
        invariant
            digits@.len() <= i,
            i <= width || i == digits@.len(),
            r@ =~= start + Seq::new((i - digits@.len()) as nat, |k: int| '0'),
        decreases width - i,
    {
        r.push('0');
        i += 1;
    }
    text::push_chars(r, &digits);
    assert(r@ =~= start + pad_start(hexadecimal(n as nat), width as nat, '0'));
}

/// Append spaces.
pub fn push_spaces(r: &mut String, n: usize)
    ensures
        final(r)@ == old(r)@ + Seq::new(n as nat, |i: int| ' '),
{
    let ghost start = r@;
    let mut i: usize = 0;
    while i < n
        invariant
            i <= n,
            r@ =~= start + Seq::new(i as nat, |k: int| ' '),
        decreases n - i,
    {
        r.push(' ');
        i += 1;
    }
}

/// The byte that a text of decimal digits stands for.
pub fn parse_byte(s: &[char]) -> (r: Option<u8>)
    ensures
        r == byte_value(s@),
{
    if s.len() == 0 {
        return None;
    }
    let mut value: u32 = 0;
    let mut i: usize = 0;
    while i < s.len()
        invariant
            i <= s.len(),
            value == number(s@.take(i as int)),
            value <= 255,
            all_digits(s@.take(i as int)),
        decreases s.len() - i,
    {
        let c = s[i];
        if !('0' <= c && c <= '9') {
            assert(!text::is_digit(s@[i as int]));
            return None;
        }
        proof {
            assert(s@.take(i + 1).drop_last() =~= s@.take(i as int));
            assert(s@.take(i + 1).last() == c);
            assert forall|k: int| 0 <= k < i + 1 implies text::is_digit(
                #[trigger] s@.take(i + 1)[k],
            ) by {
                if k < i {
                    assert(s@.take(i + 1)[k] == s@.take(i as int)[k]);
                }
            }
        }
        value = value * 10 + (c as u32 - 48);
        i += 1;
        if value > 255 {
            proof {
                lemma_number_grows(s@, i as int);
            }
            return None;
        }
    }
    assert(s@.take(i as int) =~= s@);
    Some(value as u8)
}

/// A text of digits stands for at least what a prefix of it stands for.
proof fn lemma_number_grows(s: Seq<char>, i: int)
    requires
        0 <= i <= s.len(),
    ensures
        number(s.take(i)) <= number(s),
    decreases s.len() - i,
{
    if i < s.len() {
        lemma_number_grows(s, i + 1);
        assert(s.take(i + 1).drop_last() =~= s.take(i));
    } else {
        assert(s.take(i) =~= s);
    }
}

/// A number below 1000, filled up to three characters with zeros, has three digits
/// that stand for it.
pub proof fn law_three_digits(n: nat)
    requires
        n < 1000,
    ensures
        pad_start(decimal(n), 3, '0').len() == 3,
        all_digits(pad_start(decimal(n), 3, '0')),
        number(pad_start(decimal(n), 3, '0')) == n,
{
    reveal_with_fuel(decimal, 3);
    reveal_with_fuel(number, 4);
    let s = pad_start(decimal(n), 3, '0');
    let (a, b, c) = ((n / 100) as int, (n / 10 % 10) as int, (n % 10) as int);
    assert(n / 10 / 10 == n / 100 && n / 100 < 10);
    assert(s =~= seq![digit_char(a), digit_char(b), digit_char(c)]);
    let s2 = s.drop_last();
    let s1 = s2.drop_last();
    assert(s1.drop_last() =~= seq![]);
    assert(s1.last() == digit_char(a) && s2.last() == digit_char(b) && s.last() == digit_char(c));
    assert(number(s1) == a);
    assert(number(s2) == a * 10 + b);
    assert(number(s) == (a * 10 + b) * 10 + c);
    assert forall|i: int| 0 <= i < s.len() implies text::is_digit(#[trigger] s[i]) by {
        assert(s[0] == digit_char(a) && s[1] == digit_char(b) && s[2] == digit_char(c));
    }
}

} // verus!
