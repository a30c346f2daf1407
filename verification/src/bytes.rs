//! Numbers in byte sequences: little-endian and big-endian values, and
//! two's-complement integers.

use vstd::prelude::*;

verus! {

/// The value of bytes whose least significant byte comes first.
pub open spec fn little_endian(b: Seq<u8>) -> nat
    decreases b.len(),
{
    if b.len() == 0 {
        0
    } else {
        b[0] as nat + 256 * little_endian(b.drop_first())
    }
}

/// The value of bytes whose most significant byte comes first.
pub open spec fn big_endian(b: Seq<u8>) -> nat
    decreases b.len(),
{
    if b.len() == 0 {
        0
    } else {
        big_endian(b.drop_last()) * 256 + b.last() as nat
    }
}

/// The two's-complement integer with the bits of `n`, where `half` is the
/// weight of the sign bit.
pub open spec fn signed(n: nat, half: int) -> int {
    if n < half {
        n as int
    } else {
        n - 2 * half
    }
}

/// The bytes of a 64-bit value, most significant first.
pub open spec fn big_endian_bytes(n: u64) -> Seq<u8> {
    seq![
        (n / 0x100_0000_0000_0000) as u8,
        (n / 0x1_0000_0000_0000 % 256) as u8,
        (n / 0x100_0000_0000 % 256) as u8,
        (n / 0x1_0000_0000 % 256) as u8,
        (n / 0x100_0000 % 256) as u8,
        (n / 0x1_0000 % 256) as u8,
        (n / 0x100 % 256) as u8,
        (n % 256) as u8,
    ]
}

/// Reading the bytes of a 64-bit value gives the value.
pub proof fn law_big_endian_bytes(n: u64)
    ensures
        big_endian(big_endian_bytes(n)) == n,
{
    lemma_big_endian_8(big_endian_bytes(n));
    let n1 = n / 0x100;
    let n2 = n / 0x1_0000;
    let n3 = n / 0x100_0000;
    let n4 = n / 0x1_0000_0000;
    let n5 = n / 0x100_0000_0000;
    let n6 = n / 0x1_0000_0000_0000;
    let n7 = n / 0x100_0000_0000_0000;
    assert(n2 == n1 / 256 && n3 == n2 / 256 && n4 == n3 / 256 && n5 == n4 / 256 && n6 == n5 / 256
        && n7 == n6 / 256);
    assert(n7 < 256);
}

/// The value of eight bytes, most significant first.
proof fn lemma_big_endian_8(b: Seq<u8>)
    requires
        b.len() == 8,
    ensures
        big_endian(b) == b[0] * 0x100_0000_0000_0000 + b[1] * 0x1_0000_0000_0000 + b[2]
            * 0x100_0000_0000 + b[3] * 0x1_0000_0000 + b[4] * 0x100_0000 + b[5] * 0x1_0000 + b[6]
            * 0x100 + b[7],
{
    let b7 = b.drop_last();
    let b6 = b7.drop_last();
    let b5 = b6.drop_last();
    let b4 = b5.drop_last();
    let b3 = b4.drop_last();
    let b2 = b3.drop_last();
    let b1 = b2.drop_last();
    assert(big_endian(b1.drop_last()) == 0);
    assert(big_endian(b1) == b[0]);
    assert(big_endian(b2) == b[0] * 256 + b[1]);
    assert(big_endian(b3) == big_endian(b2) * 256 + b[2]);
    assert(big_endian(b4) == big_endian(b3) * 256 + b[3]);
    assert(big_endian(b5) == big_endian(b4) * 256 + b[4]);
    assert(big_endian(b6) == big_endian(b5) * 256 + b[5]);
    assert(big_endian(b7) == big_endian(b6) * 256 + b[6]);
}

/// The value of up to eight bytes, least significant first.
pub proof fn lemma_little_endian(b: Seq<u8>)
    ensures
        b.len() == 1 ==> little_endian(b) == b[0],
        b.len() == 2 ==> little_endian(b) == b[0] + 256 * b[1],
        b.len() == 3 ==> little_endian(b) == b[0] + 256 * b[1] + 0x1_0000 * b[2],
        b.len() == 4 ==> little_endian(b) == b[0] + 256 * b[1] + 0x1_0000 * b[2] + 0x100_0000
            * b[3],
        b.len() == 8 ==> little_endian(b) == b[0] + 256 * b[1] + 0x1_0000 * b[2] + 0x100_0000 * b[3]
            + 0x1_0000_0000 * b[4] + 0x100_0000_0000 * b[5] + 0x1_0000_0000_0000 * b[6]
            + 0x100_0000_0000_0000 * b[7],
{
    reveal_with_fuel(little_endian, 9);
}

/// Reading the bytes of a number, least significant first, gives the number: each
/// byte weighs 256 times the one before it.
pub proof fn law_little_endian_bytes(a: u8, b: u16, c: u32, d: u64)
    ensures
        little_endian(seq![a]) == a,
        little_endian(seq![(b % 256) as u8, (b / 256) as u8]) == b,
        little_endian(
            seq![
                (c % 256) as u8,
                (c / 0x100 % 256) as u8,
                (c / 0x1_0000 % 256) as u8,
                (c / 0x100_0000) as u8,
            ],
        ) == c,
        little_endian(
            seq![
                (d % 256) as u8,
                (d / 0x100 % 256) as u8,
                (d / 0x1_0000 % 256) as u8,
                (d / 0x100_0000 % 256) as u8,
                (d / 0x1_0000_0000 % 256) as u8,
                (d / 0x100_0000_0000 % 256) as u8,
                (d / 0x1_0000_0000_0000 % 256) as u8,
                (d / 0x100_0000_0000_0000) as u8,
            ],
        ) == d,
{
    lemma_little_endian(seq![a]);
    lemma_little_endian(seq![(b % 256) as u8, (b / 256) as u8]);
    lemma_little_endian(
        seq![
            (c % 256) as u8,
            (c / 0x100 % 256) as u8,
            (c / 0x1_0000 % 256) as u8,
            (c / 0x100_0000) as u8,
        ],
    );
    lemma_little_endian(
        seq![
            (d % 256) as u8,
            (d / 0x100 % 256) as u8,
            (d / 0x1_0000 % 256) as u8,
            (d / 0x100_0000 % 256) as u8,
            (d / 0x1_0000_0000 % 256) as u8,
            (d / 0x100_0000_0000 % 256) as u8,
            (d / 0x1_0000_0000_0000 % 256) as u8,
            (d / 0x100_0000_0000_0000) as u8,
        ],
    );
    let (c1, c2, c3) = (c / 0x100, c / 0x1_0000, c / 0x100_0000);
    assert(c2 == c1 / 256 && c3 == c2 / 256 && c3 < 256);
    let d1 = d / 0x100;
    let d2 = d / 0x1_0000;
    let d3 = d / 0x100_0000;
    let d4 = d / 0x1_0000_0000;
    let d5 = d / 0x100_0000_0000;
    let d6 = d / 0x1_0000_0000_0000;
    let d7 = d / 0x100_0000_0000_0000;
    assert(d2 == d1 / 256 && d3 == d2 / 256 && d4 == d3 / 256 && d5 == d4 / 256 && d6 == d5 / 256
        && d7 == d6 / 256);
    assert(d7 < 256);
}

/// The bits of an integer, read as two's complement, give the integer: a negative
/// one has the bits of the number that is greater by twice the sign's weight.
pub proof fn law_twos_complement(v: int, half: int)
    requires
        -half <= v < half,
    ensures
        v >= 0 ==> signed(v as nat, half) == v,
        v < 0 ==> signed((v + 2 * half) as nat, half) == v,
{
}

/// The big-endian value of the eight bytes from `at` on.
pub fn be_u64(data: &[u8], at: usize) -> (n: u64)
    requires
        at + 8 <= data@.len(),
    ensures
        n == big_endian(data@.subrange(at as int, at + 8)),
{
    proof {
        lemma_big_endian_8(data@.subrange(at as int, at + 8));
    }
    data[at] as u64 * 0x100_0000_0000_0000 + data[at + 1] as u64 * 0x1_0000_0000_0000 + data[at
        + 2] as u64 * 0x100_0000_0000 + data[at + 3] as u64 * 0x1_0000_0000 + data[at + 4] as u64
        * 0x100_0000 + data[at + 5] as u64 * 0x1_0000 + data[at + 6] as u64 * 0x100 + data[at
        + 7] as u64
}

/// The little-endian value of two bytes.
pub fn le_u16(b: &[u8]) -> (n: u16)
    requires
        b@.len() == 2,
    ensures
        n == little_endian(b@),
{
    proof {
        lemma_little_endian(b@);
    }
    b[0] as u16 + 256 * (b[1] as u16)
}

/// The little-endian value of four bytes.
pub fn le_u32(b: &[u8]) -> (n: u32)
    requires
        b@.len() == 4,
    ensures
        n == little_endian(b@),
{
    proof {
        lemma_little_endian(b@);
    }
    b[0] as u32 + 256 * (b[1] as u32) + 0x1_0000 * (b[2] as u32) + 0x100_0000 * (b[3] as u32)
}

/// The little-endian value of eight bytes.
pub fn le_u64(b: &[u8]) -> (n: u64)
    requires
        b@.len() == 8,
    ensures
        n == little_endian(b@),
{
    proof {
        lemma_little_endian(b@);
    }
    b[0] as u64 + 256 * (b[1] as u64) + 0x1_0000 * (b[2] as u64) + 0x100_0000 * (b[3] as u64)
        + 0x1_0000_0000 * (b[4] as u64) + 0x100_0000_0000 * (b[5] as u64) + 0x1_0000_0000_0000 * (
    b[6] as u64) + 0x100_0000_0000_0000 * (b[7] as u64)
}

/// The two's-complement integer of one byte.
pub fn signed_8(n: u8) -> (i: i64)
    ensures
        i == signed(n as nat, 0x80),
{
    if n < 0x80 {
        n as i64
    } else {
        n as i64 - 0x100
    }
}

/// The two's-complement integer of 16 bits.
pub fn signed_16(n: u16) -> (i: i64)
    ensures
        i == signed(n as nat, 0x8000),
{
    if n < 0x8000 {
        n as i64
    } else {
        n as i64 - 0x1_0000
    }
}

/// The two's-complement integer of 32 bits.
pub fn signed_32(n: u32) -> (i: i64)
    ensures
        i == signed(n as nat, 0x8000_0000),
{
    if n < 0x8000_0000 {
        n as i64
    } else {
        n as i64 - 0x1_0000_0000
    }
}

/// The two's-complement integer of 64 bits.
pub fn signed_64(n: u64) -> (i: i64)
    ensures
        i == signed(n as nat, 0x8000_0000_0000_0000),
{
    if n < 0x8000_0000_0000_0000 {
        n as i64
    } else {
        -((u64::MAX - n) as i64) - 1
    }
}

/// The lowest byte of an integer in two's complement.
pub open spec fn low_byte(v: int) -> u8 {
    (v % 256) as u8
}

/// The two bytes of an integer in two's complement, least significant first.
pub open spec fn two_bytes(v: int) -> Seq<u8> {
    seq![low_byte(v), low_byte(v / 0x100)]
}

/// The four bytes of an integer in two's complement, least significant first.
pub open spec fn four_bytes(v: int) -> Seq<u8> {
    seq![low_byte(v), low_byte(v / 0x100), low_byte(v / 0x1_0000), low_byte(v / 0x100_0000)]
}

/// The eight bytes of an integer in two's complement, least significant first.
pub open spec fn eight_bytes(v: int) -> Seq<u8> {
    four_bytes(v) + four_bytes(v / 0x1_0000_0000)
}

/// Reading the bytes of an integer gives the integer, signed or not.
pub proof fn law_integer_bytes(v: int)
    ensures
        -0x80 <= v < 0x80 ==> signed(little_endian(seq![low_byte(v)]), 0x80) == v,
        0 <= v < 0x100 ==> little_endian(seq![low_byte(v)]) == v,
        -0x8000 <= v < 0x8000 ==> signed(little_endian(two_bytes(v)), 0x8000) == v,
        0 <= v < 0x1_0000 ==> little_endian(two_bytes(v)) == v,
        -0x8000_0000 <= v < 0x8000_0000 ==> signed(little_endian(four_bytes(v)), 0x8000_0000) == v,
        0 <= v < 0x1_0000_0000 ==> little_endian(four_bytes(v)) == v,
        -0x8000_0000_0000_0000 <= v < 0x8000_0000_0000_0000 ==> signed(
            little_endian(eight_bytes(v)),
            0x8000_0000_0000_0000,
        ) == v,
        0 <= v < 0x1_0000_0000_0000_0000 ==> little_endian(eight_bytes(v)) == v,
{
    lemma_little_endian(seq![low_byte(v)]);
    lemma_little_endian(two_bytes(v));
    lemma_little_endian(four_bytes(v));
    lemma_little_endian(eight_bytes(v));
    lemma_low_bytes(v);
    lemma_low_bytes(v / 0x1_0000_0000);
}

/// An integer from its low bytes and what is above them.
proof fn lemma_low_bytes(v: int)
    ensures
        v == low_byte(v) + 0x100 * (v / 0x100),
        v == low_byte(v) + 0x100 * low_byte(v / 0x100) + 0x1_0000 * (v / 0x1_0000),
        v == low_byte(v) + 0x100 * low_byte(v / 0x100) + 0x1_0000 * low_byte(v / 0x1_0000)
            + 0x100_0000 * low_byte(v / 0x100_0000) + 0x1_0000_0000 * (v / 0x1_0000_0000),
{
    let v1 = v / 0x100;
    let v2 = v / 0x1_0000;
    let v3 = v / 0x100_0000;
    let v4 = v / 0x1_0000_0000;
    assert(v2 == v1 / 256 && v3 == v2 / 256 && v4 == v3 / 256);
    assert(low_byte(v) == v % 256 && low_byte(v1) == v1 % 256);
    assert(low_byte(v2) == v2 % 256 && low_byte(v3) == v3 % 256);
}

} // verus!
