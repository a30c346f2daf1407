//! Time formatting and the jump-to-time parser.

use chrono::{DateTime, NaiveDateTime, NaiveTime, Timelike};

use vstd::prelude::*;
use vstd::slice::slice_subrange;
use crate::{bytes, numeral, text, value};

verus! {

/// How timestamps are shown in the message list and jump prompt.
#[derive(Clone, Copy, Debug, PartialEq, Eq, Structural)]
pub enum TimeFormat {
    DateTime,
    OffsetSecs,
}

impl Default for TimeFormat {
    fn default() -> (r: TimeFormat)
        ensures
            r == TimeFormat::DateTime,
    {
        TimeFormat::DateTime
    }
}

/// The UTC time of a number of microseconds since 1970 in the given notation,
/// where it is in the range of the calendar.
pub uninterp spec fn utc_text(micros: i64, notation: Seq<char>) -> Option<Seq<char>>;

/// `DateTime::from_timestamp_micros`, then the text that `DateTime::format`
/// makes of it; `None` where the first gives none. The contract only says that
/// the microseconds and the notation determine the result. The notation is one
/// that `format` accepts: it panics on others.
#[verifier::external_body]
fn format_utc(micros: i64, notation: &str) -> (r: Option<String>)
    requires
        notation@ == "%Y-%m-%d %H:%M:%S%.3f"@,
    ensures
        value::text_of(r) == utc_text(micros, notation@),
{
    DateTime::from_timestamp_micros(micros).map(|t| t.format(notation).to_string())
}

/// The microseconds since 1970 of a date and time in the given notation.
pub uninterp spec fn datetime_micros(s: Seq<char>, notation: Seq<char>) -> Option<i64>;

/// `NaiveDateTime::parse_from_str`, taken as UTC, as the microseconds of
/// `timestamp_micros`; `None` where parsing reports an error. The contract only
/// says that the text and the notation determine the result. The notation is
/// fixed: under some others, such as one with an ISO year, parsing can overflow.
#[verifier::external_body]
fn parse_datetime(s: &str, notation: &str) -> (r: Option<i64>)
    requires
        notation@ == "%Y-%m-%d %H:%M:%S%.f"@,
    ensures
        r == datetime_micros(s@, notation@),
{
    NaiveDateTime::parse_from_str(s, notation).ok().map(|t| t.and_utc().timestamp_micros())
}

/// The seconds since midnight and the nanoseconds of a time of day in the given
/// notation.
pub uninterp spec fn clock(s: Seq<char>, notation: Seq<char>) -> Option<(u32, u32)>;

/// `NaiveTime::parse_from_str`, as the seconds since midnight and the
/// nanoseconds of the time; `None` where parsing reports an error. The text and
/// the notation determine the result; the seconds are those of one day, and the
/// nanoseconds those of at most two seconds, for a leap second.
#[verifier::external_body]
fn parse_clock(s: &str, notation: &str) -> (r: Option<(u32, u32)>)
    requires
        notation@ == "%H:%M:%S%.f"@ || notation@ == "%H:%M"@,
    ensures
        r == clock(s@, notation@),
        r matches Some(t) ==> t.0 < 86_400 && t.1 < 2_000_000_000,
{
    NaiveTime::parse_from_str(s, notation).ok().map(|t| {
        (t.num_seconds_from_midnight(), t.nanosecond())
    })
}

/// The second since 1970 at which the UTC day of a number of microseconds
/// starts, where that day is in the range of the calendar.
pub uninterp spec fn day_start(micros: i64) -> Option<i64>;

/// `DateTime::from_timestamp_micros`, then the second at which its date starts;
/// `None` where the first gives none, which is not within 250 000 years of 1970.
/// A day has 86 400 seconds, and the calendar ends before the 8 400 000 000 000th
/// second in either direction.
#[verifier::external_body]
fn start_of_day(micros: i64) -> (r: Option<i64>)
    ensures
        r == day_start(micros),
        r matches Some(s) ==> s == (micros as int) / 86_400_000_000 * 86_400 && -8_400_000_000_000
            < s < 8_400_000_000_000,
        -7_800_000_000_000_000_000 < micros < 7_800_000_000_000_000_000 ==> r is Some,
{
    DateTime::from_timestamp_micros(micros).map(|t| {
        t.date_naive().and_time(NaiveTime::MIN).and_utc().timestamp()
    })
}

/// A microsecond count as the signed 64-bit integer with the same bits.
pub open spec fn as_signed(us: u64) -> i64 {
    bytes::signed(us as nat, 0x8000_0000_0000_0000) as i64
}

/// How an absolute time is shown, given its calendar text if it has one.
pub open spec fn datetime_label(calendar: Option<Seq<char>>, timestamp_us: u64) -> Seq<char> {
    match calendar {
        Some(s) => s,
        None => "("@ + numeral::decimal(timestamp_us as nat) + " us)"@,
    }
}

/// How an absolute time is shown, given its calendar text if it has one.
pub fn datetime_label_of(calendar: Option<String>, timestamp_us: u64) -> (r: String)
    ensures
        r@ == datetime_label(value::text_of(calendar), timestamp_us),
{
    match calendar {
        Some(s) => s,
        None => {
            let mut r = "(".to_string();
            numeral::push_decimal(&mut r, timestamp_us as u128);
            r.append(" us)");
            r
        },
    }
}

/// Absolute wall-clock time, e.g. "2024-07-17 07:06:40.000" (UTC).
pub fn format_datetime(timestamp_us: u64) -> (r: String)
    ensures
        r@ == datetime_label(
            utc_text(as_signed(timestamp_us), "%Y-%m-%d %H:%M:%S%.3f"@),
            timestamp_us,
        ),
{
    let calendar = format_utc(bytes::signed_64(timestamp_us), "%Y-%m-%d %H:%M:%S%.3f");
    datetime_label_of(calendar, timestamp_us)
}

/// `n / d` rounded to the nearest integer, and to the even one of two equally
/// near.
pub open spec fn nearest(n: nat, d: nat) -> nat {
    let q = n / d;
    let r = n % d;
    if 2 * r < d || (2 * r == d && q % 2 == 0) {
        q
    } else {
        q + 1
    }
}

/// The smallest power of two times `d` by which `n` must be divided to fit into
/// the 53 bits of a binary64 significand.
pub open spec fn last_place(n: nat, d: nat) -> nat
    decreases 2 * n - d,
{
    if d == 0 || d > n || n / d < 0x20_0000_0000_0000 {
        d
    } else {
        last_place(n, 2 * d)
    }
}

/// The binary64 number nearest to an integer.
pub open spec fn double_of(n: nat) -> nat {
    nearest(n, last_place(n, 1)) * last_place(n, 1)
}

/// 10^6 times the smallest significand of a normal binary64 number.
pub const MILLION_SIGNIFICANDS: u128 = 4_503_599_627_370_496_000_000;

/// `n / d` as an equal fraction whose quotient by 10^6 has a full significand.
pub open spec fn normalized(n: nat, d: nat) -> (nat, nat)
    decreases 2 * MILLION_SIGNIFICANDS - n,
{
    if n == 0 || n >= MILLION_SIGNIFICANDS {
        (n, d)
    } else {
        normalized(2 * n, 2 * d)
    }
}

/// The binary64 quotient of a binary64 integer by 10^6, as the fraction of a
/// significand and a power of two.
pub open spec fn millionth(m: nat) -> (nat, nat) {
    let (a, d) = normalized(m, 1);
    (nearest(a, 1_000_000), d)
}

/// A number of microseconds in seconds, as a binary64 number rounded to three
/// decimals: the thousandths of a second.
pub open spec fn milliseconds(micros: nat) -> nat {
    let (q, d) = millionth(double_of(micros));
    nearest(q * 1000, d)
}

/// How a time relative to the start is shown: a sign and seconds with three
/// decimals.
pub open spec fn offset_text(micros: int) -> Seq<char> {
    let t = milliseconds(
        (if micros < 0 {
            -micros
        } else {
            micros
        }) as nat,
    );
    seq![
        'T',
        if micros < 0 {
            '-'
        } else {
            '+'
        },
    ] + numeral::decimal(t / 1000) + seq!['.'] + numeral::pad_start(
        numeral::decimal(t % 1000),
        3,
        '0',
    ) + seq!['s']
}

/// The difference of two timestamps, taken as signed 64-bit integers, modulo
/// 2^64.
pub open spec fn offset_us(timestamp_us: u64, start_us: u64) -> int {
    vstd::wrapping::i64_specs::wrapping_sub(as_signed(timestamp_us), as_signed(start_us)) as int
}

/// `n / d` rounded to the nearest integer, and to the even one of two equally
/// near.
fn round_div(n: u128, d: u128) -> (r: u128)
    requires
        0 < d,
        n / d < u128::MAX,
    ensures
        r == nearest(n as nat, d as nat),
        r <= n / d + 1,
{
    let q: u128 = n / d;
    let rest: u128 = n % d;
    if rest < d - rest || (rest == d - rest && q % 2 == 0) {
        q
    } else {
        q + 1
    }
}

/// The binary64 number nearest to an integer.
pub fn to_double(n: u64) -> (r: u128)
    ensures
        r == double_of(n as nat),
        r <= 0x4_0000_0000_0000_0000,
{
    let n: u128 = n as u128;
    let mut d: u128 = 1;
    while d <= n && n / d >= 0x20_0000_0000_0000
        invariant
            n <= u64::MAX,
            1 <= d <= 4096,
            last_place(n as nat, 1) == last_place(n as nat, d as nat),
        decreases 8192 - d,
    {
        assert(d <= 2048) by (nonlinear_arith)
            requires
                n <= 0xFFFF_FFFF_FFFF_FFFF,
                d >= 1,
                n / d >= 0x20_0000_0000_0000,
        ;
        d = d * 2;
    }
    assert(n / d <= n) by (nonlinear_arith)
        requires
            d >= 1,
    ;
    assert((n / d) * d <= n) by (nonlinear_arith)
        requires
            d >= 1,
    ;
    let q = round_div(n, d);
    assert(q * d <= n + 4096) by (nonlinear_arith)
        requires
            q <= n / d + 1,
            (n / d) * d <= n,
            1 <= d <= 4096,
    ;
    q * d
}

/// A number of microseconds in seconds, as a binary64 number rounded to three
/// decimals.
pub fn to_milliseconds(micros: u64) -> (r: u128)
    ensures
        r == milliseconds(micros as nat),
{
    let m = to_double(micros);
    let mut a: u128 = m;
    let mut d: u128 = 1;
    while a != 0 && a < MILLION_SIGNIFICANDS
        invariant
            1 <= d,
            a == 0 || d <= a,
            a == 0 ==> d == 1,
            a < 2 * MILLION_SIGNIFICANDS,
            normalized(m as nat, 1) == normalized(a as nat, d as nat),
        decreases 2 * MILLION_SIGNIFICANDS - a,
    {
        a = a * 2;
        d = d * 2;
    }
    let q = round_div(a, 1_000_000);
    let n: u128 = q * 1000;
    assert(n / d <= n) by (nonlinear_arith)
        requires
            d >= 1,
    ;
    round_div(n, d)
}

/// Seconds relative to the start of the log, e.g. "T+4.600s".
pub fn format_offset(timestamp_us: u64, start_us: u64) -> (r: String)
    ensures
        r@ == offset_text(offset_us(timestamp_us, start_us)),
{
    let diff: i64 = bytes::signed_64(timestamp_us).wrapping_sub(bytes::signed_64(start_us));
    let size: u64 = if diff == i64::MIN {
        0x8000_0000_0000_0000
    } else if diff < 0 {
        (-diff) as u64
    } else {
        diff as u64
    };
    let t = to_milliseconds(size);
    let mut r = String::new();
    r.push('T');
    r.push(
        if diff < 0 {
            '-'
        } else {
            '+'
        },
    );
    numeral::push_decimal(&mut r, t / 1000);
    r.push('.');
    let rest: u128 = t % 1000;
    if rest < 100 {
        r.push('0');
    }
    if rest < 10 {
        r.push('0');
    }
    numeral::push_decimal(&mut r, rest);
    r.push('s');
    proof {
        reveal_with_fuel(numeral::decimal, 4);
        assert(r@ =~= offset_text(diff as int));
    }
    r
}

/// Scaling a fraction keeps its value and fills the significand.
proof fn lemma_normalized(n: nat, d: nat)
    requires
        0 < n < 2 * MILLION_SIGNIFICANDS,
        0 < d,
    ensures
        normalized(n, d).0 * d == n * normalized(n, d).1,
        MILLION_SIGNIFICANDS <= normalized(n, d).0 < 2 * MILLION_SIGNIFICANDS,
        normalized(n, d).1 > 0,
    decreases 2 * MILLION_SIGNIFICANDS - n,
{
    if n < MILLION_SIGNIFICANDS {
        lemma_normalized(2 * n, 2 * d);
        let (a, e) = normalized(2 * n, 2 * d);
        assert(a * d == n * e) by (nonlinear_arith)
            requires
                a * (2 * d) == (2 * n) * e,
        ;
    }
}

/// A shown offset is off by at most half a millisecond; an offset of whole
/// milliseconds is shown exactly.
pub proof fn law_offset_is_rounded(micros: nat)
    requires
        micros < 0x20_0000_0000_0000,
    ensures
        -500 <= 1000 * milliseconds(micros) - micros <= 500,
        micros % 1000 == 0 ==> milliseconds(micros) == micros / 1000,
{
    assert(micros / 1 == micros && micros % 1 == 0);
    assert(last_place(micros, 1) == 1);
    assert(double_of(micros) == micros) by (nonlinear_arith)
        requires
            last_place(micros, 1) == 1,
            nearest(micros, 1) == micros,
            double_of(micros) == nearest(micros, last_place(micros, 1)) * last_place(micros, 1),
    ;
    if micros == 0 {
        assert(normalized(0, 1) == (0nat, 1nat));
        assert(nearest(0, 1_000_000) == 0);
        assert(nearest(0, 1) == 0);
    } else {
        lemma_normalized(micros, 1);
        let (a, d) = normalized(micros, 1);
        let q = nearest(a, 1_000_000);
        let t = nearest(q * 1000, d);
        assert(-500_000 <= q * 1_000_000 - a <= 500_000);
        assert(d > 500_000) by (nonlinear_arith)
            requires
                a == micros * d,
                a >= 4_503_599_627_370_496_000_000,
                micros < 0x20_0000_0000_0000,
        ;
        let n = q * 1000;
        lemma_nearest(n, d);
        assert(-500 <= 1000 * t - micros <= 500) by (nonlinear_arith)
            requires
                a == micros * d,
                n == q * 1000,
                -500_000 <= q * 1_000_000 - a <= 500_000,
                -(d as int) <= 2 * (t * d - n) <= d,
                d > 500_000,
        ;
    }
}

/// Rounding moves a quotient by at most one half.
proof fn lemma_nearest(n: nat, d: nat)
    requires
        d > 0,
    ensures
        -(d as int) <= 2 * (nearest(n, d) * d - n) <= d,
{
    vstd::arithmetic::div_mod::lemma_fundamental_div_mod(n as int, d as int);
    let q = n / d;
    let r = n % d;
    assert(d * q == q * d) by (nonlinear_arith);
    assert((q + 1) * d == q * d + d) by (nonlinear_arith);
}

/// What of a jump input is read as seconds: the input without the `T` in front
/// and the `s` behind that offsets are shown with.
pub open spec fn seconds_part(input: Seq<char>) -> Seq<char> {
    let s = text::trim(input);
    let s = if s.len() > 0 && s[0] == 'T' {
        s.skip(1)
    } else {
        s
    };
    if s.len() > 0 && s.last() == 's' {
        s.drop_last()
    } else {
        s
    }
}

/// A time in microseconds, or 0 where it lies before 1970.
pub open spec fn not_before_1970(micros: int) -> u64 {
    if micros < 0 {
        0
    } else {
        micros as u64
    }
}

/// The time at which the day of the log start shows the given clock time.
pub open spec fn clock_target(day: i64, time: (u32, u32)) -> int {
    (day + time.0) * 1_000_000 + time.1 as int / 1000
}

/// What a jump to a wall-clock time means: a date and time, or a time of the
/// day on which the log starts.
pub open spec fn datetime_target(
    full: Option<i64>,
    day: Option<i64>,
    exact: Option<(u32, u32)>,
    short: Option<(u32, u32)>,
) -> Result<u64, Seq<char>> {
    match full {
        Some(us) => Ok(not_before_1970(us as int)),
        None => match day {
            None => Err("log start time invalid"@),
            Some(d) => match exact {
                Some(t) => Ok(not_before_1970(clock_target(d, t))),
                None => match short {
                    Some(t) => Ok(not_before_1970(clock_target(d, t))),
                    None => Err("expected HH:MM:SS[.mmm] or YYYY-MM-DD HH:MM:SS"@),
                },
            },
        },
    }
}

/// What a jump by an offset means, given the offset in microseconds if the
/// input could be read as seconds.
pub open spec fn offset_target(micros: Option<i64>, start_us: u64) -> Result<u64, Seq<char>> {
    match micros {
        Some(us) => Ok(
            not_before_1970(
                vstd::wrapping::i64_specs::wrapping_add(as_signed(start_us), us) as int,
            ),
        ),
        None => Err("expected seconds, e.g. 42.5"@),
    }
}

/// What a jump input means. For an offset, `micros` is what its seconds part
/// stands for in microseconds.
pub open spec fn jump_target(
    input: Seq<char>,
    format: TimeFormat,
    start_us: u64,
    micros: Option<i64>,
) -> Result<u64, Seq<char>> {
    let s = text::trim(input);
    if s.len() == 0 {
        Err("empty input"@)
    } else {
        match format {
            TimeFormat::OffsetSecs => offset_target(micros, start_us),
            TimeFormat::DateTime => datetime_target(
                datetime_micros(s, "%Y-%m-%d %H:%M:%S%.f"@),
                day_start(as_signed(start_us)),
                clock(s, "%H:%M:%S%.f"@),
                clock(s, "%H:%M"@),
            ),
        }
    }
}

/// What of a jump input is read as seconds.
pub fn seconds_text(input: &str) -> (r: String)
    ensures
        r@ == seconds_part(input@),
{
    let chars = text::chars_of(input);
    let s = text::trimmed(&chars);
    let s = if s.len() > 0 && s[0] == 'T' {
        let cut = slice_subrange(s, 1, s.len());
        assert(cut@ =~= s@.skip(1));
        cut
    } else {
        s
    };
    let s = if s.len() > 0 && s[s.len() - 1] == 's' {
        let cut = slice_subrange(s, 0, s.len() - 1);
        assert(cut@ =~= s@.drop_last());
        cut
    } else {
        s
    };
    text::string_of(s)
}

/// A time in microseconds, or 0 where it lies before 1970.
fn clamped(micros: i64) -> (r: u64)
    ensures
        r == not_before_1970(micros as int),
{
    if micros < 0 {
        0
    } else {
        micros as u64
    }
}

/// What a jump to a wall-clock time means, given what the calendar made of the
/// input and of the log start.
pub fn datetime_jump(
    full: Option<i64>,
    day: Option<i64>,
    exact: Option<(u32, u32)>,
    short: Option<(u32, u32)>,
) -> (r: Result<u64, String>)
    requires
        day matches Some(d) ==> -8_400_000_000_000 < d < 8_400_000_000_000,
        exact matches Some(t) ==> t.0 < 86_400 && t.1 < 2_000_000_000,
        short matches Some(t) ==> t.0 < 86_400 && t.1 < 2_000_000_000,
    ensures
        match datetime_target(full, day, exact, short) {
            Ok(us) => r == Ok::<u64, String>(us),
            Err(e) => r matches Err(m) && m@ == e,
        },
{
    if let Some(us) = full {
        return Ok(clamped(us));
    }
    let day = match day {
        Some(d) => d,
        None => return Err("log start time invalid".to_string()),
    };
    let time = match exact {
        Some(t) => t,
        None => match short {
            Some(t) => t,
            None => return Err("expected HH:MM:SS[.mmm] or YYYY-MM-DD HH:MM:SS".to_string()),
        },
    };
    let us: i64 = (day + time.0 as i64) * 1_000_000 + (time.1 / 1000) as i64;
    Ok(clamped(us))
}

/// What a jump by an offset means, given the offset in microseconds if the
/// input could be read as seconds.
pub fn offset_jump(micros: Option<i64>, start_us: u64) -> (r: Result<u64, String>)
    ensures
        match offset_target(micros, start_us) {
            Ok(us) => r == Ok::<u64, String>(us),
            Err(e) => r matches Err(m) && m@ == e,
        },
{
    match micros {
        Some(us) => Ok(clamped(bytes::signed_64(start_us).wrapping_add(us))),
        None => Err("expected seconds, e.g. 42.5".to_string()),
    }
}

/// Parse jump input into an absolute timestamp in microseconds. The accepted
/// syntax follows the current time column format: seconds relative to the log
/// start, or a wall-clock time (date defaults to the log start's date, UTC).
/// For seconds, `micros` is what `seconds_text` of the input stands for, in
/// microseconds.
pub fn parse_jump(input: &str, format: TimeFormat, start_us: u64, micros: Option<i64>) -> (r: Result<
    u64,
    String,
>)
    ensures
        match jump_target(input@, format, start_us, micros) {
            Ok(us) => r == Ok::<u64, String>(us),
            Err(e) => r matches Err(m) && m@ == e,
        },
{
    let chars = text::chars_of(input);
    let trimmed = text::trimmed(&chars);
    if trimmed.len() == 0 {
        return Err("empty input".to_string());
    }
    match format {
        TimeFormat::OffsetSecs => offset_jump(micros, start_us),
        TimeFormat::DateTime => {
            let s = text::string_of(trimmed);
            datetime_jump(
                parse_datetime(s.as_str(), "%Y-%m-%d %H:%M:%S%.f"),
                start_of_day(bytes::signed_64(start_us)),
                parse_clock(s.as_str(), "%H:%M:%S%.f"),
                parse_clock(s.as_str(), "%H:%M"),
            )
        },
    }
}

/// A time relative to the start is shown as a `T`, a sign, digits, a dot, three digits
/// that stand for the thousandths of a second, rounded by at most one half, and an `s`.
pub proof fn law_offset_is_shown(micros: int)
    requires
        -0x20_0000_0000_0000 < micros < 0x20_0000_0000_0000,
    ensures
        ({
            let s = offset_text(micros);
            let size = if micros < 0 {
                -micros
            } else {
                micros
            };
            let dot = s.len() - 5;
            let thousandths = 1000 * numeral::number(s.subrange(2, dot)) + numeral::number(
                s.subrange(dot + 1, dot + 4),
            );
            &&& 2 < dot
            &&& s[0] == 'T'
            &&& micros < 0 ==> s[1] == '-'
            &&& micros >= 0 ==> s[1] == '+'
            &&& s[dot] == '.'
            &&& s.last() == 's'
            &&& numeral::all_digits(s.subrange(2, dot))
            &&& numeral::all_digits(s.subrange(dot + 1, dot + 4))
            &&& -500 <= 1000 * thousandths - size <= 500
            &&& size % 1000 == 0 ==> thousandths == size / 1000
        }),
{
    let size = if micros < 0 {
        -micros
    } else {
        micros
    };
    let t = milliseconds(size as nat);
    law_offset_is_rounded(size as nat);
    let whole = numeral::decimal(t / 1000);
    let part = numeral::pad_start(numeral::decimal(t % 1000), 3, '0');
    numeral::law_decimal_reads_back(t / 1000, 0);
    numeral::lemma_decimal(t / 1000);
    numeral::law_three_digits(t % 1000);
    let s = offset_text(micros);
    let dot = s.len() - 5;
    assert(dot == 2 + whole.len());
    assert(s.subrange(2, dot) =~= whole);
    assert(s.subrange(dot + 1, dot + 4) =~= part);
}

/// The offset of a time is its distance from the start.
pub proof fn law_offset_is_distance(timestamp_us: u64, start_us: u64)
    requires
        timestamp_us < 0x8000_0000_0000_0000,
        start_us < 0x8000_0000_0000_0000,
    ensures
        offset_us(timestamp_us, start_us) == timestamp_us - start_us,
{
}

/// A time is shown by its calendar text, or by its microseconds where it has none.
pub proof fn law_datetime_is_shown(calendar: Seq<char>, timestamp_us: u64)
    ensures
        datetime_label(Some(calendar), timestamp_us) == calendar,
        ({
            let s = datetime_label(None, timestamp_us);
            &&& s.len() > 5
            &&& s[0] == '('
            &&& s.skip(s.len() - 4) == seq![' ', 'u', 's', ')']
            &&& numeral::number(s.subrange(1, s.len() - 4)) == timestamp_us
        }),
{
    reveal_strlit("(");
    reveal_strlit(" us)");
    numeral::law_decimal_reads_back(timestamp_us as nat, 0);
    numeral::lemma_decimal(timestamp_us as nat);
    let s = datetime_label(None, timestamp_us);
    let n = numeral::decimal(timestamp_us as nat);
    assert(s.len() == n.len() + 5);
    assert(s.subrange(1, s.len() - 4) =~= n);
    assert(s.skip(s.len() - 4) =~= seq![' ', 'u', 's', ')']);
}

/// A jump by an offset goes that many microseconds from the start, and not before
/// 1970; without a number it is refused.
pub proof fn law_jump_by_offset(us: i64, start_us: u64)
    requires
        start_us < 0x8000_0000_0000_0000,
        start_us + us < 0x8000_0000_0000_0000,
    ensures
        start_us + us >= 0 ==> (offset_target(Some(us), start_us) matches Ok(t) && t == start_us
            + us),
        start_us + us < 0 ==> offset_target(Some(us), start_us) == Ok::<u64, Seq<char>>(0),
        offset_target(None, start_us) is Err,
{
}

/// A jump to a date and time goes there. A jump to a time of day goes to that time on
/// the day of the start, to the microsecond; one with seconds is preferred to one
/// without. Nothing goes before 1970, and what is neither is refused.
pub proof fn law_jump_by_clock(
    us: i64,
    day: i64,
    exact: (u32, u32),
    short: (u32, u32),
    other_day: Option<i64>,
    a: Option<(u32, u32)>,
    b: Option<(u32, u32)>,
)
    requires
        -8_400_000_000_000 < day < 8_400_000_000_000,
        exact.0 < 86_400 && exact.1 < 2_000_000_000,
        short.0 < 86_400 && short.1 < 2_000_000_000,
    ensures
        us >= 0 ==> (datetime_target(Some(us), other_day, a, b) matches Ok(t) && t == us),
        us < 0 ==> datetime_target(Some(us), other_day, a, b) == Ok::<u64, Seq<char>>(0),
        day >= 0 ==> (datetime_target(None, Some(day), Some(exact), b) matches Ok(t) && 1000 * t
            <= (day + exact.0) * 1_000_000_000 + exact.1 < 1000 * t + 1000),
        day >= 0 ==> (datetime_target(None, Some(day), None, Some(short)) matches Ok(t) && 1000 * t
            <= (day + short.0) * 1_000_000_000 + short.1 < 1000 * t + 1000),
        day < -86_402 ==> datetime_target(None, Some(day), Some(exact), b) == Ok::<u64, Seq<char>>(
            0,
        ) && datetime_target(None, Some(day), None, Some(short)) == Ok::<u64, Seq<char>>(0),
        datetime_target(None, None, a, b) is Err,
        datetime_target(None, Some(day), None, None) is Err,
{
}

/// What a jump input stands for depends on the format: seconds from the start for
/// offsets, a date or a time of day for the calendar. Blank input is refused.
pub proof fn law_jump_input(
    input: Seq<char>,
    start_us: u64,
    micros: Option<i64>,
    format: TimeFormat,
)
    ensures
        text::trim(input).len() == 0 ==> jump_target(input, format, start_us, micros) is Err,
        text::trim(input).len() > 0 ==> {
            &&& jump_target(input, TimeFormat::OffsetSecs, start_us, micros) == offset_target(
                micros,
                start_us,
            )
            &&& jump_target(input, TimeFormat::DateTime, start_us, micros) == datetime_target(
                datetime_micros(text::trim(input), "%Y-%m-%d %H:%M:%S%.f"@),
                day_start(as_signed(start_us)),
                clock(text::trim(input), "%H:%M:%S%.f"@),
                clock(text::trim(input), "%H:%M"@),
            )
        },
{
}

/// Seconds may be written as they are shown: with a `T` in front, with an `s` behind,
/// with both or with neither, and with whitespace around.
pub proof fn law_seconds_as_shown(front: Seq<char>, s: Seq<char>, back: Seq<char>)
    requires
        forall|k: int| 0 <= k < front.len() ==> text::is_white(#[trigger] front[k]),
        forall|k: int| 0 <= k < back.len() ==> text::is_white(#[trigger] back[k]),
        s.len() > 0,
        !text::is_white(s[0]) && !text::is_white(s.last()),
        s[0] != 'T' && s.last() != 's',
    ensures
        seconds_part(front + s + back) == s,
        seconds_part(front + (seq!['T'] + s) + back) == s,
        seconds_part(front + (s + seq!['s']) + back) == s,
        seconds_part(front + (seq!['T'] + s + seq!['s']) + back) == s,
{
    let t = seq!['T'] + s;
    let u = s + seq!['s'];
    let v = seq!['T'] + s + seq!['s'];
    text::law_white('T');
    text::law_white('s');
    assert(t.last() == s.last() && u[0] == s[0]);
    text::law_trim(front, s, back);
    text::law_trim(front, t, back);
    text::law_trim(front, u, back);
    text::law_trim(front, v, back);
    assert(t.skip(1) =~= s);
    assert(u.drop_last() =~= s);
    assert(v.skip(1) =~= u);
}

} // verus!
