//! Rendering of numbers and bytes as ASCII text.

use vstd::prelude::*;
use vstd::string::*;
use vstd::utf8::is_ascii_chars;

verus! {

/// `String::push`: the character is added at the end of the string.
pub assume_specification[ String::push ](s: &mut String, c: char)
    ensures
        final(s)@ == old(s)@.push(c),
;

/// The lowercase hexadecimal digit of `n`, for `n` below 16. For `n` below 10
/// this is the decimal digit as well.
pub open spec fn digit(n: int) -> char {
    if n < 10 {
        ('0' as int + n) as char
    } else {
        ('a' as int + n - 10) as char
    }
}

/// Two lowercase hexadecimal digits for each byte.
pub open spec fn hex_text(bytes: Seq<u8>) -> Seq<char> {
    Seq::new(
        2 * bytes.len(),
        |i: int|
            if i % 2 == 0 {
                digit(bytes[i / 2] as int / 16)
            } else {
                digit(bytes[i / 2] as int % 16)
            },
    )
}

/// Four lowercase hexadecimal digits.
pub open spec fn hex4(v: u16) -> Seq<char> {
    seq![
        digit(v as int / 4096),
        digit(v as int / 256 % 16),
        digit(v as int / 16 % 16),
        digit(v as int % 16),
    ]
}

/// The decimal notation of `n`, without leading zeros.
pub open spec fn decimal(n: nat) -> Seq<char>
    decreases n,
{
    if n < 10 {
        seq![digit(n as int)]
    } else {
        decimal(n / 10).push(digit(n as int % 10))
    }
}

/// Two decimal digits, for `n` below 100.
pub open spec fn decimal2(n: int) -> Seq<char> {
    seq![digit(n / 10), digit(n % 10)]
}

/// The parts in order, with `sep` between each two neighbours.
pub open spec fn separated(parts: Seq<Seq<char>>, sep: char) -> Seq<char>
    decreases parts.len(),
{
    if parts.len() == 0 {
        seq![]
    } else if parts.len() == 1 {
        parts[0]
    } else {
        separated(parts.drop_last(), sep).push(sep) + parts.last()
    }
}

/// The digit character of `n`.
fn digit_char(n: u8) -> (c: char)
    requires
        n < 16,
    ensures
        c == digit(n as int),
{
    if n < 10 {
        (48 + n) as char
    } else {
        (87 + n) as char
    }
}

/// Formats a byte slice as lowercase hex.
pub fn hex_lower(bytes: &[u8]) -> (s: String)
    ensures
        s@ == hex_text(bytes@),
{
    let mut s = String::new();
    for i in 0..bytes.len()
        invariant
            s@ == hex_text(bytes@.take(i as int)),
    {
        let b: u8 = bytes[i];
        s.push(digit_char(b / 16));
        s.push(digit_char(b % 16));
        assert(s@ =~= hex_text(bytes@.take(i + 1)));
    }
    assert(bytes@.take(bytes@.len() as int) =~= bytes@);
    s
}

/// The decimal notations of the values, separated by dashes.
pub open spec fn dashed(values: Seq<u16>) -> Seq<char> {
    separated(values.map_values(|v: u16| decimal(v as nat)), '-')
}

/// The four-digit hexadecimal notations of the values, separated by commas.
pub open spec fn hex_list(values: Seq<u16>) -> Seq<char> {
    separated(values.map_values(|v: u16| hex4(v)), ',')
}

/// Adding a part at the end adds the separator, unless there was no part yet,
/// and the part.
proof fn lemma_separated_push(parts: Seq<Seq<char>>, part: Seq<char>, sep: char)
    ensures
        separated(parts.push(part), sep) == if parts.len() == 0 {
            part
        } else {
            separated(parts, sep).push(sep) + part
        },
{
    assert(parts.push(part).drop_last() =~= parts);
}

/// Decimal notation is made of digits.
pub proof fn lemma_decimal_digits(n: nat)
    ensures
        decimal(n).len() > 0,
        forall|i: int| 0 <= i < decimal(n).len() ==> '0' <= #[trigger] decimal(n)[i] <= '9',
    decreases n,
{
    let last = digit(n as int % 10);
    assert(0 <= n as int % 10 < 10);
    if n >= 10 {
        let rest = decimal(n / 10);
        lemma_decimal_digits(n / 10);
        assert forall|i: int| 0 <= i < decimal(n).len() implies '0' <= #[trigger] decimal(n)[i]
            <= '9' by {
            if i < rest.len() {
                assert(decimal(n)[i] == rest[i]);
            } else {
                assert(decimal(n)[i] == last);
            }
        }
    }
}

/// Whether `c` is a lowercase hexadecimal digit.
pub open spec fn is_hex_char(c: char) -> bool {
    '0' <= c <= '9' || 'a' <= c <= 'f'
}

/// Hexadecimal text is made of lowercase hexadecimal digits alone.
pub proof fn lemma_hex_text(bytes: Seq<u8>)
    ensures
        hex_text(bytes).len() == 2 * bytes.len(),
        forall|i: int| 0 <= i < hex_text(bytes).len() ==> is_hex_char(#[trigger] hex_text(bytes)[i]),
{
    assert forall|i: int| 0 <= i < hex_text(bytes).len() implies is_hex_char(
        #[trigger] hex_text(bytes)[i],
    ) by {
        let b = bytes[i / 2] as int;
        assert(0 <= b / 16 < 16 && 0 <= b % 16 < 16);
    }
}

/// The value of a lowercase hexadecimal digit.
pub open spec fn digit_value(c: char) -> int {
    if c <= '9' {
        c as int - '0' as int
    } else {
        c as int - 'a' as int + 10
    }
}

/// The bytes that hexadecimal text stands for, two digits for each.
pub open spec fn hex_bytes(s: Seq<char>) -> Seq<u8> {
    Seq::new(
        s.len() / 2,
        |i: int| (16 * digit_value(s[2 * i]) + digit_value(s[2 * i + 1])) as u8,
    )
}

/// The two digits of a byte stand for the byte.
proof fn lemma_digit_values(b: u8)
    ensures
        16 * digit_value(digit(b as int / 16)) + digit_value(digit(b as int % 16)) == b,
{
    let high = b as int / 16;
    let low = b as int % 16;
    assert(0 <= high < 16 && 0 <= low < 16 && 16 * high + low == b);
}

/// The hexadecimal text of bytes, read two digits at a time, gives back the
/// bytes.
#[verifier::rlimit(40)]
pub proof fn law_hex_reads_back(bytes: Seq<u8>)
    ensures
        hex_bytes(hex_text(bytes)) == bytes,
{
    let s = hex_text(bytes);
    assert forall|i: int| 0 <= i < bytes.len() implies hex_bytes(s)[i] == bytes[i] by {
        assert((2 * i) % 2 == 0 && (2 * i) / 2 == i);
        assert((2 * i + 1) % 2 == 1 && (2 * i + 1) / 2 == i);
        lemma_digit_values(bytes[i]);
    }
    assert(hex_bytes(s) =~= bytes);
}

/// Different bytes have different hexadecimal texts.
pub proof fn law_hex_distinguishes(a: Seq<u8>, b: Seq<u8>)
    requires
        hex_text(a) == hex_text(b),
    ensures
        a == b,
{
    law_hex_reads_back(a);
    law_hex_reads_back(b);
}

/// A list of hexadecimal numbers is ASCII text of at most five characters for
/// each number.
pub proof fn lemma_hex_list(values: Seq<u16>)
    ensures
        is_ascii_chars(hex_list(values)),
        hex_list(values).len() <= 5 * values.len(),
    decreases values.len(),
{
    if values.len() > 0 {
        let f = |v: u16| hex4(v);
        let rest = values.drop_last();
        lemma_hex_list(rest);
        assert(values.map_values(f) =~= rest.map_values(f).push(hex4(values.last())));
        lemma_separated_push(rest.map_values(f), hex4(values.last()), ',');
    }
}

/// Adds the decimal notation of `n` to `s`.
pub fn push_decimal(s: &mut String, n: u16)
    ensures
        final(s)@ == old(s)@ + decimal(n as nat),
    decreases n,
{
    if n >= 10 {
        push_decimal(s, n / 10);
    }
    s.push(digit_char((n % 10) as u8));
    assert(s@ =~= old(s)@ + decimal(n as nat));
}

/// Adds the two decimal digits of `n` to `s`.
pub fn push_decimal2(s: &mut String, n: u8)
    requires
        n < 100,
    ensures
        final(s)@ == old(s)@ + decimal2(n as int),
{
    s.push(digit_char(n / 10));
    s.push(digit_char(n % 10));
    assert(s@ =~= old(s)@ + decimal2(n as int));
}

/// Adds the four hexadecimal digits of `v` to `s`.
pub fn push_hex4(s: &mut String, v: u16)
    ensures
        final(s)@ == old(s)@ + hex4(v),
{
    s.push(digit_char((v / 4096) as u8));
    s.push(digit_char((v / 256 % 16) as u8));
    s.push(digit_char((v / 16 % 16) as u8));
    s.push(digit_char((v % 16) as u8));
    assert(s@ =~= old(s)@ + hex4(v));
}

/// Joins the decimal notations of the values with dashes.
pub fn join_decimals(values: &[u16]) -> (s: String)
    ensures
        s@ == dashed(values@),
{
    let mut s = String::new();
    let ghost f = |v: u16| decimal(v as nat);
    for i in 0..values.len()
        invariant
            f == (|v: u16| decimal(v as nat)),
            s@ == dashed(values@.take(i as int)),
    {
        if i > 0 {
            s.push('-');
        }
        push_decimal(&mut s, values[i]);
        proof {
            let parts = values@.take(i as int).map_values(f);
            assert(values@.take(i + 1).map_values(f) =~= parts.push(f(values@[i as int])));
            lemma_separated_push(parts, f(values@[i as int]), '-');
        }
    }
    assert(values@.take(values@.len() as int) =~= values@);
    s
}

/// Joins the four-digit hexadecimal notations of the values with commas.
pub fn join_hex(values: &[u16]) -> (s: String)
    ensures
        s@ == hex_list(values@),
{
    let mut s = String::new();
    let ghost f = |v: u16| hex4(v);
    for i in 0..values.len()
        invariant
            f == (|v: u16| hex4(v)),
            s@ == hex_list(values@.take(i as int)),
    {
        if i > 0 {
            s.push(',');
        }
        push_hex4(&mut s, values[i]);
        proof {
            let parts = values@.take(i as int).map_values(f);
            assert(values@.take(i + 1).map_values(f) =~= parts.push(f(values@[i as int])));
            lemma_separated_push(parts, f(values@[i as int]), ',');
        }
    }
    assert(values@.take(values@.len() as int) =~= values@);
    s
}

} // verus!
