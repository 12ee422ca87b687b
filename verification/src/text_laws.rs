//! That numbers, lists and hexadecimal texts can be read back from their text.

use vstd::prelude::*;

use crate::text::{
    dashed, decimal, decimal2, digit, digit_value, hex4, hex_list, separated,
};

verus! {

/// The pieces of `s` between its separators; without a separator `s` itself is
/// the only piece.
pub open spec fn split_at(s: Seq<char>, sep: char) -> Seq<Seq<char>>
    decreases s.len(),
{
    if s.len() == 0 {
        seq![seq![]]
    } else {
        let pieces = split_at(s.drop_last(), sep);
        if s.last() == sep {
            pieces.push(seq![])
        } else {
            pieces.drop_last().push(pieces.last().push(s.last()))
        }
    }
}

/// The number that decimal digits stand for.
pub open spec fn decimal_value(s: Seq<char>) -> int
    decreases s.len(),
{
    if s.len() == 0 {
        0
    } else {
        10 * decimal_value(s.drop_last()) + (s.last() as int - '0' as int)
    }
}

/// Whether `s` is a decimal number without leading zeros.
pub open spec fn is_decimal(s: Seq<char>) -> bool {
    &&& s.len() > 0
    &&& forall|i: int| 0 <= i < s.len() ==> '0' <= #[trigger] s[i] <= '9'
    &&& s[0] == '0' ==> s.len() == 1
}

/// The pieces between separators, where the empty text has none.
pub open spec fn pieces_of(s: Seq<char>, sep: char) -> Seq<Seq<char>> {
    if s.len() == 0 {
        seq![]
    } else {
        split_at(s, sep)
    }
}

/// Whether the pieces between dashes are these numbers in decimal notation.
pub open spec fn lists_decimals(s: Seq<char>, values: Seq<u16>) -> bool {
    let pieces = pieces_of(s, '-');
    &&& pieces.len() == values.len()
    &&& forall|i: int|
        0 <= i < values.len() ==> is_decimal(#[trigger] pieces[i]) && decimal_value(pieces[i])
            == values[i]
}

/// Whether `s` are four lowercase hexadecimal digits for this value.
pub open spec fn is_hex4(s: Seq<char>, v: u16) -> bool {
    &&& s.len() == 4
    &&& forall|i: int|
        0 <= i < 4 ==> '0' <= #[trigger] s[i] <= '9' || 'a' <= s[i] <= 'f'
    &&& v == 4096 * digit_value(s[0]) + 256 * digit_value(s[1]) + 16 * digit_value(s[2])
        + digit_value(s[3])
}

/// Whether the pieces between commas are these values in four hexadecimal
/// digits.
pub open spec fn lists_hex(s: Seq<char>, values: Seq<u16>) -> bool {
    let pieces = pieces_of(s, ',');
    &&& pieces.len() == values.len()
    &&& forall|i: int| 0 <= i < values.len() ==> is_hex4(#[trigger] pieces[i], values[i])
}

/// The values that four hexadecimal digits each stand for, between commas.
pub open spec fn read_hex_list(s: Seq<char>) -> Seq<u16> {
    pieces_of(s, ',').map_values(
        |p: Seq<char>|
            (4096 * digit_value(p[0]) + 256 * digit_value(p[1]) + 16 * digit_value(p[2])
                + digit_value(p[3])) as u16,
    )
}

/// There is always a piece.
proof fn lemma_split_nonempty(s: Seq<char>, sep: char)
    ensures
        split_at(s, sep).len() > 0,
    decreases s.len(),
{
    if s.len() > 0 {
        lemma_split_nonempty(s.drop_last(), sep);
    }
}

/// What has no separator is one piece.
pub proof fn lemma_split_one(s: Seq<char>, sep: char)
    requires
        !s.contains(sep),
    ensures
        split_at(s, sep) == seq![s],
    decreases s.len(),
{
    if s.len() > 0 {
        let rest = s.drop_last();
        assert(s[s.len() - 1] == s.last());
        assert forall|i: int| 0 <= i < rest.len() implies rest[i] != sep by {
            assert(rest[i] == s[i]);
        }
        lemma_split_one(rest, sep);
        assert(rest.push(s.last()) =~= s);
        assert(split_at(s, sep) =~= seq![s]);
    } else {
        assert(s =~= seq![]);
    }
}

/// A separator and a piece without one add that piece.
pub proof fn lemma_split_push(a: Seq<char>, b: Seq<char>, sep: char)
    requires
        !b.contains(sep),
    ensures
        split_at(a.push(sep) + b, sep) == split_at(a, sep).push(b),
    decreases b.len(),
{
    let s = a.push(sep) + b;
    if b.len() == 0 {
        assert(s =~= a.push(sep));
        assert(s.drop_last() =~= a);
        assert(b =~= seq![]);
    } else {
        let rest = b.drop_last();
        assert(b[b.len() - 1] == b.last());
        assert forall|i: int| 0 <= i < rest.len() implies rest[i] != sep by {
            assert(rest[i] == b[i]);
        }
        lemma_split_push(a, rest, sep);
        assert(s.drop_last() =~= a.push(sep) + rest);
        assert(s.last() == b.last());
        let pieces = split_at(a, sep).push(rest);
        assert(pieces.drop_last() =~= split_at(a, sep));
        assert(rest.push(b.last()) =~= b);
    }
}

/// Parts without the separator are the pieces of the text that they make.
pub proof fn law_separated_splits(parts: Seq<Seq<char>>, sep: char)
    requires
        parts.len() > 0,
        forall|i: int| 0 <= i < parts.len() ==> !(#[trigger] parts[i]).contains(sep),
    ensures
        split_at(separated(parts, sep), sep) == parts,
    decreases parts.len(),
{
    if parts.len() == 1 {
        lemma_split_one(parts[0], sep);
        assert(parts =~= seq![parts[0]]);
    } else {
        let rest = parts.drop_last();
        assert forall|i: int| 0 <= i < rest.len() implies !(#[trigger] rest[i]).contains(sep) by {
            assert(rest[i] == parts[i]);
        }
        law_separated_splits(rest, sep);
        assert(!parts[parts.len() - 1].contains(sep));
        lemma_split_push(separated(rest, sep), parts.last(), sep);
        assert(rest.push(parts.last()) =~= parts);
    }
}

/// Parts of one character or more make a text of one or more.
proof fn lemma_separated_nonempty(parts: Seq<Seq<char>>, sep: char)
    requires
        parts.len() > 0,
        parts.last().len() > 0,
    ensures
        separated(parts, sep).len() > 0,
{
}

/// Decimal notation has no leading zeros and stands for its number.
#[verifier::rlimit(40)]
pub proof fn law_decimal_reads_back(n: nat)
    ensures
        is_decimal(decimal(n)),
        decimal_value(decimal(n)) == n,
    decreases n,
{
    let last = digit(n as int % 10);
    assert(0 <= n as int % 10 < 10);
    if n >= 10 {
        let rest = decimal(n / 10);
        law_decimal_reads_back(n / 10);
        let s = decimal(n);
        assert(s =~= rest.push(last));
        assert(s.drop_last() =~= rest);
        assert forall|i: int| 0 <= i < s.len() implies '0' <= #[trigger] s[i] <= '9' by {
            if i < rest.len() {
                assert(s[i] == rest[i]);
            }
        }
        if rest[0] == '0' {
            assert(rest =~= seq!['0']);
            assert(rest.drop_last() =~= seq![]);
            reveal_with_fuel(decimal_value, 3);
            assert(decimal_value(rest) == 0);
        }
        assert(s[0] == rest[0]);
    } else {
        let s = decimal(n);
        assert(s.drop_last() =~= seq![]);
        assert(decimal_value(s.drop_last()) == 0);
    }
}

/// Two decimal digits stand for their number.
pub proof fn law_decimal2_reads_back(n: int)
    requires
        0 <= n < 100,
    ensures
        decimal2(n).len() == 2,
        '0' <= decimal2(n)[0] <= '9',
        '0' <= decimal2(n)[1] <= '9',
        decimal_value(decimal2(n)) == n,
{
    let s = decimal2(n);
    assert(0 <= n / 10 < 10 && 0 <= n % 10 < 10);
    assert(s.drop_last() =~= seq![digit(n / 10)]);
    assert(s.drop_last().drop_last() =~= seq![]);
    reveal_with_fuel(decimal_value, 3);
}

/// A digit below 16 is a lowercase hexadecimal digit of that value.
proof fn lemma_digit(n: int)
    requires
        0 <= n < 16,
    ensures
        '0' <= digit(n) <= '9' || 'a' <= digit(n) <= 'f',
        digit_value(digit(n)) == n,
{
}

/// A number below 65536 is made of its four hexadecimal digits.
proof fn lemma_four_digits(n: int)
    requires
        0 <= n < 65536,
    ensures
        0 <= n / 4096 < 16,
        0 <= n / 256 % 16 < 16,
        0 <= n / 16 % 16 < 16,
        0 <= n % 16 < 16,
        n == 4096 * (n / 4096) + 256 * (n / 256 % 16) + 16 * (n / 16 % 16) + n % 16,
{
    let a = n / 16;
    let b = a / 16;
    assert(n == 16 * a + n % 16);
    assert(a == 16 * b + a % 16);
    assert(b == 16 * (b / 16) + b % 16);
    assert(n / 256 == b);
    assert(n / 4096 == b / 16);
}

/// Four hexadecimal digits stand for their value.
#[verifier::rlimit(40)]
pub proof fn law_hex4_reads_back(v: u16)
    ensures
        is_hex4(hex4(v), v),
{
    let n = v as int;
    lemma_four_digits(n);
    lemma_digit(n / 4096);
    lemma_digit(n / 256 % 16);
    lemma_digit(n / 16 % 16);
    lemma_digit(n % 16);
    let s = hex4(v);
    assert(s[0] == digit(n / 4096) && s[1] == digit(n / 256 % 16));
    assert(s[2] == digit(n / 16 % 16) && s[3] == digit(n % 16));
    assert forall|i: int| 0 <= i < 4 implies '0' <= #[trigger] s[i] <= '9' || 'a' <= s[i]
        <= 'f' by {
        assert(i == 0 || i == 1 || i == 2 || i == 3);
    }
}

/// The numbers that a list with dashes was made of are its pieces.
pub proof fn law_dashed_reads_back(values: Seq<u16>)
    ensures
        lists_decimals(dashed(values), values),
        forall|i: int|
            0 <= i < dashed(values).len() ==> #[trigger] dashed(values)[i] == '-' || '0'
                <= dashed(values)[i] <= '9',
{
    let parts = values.map_values(|v: u16| decimal(v as nat));
    if values.len() > 0 {
        assert forall|i: int| 0 <= i < parts.len() implies !(#[trigger] parts[i]).contains('-')
            && is_decimal(parts[i]) && decimal_value(parts[i]) == values[i] by {
            law_decimal_reads_back(values[i] as nat);
        }
        law_separated_splits(parts, '-');
        assert(is_decimal(parts[parts.len() - 1]));
        lemma_separated_nonempty(parts, '-');
        lemma_separated_chars(parts, '-');
    }
}

/// A text of parts holds nothing but their characters and the separator.
proof fn lemma_separated_chars(parts: Seq<Seq<char>>, sep: char)
    requires
        forall|i: int| 0 <= i < parts.len() ==> is_decimal(#[trigger] parts[i]),
    ensures
        forall|i: int|
            0 <= i < separated(parts, sep).len() ==> #[trigger] separated(parts, sep)[i] == sep
                || '0' <= separated(parts, sep)[i] <= '9',
    decreases parts.len(),
{
    if parts.len() > 0 {
        assert(is_decimal(parts[parts.len() - 1]));
    }
    if parts.len() > 1 {
        let rest = parts.drop_last();
        assert forall|i: int| 0 <= i < rest.len() implies is_decimal(#[trigger] rest[i]) by {
            assert(rest[i] == parts[i]);
        }
        lemma_separated_chars(rest, sep);
        let head = separated(rest, sep);
        let s = separated(parts, sep);
        assert forall|i: int| 0 <= i < s.len() implies #[trigger] s[i] == sep || '0' <= s[i]
            <= '9' by {
            if i < head.len() {
                assert(s[i] == head[i]);
            } else if i > head.len() {
                assert(s[i] == parts.last()[i - head.len() - 1]);
            }
        }
    }
}

/// The values that a list with commas was made of are its pieces.
pub proof fn law_hex_list_reads_back(values: Seq<u16>)
    ensures
        lists_hex(hex_list(values), values),
        hex_list(values).len() == 0 <==> values.len() == 0,
        !hex_list(values).contains('_'),
{
    let parts = values.map_values(|v: u16| hex4(v));
    if values.len() > 0 {
        assert forall|i: int| 0 <= i < parts.len() implies !(#[trigger] parts[i]).contains(',')
            && !parts[i].contains('_') && is_hex4(parts[i], values[i]) by {
            law_hex4_reads_back(values[i]);
        }
        law_separated_splits(parts, ',');
        assert(is_hex4(parts[parts.len() - 1], values[values.len() - 1]));
        lemma_separated_nonempty(parts, ',');
        lemma_separated_lacks(parts, ',', '_');
    }
}

/// What no part holds and is not the separator is not in the text.
proof fn lemma_separated_lacks(parts: Seq<Seq<char>>, sep: char, c: char)
    requires
        sep != c,
        forall|i: int| 0 <= i < parts.len() ==> !(#[trigger] parts[i]).contains(c),
    ensures
        !separated(parts, sep).contains(c),
    decreases parts.len(),
{
    if parts.len() > 1 {
        let rest = parts.drop_last();
        assert forall|i: int| 0 <= i < rest.len() implies !(#[trigger] rest[i]).contains(c) by {
            assert(rest[i] == parts[i]);
        }
        lemma_separated_lacks(rest, sep, c);
        let head = separated(rest, sep);
        let s = separated(parts, sep);
        assert(!parts[parts.len() - 1].contains(c));
        assert forall|i: int| 0 <= i < s.len() implies s[i] != c by {
            if i < head.len() {
                assert(head.contains(head[i]));
            } else if i > head.len() {
                assert(parts.last().contains(parts.last()[i - head.len() - 1]));
            }
        }
    } else if parts.len() == 1 {
        assert(!parts[0].contains(c));
    }
}

/// The values between commas are the ones that are read there.
pub proof fn lemma_read_hex_list(s: Seq<char>, values: Seq<u16>)
    requires
        lists_hex(s, values),
    ensures
        read_hex_list(s) == values,
{
    assert forall|i: int| 0 <= i < values.len() implies read_hex_list(s)[i] == values[i] by {
        assert(is_hex4(pieces_of(s, ',')[i], values[i]));
    }
    assert(read_hex_list(s) =~= values);
}

/// Different numbers have different decimal notations.
pub proof fn law_decimals_distinguish(a: Seq<u16>, b: Seq<u16>, s: Seq<char>)
    requires
        lists_decimals(s, a),
        lists_decimals(s, b),
    ensures
        a == b,
{
    assert forall|i: int| 0 <= i < a.len() implies a[i] == b[i] by {
        let pieces = pieces_of(s, '-');
        assert(is_decimal(pieces[i]));
    }
    assert(a =~= b);
}

} // verus!
