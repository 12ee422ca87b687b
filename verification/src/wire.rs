//! Big-endian integers and length-prefixed vectors, as TLS writes them.

use vstd::prelude::*;
use vstd::slice::*;

verus! {

/// The smaller of two numbers.
pub open spec fn min(a: int, b: int) -> int {
    if a <= b {
        a
    } else {
        b
    }
}

/// The two-byte big-endian integer at offset `i`.
pub open spec fn be16(s: Seq<u8>, i: int) -> u16 {
    (s[i] * 256 + s[i + 1]) as u16
}

/// The three-byte big-endian integer at offset `i`.
pub open spec fn be24(s: Seq<u8>, i: int) -> int {
    s[i] * 65536 + s[i + 1] * 256 + s[i + 2]
}

/// The two-byte integers that `s` is made of; an odd last byte is left out.
pub open spec fn u16_list(s: Seq<u8>) -> Seq<u16> {
    Seq::new(s.len() / 2, |i: int| be16(s, 2 * i))
}

/// What follows a one-byte length, as far as it is there; nothing where the
/// length is missing.
pub open spec fn prefixed8(s: Seq<u8>) -> Seq<u8> {
    if s.len() >= 1 {
        s.subrange(1, min(1 + s[0], s.len() as int))
    } else {
        seq![]
    }
}

/// What follows a two-byte length, as far as it is there; nothing where the
/// length is missing.
pub open spec fn prefixed16(s: Seq<u8>) -> Seq<u8> {
    if s.len() >= 2 {
        s.subrange(2, min(2 + be16(s, 0), s.len() as int))
    } else {
        seq![]
    }
}

/// The items of a vector of byte strings with one-byte lengths, up to the
/// first that is not complete.
pub open spec fn byte_strings(s: Seq<u8>) -> Seq<Seq<u8>>
    decreases s.len(),
{
    if s.len() == 0 || 1 + s[0] > s.len() {
        seq![]
    } else {
        seq![s.subrange(1, 1 + s[0])] + byte_strings(s.skip(1 + s[0]))
    }
}

/// Reads the two-byte integer at offset `i`.
pub fn read_u16(s: &[u8], i: usize) -> (v: u16)
    requires
        i + 2 <= s@.len(),
    ensures
        v == be16(s@, i as int),
{
    s[i] as u16 * 256 + s[i + 1] as u16
}

/// Reads the three-byte integer at offset `i`.
pub fn read_u24(s: &[u8], i: usize) -> (v: u32)
    requires
        i + 3 <= s@.len(),
    ensures
        v == be24(s@, i as int),
        v < 0x100_0000,
{
    s[i] as u32 * 65536 + s[i + 1] as u32 * 256 + s[i + 2] as u32
}

/// Reads `s` as two-byte integers.
pub fn read_u16_list(s: &[u8]) -> (v: Vec<u16>)
    ensures
        v@ == u16_list(s@),
{
    let len: usize = s.len();
    let n: usize = len / 2;
    let mut v: Vec<u16> = Vec::with_capacity(n);
    for i in 0..n
        invariant
            len == s@.len(),
            n == len / 2,
            v@.len() == i,
            forall|j: int| 0 <= j < i ==> #[trigger] v@[j] == be16(s@, 2 * j),
    {
        v.push(read_u16(s, 2 * i));
    }
    assert(v@ =~= u16_list(s@));
    v
}

/// Reads what follows a one-byte length.
pub fn read_prefixed8(s: &[u8]) -> (r: &[u8])
    ensures
        r@ == prefixed8(s@),
{
    if s.len() >= 1 {
        let n: usize = s[0] as usize;
        let end: usize = if n < s.len() { 1 + n } else { s.len() };
        slice_subrange(s, 1, end)
    } else {
        assert(s@ =~= prefixed8(s@));
        s
    }
}

/// Reads what follows a two-byte length.
pub fn read_prefixed16(s: &[u8]) -> (r: &[u8])
    ensures
        r@ == prefixed16(s@),
{
    if s.len() >= 2 {
        let n: usize = read_u16(s, 0) as usize;
        let end: usize = if n <= s.len() - 2 { 2 + n } else { s.len() };
        slice_subrange(s, 2, end)
    } else {
        let r = slice_subrange(s, 0, 0);
        assert(r@ =~= prefixed16(s@));
        r
    }
}

/// The contents of a vector of byte vectors.
pub open spec fn contents(v: Seq<Vec<u8>>) -> Seq<Seq<u8>> {
    v.map_values(|x: Vec<u8>| x@)
}

/// Reads a vector of byte strings with one-byte lengths.
pub fn read_byte_strings(s: &[u8]) -> (v: Vec<Vec<u8>>)
    ensures
        contents(v@) == byte_strings(s@),
{
    let mut v: Vec<Vec<u8>> = Vec::new();
    let mut p: usize = 0;
    assert(s@.skip(0) =~= s@);
    assert(contents(v@) + byte_strings(s@) =~= byte_strings(s@));
    while p < s.len()
        invariant
            p <= s@.len(),
            contents(v@) + byte_strings(s@.skip(p as int)) == byte_strings(s@),
        ensures
            contents(v@) == byte_strings(s@),
        decreases s@.len() - p,
    {
        let n: usize = s[p] as usize;
        if n > s.len() - p - 1 {
            assert(byte_strings(s@.skip(p as int)) =~= seq![]);
            assert(contents(v@) =~= byte_strings(s@));
            break;
        }
        let ghost rest = s@.skip(p as int);
        let ghost before = v@;
        let item = slice_to_vec(slice_subrange(s, p + 1, p + 1 + n));
        v.push(item);
        p = p + 1 + n;
        proof {
            assert(item@ =~= rest.subrange(1, 1 + rest[0]));
            assert(rest.skip(1 + rest[0]) =~= s@.skip(p as int));
            assert(contents(v@) =~= contents(before).push(item@));
            assert(contents(v@) + byte_strings(s@.skip(p as int)) =~= contents(before)
                + byte_strings(rest));
        }
        assert(p == s@.len() ==> byte_strings(s@.skip(p as int)) =~= seq![]);
        assert(p == s@.len() ==> contents(v@) =~= byte_strings(s@));
    }
    v
}

} // verus!
