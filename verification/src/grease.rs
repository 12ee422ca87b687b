//! GREASE values and lists without them.

use vstd::prelude::*;

verus! {

/// Whether `v` is a GREASE value: two equal bytes that end in the hexadecimal
/// digit `a`.
pub open spec fn is_grease(v: u16) -> bool {
    v / 256 == v % 256 && v % 16 == 10
}

/// The values that are not GREASE, in order.
pub open spec fn without_grease(values: Seq<u16>) -> Seq<u16> {
    values.filter(|v: u16| !is_grease(v))
}

/// Tells GREASE values, with which clients randomize their lists of ciphers,
/// extensions and groups (RFC 8701).
pub fn is_grease_u16(v: u16) -> (r: bool)
    ensures
        r == is_grease(v),
{
    let r: bool = match v {
        0x0A0A | 0x1A1A | 0x2A2A | 0x3A3A | 0x4A4A | 0x5A5A | 0x6A6A | 0x7A7A | 0x8A8A | 0x9A9A
        | 0xAAAA | 0xBABA | 0xCACA | 0xDADA | 0xEAEA | 0xFAFA => true,
        _ => false,
    };
    proof {
        let high = v as int % 256 / 16;
        assert(0 <= high < 16);
        assert(is_grease(v) ==> v as int == 257 * (16 * high + 10));
    }
    r
}

/// Adding a value at the end of a list.
pub proof fn lemma_filter_push(values: Seq<u16>, v: u16, pred: spec_fn(u16) -> bool)
    ensures
        values.push(v).filter(pred) == if pred(v) {
            values.filter(pred).push(v)
        } else {
            values.filter(pred)
        },
{
    reveal(Seq::filter);
    assert(values.push(v).drop_last() =~= values);
}

/// Copies the values that are not GREASE.
pub fn drop_grease(values: &[u16]) -> (kept: Vec<u16>)
    ensures
        kept@ == without_grease(values@),
{
    let mut kept: Vec<u16> = Vec::new();
    let ghost pred = |v: u16| !is_grease(v);
    proof {
        reveal(Seq::filter);
        assert(values@.take(0).filter(pred) =~= seq![]);
    }
    for i in 0..values.len()
        invariant
            pred == (|v: u16| !is_grease(v)),
            kept@ == without_grease(values@.take(i as int)),
    {
        let v: u16 = values[i];
        proof {
            lemma_filter_push(values@.take(i as int), v, pred);
            assert(values@.take(i + 1) =~= values@.take(i as int).push(v));
        }
        if !is_grease_u16(v) {
            kept.push(v);
        }
    }
    assert(values@.take(values@.len() as int) =~= values@);
    kept
}

} // verus!
