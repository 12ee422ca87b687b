//! What the fingerprints of two buffers have in common.

use vstd::prelude::*;

use crate::client_hello::{parsed_fields, ExtensionView, HelloFieldsView};
use crate::encoding::{
    hello_bytes, law_hello_reads_back, law_value_list_reads_back, record_bytes, value_bytes,
    with_length16, writable,
};
use crate::extensions::{
    data_or_empty, described, extension_data, extension_numbers, highest_version, host_name,
    EXT_ALPN, EXT_EC_POINT_FORMATS, EXT_SERVER_NAME, EXT_SIGNATURE_ALGORITHMS,
    EXT_SUPPORTED_GROUPS, EXT_SUPPORTED_VERSIONS,
};
use crate::fingerprint::{fingerprint_of, ja4_of, parsed_fingerprint, version_field};
use crate::fingerprint_laws::{
    law_grease_inserted, lemma_filter_multiset, lemma_same_fingerprint, lemma_same_ja4,
};
use crate::grease::{is_grease, lemma_filter_push, without_grease};
use crate::wire::{byte_strings, prefixed16, prefixed8, u16_list};

verus! {

/// The values in the contents of an extension that lists two-byte values,
/// without GREASE.
pub open spec fn listed_values(data: Seq<u8>) -> Seq<u16> {
    without_grease(u16_list(prefixed16(data)))
}

/// Whether two extensions have the same number and, where JA4, the server name
/// and the protocols depend on their contents, say the same but for GREASE.
pub open spec fn alike_in_ja4(a: ExtensionView, b: ExtensionView) -> bool {
    &&& a.id == b.id
    &&& a.id == EXT_SERVER_NAME ==> host_name(a.data) == host_name(b.data)
    &&& a.id == EXT_ALPN ==> byte_strings(prefixed16(a.data)) == byte_strings(prefixed16(b.data))
    &&& a.id == EXT_SIGNATURE_ALGORITHMS ==> listed_values(a.data) == listed_values(b.data)
}

/// Whether two extensions have the same number and, where the fingerprint
/// depends on their contents, say the same but for GREASE.
pub open spec fn alike(a: ExtensionView, b: ExtensionView) -> bool {
    &&& alike_in_ja4(a, b)
    &&& a.id == EXT_SUPPORTED_GROUPS ==> listed_values(a.data) == listed_values(b.data)
    &&& a.id == EXT_EC_POINT_FORMATS ==> prefixed8(a.data) == prefixed8(b.data)
}

/// The extensions that are not GREASE, in order.
pub open spec fn kept_extensions(extensions: Seq<ExtensionView>) -> Seq<ExtensionView> {
    extensions.filter(|e: ExtensionView| !is_grease(e.id))
}

/// Whether two lists of extensions are alike one by one.
pub open spec fn all_alike(a: Seq<ExtensionView>, b: Seq<ExtensionView>) -> bool {
    a.len() == b.len() && forall|i: int| 0 <= i < a.len() ==> alike(#[trigger] a[i], b[i])
}

/// Whether two hellos differ in GREASE alone: among the ciphers, among the
/// extensions, among the groups and among the signature algorithms.
pub open spec fn same_but_grease(a: HelloFieldsView, b: HelloFieldsView) -> bool {
    &&& a.legacy_version == b.legacy_version
    &&& without_grease(a.ciphers) == without_grease(b.ciphers)
    &&& all_alike(kept_extensions(a.extensions), kept_extensions(b.extensions))
}

/// Whether two hellos differ in GREASE and in the order of ciphers and
/// extensions alone: without GREASE they have the same ciphers and extension
/// numbers in some order, and extensions with the same number are alike.
pub open spec fn same_but_grease_and_order(a: HelloFieldsView, b: HelloFieldsView) -> bool {
    &&& a.legacy_version == b.legacy_version
    &&& without_grease(a.ciphers).to_multiset() == without_grease(b.ciphers).to_multiset()
    &&& without_grease(extension_numbers(a.extensions)).to_multiset() == without_grease(
        extension_numbers(b.extensions),
    ).to_multiset()
    &&& forall|i: int, j: int|
        0 <= i < a.extensions.len() && 0 <= j < b.extensions.len() && (
        #[trigger] a.extensions[i]).id == (#[trigger] b.extensions[j]).id ==> alike_in_ja4(
            a.extensions[i],
            b.extensions[j],
        )
}

/// Whether no two of the extensions, GREASE aside, have the same number.
pub open spec fn numbers_distinct(extensions: Seq<ExtensionView>) -> bool {
    let kept = kept_extensions(extensions);
    forall|i: int, j: int|
        0 <= i < j < kept.len() ==> (#[trigger] kept[i]).id != (#[trigger] kept[j]).id
}

/// What JA4 says of the version depends on the version and on whether there is
/// a list of versions alone.
proof fn lemma_version_field(a: HelloFieldsView, b: HelloFieldsView)
    requires
        a.legacy_version == b.legacy_version,
        extension_data(a.extensions, EXT_SUPPORTED_VERSIONS) is Some == extension_data(
            b.extensions,
            EXT_SUPPORTED_VERSIONS,
        ) is Some,
    ensures
        version_field(described(a)) == version_field(described(b)),
{
    let none: Seq<u8> = seq![];
    assert(u16_list(prefixed8(none)) =~= seq![]);
    assert(highest_version(a.legacy_version, seq![]) == a.legacy_version);
}

/// The numbers without GREASE are those of the extensions that are kept.
proof fn lemma_kept_numbers(extensions: Seq<ExtensionView>)
    ensures
        without_grease(extension_numbers(extensions)) == extension_numbers(
            kept_extensions(extensions),
        ),
    decreases extensions.len(),
{
    reveal(Seq::filter);
    if extensions.len() > 0 {
        let rest = extensions.drop_last();
        let last = extensions.last();
        lemma_kept_numbers(rest);
        assert(extension_numbers(extensions) =~= extension_numbers(rest).push(last.id));
        lemma_filter_push(extension_numbers(rest), last.id, |v: u16| !is_grease(v));
        assert(extension_numbers(kept_extensions(rest).push(last)) =~= extension_numbers(
            kept_extensions(rest),
        ).push(last.id));
    } else {
        assert(extension_numbers(extensions) =~= seq![]);
        assert(without_grease(extension_numbers(extensions)) =~= extension_numbers(
            kept_extensions(extensions),
        ));
    }
}

/// GREASE aside, an extension is found among those that are kept.
proof fn lemma_kept_lookup(extensions: Seq<ExtensionView>, id: u16)
    requires
        !is_grease(id),
    ensures
        extension_data(kept_extensions(extensions), id) == extension_data(extensions, id),
    decreases extensions.len(),
{
    let pred = |e: ExtensionView| !is_grease(e.id);
    if extensions.len() > 0 {
        let first = extensions[0];
        let rest = extensions.skip(1);
        lemma_kept_lookup(rest, id);
        assert(extensions =~= seq![first] + rest);
        Seq::filter_distributes_over_add(seq![first], rest, pred);
        assert(seq![first].filter(pred) =~= if pred(first) {
            seq![first]
        } else {
            seq![]
        }) by {
            reveal(Seq::filter);
            reveal_with_fuel(Seq::filter, 2);
            assert(seq![first].drop_last() =~= seq![]);
        }
        let kept = kept_extensions(extensions);
        if pred(first) {
            assert(kept[0] == first);
            assert(kept.skip(1) =~= kept_extensions(rest));
        } else {
            assert(kept =~= kept_extensions(rest));
        }
    } else {
        reveal(Seq::filter);
    }
}

/// In lists that are alike, the extensions that are found are alike.
proof fn lemma_alike_lookup(a: Seq<ExtensionView>, b: Seq<ExtensionView>, id: u16)
    requires
        all_alike(a, b),
    ensures
        match (extension_data(a, id), extension_data(b, id)) {
            (Some(x), Some(y)) => alike(
                ExtensionView { id, data: x },
                ExtensionView { id, data: y },
            ),
            (None, None) => true,
            _ => false,
        },
    decreases a.len(),
{
    if a.len() > 0 {
        assert(alike(a[0], b[0]));
        assert forall|i: int| 0 <= i < a.skip(1).len() implies alike(
            #[trigger] a.skip(1)[i],
            b.skip(1)[i],
        ) by {
            assert(alike(a[i + 1], b[i + 1]));
        }
        lemma_alike_lookup(a.skip(1), b.skip(1), id);
    }
}

/// The same for hellos that differ in GREASE alone.
proof fn lemma_same_lookup(a: HelloFieldsView, b: HelloFieldsView, id: u16)
    requires
        same_but_grease(a, b),
        !is_grease(id),
    ensures
        extension_data(a.extensions, id) is Some == extension_data(b.extensions, id) is Some,
        alike(
            ExtensionView { id, data: data_or_empty(a.extensions, id) },
            ExtensionView { id, data: data_or_empty(b.extensions, id) },
        ),
{
    lemma_kept_lookup(a.extensions, id);
    lemma_kept_lookup(b.extensions, id);
    lemma_alike_lookup(kept_extensions(a.extensions), kept_extensions(b.extensions), id);
}

/// Hellos that differ in GREASE alone have the same fingerprint.
proof fn lemma_grease_ignored(a: HelloFieldsView, b: HelloFieldsView)
    requires
        same_but_grease(a, b),
    ensures
        fingerprint_of(described(a)) == fingerprint_of(described(b)),
{
    lemma_same_lookup(a, b, EXT_SERVER_NAME);
    lemma_same_lookup(a, b, EXT_ALPN);
    lemma_same_lookup(a, b, EXT_SUPPORTED_GROUPS);
    lemma_same_lookup(a, b, EXT_EC_POINT_FORMATS);
    lemma_same_lookup(a, b, EXT_SUPPORTED_VERSIONS);
    lemma_same_lookup(a, b, EXT_SIGNATURE_ALGORITHMS);
    lemma_version_field(a, b);
    lemma_kept_numbers(a.extensions);
    lemma_kept_numbers(b.extensions);
    let ka = kept_extensions(a.extensions);
    let kb = kept_extensions(b.extensions);
    assert forall|i: int| 0 <= i < ka.len() implies extension_numbers(ka)[i]
        == extension_numbers(kb)[i] by {
        assert(alike(ka[i], kb[i]));
    }
    assert(extension_numbers(ka) =~= extension_numbers(kb));
    lemma_same_fingerprint(described(a), described(b));
}

/// An extension that is found is in the list, and one that is not found is not.
pub proof fn lemma_lookup(extensions: Seq<ExtensionView>, id: u16)
    ensures
        match extension_data(extensions, id) {
            Some(data) => extensions.contains(ExtensionView { id, data }),
            None => !extension_numbers(extensions).contains(id),
        },
    decreases extensions.len(),
{
    if extensions.len() > 0 {
        let rest = extensions.skip(1);
        lemma_lookup(rest, id);
        if extensions[0].id == id {
            assert(extensions[0] == (ExtensionView { id, data: extensions[0].data }));
        } else {
            match extension_data(rest, id) {
                Some(data) => {
                    let e = ExtensionView { id, data };
                    let i = choose|i: int| 0 <= i < rest.len() && rest[i] == e;
                    assert(extensions[i + 1] == e);
                },
                None => {
                    let numbers = extension_numbers(extensions);
                    assert forall|i: int| 0 <= i < numbers.len() implies numbers[i] != id by {
                        if i > 0 {
                            assert(extension_numbers(rest)[i - 1] == numbers[i]);
                        }
                    }
                },
            }
        }
    }
}

/// A number that is not GREASE is in both lists or in neither.
proof fn lemma_same_numbers(a: Seq<u16>, b: Seq<u16>, id: u16)
    requires
        without_grease(a).to_multiset() == without_grease(b).to_multiset(),
        !is_grease(id),
        a.contains(id),
    ensures
        b.contains(id),
{
    broadcast use vstd::seq_lib::group_to_multiset_ensures;

    let kept = |v: u16| !is_grease(v);
    let i = choose|i: int| 0 <= i < a.len() && a[i] == id;
    a.lemma_filter_contains(kept, i);
    assert(without_grease(a).to_multiset().count(id) > 0);
    assert(without_grease(b).contains(id));
    b.lemma_filter_contains_rev(kept, id);
}

/// In hellos that differ in GREASE and order alone, the extensions that are
/// found are alike.
proof fn lemma_reordered_lookup(a: HelloFieldsView, b: HelloFieldsView, id: u16)
    requires
        same_but_grease_and_order(a, b),
        !is_grease(id),
    ensures
        extension_data(a.extensions, id) is Some == extension_data(b.extensions, id) is Some,
        alike_in_ja4(
            ExtensionView { id, data: data_or_empty(a.extensions, id) },
            ExtensionView { id, data: data_or_empty(b.extensions, id) },
        ),
{
    let a_numbers = extension_numbers(a.extensions);
    let b_numbers = extension_numbers(b.extensions);
    lemma_lookup(a.extensions, id);
    lemma_lookup(b.extensions, id);
    if let Some(x) = extension_data(a.extensions, id) {
        let e = ExtensionView { id, data: x };
        let i = choose|i: int| 0 <= i < a.extensions.len() && a.extensions[i] == e;
        assert(a_numbers[i] == id);
        lemma_same_numbers(a_numbers, b_numbers, id);
        let y = extension_data(b.extensions, id)->0;
        let f = ExtensionView { id, data: y };
        let j = choose|j: int| 0 <= j < b.extensions.len() && b.extensions[j] == f;
        assert(alike_in_ja4(a.extensions[i], b.extensions[j]));
    } else {
        if let Some(y) = extension_data(b.extensions, id) {
            let f = ExtensionView { id, data: y };
            let j = choose|j: int| 0 <= j < b.extensions.len() && b.extensions[j] == f;
            assert(b_numbers[j] == id);
            lemma_same_numbers(b_numbers, a_numbers, id);
        }
    }
}

/// Hellos that differ in GREASE and order alone have the same JA4, server name
/// and protocols.
proof fn lemma_order_ignored(a: HelloFieldsView, b: HelloFieldsView)
    requires
        same_but_grease_and_order(a, b),
    ensures
        ja4_of(described(a)) == ja4_of(described(b)),
        described(a).server_name == described(b).server_name,
        described(a).alpn == described(b).alpn,
{
    lemma_reordered_lookup(a, b, EXT_SERVER_NAME);
    lemma_reordered_lookup(a, b, EXT_ALPN);
    lemma_reordered_lookup(a, b, EXT_SUPPORTED_VERSIONS);
    lemma_reordered_lookup(a, b, EXT_SIGNATURE_ALGORITHMS);
    lemma_version_field(a, b);
    lemma_same_ja4(described(a), described(b));
}

/// A GREASE value anywhere in a list of groups or signature algorithms, with
/// the length of the list, is as good as not there.
pub proof fn law_grease_listed(values: Seq<u16>, i: int, v: u16)
    requires
        0 <= i <= values.len(),
        values.len() < 32767,
        is_grease(v),
    ensures
        listed_values(with_length16(value_bytes(values.insert(i, v)))) == listed_values(
            with_length16(value_bytes(values)),
        ),
{
    law_value_list_reads_back(values);
    law_value_list_reads_back(values.insert(i, v));
    law_grease_inserted(values, i, v);
}

/// A GREASE extension anywhere in a hello makes one that differs in GREASE
/// alone, and so does a GREASE cipher.
pub proof fn law_grease_put_into_hello(h: HelloFieldsView, i: int, e: ExtensionView, j: int, c: u16)
    requires
        0 <= i <= h.extensions.len(),
        is_grease(e.id),
        0 <= j <= h.ciphers.len(),
        is_grease(c),
    ensures
        same_but_grease(h, HelloFieldsView { extensions: h.extensions.insert(i, e), ..h }),
        same_but_grease(h, HelloFieldsView { ciphers: h.ciphers.insert(j, c), ..h }),
{
    let pred = |x: ExtensionView| !is_grease(x.id);
    let front = h.extensions.take(i);
    let back = h.extensions.skip(i);
    assert(front.push(e).filter(pred) == front.filter(pred)) by {
        reveal(Seq::filter);
        assert(front.push(e).drop_last() =~= front);
    }
    Seq::filter_distributes_over_add(front.push(e), back, pred);
    Seq::filter_distributes_over_add(front, back, pred);
    assert(h.extensions.insert(i, e) =~= front.push(e) + back);
    assert(h.extensions =~= front + back);
    law_grease_inserted(h.ciphers, j, c);
}

/// Two buffers whose hellos differ in GREASE alone have the same fingerprint.
pub proof fn law_grease_ignored_in_buffers(a: Seq<u8>, b: Seq<u8>)
    requires
        parsed_fields(a) is Ok,
        parsed_fields(b) is Ok,
        same_but_grease(parsed_fields(a)->Ok_0, parsed_fields(b)->Ok_0),
    ensures
        parsed_fingerprint(a) is Ok,
        parsed_fingerprint(a) == parsed_fingerprint(b),
{
    lemma_grease_ignored(parsed_fields(a)->Ok_0, parsed_fields(b)->Ok_0);
}

/// Two buffers whose hellos differ in GREASE and in the order of ciphers and
/// extensions alone have the same JA4, server name and protocols.
pub proof fn law_order_ignored_in_buffers(a: Seq<u8>, b: Seq<u8>)
    requires
        parsed_fields(a) is Ok,
        parsed_fields(b) is Ok,
        same_but_grease_and_order(parsed_fields(a)->Ok_0, parsed_fields(b)->Ok_0),
    ensures
        parsed_fingerprint(a) is Ok,
        parsed_fingerprint(b) is Ok,
        parsed_fingerprint(a)->Ok_0.ja4 == parsed_fingerprint(b)->Ok_0.ja4,
        parsed_fingerprint(a)->Ok_0.server_name == parsed_fingerprint(b)->Ok_0.server_name,
        parsed_fingerprint(a)->Ok_0.alpn == parsed_fingerprint(b)->Ok_0.alpn,
{
    lemma_order_ignored(parsed_fields(a)->Ok_0, parsed_fields(b)->Ok_0);
}

/// The same extensions in any order have the same numbers.
proof fn lemma_numbers_multiset(a: Seq<ExtensionView>, b: Seq<ExtensionView>)
    requires
        a.to_multiset() == b.to_multiset(),
    ensures
        extension_numbers(a).to_multiset() == extension_numbers(b).to_multiset(),
    decreases a.len(),
{
    broadcast use vstd::seq_lib::group_to_multiset_ensures;

    assert(a.len() == a.to_multiset().len());
    assert(b.len() == b.to_multiset().len());
    if a.len() > 0 {
        let last = a.last();
        assert(a.contains(last));
        assert(b.to_multiset().count(last) > 0);
        let j = choose|j: int| 0 <= j < b.len() && b[j] == last;
        let rest = a.drop_last();
        let others = b.remove(j);
        assert(a =~= rest.push(last));
        assert(others.insert(j, last) =~= b);
        assert(a.to_multiset() =~= rest.to_multiset().insert(last));
        assert(b.to_multiset() =~= others.to_multiset().insert(last));
        assert(rest.to_multiset() =~= a.to_multiset().remove(last));
        assert(others.to_multiset() =~= b.to_multiset().remove(last));
        lemma_numbers_multiset(rest, others);
        assert(extension_numbers(a) =~= extension_numbers(rest).push(last.id));
        assert(extension_numbers(b) =~= extension_numbers(others).insert(j, last.id));
    } else {
        assert(extension_numbers(a) =~= extension_numbers(b));
    }
}

/// GREASE put into a hello whose extensions have distinct numbers, and then
/// its ciphers and extensions put in any order, make a hello that differs in
/// GREASE and order alone.
pub proof fn law_grease_and_then_order(
    h: HelloFieldsView,
    greased: HelloFieldsView,
    reordered: HelloFieldsView,
)
    requires
        numbers_distinct(h.extensions),
        same_but_grease(h, greased),
        reordered.legacy_version == greased.legacy_version,
        reordered.ciphers.to_multiset() == greased.ciphers.to_multiset(),
        reordered.extensions.to_multiset() == greased.extensions.to_multiset(),
    ensures
        same_but_grease_and_order(h, reordered),
{
    broadcast use vstd::seq_lib::group_to_multiset_ensures;

    let kept = |v: u16| !is_grease(v);
    let pred = |e: ExtensionView| !is_grease(e.id);
    let kh = kept_extensions(h.extensions);
    let kg = kept_extensions(greased.extensions);
    lemma_filter_multiset(reordered.ciphers, kept);
    lemma_filter_multiset(greased.ciphers, kept);
    lemma_numbers_multiset(reordered.extensions, greased.extensions);
    lemma_filter_multiset(extension_numbers(reordered.extensions), kept);
    lemma_filter_multiset(extension_numbers(greased.extensions), kept);
    lemma_kept_numbers(h.extensions);
    lemma_kept_numbers(greased.extensions);
    assert forall|i: int| 0 <= i < kh.len() implies extension_numbers(kh)[i]
        == extension_numbers(kg)[i] by {
        assert(alike(kh[i], kg[i]));
    }
    assert(extension_numbers(kh) =~= extension_numbers(kg));
    assert forall|i: int, j: int|
        0 <= i < h.extensions.len() && 0 <= j < reordered.extensions.len() && (
        #[trigger] h.extensions[i]).id == (#[trigger] reordered.extensions[j]).id implies alike_in_ja4(
        h.extensions[i],
        reordered.extensions[j],
    ) by {
        let e = h.extensions[i];
        let f = reordered.extensions[j];
        if !is_grease(e.id) {
            h.extensions.lemma_filter_contains(pred, i);
            let p = choose|p: int| 0 <= p < kh.len() && kh[p] == e;
            assert(reordered.extensions.contains(f));
            assert(greased.extensions.to_multiset().count(f) > 0);
            let k = choose|k: int|
                0 <= k < greased.extensions.len() && greased.extensions[k] == f;
            greased.extensions.lemma_filter_contains(pred, k);
            let q = choose|q: int| 0 <= q < kg.len() && kg[q] == f;
            assert(alike(kh[q], kg[q]));
            assert(kh[p].id == kh[q].id);
            assert(p == q);
        }
    }
}

/// A ClientHello that was written into a record, with its lengths, has the
/// same fingerprint as one that was read and differs from it in GREASE alone,
/// whatever the random bytes, the session id, the compression methods, the
/// record version and what follows the record.
pub proof fn law_written_with_grease(
    buf: Seq<u8>,
    h: HelloFieldsView,
    random: Seq<u8>,
    session_id: Seq<u8>,
    compression: Seq<u8>,
    record_version: int,
    rest: Seq<u8>,
)
    requires
        parsed_fields(buf) is Ok,
        same_but_grease(parsed_fields(buf)->Ok_0, h),
        writable(h, random, session_id, compression),
    ensures
        parsed_fingerprint(
            record_bytes(record_version, hello_bytes(h, random, session_id, compression)) + rest,
        ) == parsed_fingerprint(buf),
        parsed_fingerprint(buf) is Ok,
{
    let written = record_bytes(record_version, hello_bytes(h, random, session_id, compression))
        + rest;
    law_hello_reads_back(h, random, session_id, compression, record_version, rest);
    law_grease_ignored_in_buffers(buf, written);
}

/// A ClientHello that was written into a record, with its lengths, has the
/// same JA4, server name and protocols as one that was read and differs from
/// it in GREASE and in the order of ciphers and extensions alone, whatever the
/// random bytes, the session id, the compression methods, the record version
/// and what follows the record.
pub proof fn law_written_in_any_order(
    buf: Seq<u8>,
    h: HelloFieldsView,
    random: Seq<u8>,
    session_id: Seq<u8>,
    compression: Seq<u8>,
    record_version: int,
    rest: Seq<u8>,
)
    requires
        parsed_fields(buf) is Ok,
        same_but_grease_and_order(parsed_fields(buf)->Ok_0, h),
        writable(h, random, session_id, compression),
    ensures
        ({
            let written = record_bytes(
                record_version,
                hello_bytes(h, random, session_id, compression),
            ) + rest;
            &&& parsed_fingerprint(buf) matches Ok(read)
            &&& parsed_fingerprint(written) matches Ok(again)
            &&& again.ja4 == read.ja4
            &&& again.server_name == read.server_name
            &&& again.alpn == read.alpn
        }),
{
    let written = record_bytes(record_version, hello_bytes(h, random, session_id, compression))
        + rest;
    law_hello_reads_back(h, random, session_id, compression, record_version, rest);
    law_order_ignored_in_buffers(buf, written);
}

} // verus!
