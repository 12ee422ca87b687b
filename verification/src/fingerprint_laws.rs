//! What fingerprints do not depend on.

use vstd::prelude::*;

use crate::client_hello::{ExtensionView, HelloFieldsView};
use crate::extensions::{
    described, extension_data, extension_numbers, ClientHelloView, EXT_ALPN, EXT_EC_POINT_FORMATS,
    EXT_SERVER_NAME, EXT_SIGNATURE_ALGORITHMS, EXT_SUPPORTED_GROUPS, EXT_SUPPORTED_VERSIONS,
};
use crate::fingerprint::{
    ascending, counts_for_ja4_c, fingerprint_of, ja4_c_extensions, ja4_c_text, ja4_of,
    version_field,
};
use crate::grease::{is_grease, lemma_filter_push, without_grease};

verus! {

/// A value that a filter does not keep can stand anywhere in the list.
proof fn lemma_filter_insert(values: Seq<u16>, i: int, v: u16, pred: spec_fn(u16) -> bool)
    requires
        0 <= i <= values.len(),
        !pred(v),
    ensures
        values.insert(i, v).filter(pred) == values.filter(pred),
{
    let a = values.take(i);
    let b = values.skip(i);
    lemma_filter_push(a, v, pred);
    Seq::filter_distributes_over_add(a.push(v), b, pred);
    Seq::filter_distributes_over_add(a, b, pred);
    assert(values.insert(i, v) =~= a.push(v) + b);
    assert(values =~= a + b);
}

/// The extensions that count for the third part of JA4 can be picked after
/// GREASE is gone.
proof fn lemma_ja4_c_extensions(ids: Seq<u16>)
    ensures
        ja4_c_extensions(ids) == ja4_c_extensions(without_grease(ids)),
    decreases ids.len(),
{
    let counts = |id: u16| counts_for_ja4_c(id);
    let kept = |v: u16| !is_grease(v);
    if ids.len() > 0 {
        let rest = ids.drop_last();
        lemma_ja4_c_extensions(rest);
        assert(ids =~= rest.push(ids.last()));
        lemma_filter_push(rest, ids.last(), counts);
        lemma_filter_push(rest, ids.last(), kept);
        lemma_filter_push(without_grease(rest), ids.last(), counts);
    } else {
        reveal(Seq::filter);
    }
}

/// The same values in any order give the same values after a filter.
pub proof fn lemma_filter_multiset(values: Seq<u16>, pred: spec_fn(u16) -> bool)
    ensures
        values.filter(pred).to_multiset() == values.to_multiset().filter(pred),
    decreases values.len(),
{
    broadcast use vstd::seq_lib::group_to_multiset_ensures;
    broadcast use vstd::multiset::group_multiset_axioms;

    if values.len() > 0 {
        let rest = values.drop_last();
        let last = values.last();
        lemma_filter_multiset(rest, pred);
        assert(values =~= rest.push(last));
        lemma_filter_push(rest, last, pred);
        assert(values.to_multiset() =~= rest.to_multiset().insert(last));
        assert(values.filter(pred).to_multiset() =~= values.to_multiset().filter(pred));
    } else {
        reveal(Seq::filter);
        assert(values.filter(pred).to_multiset() =~= values.to_multiset().filter(pred));
    }
}

/// The same values in any order have the same ascending order.
proof fn lemma_ascending_unique(a: Seq<u16>, b: Seq<u16>)
    requires
        a.to_multiset() == b.to_multiset(),
    ensures
        ascending(a) == ascending(b),
        a.len() == b.len(),
{
    broadcast use vstd::seq_lib::group_to_multiset_ensures;

    let leq = |x: u16, y: u16| x <= y;
    a.lemma_sort_by_ensures(leq);
    b.lemma_sort_by_ensures(leq);
    vstd::seq_lib::lemma_sorted_unique(a.sort_by(leq), b.sort_by(leq), leq);
    assert(a.len() == a.to_multiset().len());
    assert(b.len() == b.to_multiset().len());
}

/// A GREASE value anywhere in a list is as good as not there.
pub proof fn law_grease_inserted(values: Seq<u16>, i: int, v: u16)
    requires
        0 <= i <= values.len(),
        is_grease(v),
    ensures
        without_grease(values.insert(i, v)) == without_grease(values),
{
    lemma_filter_insert(values, i, v, |v: u16| !is_grease(v));
}

/// Hellos that agree without GREASE, and in what JA4 says of the version, have
/// the same fingerprint.
pub proof fn lemma_same_fingerprint(a: ClientHelloView, b: ClientHelloView)
    requires
        a.legacy_version == b.legacy_version,
        without_grease(a.ciphers) == without_grease(b.ciphers),
        without_grease(a.extension_ids) == without_grease(b.extension_ids),
        a.server_name == b.server_name,
        a.alpn == b.alpn,
        without_grease(a.groups) == without_grease(b.groups),
        a.ec_points == b.ec_points,
        version_field(a) == version_field(b),
        without_grease(a.sig_algs) == without_grease(b.sig_algs),
    ensures
        fingerprint_of(a) == fingerprint_of(b),
{
    lemma_ja4_c_extensions(a.extension_ids);
    lemma_ja4_c_extensions(b.extension_ids);
}

/// Hellos that agree without GREASE but for the order of their ciphers and
/// extensions, and in what JA4 says of the version, have the same JA4.
pub proof fn lemma_same_ja4(a: ClientHelloView, b: ClientHelloView)
    requires
        without_grease(a.ciphers).to_multiset() == without_grease(b.ciphers).to_multiset(),
        without_grease(a.extension_ids).to_multiset() == without_grease(
            b.extension_ids,
        ).to_multiset(),
        a.server_name is Some == b.server_name is Some,
        a.alpn == b.alpn,
        version_field(a) == version_field(b),
        without_grease(a.sig_algs) == without_grease(b.sig_algs),
    ensures
        ja4_of(a) == ja4_of(b),
{
    let counts = |id: u16| counts_for_ja4_c(id);
    let a_ids = without_grease(a.extension_ids);
    let b_ids = without_grease(b.extension_ids);
    lemma_ascending_unique(without_grease(a.ciphers), without_grease(b.ciphers));
    lemma_ascending_unique(a_ids, b_ids);
    lemma_ja4_c_extensions(a.extension_ids);
    lemma_ja4_c_extensions(b.extension_ids);
    lemma_filter_multiset(a_ids, counts);
    lemma_filter_multiset(b_ids, counts);
    lemma_ascending_unique(ja4_c_extensions(a_ids), ja4_c_extensions(b_ids));
}

/// Two hellos that differ in the GREASE values of their lists alone have the
/// same fingerprint.
pub proof fn law_grease_ignored(a: ClientHelloView, b: ClientHelloView)
    requires
        without_grease(a.ciphers) == without_grease(b.ciphers),
        without_grease(a.extension_ids) == without_grease(b.extension_ids),
        without_grease(a.groups) == without_grease(b.groups),
        without_grease(a.sig_algs) == without_grease(b.sig_algs),
        a == (ClientHelloView {
            ciphers: a.ciphers,
            extension_ids: a.extension_ids,
            groups: a.groups,
            sig_algs: a.sig_algs,
            ..b
        }),
    ensures
        fingerprint_of(a) == fingerprint_of(b),
{
    lemma_same_fingerprint(a, b);
}

/// An extension with another number does not change which contents are found.
proof fn lemma_extension_inserted(
    extensions: Seq<ExtensionView>,
    i: int,
    e: ExtensionView,
    id: u16,
)
    requires
        0 <= i <= extensions.len(),
        e.id != id,
    ensures
        extension_data(extensions.insert(i, e), id) == extension_data(extensions, id),
    decreases extensions.len(),
{
    let with = extensions.insert(i, e);
    if i == 0 {
        assert(with.skip(1) =~= extensions);
    } else {
        lemma_extension_inserted(extensions.skip(1), i - 1, e, id);
        assert(with.skip(1) =~= extensions.skip(1).insert(i - 1, e));
    }
}

/// A GREASE extension anywhere in a ClientHello does not change its
/// fingerprint.
pub proof fn law_grease_extension_ignored(h: HelloFieldsView, i: int, e: ExtensionView)
    requires
        0 <= i <= h.extensions.len(),
        is_grease(e.id),
    ensures
        fingerprint_of(
            described(HelloFieldsView { extensions: h.extensions.insert(i, e), ..h }),
        ) == fingerprint_of(described(h)),
{
    let with = HelloFieldsView { extensions: h.extensions.insert(i, e), ..h };
    lemma_extension_inserted(h.extensions, i, e, EXT_SERVER_NAME);
    lemma_extension_inserted(h.extensions, i, e, EXT_ALPN);
    lemma_extension_inserted(h.extensions, i, e, EXT_SUPPORTED_GROUPS);
    lemma_extension_inserted(h.extensions, i, e, EXT_EC_POINT_FORMATS);
    lemma_extension_inserted(h.extensions, i, e, EXT_SUPPORTED_VERSIONS);
    lemma_extension_inserted(h.extensions, i, e, EXT_SIGNATURE_ALGORITHMS);
    let ids = extension_numbers(h.extensions);
    assert(extension_numbers(with.extensions) =~= ids.insert(i, e.id));
    law_grease_inserted(ids, i, e.id);
    law_grease_ignored(described(with), described(h));
}

/// JA4 depends neither on the order of the ciphers nor on that of the
/// extensions, nor on groups, point formats and the name of the server.
pub proof fn law_order_ignored_by_ja4(a: ClientHelloView, b: ClientHelloView)
    requires
        a.ciphers.to_multiset() == b.ciphers.to_multiset(),
        a.extension_ids.to_multiset() == b.extension_ids.to_multiset(),
        a.server_name is Some == b.server_name is Some,
        a.alpn == b.alpn,
        a.has_supported_versions == b.has_supported_versions,
        a.tls_version == b.tls_version,
        a.sig_algs == b.sig_algs,
    ensures
        ja4_of(a) == ja4_of(b),
{
    let kept = |v: u16| !is_grease(v);
    lemma_filter_multiset(a.ciphers, kept);
    lemma_filter_multiset(b.ciphers, kept);
    lemma_filter_multiset(a.extension_ids, kept);
    lemma_filter_multiset(b.extension_ids, kept);
    lemma_same_ja4(a, b);
}

/// The third part of JA4 is the same with and without the extensions that name
/// the server and the protocols.
pub proof fn law_ja4_c_without_names(h: ClientHelloView, i: int, id: u16)
    requires
        0 <= i <= h.extension_ids.len(),
        id == EXT_SERVER_NAME || id == EXT_ALPN,
    ensures
        ja4_c_text(ClientHelloView { extension_ids: h.extension_ids.insert(i, id), ..h })
            == ja4_c_text(h),
{
    lemma_filter_insert(h.extension_ids, i, id, |id: u16| counts_for_ja4_c(id));
}

} // verus!
