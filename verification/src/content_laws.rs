//! What is reported of a ClientHello, in terms of the bytes of its extensions.

use vstd::prelude::*;
use vstd::utf8::*;

use crate::client_hello::{ExtensionView, HelloFieldsView};
use crate::digest::sha256_digest;
use crate::encoding::{
    byte_strings_bytes, hello_bytes, law_alpn_reads_back, law_hello_reads_back,
    law_host_name_reads_back, record_bytes, server_name_bytes, value_bytes, with_length16,
    with_length8, writable,
};
use crate::extensions::{
    data_or_empty, described, extension_data, extension_numbers, highest_version, host_name,
    EXT_SUPPORTED_VERSIONS,
};
use crate::fingerprint::{ja4_b_text, ja4_c_text, parsed_fingerprint};
use crate::hello_laws::lemma_lookup;
use crate::ja_laws::law_ja4_reads_back;
use crate::wire::{be16, byte_strings, prefixed16, prefixed8, u16_list};

verus! {

/// Whether the extension at `i` is the first with this number.
pub open spec fn first_with(extensions: Seq<ExtensionView>, i: int, id: u16) -> bool {
    &&& 0 <= i < extensions.len()
    &&& extensions[i].id == id
    &&& forall|j: int| 0 <= j < i ==> (#[trigger] extensions[j]).id != id
}

/// Whether no extension has this number.
pub open spec fn none_with(extensions: Seq<ExtensionView>, id: u16) -> bool {
    forall|j: int| 0 <= j < extensions.len() ==> (#[trigger] extensions[j]).id != id
}

/// The first extension with a number is the one that is found.
pub proof fn law_first_extension_found(extensions: Seq<ExtensionView>, i: int, id: u16)
    requires
        first_with(extensions, i, id),
    ensures
        extension_data(extensions, id) == Some(extensions[i].data),
    decreases i,
{
    if i > 0 {
        let rest = extensions.skip(1);
        assert(extensions[0].id != id);
        assert forall|j: int| 0 <= j < i - 1 implies (#[trigger] rest[j]).id != id by {
            assert(rest[j] == extensions[j + 1]);
        }
        assert(rest[i - 1] == extensions[i]);
        law_first_extension_found(rest, i - 1, id);
    }
}

/// A number that no extension has is not found.
pub proof fn law_missing_extension_not_found(extensions: Seq<ExtensionView>, id: u16)
    requires
        none_with(extensions, id),
    ensures
        extension_data(extensions, id) is None,
{
    lemma_lookup(extensions, id);
    if let Some(data) = extension_data(extensions, id) {
        let e = ExtensionView { id, data };
        let i = choose|i: int| 0 <= i < extensions.len() && extensions[i] == e;
        assert(extensions[i].id == id);
    }
}

/// The version, the ciphers and the extension numbers are reported as they
/// stand in the message.
pub proof fn law_lists_reported(h: HelloFieldsView)
    ensures
        described(h).legacy_version == h.legacy_version,
        described(h).ciphers == h.ciphers,
        described(h).extension_ids.len() == h.extensions.len(),
        forall|i: int|
            0 <= i < h.extensions.len() ==> #[trigger] described(h).extension_ids[i]
                == h.extensions[i].id,
{
}

/// A host name is read exactly where the contents hold it in UTF-8, behind a
/// list length, the type 0 and its own length, and complete.
pub proof fn law_host_name(data: Seq<u8>, name: Seq<char>)
    ensures
        host_name(data) == Some(name) <==> {
            &&& data.len() >= 5
            &&& data[2] == 0
            &&& 5 + 256 * data[3] + data[4] <= data.len()
            &&& data.subrange(5, 5 + 256 * data[3] + data[4]) == encode_utf8(name)
        },
{
    if data.len() >= 5 {
        assert(be16(data, 3) == 256 * data[3] + data[4]);
        if 5 + be16(data, 3) <= data.len() {
            let bytes = data.subrange(5, 5 + be16(data, 3));
            encode_utf8_valid_utf8(name);
            encode_utf8_decode_utf8(name);
            if valid_utf8(bytes) {
                decode_utf8_encode_utf8(bytes);
            }
        }
    }
}

/// A server name is reported exactly where the first extension 0x0000 holds it
/// in UTF-8: behind a list length, the type 0 and its own length, and complete.
pub proof fn law_server_name(h: HelloFieldsView, i: int, name: Seq<char>)
    requires
        first_with(h.extensions, i, 0x0000),
    ensures
        described(h).server_name == Some(name) <==> ({
            let data = h.extensions[i].data;
            &&& data.len() >= 5
            &&& data[2] == 0
            &&& 5 + 256 * data[3] + data[4] <= data.len()
            &&& data.subrange(5, 5 + 256 * data[3] + data[4]) == encode_utf8(name)
        }),
{
    law_first_extension_found(h.extensions, i, 0x0000);
    law_host_name(h.extensions[i].data, name);
}

/// Without an extension 0x0000 no server name is reported.
pub proof fn law_no_server_name(h: HelloFieldsView)
    requires
        none_with(h.extensions, 0x0000),
    ensures
        described(h).server_name is None,
{
    law_missing_extension_not_found(h.extensions, 0x0000);
}

/// The part of a list with a two-byte length that is there.
pub open spec fn list16(data: Seq<u8>) -> Seq<u8>
    recommends
        data.len() >= 2,
{
    if 256 * data[0] + data[1] <= data.len() - 2 {
        data.subrange(2, 2 + 256 * data[0] + data[1])
    } else {
        data.skip(2)
    }
}

/// The part of a list with a one-byte length that is there.
pub open spec fn list8(data: Seq<u8>) -> Seq<u8>
    recommends
        data.len() >= 1,
{
    if data[0] <= data.len() - 1 {
        data.subrange(1, 1 + data[0])
    } else {
        data.skip(1)
    }
}

/// What follows a two-byte length is what is there of the list.
proof fn lemma_list16(data: Seq<u8>)
    requires
        data.len() >= 2,
    ensures
        prefixed16(data) == list16(data),
{
    assert(be16(data, 0) == 256 * data[0] + data[1]);
    assert(prefixed16(data) =~= list16(data));
}

/// What follows a one-byte length is what is there of the list.
proof fn lemma_list8(data: Seq<u8>)
    requires
        data.len() >= 1,
    ensures
        prefixed8(data) == list8(data),
{
    assert(prefixed8(data) =~= list8(data));
}

/// Whether `list` is written of these byte strings, each with its length, and
/// at most an incomplete one after them.
pub open spec fn holds_strings(list: Seq<u8>, items: Seq<Seq<u8>>) -> bool {
    let written = byte_strings_bytes(items);
    &&& forall|i: int| 0 <= i < items.len() ==> (#[trigger] items[i]).len() < 256
    &&& written.len() <= list.len()
    &&& list.take(written.len() as int) == written
    &&& written.len() < list.len() ==> list[written.len() as int] > list.len() - written.len() - 1
}

/// The byte strings that are read are the ones that the list is written of.
#[verifier::rlimit(40)]
pub proof fn law_strings_of_list(list: Seq<u8>)
    ensures
        holds_strings(list, byte_strings(list)),
    decreases list.len(),
{
    let items = byte_strings(list);
    if list.len() == 0 || 1 + list[0] > list.len() {
        assert(byte_strings_bytes(items) =~= seq![]);
        assert(list.take(0) =~= seq![]);
    } else {
        let end = 1 + list[0] as int;
        let first = list.subrange(1, end);
        let rest = list.skip(end);
        law_strings_of_list(rest);
        let others = byte_strings(rest);
        let tail = byte_strings_bytes(others);
        assert(items.skip(1) =~= others);
        let written = byte_strings_bytes(items);
        assert(written =~= with_length8(first) + tail);
        assert forall|i: int| 0 <= i < items.len() implies (#[trigger] items[i]).len() < 256 by {
            if i > 0 {
                assert(items[i] == others[i - 1]);
            }
        }
        assert forall|i: int| 0 <= i < written.len() implies list[i] == written[i] by {
            if i >= end {
                assert(tail[i - end] == rest.take(tail.len() as int)[i - end]);
            }
        }
        assert(list.take(written.len() as int) =~= written);
    }
}

/// The protocols that are reported are the ones that the list of the first
/// extension 0x0010 is written of; none where its length is missing.
pub proof fn law_alpn(h: HelloFieldsView, i: int)
    requires
        first_with(h.extensions, i, 0x0010),
    ensures
        h.extensions[i].data.len() >= 2 ==> holds_strings(
            list16(h.extensions[i].data),
            described(h).alpn,
        ),
        h.extensions[i].data.len() < 2 ==> described(h).alpn.len() == 0,
{
    let data = h.extensions[i].data;
    law_first_extension_found(h.extensions, i, 0x0010);
    if data.len() >= 2 {
        lemma_list16(data);
        law_strings_of_list(list16(data));
    }
}

/// Without an extension 0x0010 no protocols are reported.
pub proof fn law_no_alpn(h: HelloFieldsView)
    requires
        none_with(h.extensions, 0x0010),
    ensures
        described(h).alpn.len() == 0,
{
    law_missing_extension_not_found(h.extensions, 0x0010);
}

/// Whether `list` is written of these values, two bytes each, and at most one
/// byte after them.
pub open spec fn holds_values(list: Seq<u8>, values: Seq<u16>) -> bool {
    &&& 2 * values.len() <= list.len() < 2 * values.len() + 2
    &&& list.take(2 * values.len() as int) == value_bytes(values)
}

/// The values that are read are the ones that the bytes are written of.
pub proof fn law_values_of_list(list: Seq<u8>)
    ensures
        holds_values(list, u16_list(list)),
{
    let values = u16_list(list);
    let written = value_bytes(values);
    assert forall|k: int| 0 <= k < written.len() implies list[k] == written[k] by {
        let i = k / 2;
        assert(values[i] == be16(list, 2 * i));
        assert(values[i] == list[2 * i] * 256 + list[2 * i + 1]);
        assert(values[i] as int / 256 == list[2 * i] && values[i] as int % 256 == list[2 * i + 1]);
        assert(k == 2 * i || k == 2 * i + 1);
    }
    assert(list.take(2 * values.len() as int) =~= written);
}

/// The groups that are reported are the ones that the list of the first
/// extension 0x000a is written of.
pub proof fn law_groups(h: HelloFieldsView, i: int)
    requires
        first_with(h.extensions, i, 0x000a),
    ensures
        h.extensions[i].data.len() >= 2 ==> holds_values(
            list16(h.extensions[i].data),
            described(h).groups,
        ),
        h.extensions[i].data.len() < 2 ==> described(h).groups.len() == 0,
{
    let data = h.extensions[i].data;
    law_first_extension_found(h.extensions, i, 0x000a);
    if data.len() >= 2 {
        lemma_list16(data);
        law_values_of_list(list16(data));
    }
}

/// The signature algorithms that are reported are the ones that the list of
/// the first extension 0x000d is written of.
pub proof fn law_signature_algorithms(h: HelloFieldsView, i: int)
    requires
        first_with(h.extensions, i, 0x000d),
    ensures
        h.extensions[i].data.len() >= 2 ==> holds_values(
            list16(h.extensions[i].data),
            described(h).sig_algs,
        ),
        h.extensions[i].data.len() < 2 ==> described(h).sig_algs.len() == 0,
{
    let data = h.extensions[i].data;
    law_first_extension_found(h.extensions, i, 0x000d);
    if data.len() >= 2 {
        lemma_list16(data);
        law_values_of_list(list16(data));
    }
}

/// The point formats that are reported are what is there of the list of the
/// first extension 0x000b.
pub proof fn law_point_formats(h: HelloFieldsView, i: int)
    requires
        first_with(h.extensions, i, 0x000b),
    ensures
        h.extensions[i].data.len() >= 1 ==> described(h).ec_points == list8(h.extensions[i].data),
        h.extensions[i].data.len() < 1 ==> described(h).ec_points.len() == 0,
{
    law_first_extension_found(h.extensions, i, 0x000b);
    if h.extensions[i].data.len() >= 1 {
        lemma_list8(h.extensions[i].data);
    }
}

/// Lists without their extension are empty.
pub proof fn law_missing_lists(h: HelloFieldsView)
    ensures
        none_with(h.extensions, 0x000a) ==> described(h).groups.len() == 0,
        none_with(h.extensions, 0x000b) ==> described(h).ec_points.len() == 0,
        none_with(h.extensions, 0x000d) ==> described(h).sig_algs.len() == 0,
        described(h).has_supported_versions <==> !none_with(h.extensions, 0x002b),
        none_with(h.extensions, 0x002b) ==> described(h).tls_version == h.legacy_version,
{
    if none_with(h.extensions, 0x000a) {
        law_missing_extension_not_found(h.extensions, 0x000a);
    }
    if none_with(h.extensions, 0x000b) {
        law_missing_extension_not_found(h.extensions, 0x000b);
    }
    if none_with(h.extensions, 0x000d) {
        law_missing_extension_not_found(h.extensions, 0x000d);
    }
    if none_with(h.extensions, 0x002b) {
        law_missing_extension_not_found(h.extensions, 0x002b);
        assert(u16_list(prefixed8(data_or_empty(h.extensions, EXT_SUPPORTED_VERSIONS))) =~= seq![]);
    } else {
        lemma_lookup(h.extensions, 0x002b);
        let j = choose|j: int| 0 <= j < h.extensions.len() && (#[trigger] h.extensions[j]).id
            == 0x002b;
        assert(extension_numbers(h.extensions)[j] == 0x002b);
    }
}

/// Whether the bytes `high` and `low` stand for a value of the list.
pub open spec fn lists_pair(list: Seq<u8>, high: u8, low: u8) -> bool {
    exists|k: int|
        #![trigger list[2 * k]]
        0 <= k && 2 * k + 1 < list.len() && list[2 * k] == high && list[2 * k + 1] == low
}

/// A value is in a list of two-byte values exactly if its bytes stand there at
/// an even offset.
proof fn lemma_lists_pair(list: Seq<u8>, v: u16)
    ensures
        u16_list(list).contains(v) <==> lists_pair(list, (v / 256) as u8, (v % 256) as u8),
{
    let values = u16_list(list);
    if values.contains(v) {
        let k = choose|k: int| 0 <= k < values.len() && values[k] == v;
        assert(v == list[2 * k] * 256 + list[2 * k + 1]);
        assert(v as int / 256 == list[2 * k] && v as int % 256 == list[2 * k + 1]);
        assert(2 * k + 1 < list.len());
    }
    if lists_pair(list, (v / 256) as u8, (v % 256) as u8) {
        let k = choose|k: int|
            #![trigger list[2 * k]]
            0 <= k && 2 * k + 1 < list.len() && list[2 * k] == (v / 256) as u8 && list[2 * k + 1]
                == (v % 256) as u8;
        assert(k < values.len());
        assert(values[k] == v);
    }
}

/// The version that is reported is TLS 1.3 where it is the version of the
/// hello or on the list of the first extension 0x002b, TLS 1.2 where that is
/// on the list instead, and the version of the hello elsewhere.
pub proof fn law_version(h: HelloFieldsView, i: int)
    requires
        first_with(h.extensions, i, 0x002b),
    ensures
        h.extensions[i].data.len() == 0 ==> described(h).tls_version == h.legacy_version,
        h.extensions[i].data.len() >= 1 ==> ({
            let list = list8(h.extensions[i].data);
            described(h).tls_version == if h.legacy_version == 0x0304 || lists_pair(list, 3, 4) {
                0x0304
            } else if lists_pair(list, 3, 3) {
                0x0303
            } else {
                h.legacy_version
            }
        }),
{
    law_first_extension_found(h.extensions, i, 0x002b);
    if h.extensions[i].data.len() >= 1 {
        lemma_list8(h.extensions[i].data);
        lemma_lists_pair(list8(h.extensions[i].data), 0x0304);
        lemma_lists_pair(list8(h.extensions[i].data), 0x0303);
    } else {
        assert(u16_list(prefixed8(h.extensions[i].data)) =~= seq![]);
    }
}

/// A ClientHello that was written with one extension 0x0000, naming a host,
/// among any others, has a fingerprint with that very name and, after digests
/// of six bytes or more, a `d` in JA4.
pub proof fn law_server_name_reported(
    h: HelloFieldsView,
    i: int,
    name: Seq<char>,
    random: Seq<u8>,
    session_id: Seq<u8>,
    compression: Seq<u8>,
    record_version: int,
    rest: Seq<u8>,
)
    requires
        writable(h, random, session_id, compression),
        0 <= i < h.extensions.len(),
        h.extensions[i].id == 0x0000,
        h.extensions[i].data == server_name_bytes(encode_utf8(name)),
        forall|j: int| 0 <= j < h.extensions.len() && j != i ==> (#[trigger] h.extensions[j]).id
            != 0x0000,
        encode_utf8(name).len() + 3 < 65536,
    ensures
        parsed_fingerprint(
            record_bytes(record_version, hello_bytes(h, random, session_id, compression)) + rest,
        ) matches Ok(fp) && {
            &&& fp.server_name == Some(name)
            &&& sha256_digest(encode_utf8(ja4_b_text(described(h)))).len() >= 6 && sha256_digest(
                encode_utf8(ja4_c_text(described(h))),
            ).len() >= 6 ==> fp.ja4[3] == 'd'
        },
{
    law_hello_reads_back(h, random, session_id, compression, record_version, rest);
    law_first_extension_found(h.extensions, i, 0x0000);
    law_host_name_reads_back(name);
    let b = sha256_digest(encode_utf8(ja4_b_text(described(h))));
    let c = sha256_digest(encode_utf8(ja4_c_text(described(h))));
    if b.len() >= 6 && c.len() >= 6 {
        law_ja4_reads_back(described(h), b, c);
    }
}

/// A ClientHello that was written with one extension 0x0010, listing
/// protocols, among any others, has a fingerprint with these protocols.
pub proof fn law_protocols_reported(
    h: HelloFieldsView,
    i: int,
    protocols: Seq<Seq<u8>>,
    random: Seq<u8>,
    session_id: Seq<u8>,
    compression: Seq<u8>,
    record_version: int,
    rest: Seq<u8>,
)
    requires
        writable(h, random, session_id, compression),
        0 <= i < h.extensions.len(),
        h.extensions[i].id == 0x0010,
        h.extensions[i].data == with_length16(byte_strings_bytes(protocols)),
        forall|j: int| 0 <= j < h.extensions.len() && j != i ==> (#[trigger] h.extensions[j]).id
            != 0x0010,
        forall|k: int| 0 <= k < protocols.len() ==> (#[trigger] protocols[k]).len() < 256,
        byte_strings_bytes(protocols).len() < 65536,
    ensures
        parsed_fingerprint(
            record_bytes(record_version, hello_bytes(h, random, session_id, compression)) + rest,
        ) matches Ok(fp) && fp.alpn == protocols,
{
    law_hello_reads_back(h, random, session_id, compression, record_version, rest);
    law_first_extension_found(h.extensions, i, 0x0010);
    law_alpn_reads_back(protocols);
}

/// The highest version among values: TLS 1.3 wins over TLS 1.2, and TLS 1.2
/// over the version of the hello unless that is TLS 1.3.
pub proof fn law_highest_version(version: u16, versions: Seq<u16>)
    ensures
        highest_version(version, versions) == if version == 0x0304 || exists|i: int|
            0 <= i < versions.len() && versions[i] == 0x0304 {
            0x0304
        } else if exists|i: int| 0 <= i < versions.len() && versions[i] == 0x0303 {
            0x0303
        } else {
            version
        },
{
}

} // verus!
