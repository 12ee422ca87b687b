//! What JA3 and JA4 say of a ClientHello, read back from their texts.

use vstd::prelude::*;
use vstd::utf8::*;

use crate::client_hello::{parsed_fields, ExtensionView, HelloFieldsView};
use crate::digest::{md5_digest, sha256_digest};
use crate::error::ParseErrorView;
use crate::extensions::{described, extension_data, extension_numbers, ClientHelloView};
use crate::fingerprint::{
    ascending, counts_for_ja4_c, ja3_of, ja3_text, ja4_a, ja4_b_text, ja4_c_extensions, ja4_c_text,
    ja4_with, parsed_fingerprint, short_hex, version_field, FingerprintView,
};
use crate::fingerprint_laws::lemma_filter_multiset;
use crate::grease::{is_grease, lemma_filter_push, without_grease};
use crate::hello_laws::lemma_lookup;
use crate::text::{
    dashed, decimal, decimal2, hex_bytes, hex_list, hex_text, law_hex_reads_back, lemma_hex_text,
};
use crate::text_laws::{
    decimal_value, is_decimal, law_dashed_reads_back, law_decimal2_reads_back,
    law_decimal_reads_back, law_decimals_distinguish, law_hex_list_reads_back, lemma_read_hex_list,
    lemma_split_one, lemma_split_push, lists_decimals, lists_hex, pieces_of, read_hex_list,
    split_at,
};
use crate::wire::{prefixed8, u16_list};

verus! {

/// The sixteen values that are GREASE.
pub proof fn law_grease_values(v: u16)
    ensures
        is_grease(v) <==> {
            ||| v == 0x0a0a
            ||| v == 0x1a1a
            ||| v == 0x2a2a
            ||| v == 0x3a3a
            ||| v == 0x4a4a
            ||| v == 0x5a5a
            ||| v == 0x6a6a
            ||| v == 0x7a7a
            ||| v == 0x8a8a
            ||| v == 0x9a9a
            ||| v == 0xaaaa
            ||| v == 0xbaba
            ||| v == 0xcaca
            ||| v == 0xdada
            ||| v == 0xeaea
            ||| v == 0xfafa
        },
{
    let high = v as int % 256 / 16;
    assert(0 <= high < 16);
    assert(v / 256 == v % 256 && v % 16 == 10 ==> v as int == 257 * (16 * high + 10));
}

/// A value at the end of a list is kept, in its place, exactly if it is not
/// GREASE: its two bytes are not equal, or do not end in the digit `a`.
pub proof fn law_without_grease_grows(values: Seq<u16>, v: u16)
    ensures
        without_grease(Seq::empty()) == Seq::<u16>::empty(),
        v / 256 == v % 256 && v % 16 == 10 ==> without_grease(values.push(v)) == without_grease(
            values,
        ),
        !(v / 256 == v % 256 && v % 16 == 10) ==> without_grease(values.push(v))
            == without_grease(values).push(v),
{
    reveal(Seq::filter);
    assert(without_grease(Seq::empty()) =~= Seq::<u16>::empty());
    lemma_filter_push(values, v, |x: u16| !is_grease(x));
}

/// A value occurs as often after GREASE is gone as before, and GREASE not at
/// all.
pub proof fn law_without_grease_counts(values: Seq<u16>, v: u16)
    ensures
        without_grease(values).to_multiset().count(v) == if v / 256 == v % 256 && v % 16 == 10 {
            0
        } else {
            values.to_multiset().count(v)
        },
{
    broadcast use vstd::multiset::group_multiset_axioms;

    lemma_filter_multiset(values, |x: u16| !is_grease(x));
}

/// The text that JA3 hashes, split at its commas, has five fields: the version,
/// and between dashes the ciphers, the extensions and the groups without
/// GREASE, and all point formats, in wire order.
#[verifier::rlimit(40)]
pub proof fn law_ja3_text_reads_back(h: ClientHelloView)
    ensures
        ({
            let fields = split_at(ja3_text(h), ',');
            &&& fields.len() == 5
            &&& is_decimal(fields[0])
            &&& decimal_value(fields[0]) == h.legacy_version
            &&& lists_decimals(fields[1], without_grease(h.ciphers))
            &&& lists_decimals(fields[2], without_grease(h.extension_ids))
            &&& lists_decimals(fields[3], without_grease(h.groups))
            &&& pieces_of(fields[4], '-').len() == h.ec_points.len()
            &&& forall|i: int|
                0 <= i < h.ec_points.len() ==> is_decimal(
                    #[trigger] pieces_of(fields[4], '-')[i],
                ) && decimal_value(pieces_of(fields[4], '-')[i]) == h.ec_points[i]
        }),
{
    let points = h.ec_points.map_values(|p: u8| p as u16);
    let v = decimal(h.legacy_version as nat);
    let c = dashed(without_grease(h.ciphers));
    let e = dashed(without_grease(h.extension_ids));
    let g = dashed(without_grease(h.groups));
    let p = dashed(points);
    law_decimal_reads_back(h.legacy_version as nat);
    law_dashed_reads_back(without_grease(h.ciphers));
    law_dashed_reads_back(without_grease(h.extension_ids));
    law_dashed_reads_back(without_grease(h.groups));
    law_dashed_reads_back(points);
    lemma_split_one(v, ',');
    lemma_split_push(v, c, ',');
    let t1 = v.push(',') + c;
    lemma_split_push(t1, e, ',');
    let t2 = t1.push(',') + e;
    lemma_split_push(t2, g, ',');
    let t3 = t2.push(',') + g;
    lemma_split_push(t3, p, ',');
    assert(ja3_text(h) =~= t3.push(',') + p);
    let fields = split_at(ja3_text(h), ',');
    assert(fields =~= seq![v, c, e, g, p]);
    assert forall|i: int| 0 <= i < h.ec_points.len() implies is_decimal(
        #[trigger] pieces_of(fields[4], '-')[i],
    ) && decimal_value(pieces_of(fields[4], '-')[i]) == h.ec_points[i] by {
        assert(points[i] == h.ec_points[i]);
    }
}

/// Hellos with the same JA3 text have the same version, the same ciphers,
/// extensions and groups without GREASE, and the same point formats.
pub proof fn law_ja3_text_distinguishes(a: ClientHelloView, b: ClientHelloView)
    requires
        ja3_text(a) == ja3_text(b),
    ensures
        a.legacy_version == b.legacy_version,
        without_grease(a.ciphers) == without_grease(b.ciphers),
        without_grease(a.extension_ids) == without_grease(b.extension_ids),
        without_grease(a.groups) == without_grease(b.groups),
        a.ec_points == b.ec_points,
{
    law_ja3_text_reads_back(a);
    law_ja3_text_reads_back(b);
    let fields = split_at(ja3_text(a), ',');
    law_decimals_distinguish(without_grease(a.ciphers), without_grease(b.ciphers), fields[1]);
    law_decimals_distinguish(
        without_grease(a.extension_ids),
        without_grease(b.extension_ids),
        fields[2],
    );
    law_decimals_distinguish(without_grease(a.groups), without_grease(b.groups), fields[3]);
    assert forall|i: int| 0 <= i < a.ec_points.len() implies a.ec_points[i] == b.ec_points[i] by {
        assert(is_decimal(pieces_of(fields[4], '-')[i]));
    }
    assert(a.ec_points =~= b.ec_points);
}

/// The JA3 hash, read two hexadecimal digits at a time, is the MD5 digest of
/// the JA3 text.
pub proof fn law_ja3_is_md5(h: ClientHelloView)
    ensures
        hex_bytes(ja3_of(h)) == md5_digest(encode_utf8(ja3_text(h))),
        ja3_of(h).len() == 2 * md5_digest(encode_utf8(ja3_text(h))).len(),
        forall|i: int|
            0 <= i < ja3_of(h).len() ==> '0' <= #[trigger] ja3_of(h)[i] <= '9' || 'a'
                <= ja3_of(h)[i] <= 'f',
{
    law_hex_reads_back(md5_digest(encode_utf8(ja3_text(h))));
    lemma_hex_text(md5_digest(encode_utf8(ja3_text(h))));
}

/// Whether the values ascend.
pub open spec fn ascends(values: Seq<u16>) -> bool {
    forall|i: int, j: int| 0 <= i <= j < values.len() ==> values[i] <= values[j]
}

/// Values in ascending order ascend, and each occurs as often as before.
pub proof fn law_ascending(values: Seq<u16>)
    ensures
        ascends(ascending(values)),
        ascending(values).to_multiset() == values.to_multiset(),
{
    let leq = |a: u16, b: u16| a <= b;
    values.lemma_sort_by_ensures(leq);
    let s = ascending(values);
    assert forall|i: int, j: int| 0 <= i <= j < s.len() implies s[i] <= s[j] by {
        if i < j {
            assert(leq(s[i], s[j]));
        }
    }
}

/// The text behind the second part of JA4 lists, in ascending order, each
/// cipher as often as the hello does, and GREASE not at all.
pub proof fn law_ja4_b_lists_ciphers(h: ClientHelloView, v: u16)
    ensures
        ({
            let listed = read_hex_list(ja4_b_text(h));
            &&& lists_hex(ja4_b_text(h), listed)
            &&& ascends(listed)
            &&& listed.to_multiset().count(v) == if v / 256 == v % 256 && v % 16 == 10 {
                0
            } else {
                h.ciphers.to_multiset().count(v)
            }
        }),
{
    let values = ascending(without_grease(h.ciphers));
    law_hex_list_reads_back(values);
    lemma_read_hex_list(ja4_b_text(h), values);
    law_ascending(without_grease(h.ciphers));
    law_without_grease_counts(h.ciphers, v);
}

/// The text behind the third part of JA4 lists before its underscore, in
/// ascending order, each extension number as often as the hello has it, but
/// neither GREASE nor 0x0000 nor 0x0010.
pub proof fn law_ja4_c_lists_extensions(h: ClientHelloView, id: u16)
    ensures
        ({
            let first = split_at(ja4_c_text(h), '_')[0];
            let listed = read_hex_list(first);
            &&& lists_hex(first, listed)
            &&& ascends(listed)
            &&& listed.to_multiset().count(id) == if (id / 256 == id % 256 && id % 16 == 10) || id
                == 0x0000 || id == 0x0010 {
                0
            } else {
                h.extension_ids.to_multiset().count(id)
            }
        }),
{
    broadcast use vstd::multiset::group_multiset_axioms;

    let kept = ja4_c_extensions(h.extension_ids);
    let first = hex_list(ascending(kept));
    lemma_ja4_c_pieces(h);
    law_hex_list_reads_back(ascending(kept));
    lemma_read_hex_list(first, ascending(kept));
    law_ascending(kept);
    lemma_filter_multiset(h.extension_ids, |x: u16| counts_for_ja4_c(x));
}

/// The text behind the third part of JA4 ends in an underscore and the
/// signature algorithms without GREASE, in wire order, and has no underscore
/// where there are none.
pub proof fn law_ja4_c_lists_algorithms(h: ClientHelloView)
    ensures
        without_grease(h.sig_algs).len() == 0 ==> split_at(ja4_c_text(h), '_').len() == 1,
        without_grease(h.sig_algs).len() > 0 ==> split_at(ja4_c_text(h), '_').len() == 2
            && lists_hex(split_at(ja4_c_text(h), '_')[1], without_grease(h.sig_algs)),
{
    lemma_ja4_c_pieces(h);
    law_hex_list_reads_back(without_grease(h.sig_algs));
}

/// The pieces of the text behind the third part of JA4.
proof fn lemma_ja4_c_pieces(h: ClientHelloView)
    ensures
        ({
            let extensions = hex_list(ascending(ja4_c_extensions(h.extension_ids)));
            let algorithms = hex_list(without_grease(h.sig_algs));
            split_at(ja4_c_text(h), '_') == if without_grease(h.sig_algs).len() == 0 {
                seq![extensions]
            } else {
                seq![extensions, algorithms]
            }
        }),
{
    let extensions = hex_list(ascending(ja4_c_extensions(h.extension_ids)));
    let algorithms = hex_list(without_grease(h.sig_algs));
    law_hex_list_reads_back(ascending(ja4_c_extensions(h.extension_ids)));
    law_hex_list_reads_back(without_grease(h.sig_algs));
    lemma_split_one(extensions, '_');
    lemma_split_push(extensions, algorithms, '_');
    assert(extensions + seq!['_'] + algorithms =~= extensions.push('_') + algorithms);
    assert(seq![extensions].push(algorithms) =~= seq![extensions, algorithms]);
}

/// JA4 character by character: `t`, two for the version, `d` exactly where a
/// server is named, the counts of ciphers and extensions without GREASE in two
/// digits and at most 99, the first and the last byte of the first protocol
/// where both are printable, and after underscores the first six bytes of each
/// digest.
#[verifier::rlimit(40)]
pub proof fn law_ja4_reads_back(h: ClientHelloView, b: Seq<u8>, c: Seq<u8>)
    requires
        b.len() >= 6,
        c.len() >= 6,
    ensures
        ({
            let s = ja4_with(h, b, c);
            let ciphers = without_grease(h.ciphers).len();
            let extensions = without_grease(h.extension_ids).len();
            &&& s.len() == 36
            &&& s[0] == 't'
            &&& s.subrange(1, 3) == version_field(h)
            &&& s[3] == if h.server_name is Some {
                'd'
            } else {
                'i'
            }
            &&& forall|i: int| 4 <= i < 8 ==> '0' <= #[trigger] s[i] <= '9'
            &&& decimal_value(s.subrange(4, 6)) == if ciphers > 99 {
                99
            } else {
                ciphers as int
            }
            &&& decimal_value(s.subrange(6, 8)) == if extensions > 99 {
                99
            } else {
                extensions as int
            }
            &&& (h.alpn.len() > 0 && h.alpn[0].len() > 0 && 0x20 <= h.alpn[0].first() < 0x7f && 0x20
                <= h.alpn[0].last() < 0x7f) ==> s[8] as int == h.alpn[0].first() && s[9] as int
                == h.alpn[0].last()
            &&& !(h.alpn.len() > 0 && h.alpn[0].len() > 0 && 0x20 <= h.alpn[0].first() < 0x7f
                && 0x20 <= h.alpn[0].last() < 0x7f) ==> s[8] == '0' && s[9] == '0'
            &&& s[10] == '_'
            &&& hex_bytes(s.subrange(11, 23)) == b.take(6)
            &&& s[23] == '_'
            &&& hex_bytes(s.subrange(24, 36)) == c.take(6)
        }),
{
    let s = ja4_with(h, b, c);
    let a = ja4_a(h);
    let m = if without_grease(h.ciphers).len() > 99 {
        99
    } else {
        without_grease(h.ciphers).len() as int
    };
    let n = if without_grease(h.extension_ids).len() > 99 {
        99
    } else {
        without_grease(h.extension_ids).len() as int
    };
    law_decimal2_reads_back(m);
    law_decimal2_reads_back(n);
    assert(a.len() == 10);
    assert(short_hex(b).len() == 12 && short_hex(c).len() == 12);
    assert forall|i: int| 0 <= i < 10 implies s[i] == a[i] by {}
    assert(s.subrange(1, 3) =~= version_field(h));
    assert(s.subrange(4, 6) =~= decimal2(m));
    assert(s.subrange(6, 8) =~= decimal2(n));
    assert(s[4] == decimal2(m)[0] && s[5] == decimal2(m)[1]);
    assert(s[6] == decimal2(n)[0] && s[7] == decimal2(n)[1]);
    assert(s.subrange(11, 23) =~= hex_text(b.take(6)));
    assert(s.subrange(24, 36) =~= hex_text(c.take(6)));
    law_hex_reads_back(b.take(6));
    law_hex_reads_back(c.take(6));
}

/// Of a digest JA4 writes the first six bytes, or all where it has fewer, two
/// lowercase hexadecimal digits each.
pub proof fn law_short_hex_reads_back(digest: Seq<u8>)
    ensures
        hex_bytes(short_hex(digest)) == if digest.len() < 6 {
            digest
        } else {
            digest.take(6)
        },
        short_hex(digest).len() % 2 == 0,
        forall|i: int|
            0 <= i < short_hex(digest).len() ==> '0' <= #[trigger] short_hex(digest)[i] <= '9'
                || 'a' <= short_hex(digest)[i] <= 'f',
{
    let head = if digest.len() < 6 {
        digest
    } else {
        digest.take(6)
    };
    assert(short_hex(digest) =~= hex_text(head));
    law_hex_reads_back(head);
    lemma_hex_text(head);
}

/// JA4 with any digests ends in an underscore and the one, and an underscore
/// and the other.
pub proof fn law_ja4_ends_in_digests(h: ClientHelloView, b: Seq<u8>, c: Seq<u8>)
    ensures
        ja4_with(h, b, c).skip(10) == seq!['_'] + short_hex(b) + seq!['_'] + short_hex(c),
{
    assert(ja4_a(h).len() == 10);
    assert(ja4_with(h, b, c).skip(10) =~= seq!['_'] + short_hex(b) + seq!['_'] + short_hex(c));
}

/// The version in JA4 is 13 where versions are listed, and elsewhere 12, 11,
/// 10 and 00 for 0x0303, 0x0302, 0x0301 and any other version.
pub proof fn law_version_field(h: ClientHelloView)
    ensures
        h.has_supported_versions ==> version_field(h) == seq!['1', '3'],
        !h.has_supported_versions && h.tls_version == 0x0303 ==> version_field(h) == seq!['1', '2'],
        !h.has_supported_versions && h.tls_version == 0x0302 ==> version_field(h) == seq!['1', '1'],
        !h.has_supported_versions && h.tls_version == 0x0301 ==> version_field(h) == seq!['1', '0'],
        !h.has_supported_versions && !(0x0301 <= h.tls_version <= 0x0303) ==> version_field(h)
            == seq!['0', '0'],
{
}

/// The version in JA4: 13 for a hello with the extension 43, and without it
/// 12, 11, 10 and 00 for 0x0303, 0x0302, 0x0301 and any other version.
pub proof fn law_ja4_version(h: HelloFieldsView)
    ensures
        ({
            let field = version_field(described(h));
            if exists|i: int| 0 <= i < h.extensions.len() && (#[trigger] h.extensions[i]).id == 43 {
                field == seq!['1', '3']
            } else {
                &&& h.legacy_version == 0x0303 ==> field == seq!['1', '2']
                &&& h.legacy_version == 0x0302 ==> field == seq!['1', '1']
                &&& h.legacy_version == 0x0301 ==> field == seq!['1', '0']
                &&& !(0x0301 <= h.legacy_version <= 0x0303) ==> field == seq!['0', '0']
            }
        }),
{
    lemma_lookup(h.extensions, 43);
    let numbers = extension_numbers(h.extensions);
    if exists|i: int| 0 <= i < h.extensions.len() && (#[trigger] h.extensions[i]).id == 43 {
        let i = choose|i: int| 0 <= i < h.extensions.len() && (#[trigger] h.extensions[i]).id == 43;
        assert(numbers[i] == 43);
    } else {
        if let Some(data) = extension_data(h.extensions, 43) {
            let e = ExtensionView { id: 43, data };
            let i = choose|i: int| 0 <= i < h.extensions.len() && h.extensions[i] == e;
            assert(h.extensions[i].id == 43);
        }
        let none: Seq<u8> = seq![];
        assert(u16_list(prefixed8(none)) =~= seq![]);
    }
}

/// Where a buffer can be read, its fingerprint is made of what its ClientHello
/// says: JA3 is the MD5 digest of the JA3 text, JA4 is made with the SHA-256
/// digests of its two texts, and the server name and the protocols are those
/// of the hello. Where it cannot be read, the error is the same.
pub proof fn law_fingerprint_of_buffer(buf: Seq<u8>)
    ensures
        match parsed_fields(buf) {
            Ok(fields) => parsed_fingerprint(buf) matches Ok(fp) && {
                let h = described(fields);
                &&& hex_bytes(fp.ja3) == md5_digest(encode_utf8(ja3_text(h)))
                &&& fp.ja3.len() == 2 * md5_digest(encode_utf8(ja3_text(h))).len()
                &&& forall|i: int|
                    0 <= i < fp.ja3.len() ==> '0' <= #[trigger] fp.ja3[i] <= '9' || 'a' <= fp.ja3[i]
                        <= 'f'
                &&& fp.ja4 == ja4_with(
                    h,
                    sha256_digest(encode_utf8(ja4_b_text(h))),
                    sha256_digest(encode_utf8(ja4_c_text(h))),
                )
                &&& fp.server_name == h.server_name
                &&& fp.alpn == h.alpn
            },
            Err(e) => parsed_fingerprint(buf) == Err::<FingerprintView, ParseErrorView>(e),
        },
{
    if let Ok(fields) = parsed_fields(buf) {
        law_ja3_is_md5(described(fields));
    }
}

} // verus!
