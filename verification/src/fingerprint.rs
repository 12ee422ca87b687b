//! JA3 and JA4 fingerprints.
//!
//! A proxy that terminates TLS hides the client's TLS stack from the backend.
//! These fingerprints, computed from the raw ClientHello, let the backend tell
//! clients apart all the same.

use vstd::prelude::*;
use vstd::string::*;
use vstd::utf8::*;

use crate::client_hello::{lemma_field_counts, parse_fields, parsed_fields};
use crate::digest::{md5, md5_digest, sha256, sha256_digest, sort_values};
use crate::error::{ParseError, ParseErrorView};
use crate::extensions::{describe, described, text_of, ClientHello, ClientHelloView};
use crate::extensions::{EXT_ALPN, EXT_SERVER_NAME};
use crate::grease::{drop_grease, is_grease, is_grease_u16, lemma_filter_push, without_grease};
use crate::text::{
    dashed, decimal, decimal2, hex_list, hex_lower, hex_text, is_hex_char, join_decimals, join_hex,
    lemma_hex_list, lemma_hex_text, push_decimal, push_decimal2,
};
use crate::wire::{contents, min};

verus! {

/// The fingerprint of a TLS ClientHello.
#[derive(Debug, Clone, PartialEq, Eq)]
pub struct Fingerprint {
    /// JA3 MD5 hash, 32 lowercase hexadecimal digits.
    pub ja3: String,
    /// JA4 hash, such as `t13d1517h2_8daaf6152771_3cbfd9057e0d`.
    pub ja4: String,
    /// The host name of the `server_name` extension, if present.
    pub server_name: Option<String>,
    /// ALPN protocol byte strings in wire order.
    pub alpn: Vec<Vec<u8>>,
}

/// A [`Fingerprint`] with sequences in place of vectors and strings.
#[verifier::ext_equal]
pub struct FingerprintView {
    pub ja3: Seq<char>,
    pub ja4: Seq<char>,
    pub server_name: Option<Seq<char>>,
    pub alpn: Seq<Seq<u8>>,
}

impl View for Fingerprint {
    type V = FingerprintView;

    open spec fn view(&self) -> FingerprintView {
        FingerprintView {
            ja3: self.ja3@,
            ja4: self.ja4@,
            server_name: text_of(self.server_name),
            alpn: contents(self.alpn@),
        }
    }
}

impl Default for Fingerprint {
    /// The fingerprint of nothing: no hash, no name, no protocol.
    fn default() -> (r: Fingerprint)
        ensures
            r@ == (FingerprintView { ja3: seq![], ja4: seq![], server_name: None, alpn: seq![] }),
    {
        let alpn: Vec<Vec<u8>> = Vec::new();
        assert(contents(alpn@) =~= seq![]);
        Fingerprint { ja3: String::new(), ja4: String::new(), server_name: None, alpn }
    }
}

/// The text that JA3 hashes: version, ciphers, extensions, groups and point
/// formats in wire order and decimal notation, without GREASE.
pub open spec fn ja3_text(h: ClientHelloView) -> Seq<char> {
    decimal(h.legacy_version as nat) + seq![','] + dashed(without_grease(h.ciphers)) + seq![',']
        + dashed(without_grease(h.extension_ids)) + seq![','] + dashed(without_grease(h.groups))
        + seq![','] + dashed(h.ec_points.map_values(|p: u8| p as u16))
}

/// The JA3 hash.
pub open spec fn ja3_of(h: ClientHelloView) -> Seq<char> {
    hex_text(md5_digest(encode_utf8(ja3_text(h))))
}

/// The two characters for the TLS version: 1.3 where the client lists its
/// versions, and the version it names elsewhere.
pub open spec fn version_field(h: ClientHelloView) -> Seq<char> {
    if h.has_supported_versions {
        seq!['1', '3']
    } else if h.tls_version == 0x0303 {
        seq!['1', '2']
    } else if h.tls_version == 0x0302 {
        seq!['1', '1']
    } else if h.tls_version == 0x0301 {
        seq!['1', '0']
    } else {
        seq!['0', '0']
    }
}

/// Whether a byte is a printable ASCII character.
pub open spec fn printable(b: u8) -> bool {
    0x20 <= b < 0x7f
}

/// The two characters for ALPN: the first and the last of the first protocol,
/// or `00` where it has none or they are not printable.
pub open spec fn alpn_field(alpn: Seq<Seq<u8>>) -> Seq<char> {
    if alpn.len() > 0 && alpn[0].len() > 0 && printable(alpn[0].first()) && printable(
        alpn[0].last(),
    ) {
        seq![alpn[0].first() as char, alpn[0].last() as char]
    } else {
        seq!['0', '0']
    }
}

/// The first part of JA4: transport, TLS version, whether a server is named,
/// how many ciphers and extensions there are without GREASE, and ALPN.
pub open spec fn ja4_a(h: ClientHelloView) -> Seq<char> {
    seq!['t'] + version_field(h) + seq![if h.server_name is Some { 'd' } else { 'i' }] + decimal2(
        min(without_grease(h.ciphers).len() as int, 99),
    ) + decimal2(min(without_grease(h.extension_ids).len() as int, 99)) + alpn_field(h.alpn)
}

/// The values in ascending order.
pub open spec fn ascending(values: Seq<u16>) -> Seq<u16> {
    values.sort_by(|a: u16, b: u16| a <= b)
}

/// The text behind the second part of JA4: the ciphers in ascending order,
/// without GREASE.
pub open spec fn ja4_b_text(h: ClientHelloView) -> Seq<char> {
    hex_list(ascending(without_grease(h.ciphers)))
}

/// Whether an extension counts for the third part of JA4: it is neither
/// GREASE nor one that varies with the server.
pub open spec fn counts_for_ja4_c(id: u16) -> bool {
    !is_grease(id) && id != EXT_SERVER_NAME && id != EXT_ALPN
}

/// The extensions that count for the third part of JA4, in order.
pub open spec fn ja4_c_extensions(ids: Seq<u16>) -> Seq<u16> {
    ids.filter(|id: u16| counts_for_ja4_c(id))
}

/// The text behind the third part of JA4: the extensions in ascending order
/// and, where there are any, the signature algorithms in wire order, without
/// GREASE.
pub open spec fn ja4_c_text(h: ClientHelloView) -> Seq<char> {
    let extensions = hex_list(ascending(ja4_c_extensions(h.extension_ids)));
    let algorithms = hex_list(without_grease(h.sig_algs));
    if algorithms.len() == 0 {
        extensions
    } else {
        extensions + seq!['_'] + algorithms
    }
}

/// The first twelve hexadecimal digits of a digest.
pub open spec fn short_hex(digest: Seq<u8>) -> Seq<char> {
    hex_text(digest).take(min(12, 2 * digest.len() as int))
}

/// JA4 with the given digests as its second and third part.
pub open spec fn ja4_with(h: ClientHelloView, b: Seq<u8>, c: Seq<u8>) -> Seq<char> {
    ja4_a(h) + seq!['_'] + short_hex(b) + seq!['_'] + short_hex(c)
}

/// The JA4 hash.
pub open spec fn ja4_of(h: ClientHelloView) -> Seq<char> {
    ja4_with(
        h,
        sha256_digest(encode_utf8(ja4_b_text(h))),
        sha256_digest(encode_utf8(ja4_c_text(h))),
    )
}

/// The fingerprint of a ClientHello.
pub open spec fn fingerprint_of(h: ClientHelloView) -> FingerprintView {
    FingerprintView {
        ja3: ja3_of(h),
        ja4: ja4_of(h),
        server_name: h.server_name,
        alpn: h.alpn,
    }
}

/// The fingerprint of the ClientHello at the start of `buf`.
pub open spec fn parsed_fingerprint(buf: Seq<u8>) -> Result<FingerprintView, ParseErrorView> {
    match parsed_fields(buf) {
        Ok(h) => Ok(fingerprint_of(described(h))),
        Err(e) => Err(e),
    }
}

/// Writes the text that JA3 hashes.
pub fn ja3_input(h: &ClientHello) -> (s: String)
    ensures
        s@ == ja3_text(h@),
{
    let mut points: Vec<u16> = Vec::with_capacity(h.ec_points.len());
    for i in 0..h.ec_points.len()
        invariant
            points@.len() == i,
            forall|j: int| 0 <= j < i ==> #[trigger] points@[j] == h.ec_points@[j] as u16,
    {
        points.push(h.ec_points[i] as u16);
    }
    assert(points@ =~= h@.ec_points.map_values(|p: u8| p as u16));
    let mut s = String::new();
    push_decimal(&mut s, h.legacy_version);
    s.push(',');
    s.append(join_decimals(drop_grease(h.ciphers.as_slice()).as_slice()).as_str());
    s.push(',');
    s.append(join_decimals(drop_grease(h.extension_ids.as_slice()).as_slice()).as_str());
    s.push(',');
    s.append(join_decimals(drop_grease(h.groups.as_slice()).as_slice()).as_str());
    s.push(',');
    s.append(join_decimals(points.as_slice()).as_str());
    assert(s@ =~= ja3_text(h@));
    s
}

/// Adds the two characters for the TLS version to `s`.
fn push_version(s: &mut String, h: &ClientHello)
    ensures
        final(s)@ == old(s)@ + version_field(h@),
{
    let (a, b) = if h.has_supported_versions {
        ('1', '3')
    } else {
        match h.tls_version {
            0x0303 => ('1', '2'),
            0x0302 => ('1', '1'),
            0x0301 => ('1', '0'),
            _ => ('0', '0'),
        }
    };
    s.push(a);
    s.push(b);
    assert(s@ =~= old(s)@ + version_field(h@));
}

/// Adds the two characters for ALPN to `s`.
fn push_alpn(s: &mut String, alpn: &Vec<Vec<u8>>)
    ensures
        final(s)@ == old(s)@ + alpn_field(contents(alpn@)),
{
    if alpn.len() > 0 && alpn[0].len() > 0 {
        let first = &alpn[0];
        let a: u8 = first[0];
        let b: u8 = first[first.len() - 1];
        if a >= 0x20 && a < 0x7f && b >= 0x20 && b < 0x7f {
            s.push(a as char);
            s.push(b as char);
            assert(s@ =~= old(s)@ + alpn_field(contents(alpn@)));
            return;
        }
    }
    s.push('0');
    s.push('0');
    assert(s@ =~= old(s)@ + alpn_field(contents(alpn@)));
}

/// A count as JA4 writes it, at most 99.
fn capped(n: usize) -> (r: u8)
    ensures
        r == min(n as int, 99),
{
    if n <= 99 {
        n as u8
    } else {
        99
    }
}

/// Writes JA4 with the given digests as its second and third part.
pub fn ja4_from_digests(h: &ClientHello, b: &[u8], c: &[u8]) -> (s: String)
    ensures
        s@ == ja4_with(h@, b@, c@),
{
    let mut s = String::new();
    s.push('t');
    push_version(&mut s, h);
    s.push(
        if h.server_name.is_some() {
            'd'
        } else {
            'i'
        },
    );
    push_decimal2(&mut s, capped(drop_grease(h.ciphers.as_slice()).len()));
    push_decimal2(&mut s, capped(drop_grease(h.extension_ids.as_slice()).len()));
    push_alpn(&mut s, &h.alpn);
    s.push('_');
    push_short_hex(&mut s, b);
    s.push('_');
    push_short_hex(&mut s, c);
    assert(s@ =~= ja4_with(h@, b@, c@));
    s
}

/// Adds the first twelve hexadecimal digits of a digest to `s`.
fn push_short_hex(s: &mut String, digest: &[u8])
    ensures
        final(s)@ == old(s)@ + short_hex(digest@),
{
    let end: usize = if digest.len() <= 6 {
        digest.len()
    } else {
        6
    };
    let head = vstd::slice::slice_subrange(digest, 0, end);
    s.append(hex_lower(head).as_str());
    assert(hex_text(head@) =~= short_hex(digest@));
}

/// Sorts values in ascending order.
fn sort_ascending(values: &mut Vec<u16>)
    ensures
        final(values)@ == ascending(old(values)@),
{
    let ghost leq = |a: u16, b: u16| a <= b;
    let ghost before = values@;
    sort_values(values);
    proof {
        before.lemma_sort_by_ensures(leq);
        vstd::seq_lib::lemma_sorted_unique(values@, before.sort_by(leq), leq);
    }
}

/// Writes the text behind the second part of JA4.
pub fn ja4_b_input(h: &ClientHello) -> (s: String)
    ensures
        s@ == ja4_b_text(h@),
{
    let mut ciphers = drop_grease(h.ciphers.as_slice());
    sort_ascending(&mut ciphers);
    join_hex(ciphers.as_slice())
}

/// Copies the extension numbers that count for the third part of JA4.
fn keep_ja4_c_extensions(ids: &[u16]) -> (kept: Vec<u16>)
    ensures
        kept@ == ja4_c_extensions(ids@),
{
    let mut kept: Vec<u16> = Vec::new();
    let ghost pred = |id: u16| counts_for_ja4_c(id);
    proof {
        reveal(Seq::filter);
        assert(ids@.take(0).filter(pred) =~= seq![]);
    }
    for i in 0..ids.len()
        invariant
            pred == (|id: u16| counts_for_ja4_c(id)),
            kept@ == ja4_c_extensions(ids@.take(i as int)),
    {
        let id: u16 = ids[i];
        proof {
            lemma_filter_push(ids@.take(i as int), id, pred);
            assert(ids@.take(i + 1) =~= ids@.take(i as int).push(id));
        }
        if !is_grease_u16(id) && id != EXT_SERVER_NAME && id != EXT_ALPN {
            kept.push(id);
        }
    }
    assert(ids@.take(ids@.len() as int) =~= ids@);
    kept
}

/// Writes the text behind the third part of JA4.
pub fn ja4_c_input(h: &ClientHello) -> (s: String)
    ensures
        s@ == ja4_c_text(h@),
{
    let mut extensions = keep_ja4_c_extensions(h.extension_ids.as_slice());
    sort_ascending(&mut extensions);
    let mut s = join_hex(extensions.as_slice());
    let algorithms = join_hex(drop_grease(h.sig_algs.as_slice()).as_slice());
    if !algorithms.as_str().is_empty() {
        s.push('_');
        s.append(algorithms.as_str());
        assert(s@ =~= ja4_c_text(h@));
    }
    s
}

/// Whether the lists of a ClientHello are short enough for SHA-256, which
/// takes fewer than 2 to the 61 bytes.
pub open spec fn hashable(h: ClientHelloView) -> bool {
    &&& h.ciphers.len() < 0x100_0000_0000_0000
    &&& h.extension_ids.len() < 0x100_0000_0000_0000
    &&& h.sig_algs.len() < 0x100_0000_0000_0000
}

/// The values in ascending order are as many as before.
proof fn lemma_ascending_len(values: Seq<u16>)
    ensures
        ascending(values).len() == values.len(),
{
    broadcast use vstd::seq_lib::group_to_multiset_ensures;

    values.lemma_sort_by_ensures(|a: u16, b: u16| a <= b);
    assert(ascending(values).to_multiset().len() == values.to_multiset().len());
}

/// The texts behind the second and third part of JA4 are short enough for
/// SHA-256.
proof fn lemma_hashable(h: ClientHelloView)
    requires
        hashable(h),
    ensures
        encode_utf8(ja4_b_text(h)).len() < 0x2000_0000_0000_0000,
        encode_utf8(ja4_c_text(h)).len() < 0x2000_0000_0000_0000,
{
    let b = without_grease(h.ciphers);
    let c = ja4_c_extensions(h.extension_ids);
    let s = without_grease(h.sig_algs);
    h.ciphers.lemma_filter_len(|v: u16| !is_grease(v));
    h.sig_algs.lemma_filter_len(|v: u16| !is_grease(v));
    h.extension_ids.lemma_filter_len(|id: u16| counts_for_ja4_c(id));
    lemma_ascending_len(b);
    lemma_ascending_len(c);
    lemma_hex_list(ascending(b));
    lemma_hex_list(ascending(c));
    lemma_hex_list(s);
    assert(is_ascii_chars(ja4_c_text(h)));
    is_ascii_chars_encode_utf8(ja4_b_text(h));
    is_ascii_chars_encode_utf8(ja4_c_text(h));
}

/// The JA3 hash of a ClientHello.
pub fn ja3(h: &ClientHello) -> (s: String)
    ensures
        s@ == ja3_of(h@),
        s@.len() == 32,
        forall|i: int| 0 <= i < 32 ==> is_hex_char(#[trigger] s@[i]),
{
    let input = ja3_input(h);
    let digest = md5(input.as_str().as_bytes());
    proof {
        lemma_hex_text(digest@);
    }
    hex_lower(digest.as_slice())
}

/// Whether `s` has the form of a JA4 hash: `t`, a version, `d` or `i`, two
/// counts and ALPN in ten characters, and twice an underscore and twelve
/// lowercase hexadecimal digits.
pub open spec fn is_ja4(s: Seq<char>) -> bool {
    &&& s.len() == 36
    &&& s[0] == 't'
    &&& s[3] == 'd' || s[3] == 'i'
    &&& forall|i: int| 4 <= i < 8 ==> '0' <= #[trigger] s[i] <= '9'
    &&& s[10] == '_'
    &&& forall|i: int| 11 <= i < 23 ==> is_hex_char(#[trigger] s[i])
    &&& s[23] == '_'
    &&& forall|i: int| 24 <= i < 36 ==> is_hex_char(#[trigger] s[i])
}

/// With digests of six bytes or more JA4 has its form.
pub proof fn lemma_is_ja4(h: ClientHelloView, b: Seq<u8>, c: Seq<u8>)
    requires
        b.len() >= 6,
        c.len() >= 6,
    ensures
        is_ja4(ja4_with(h, b, c)),
{
    lemma_hex_text(b);
    lemma_hex_text(c);
    let s = ja4_with(h, b, c);
    assert(ja4_a(h).len() == 10);
    assert forall|i: int| 0 <= i < 10 implies s[i] == ja4_a(h)[i] by {}
    assert forall|i: int| 11 <= i < 23 implies is_hex_char(#[trigger] s[i]) by {
        assert(s[i] == hex_text(b)[i - 11]);
    }
    assert forall|i: int| 24 <= i < 36 implies is_hex_char(#[trigger] s[i]) by {
        assert(s[i] == hex_text(c)[i - 24]);
    }
}

/// The JA4 hash of a ClientHello.
pub fn ja4(h: &ClientHello) -> (s: String)
    requires
        hashable(h@),
    ensures
        s@ == ja4_of(h@),
        is_ja4(s@),
{
    let b_input = ja4_b_input(h);
    let c_input = ja4_c_input(h);
    proof {
        lemma_hashable(h@);
    }
    let b = sha256(b_input.as_str().as_bytes());
    let c = sha256(c_input.as_str().as_bytes());
    proof {
        lemma_is_ja4(h@, b@, c@);
    }
    ja4_from_digests(h, b.as_slice(), c.as_slice())
}

/// The fingerprint of a ClientHello.
pub fn fingerprint(h: ClientHello) -> (fp: Fingerprint)
    requires
        hashable(h@),
    ensures
        fp@ == fingerprint_of(h@),
        fp.ja3@.len() == 32,
        forall|i: int| 0 <= i < 32 ==> is_hex_char(#[trigger] fp.ja3@[i]),
        is_ja4(fp.ja4@),
{
    let ja3 = ja3(&h);
    let ja4 = ja4(&h);
    Fingerprint { ja3, ja4, server_name: h.server_name, alpn: h.alpn }
}

/// Parses a raw TLS ClientHello from the first bytes peeked off a TCP stream
/// and computes its fingerprint.
///
/// `buf` is whatever was peeked, typically the first one to four kilobytes of
/// the connection. Where the ClientHello extends beyond it, the fingerprint is
/// computed from the visible prefix: from the extensions that are wholly
/// visible.
pub fn parse_client_hello(buf: &[u8]) -> (r: Result<Fingerprint, ParseError>)
    ensures
        match r {
            Ok(fp) => {
                &&& parsed_fingerprint(buf@) == Ok::<FingerprintView, ParseErrorView>(fp@)
                &&& fp.ja3@ == parsed_fingerprint(buf@)->Ok_0.ja3
                &&& fp.ja4@ == parsed_fingerprint(buf@)->Ok_0.ja4
                &&& fp.server_name is Some == parsed_fingerprint(buf@)->Ok_0.server_name is Some
                &&& fp.server_name matches Some(name) ==> parsed_fingerprint(
                    buf@,
                )->Ok_0.server_name == Some(name@)
                &&& fp.alpn@.len() == parsed_fingerprint(buf@)->Ok_0.alpn.len()
                &&& forall|i: int|
                    0 <= i < fp.alpn@.len() ==> (#[trigger] fp.alpn@[i])@ == parsed_fingerprint(
                        buf@,
                    )->Ok_0.alpn[i]
                &&& fp.ja3@.len() == 32
                &&& forall|i: int| 0 <= i < 32 ==> is_hex_char(#[trigger] fp.ja3@[i])
                &&& is_ja4(fp.ja4@)
            },
            Err(e) => parsed_fingerprint(buf@) == Err::<FingerprintView, ParseErrorView>(e@),
        },
{
    match parse_fields(buf) {
        Ok(fields) => {
            proof {
                lemma_field_counts(buf@);
            }
            Ok(fingerprint(describe(fields)))
        },
        Err(e) => Err(e),
    }
}

} // verus!
