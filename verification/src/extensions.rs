//! What the extensions of a ClientHello say.

use vstd::prelude::*;
use vstd::slice::*;
use vstd::string::*;
use vstd::utf8::*;

use crate::client_hello::{extension_views, Extension, ExtensionView, HelloFields, HelloFieldsView};
use crate::wire::{
    be16, byte_strings, contents, prefixed16, prefixed8, read_byte_strings, read_prefixed16,
    read_prefixed8, read_u16, read_u16_list, u16_list,
};

verus! {

/// Extension number of `server_name`.
pub const EXT_SERVER_NAME: u16 = 0x0000;

/// Extension number of `supported_groups`.
pub const EXT_SUPPORTED_GROUPS: u16 = 0x000a;

/// Extension number of `ec_point_formats`.
pub const EXT_EC_POINT_FORMATS: u16 = 0x000b;

/// Extension number of `signature_algorithms`.
pub const EXT_SIGNATURE_ALGORITHMS: u16 = 0x000d;

/// Extension number of `application_layer_protocol_negotiation`.
pub const EXT_ALPN: u16 = 0x0010;

/// Extension number of `supported_versions`.
pub const EXT_SUPPORTED_VERSIONS: u16 = 0x002b;

/// Version number of TLS 1.2.
pub const TLS_1_2: u16 = 0x0303;

/// Version number of TLS 1.3.
pub const TLS_1_3: u16 = 0x0304;

/// The error of [`core::str::from_utf8`].
#[verifier::external_type_specification]
#[verifier::external_body]
pub struct ExUtf8Error(core::str::Utf8Error);

/// `core::str::from_utf8`: succeeds on well-formed UTF-8 alone, and gives the
/// characters that the bytes encode.
pub assume_specification[ core::str::from_utf8 ](v: &[u8]) -> (r: Result<
    &str,
    core::str::Utf8Error,
>)
    ensures
        r is Ok <==> valid_utf8(v@),
        r matches Ok(s) ==> s@ == decode_utf8(v@),
;

/// A ClientHello with its extensions read as far as a fingerprint needs them.
pub struct ClientHello {
    pub legacy_version: u16,
    /// Cipher suites in wire order.
    pub ciphers: Vec<u16>,
    /// Extension numbers in wire order.
    pub extension_ids: Vec<u16>,
    pub server_name: Option<String>,
    /// Protocol names in wire order.
    pub alpn: Vec<Vec<u8>>,
    pub groups: Vec<u16>,
    pub ec_points: Vec<u8>,
    /// Whether the `supported_versions` extension is there.
    pub has_supported_versions: bool,
    /// The highest version on offer, as far as TLS 1.2 and 1.3 go.
    pub tls_version: u16,
    /// Signature algorithms in wire order.
    pub sig_algs: Vec<u16>,
}

/// A [`ClientHello`] with sequences in place of vectors and strings.
#[verifier::ext_equal]
pub struct ClientHelloView {
    pub legacy_version: u16,
    pub ciphers: Seq<u16>,
    pub extension_ids: Seq<u16>,
    pub server_name: Option<Seq<char>>,
    pub alpn: Seq<Seq<u8>>,
    pub groups: Seq<u16>,
    pub ec_points: Seq<u8>,
    pub has_supported_versions: bool,
    pub tls_version: u16,
    pub sig_algs: Seq<u16>,
}

/// The characters of a string that may be missing.
pub open spec fn text_of(s: Option<String>) -> Option<Seq<char>> {
    match s {
        Some(s) => Some(s@),
        None => None,
    }
}

impl View for ClientHello {
    type V = ClientHelloView;

    open spec fn view(&self) -> ClientHelloView {
        ClientHelloView {
            legacy_version: self.legacy_version,
            ciphers: self.ciphers@,
            extension_ids: self.extension_ids@,
            server_name: text_of(self.server_name),
            alpn: contents(self.alpn@),
            groups: self.groups@,
            ec_points: self.ec_points@,
            has_supported_versions: self.has_supported_versions,
            tls_version: self.tls_version,
            sig_algs: self.sig_algs@,
        }
    }
}

/// The contents of the first extension with the given number.
pub open spec fn extension_data(extensions: Seq<ExtensionView>, id: u16) -> Option<Seq<u8>>
    decreases extensions.len(),
{
    if extensions.len() == 0 {
        None
    } else if extensions[0].id == id {
        Some(extensions[0].data)
    } else {
        extension_data(extensions.skip(1), id)
    }
}

/// The contents of the first extension with the given number, and nothing
/// where there is none.
pub open spec fn data_or_empty(extensions: Seq<ExtensionView>, id: u16) -> Seq<u8> {
    match extension_data(extensions, id) {
        Some(data) => data,
        None => seq![],
    }
}

/// The host name in the contents of a `server_name` extension: a two-byte list
/// length, the name type (0 for a host name), a two-byte name length and the
/// name, which is text in UTF-8.
pub open spec fn host_name(data: Seq<u8>) -> Option<Seq<char>> {
    if data.len() >= 5 && data[2] == 0 && 5 + be16(data, 3) <= data.len() {
        let name = data.subrange(5, 5 + be16(data, 3));
        if valid_utf8(name) {
            Some(decode_utf8(name))
        } else {
            None
        }
    } else {
        None
    }
}

/// The highest of TLS 1.2 and TLS 1.3 among the listed versions, and the
/// legacy version where neither is listed or it is TLS 1.3 already.
pub open spec fn highest_version(legacy_version: u16, versions: Seq<u16>) -> u16 {
    if legacy_version == TLS_1_3 || versions.contains(TLS_1_3) {
        TLS_1_3
    } else if versions.contains(TLS_1_2) {
        TLS_1_2
    } else {
        legacy_version
    }
}

/// The extension numbers in order.
pub open spec fn extension_numbers(extensions: Seq<ExtensionView>) -> Seq<u16> {
    extensions.map_values(|e: ExtensionView| e.id)
}

/// What a ClientHello says.
pub open spec fn described(h: HelloFieldsView) -> ClientHelloView {
    let exts = h.extensions;
    ClientHelloView {
        legacy_version: h.legacy_version,
        ciphers: h.ciphers,
        extension_ids: extension_numbers(exts),
        server_name: host_name(data_or_empty(exts, EXT_SERVER_NAME)),
        alpn: byte_strings(prefixed16(data_or_empty(exts, EXT_ALPN))),
        groups: u16_list(prefixed16(data_or_empty(exts, EXT_SUPPORTED_GROUPS))),
        ec_points: prefixed8(data_or_empty(exts, EXT_EC_POINT_FORMATS)),
        has_supported_versions: extension_data(exts, EXT_SUPPORTED_VERSIONS) is Some,
        tls_version: highest_version(
            h.legacy_version,
            u16_list(prefixed8(data_or_empty(exts, EXT_SUPPORTED_VERSIONS))),
        ),
        sig_algs: u16_list(prefixed16(data_or_empty(exts, EXT_SIGNATURE_ALGORITHMS))),
    }
}

/// Finds the contents of the first extension with the given number.
pub fn find_extension<'a>(extensions: &Vec<Extension<'a>>, id: u16) -> (r: Option<&'a [u8]>)
    ensures
        match r {
            Some(data) => extension_data(extension_views(extensions@), id) == Some(data@),
            None => extension_data(extension_views(extensions@), id) is None,
        },
{
    let ghost exts = extension_views(extensions@);
    assert(exts.skip(0) =~= exts);
    for i in 0..extensions.len()
        invariant
            exts == extension_views(extensions@),
            extension_data(exts.skip(i as int), id) == extension_data(exts, id),
    {
        assert(exts.skip(i as int)[0] == extensions@[i as int]@);
        if extensions[i].id == id {
            return Some(extensions[i].data);
        }
        assert(exts.skip(i as int).skip(1) =~= exts.skip(i + 1));
    }
    None
}

/// Reads the host name out of the contents of a `server_name` extension.
pub fn read_host_name(data: &[u8]) -> (r: Option<String>)
    ensures
        text_of(r) == host_name(data@),
{
    if data.len() < 5 || data[2] != 0 {
        return None;
    }
    let n: usize = read_u16(data, 3) as usize;
    if n > data.len() - 5 {
        return None;
    }
    match core::str::from_utf8(slice_subrange(data, 5, 5 + n)) {
        Ok(name) => Some(String::from_str(name)),
        Err(_) => None,
    }
}

/// Picks the highest of TLS 1.2 and TLS 1.3 out of the listed versions.
pub fn pick_version(legacy_version: u16, versions: &[u16]) -> (v: u16)
    ensures
        v == highest_version(legacy_version, versions@),
{
    let mut v: u16 = legacy_version;
    for i in 0..versions.len()
        invariant
            v == highest_version(legacy_version, versions@.take(i as int)),
    {
        let offered: u16 = versions[i];
        let ghost before = versions@.take(i as int);
        let ghost after = versions@.take(i + 1);
        proof {
            assert(after =~= before.push(offered));
            assert(after[i as int] == offered);
            assert forall|x: u16| after.contains(x) <==> before.contains(x) || x == offered by {
                if before.contains(x) {
                    let j = choose|j: int| 0 <= j < before.len() && before[j] == x;
                    assert(after[j] == x);
                }
                if after.contains(x) && x != offered {
                    let j = choose|j: int| 0 <= j < after.len() && after[j] == x;
                    assert(before[j] == x);
                }
            }
        }
        if offered == TLS_1_3 {
            assert(versions@[i as int] == TLS_1_3);
            return TLS_1_3;
        }
        if offered == TLS_1_2 && v != TLS_1_3 {
            v = TLS_1_2;
        }
    }
    assert(versions@.take(versions@.len() as int) =~= versions@);
    v
}

/// Lists the extension numbers in order.
fn list_numbers(extensions: &Vec<Extension<'_>>) -> (ids: Vec<u16>)
    ensures
        ids@ == extension_numbers(extension_views(extensions@)),
{
    let mut ids: Vec<u16> = Vec::with_capacity(extensions.len());
    for i in 0..extensions.len()
        invariant
            ids@.len() == i,
            forall|j: int| 0 <= j < i ==> #[trigger] ids@[j] == extensions@[j].id,
    {
        ids.push(extensions[i].id);
    }
    assert(ids@ =~= extension_numbers(extension_views(extensions@)));
    ids
}

/// Reads the extensions of a ClientHello.
pub fn describe(h: HelloFields<'_>) -> (r: ClientHello)
    ensures
        r@ == described(h@),
{
    let none: [u8; 0] = [];
    let empty: &[u8] = &none;
    assert(empty@ =~= seq![]);
    let exts = &h.extensions;
    let sni = match find_extension(exts, EXT_SERVER_NAME) {
        Some(data) => data,
        None => empty,
    };
    let alpn = match find_extension(exts, EXT_ALPN) {
        Some(data) => data,
        None => empty,
    };
    let groups = match find_extension(exts, EXT_SUPPORTED_GROUPS) {
        Some(data) => data,
        None => empty,
    };
    let ec_points = match find_extension(exts, EXT_EC_POINT_FORMATS) {
        Some(data) => data,
        None => empty,
    };
    let sig_algs = match find_extension(exts, EXT_SIGNATURE_ALGORITHMS) {
        Some(data) => data,
        None => empty,
    };
    let (has_supported_versions, versions) = match find_extension(exts, EXT_SUPPORTED_VERSIONS) {
        Some(data) => (true, data),
        None => (false, empty),
    };
    let offered = read_u16_list(read_prefixed8(versions));
    ClientHello {
        legacy_version: h.legacy_version,
        extension_ids: list_numbers(exts),
        server_name: read_host_name(sni),
        alpn: read_byte_strings(read_prefixed16(alpn)),
        groups: read_u16_list(read_prefixed16(groups)),
        ec_points: slice_to_vec(read_prefixed8(ec_points)),
        has_supported_versions,
        tls_version: pick_version(h.legacy_version, offered.as_slice()),
        sig_algs: read_u16_list(read_prefixed16(sig_algs)),
        ciphers: h.ciphers,
    }
}

} // verus!
