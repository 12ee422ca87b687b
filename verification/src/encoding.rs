//! How a ClientHello is written, and that reading gives back what was written.

use vstd::prelude::*;
use vstd::utf8::*;

use crate::client_hello::{
    beyond_window, ciphers_end, compression_end, extension_block, extension_list, hello_body,
    hello_fields, parsed_fields, record_body, session_id_end, ExtensionView, HelloFieldsView,
};
use crate::error::ParseErrorView;
use crate::extensions::host_name;
use crate::wire::{be16, be24, byte_strings, prefixed16, prefixed8, u16_list};

verus! {

/// A number as two bytes.
pub open spec fn two_bytes(n: int) -> Seq<u8> {
    seq![(n / 256) as u8, (n % 256) as u8]
}

/// A number as three bytes.
pub open spec fn three_bytes(n: int) -> Seq<u8> {
    seq![(n / 65536) as u8, (n / 256 % 256) as u8, (n % 256) as u8]
}

/// Bytes after their length in one byte.
pub open spec fn with_length8(s: Seq<u8>) -> Seq<u8> {
    seq![s.len() as u8] + s
}

/// Bytes after their length in two bytes.
pub open spec fn with_length16(s: Seq<u8>) -> Seq<u8> {
    two_bytes(s.len() as int) + s
}

/// Two bytes for each value.
pub open spec fn value_bytes(values: Seq<u16>) -> Seq<u8> {
    Seq::new(
        2 * values.len(),
        |i: int|
            if i % 2 == 0 {
                (values[i / 2] / 256) as u8
            } else {
                (values[i / 2] % 256) as u8
            },
    )
}

/// An extension: its number and its contents with their length.
pub open spec fn extension_bytes(e: ExtensionView) -> Seq<u8> {
    two_bytes(e.id as int) + with_length16(e.data)
}

/// Extensions one after the other.
pub open spec fn extensions_bytes(extensions: Seq<ExtensionView>) -> Seq<u8>
    decreases extensions.len(),
{
    if extensions.len() == 0 {
        seq![]
    } else {
        extension_bytes(extensions[0]) + extensions_bytes(extensions.skip(1))
    }
}

/// The body of a ClientHello.
pub open spec fn hello_bytes(
    h: HelloFieldsView,
    random: Seq<u8>,
    session_id: Seq<u8>,
    compression: Seq<u8>,
) -> Seq<u8> {
    two_bytes(h.legacy_version as int) + random + with_length8(session_id) + with_length16(
        value_bytes(h.ciphers),
    ) + with_length8(compression) + with_length16(extensions_bytes(h.extensions))
}

/// A handshake record that holds one ClientHello.
pub open spec fn record_bytes(record_version: int, body: Seq<u8>) -> Seq<u8> {
    seq![0x16u8] + two_bytes(record_version) + with_length16(
        seq![0x01u8] + three_bytes(body.len() as int) + body,
    )
}

/// Whether the parts of a ClientHello fit in their length fields.
pub open spec fn writable(
    h: HelloFieldsView,
    random: Seq<u8>,
    session_id: Seq<u8>,
    compression: Seq<u8>,
) -> bool {
    &&& random.len() == 32
    &&& session_id.len() < 256
    &&& compression.len() < 256
    &&& h.ciphers.len() < 32768
    &&& forall|i: int|
        0 <= i < h.extensions.len() ==> (#[trigger] h.extensions[i]).data.len() < 65536
    &&& extensions_bytes(h.extensions).len() < 65536
    &&& hello_bytes(h, random, session_id, compression).len() + 4 < 65536
}

/// A list with its length is read back, whatever follows it.
proof fn lemma_with_length16(s: Seq<u8>, rest: Seq<u8>)
    requires
        s.len() < 65536,
    ensures
        prefixed16(with_length16(s) + rest) == s,
        be16(with_length16(s) + rest, 0) == s.len(),
{
    let t = with_length16(s) + rest;
    assert(t[0] == (s.len() / 256) as u8 && t[1] == (s.len() % 256) as u8);
    assert(t.subrange(2, (2 + s.len()) as int) =~= s);
}

/// Values are read as they were written.
pub proof fn law_values_read_back(values: Seq<u16>)
    ensures
        u16_list(value_bytes(values)) == values,
{
    let s = value_bytes(values);
    assert forall|i: int| 0 <= i < values.len() implies u16_list(s)[i] == values[i] by {
        assert(s[2 * i] == (values[i] / 256) as u8);
        assert(s[2 * i + 1] == (values[i] % 256) as u8);
    }
    assert(u16_list(s) =~= values);
}

/// A list of values with its length in two bytes, as groups and signature
/// algorithms are written, is read as it was written.
pub proof fn law_value_list_reads_back(values: Seq<u16>)
    requires
        values.len() < 32768,
    ensures
        u16_list(prefixed16(with_length16(value_bytes(values)))) == values,
{
    let s = value_bytes(values);
    lemma_with_length16(s, seq![]);
    assert(with_length16(s) + seq![] =~= with_length16(s));
    law_values_read_back(values);
}

/// A list of values with its length in one byte, as versions are written, is
/// read as it was written.
pub proof fn law_short_value_list_reads_back(values: Seq<u16>)
    requires
        values.len() < 128,
    ensures
        u16_list(prefixed8(with_length8(value_bytes(values)))) == values,
{
    let s = value_bytes(values);
    assert(prefixed8(with_length8(s)) =~= s);
    law_values_read_back(values);
}

/// Extensions are read as they were written, whether or not the list counts as
/// cut.
pub proof fn law_extensions_read_back(extensions: Seq<ExtensionView>, cut: bool)
    requires
        forall|i: int| 0 <= i < extensions.len() ==> (#[trigger] extensions[i]).data.len() < 65536,
    ensures
        extension_list(extensions_bytes(extensions), cut) == Some(extensions),
    decreases extensions.len(),
{
    let s = extensions_bytes(extensions);
    if extensions.len() > 0 {
        let e = extensions[0];
        let rest = extensions.skip(1);
        assert forall|i: int| 0 <= i < rest.len() implies (#[trigger] rest[i]).data.len()
            < 65536 by {
            assert(rest[i] == extensions[i + 1]);
        }
        law_extensions_read_back(rest, cut);
        let end = 4 + e.data.len() as int;
        assert(s[0] == (e.id / 256) as u8 && s[1] == (e.id % 256) as u8);
        assert(s[2] == (e.data.len() / 256) as u8 && s[3] == (e.data.len() % 256) as u8);
        assert(be16(s, 0) == e.id);
        assert(be16(s, 2) == e.data.len());
        assert(s.subrange(4, end) =~= e.data);
        assert(s.skip(end) =~= extensions_bytes(rest));
        assert(extensions =~= seq![e] + rest);
    } else {
        assert(extensions =~= seq![]);
    }
}

/// A message that was written into a record is read as it was written.
proof fn lemma_record_reads_back(record_version: int, ch: Seq<u8>, rest: Seq<u8>)
    requires
        ch.len() + 4 < 65536,
    ensures
        record_body(record_bytes(record_version, ch) + rest) matches Ok(record) && hello_body(
            record,
        ) == Ok::<Seq<u8>, ParseErrorView>(ch),
{
    let message = seq![0x01u8] + three_bytes(ch.len() as int) + ch;
    let buf = record_bytes(record_version, ch) + rest;
    assert(buf[3] == (message.len() / 256) as u8 && buf[4] == (message.len() % 256) as u8);
    assert(be16(buf, 3) == message.len());
    assert(buf.subrange(5, (5 + message.len()) as int) =~= message);
    assert(message[1] == (ch.len() / 65536) as u8);
    assert(message[2] == (ch.len() as int / 256 % 256) as u8);
    assert(message[3] == (ch.len() % 256) as u8);
    assert(be24(message, 1) == ch.len());
    assert(message.subrange(4, (4 + ch.len()) as int) =~= ch);
}

/// A piece that stands at offset `at`, and what follows it.
proof fn lemma_piece(s: Seq<u8>, at: int, piece: Seq<u8>, rest: Seq<u8>)
    requires
        0 <= at <= s.len(),
        s.skip(at) == piece + rest,
    ensures
        at + piece.len() <= s.len(),
        s.skip(at + piece.len()) == rest,
        s.subrange(at, at + piece.len()) == piece,
        forall|i: int| 0 <= i < piece.len() ==> s[at + i] == #[trigger] piece[i],
{
    let t = s.skip(at);
    assert(t.len() == piece.len() + rest.len());
    assert forall|i: int| 0 <= i < piece.len() implies s[at + i] == #[trigger] piece[i] by {
        assert(t[i] == piece[i]);
    }
    assert(s.subrange(at, at + piece.len()) =~= piece);
    assert forall|i: int| 0 <= i < rest.len() implies s[at + piece.len() + i] == rest[i] by {
        assert(t[piece.len() + i] == rest[i]);
    }
    assert(s.skip(at + piece.len()) =~= rest);
}

/// Where the fields of a message lie that is written of a start, a session id,
/// ciphers, compression methods and a block of extensions.
pub proof fn lemma_layout(
    start: Seq<u8>,
    session_id: Seq<u8>,
    ciphers: Seq<u8>,
    compression: Seq<u8>,
    block: Seq<u8>,
)
    requires
        start.len() == 34,
        session_id.len() < 256,
        ciphers.len() < 65536,
        compression.len() < 256,
    ensures
        ({
            let ch = start + with_length8(session_id) + with_length16(ciphers) + with_length8(
                compression,
            ) + block;
            &&& session_id_end(ch) + 2 <= ciphers_end(ch)
            &&& ciphers_end(ch) < compression_end(ch) <= ch.len()
            &&& ch.subrange(session_id_end(ch) + 2, ciphers_end(ch)) == ciphers
            &&& ch.skip(compression_end(ch)) == block
        }),
{
    let a = with_length8(session_id);
    let b = with_length16(ciphers);
    let c = with_length8(compression);
    let ch = start + a + b + c + block;
    assert(ch.skip(34) =~= a + (b + (c + block)));
    lemma_piece(ch, 34, a, b + (c + block));
    assert(ch[34int + 0] == a[0]);
    let sid_end = 34 + a.len() as int;
    assert(session_id_end(ch) == sid_end);
    lemma_piece(ch, sid_end, b, c + block);
    assert(ch[sid_end + 0] == b[0] && ch[sid_end + 1] == b[1]);
    assert(be16(ch, sid_end) == ciphers.len());
    let cs_end = sid_end + b.len() as int;
    assert(ch.subrange(sid_end + 2, cs_end) =~= b.skip(2)) by {
        assert(b =~= ch.subrange(sid_end, cs_end));
    }
    assert(b.skip(2) =~= ciphers);
    lemma_piece(ch, cs_end, c, block);
    assert(ch[cs_end + 0] == c[0]);
    assert(compression_end(ch) == cs_end + c.len());
}

/// The fields that were written into a message are read as they were written.
proof fn lemma_fields_read_back(
    h: HelloFieldsView,
    random: Seq<u8>,
    session_id: Seq<u8>,
    compression: Seq<u8>,
    beyond: bool,
)
    requires
        writable(h, random, session_id, compression),
    ensures
        hello_fields(hello_bytes(h, random, session_id, compression), beyond) == Ok::<
            HelloFieldsView,
            ParseErrorView,
        >(h),
{
    let ch = hello_bytes(h, random, session_id, compression);
    let ciphers = value_bytes(h.ciphers);
    let extensions = extensions_bytes(h.extensions);
    let block = with_length16(extensions);
    let start = two_bytes(h.legacy_version as int) + random;
    lemma_layout(start, session_id, ciphers, compression, block);
    assert(ch[0] == start[0] && ch[1] == start[1]);
    assert(be16(ch, 0) == h.legacy_version);
    law_values_read_back(h.ciphers);
    assert(block =~= block + seq![]);
    lemma_with_length16(extensions, seq![]);
    law_extensions_read_back(h.extensions, false);
    assert(extension_block(block, beyond) == Some(h.extensions));
}

/// A ClientHello that was written into a record is read as it was written,
/// whatever follows the record.
pub proof fn law_hello_reads_back(
    h: HelloFieldsView,
    random: Seq<u8>,
    session_id: Seq<u8>,
    compression: Seq<u8>,
    record_version: int,
    rest: Seq<u8>,
)
    requires
        writable(h, random, session_id, compression),
    ensures
        parsed_fields(
            record_bytes(record_version, hello_bytes(h, random, session_id, compression)) + rest,
        ) == Ok::<HelloFieldsView, ParseErrorView>(h),
{
    let ch = hello_bytes(h, random, session_id, compression);
    let buf = record_bytes(record_version, ch) + rest;
    lemma_record_reads_back(record_version, ch, rest);
    lemma_fields_read_back(
        h,
        random,
        session_id,
        compression,
        beyond_window(buf, record_body(buf)->Ok_0),
    );
}

/// The contents of a `server_name` extension that names one host.
pub open spec fn server_name_bytes(name: Seq<u8>) -> Seq<u8> {
    with_length16(seq![0u8] + with_length16(name))
}

/// The host name that was written is read.
pub proof fn law_host_name_reads_back(name: Seq<char>)
    requires
        encode_utf8(name).len() + 3 < 65536,
    ensures
        host_name(server_name_bytes(encode_utf8(name))) == Some(name),
{
    let bytes = encode_utf8(name);
    let data = server_name_bytes(bytes);
    encode_utf8_valid_utf8(name);
    encode_utf8_decode_utf8(name);
    assert(data[3] == (bytes.len() / 256) as u8 && data[4] == (bytes.len() % 256) as u8);
    assert(be16(data, 3) == bytes.len());
    assert(data.subrange(5, (5 + bytes.len()) as int) =~= bytes);
}

/// Byte strings one after the other, each with its length.
pub open spec fn byte_strings_bytes(items: Seq<Seq<u8>>) -> Seq<u8>
    decreases items.len(),
{
    if items.len() == 0 {
        seq![]
    } else {
        with_length8(items[0]) + byte_strings_bytes(items.skip(1))
    }
}

/// The byte strings that were written, such as ALPN protocols, are read.
pub proof fn law_byte_strings_read_back(items: Seq<Seq<u8>>)
    requires
        forall|i: int| 0 <= i < items.len() ==> (#[trigger] items[i]).len() < 256,
    ensures
        byte_strings(byte_strings_bytes(items)) == items,
    decreases items.len(),
{
    let s = byte_strings_bytes(items);
    if items.len() > 0 {
        let first = items[0];
        let rest = items.skip(1);
        assert forall|i: int| 0 <= i < rest.len() implies (#[trigger] rest[i]).len() < 256 by {
            assert(rest[i] == items[i + 1]);
        }
        law_byte_strings_read_back(rest);
        assert(s[0] == first.len() as u8);
        assert(s.subrange(1, (1 + first.len()) as int) =~= first);
        assert(s.skip((1 + first.len()) as int) =~= byte_strings_bytes(rest));
        assert(items =~= seq![first] + rest);
    } else {
        assert(items =~= seq![]);
    }
}

/// An ALPN list with its length is read as it was written.
pub proof fn law_alpn_reads_back(protocols: Seq<Seq<u8>>)
    requires
        forall|i: int| 0 <= i < protocols.len() ==> (#[trigger] protocols[i]).len() < 256,
        byte_strings_bytes(protocols).len() < 65536,
    ensures
        byte_strings(prefixed16(with_length16(byte_strings_bytes(protocols)))) == protocols,
{
    let s = byte_strings_bytes(protocols);
    lemma_with_length16(s, seq![]);
    assert(with_length16(s) + seq![] =~= with_length16(s));
    law_byte_strings_read_back(protocols);
}

} // verus!
