//! What is read of any buffer, in terms of the pieces that it is written of.

use vstd::prelude::*;

use crate::client_hello::{
    ciphers_end, compression_end, extension_block, extension_list, hello_body, hello_fields,
    parsed_fields, record_body, session_id_end, ExtensionView, HelloFieldsView,
};
use crate::encoding::{
    extensions_bytes, lemma_layout, three_bytes, two_bytes, with_length16, with_length8,
};
use crate::error::ParseErrorView;
use crate::wire::{be16, be24, prefixed16, prefixed8, u16_list};

verus! {

/// The body of a ClientHello up to its extensions: a version, 32 random bytes,
/// and with their lengths the session id, the bytes of the cipher suites and
/// the compression methods.
pub open spec fn head_bytes(
    version: u16,
    random: Seq<u8>,
    session_id: Seq<u8>,
    ciphers: Seq<u8>,
    compression: Seq<u8>,
) -> Seq<u8> {
    two_bytes(version as int) + random + with_length8(session_id) + with_length16(ciphers)
        + with_length8(compression)
}

/// Whether the parts of the head fit in their length fields.
pub open spec fn head_fits(
    random: Seq<u8>,
    session_id: Seq<u8>,
    ciphers: Seq<u8>,
    compression: Seq<u8>,
) -> bool {
    random.len() == 32 && session_id.len() < 256 && ciphers.len() < 65536 && compression.len() < 256
}

/// A list that is written of extensions and a rest is read as these extensions
/// where the rest is shorter than a header. Where the rest is an extension that
/// is not complete, the list is read so if it is cut, and is malformed if not.
pub proof fn law_extension_list(extensions: Seq<ExtensionView>, rest: Seq<u8>, cut: bool)
    requires
        forall|i: int| 0 <= i < extensions.len() ==> (#[trigger] extensions[i]).data.len() < 65536,
        rest.len() < 4 || 4 + 256 * rest[2] + rest[3] > rest.len(),
    ensures
        extension_list(extensions_bytes(extensions) + rest, cut) == if rest.len() < 4 || cut {
            Some(extensions)
        } else {
            None
        },
    decreases extensions.len(),
{
    let s = extensions_bytes(extensions) + rest;
    if extensions.len() == 0 {
        assert(s =~= rest);
        assert(extensions =~= seq![]);
        if rest.len() >= 4 {
            assert(be16(rest, 2) == 256 * rest[2] + rest[3]);
        }
    } else {
        let e = extensions[0];
        let others = extensions.skip(1);
        assert forall|i: int| 0 <= i < others.len() implies (#[trigger] others[i]).data.len()
            < 65536 by {
            assert(others[i] == extensions[i + 1]);
        }
        law_extension_list(others, rest, cut);
        let end = 4 + e.data.len() as int;
        assert(s[0] == (e.id / 256) as u8 && s[1] == (e.id % 256) as u8);
        assert(s[2] == (e.data.len() / 256) as u8 && s[3] == (e.data.len() % 256) as u8);
        assert(be16(s, 0) == e.id);
        assert(be16(s, 2) == e.data.len());
        assert(s.subrange(4, end) =~= e.data);
        assert(s.skip(end) =~= extensions_bytes(others) + rest);
        assert(extensions =~= seq![e] + others);
    }
}

/// Fewer than two bytes after the compression methods hold no extensions. A
/// length and at least as many bytes hold a list that is not cut, whatever
/// follows it. A length and fewer bytes hold a list that is cut exactly in a
/// message that ends beyond the window.
pub proof fn law_extension_block(total: int, list: Seq<u8>, more: Seq<u8>, beyond: bool)
    requires
        0 <= total < 65536,
        list.len() == total || list.len() < total && more.len() == 0,
    ensures
        more.len() < 2 ==> extension_block(more, beyond) == Some(Seq::<ExtensionView>::empty()),
        extension_block(two_bytes(total) + list + more, beyond) == extension_list(
            list,
            beyond && list.len() < total,
        ),
{
    let s = two_bytes(total) + list + more;
    assert(s[0] == (total / 256) as u8 && s[1] == (total % 256) as u8);
    assert(be16(s, 0) == total);
    assert(prefixed16(s) =~= list);
}

/// A body whose head is complete is read as the version, the ciphers two bytes
/// each, and the extensions after the head, and is malformed where these are.
pub proof fn law_body_read(
    version: u16,
    random: Seq<u8>,
    session_id: Seq<u8>,
    ciphers: Seq<u8>,
    compression: Seq<u8>,
    block: Seq<u8>,
    beyond: bool,
)
    requires
        head_fits(random, session_id, ciphers, compression),
    ensures
        hello_fields(
            head_bytes(version, random, session_id, ciphers, compression) + block,
            beyond,
        ) == match extension_block(block, beyond) {
            Some(extensions) => Ok::<HelloFieldsView, ParseErrorView>(
                HelloFieldsView { legacy_version: version, ciphers: u16_list(ciphers), extensions },
            ),
            None => Err(ParseErrorView::BadExtensionData),
        },
{
    let start = two_bytes(version as int) + random;
    let ch = head_bytes(version, random, session_id, ciphers, compression) + block;
    lemma_layout(start, session_id, ciphers, compression, block);
    assert(ch =~= start + with_length8(session_id) + with_length16(ciphers) + with_length8(
        compression,
    ) + block);
    assert(ch[0] == start[0] && ch[1] == start[1]);
    assert(be16(ch, 0) == version);
}

/// A body that ends inside its head gives the error that names the part in
/// which it ends.
#[verifier::rlimit(40)]
pub proof fn law_body_cut(
    version: u16,
    random: Seq<u8>,
    session_id: Seq<u8>,
    ciphers: Seq<u8>,
    compression: Seq<u8>,
    m: int,
    beyond: bool,
)
    requires
        head_fits(random, session_id, ciphers, compression),
        0 <= m < head_bytes(version, random, session_id, ciphers, compression).len(),
    ensures
        ({
            let body = head_bytes(version, random, session_id, ciphers, compression).take(m);
            let after_id = 35 + session_id.len() as int;
            let after_ciphers = after_id + 2 + ciphers.len();
            hello_fields(body, beyond) == Err::<HelloFieldsView, ParseErrorView>(
                ParseErrorView::Truncated(
                    if m < 34 {
                        "client hello header"@
                    } else if m < 35 {
                        "session_id length"@
                    } else if m < after_id {
                        "session_id"@
                    } else if m < after_id + 2 {
                        "cipher_suites length"@
                    } else if m < after_ciphers {
                        "cipher_suites"@
                    } else if m < after_ciphers + 1 {
                        "compression_methods length"@
                    } else {
                        "compression_methods"@
                    },
                ),
            )
        }),
{
    let head = head_bytes(version, random, session_id, ciphers, compression);
    let body = head.take(m);
    let after_id = 35 + session_id.len() as int;
    let after_ciphers = after_id + 2 + ciphers.len();
    assert(head.len() == after_ciphers + 1 + compression.len());
    if m >= 35 {
        assert(head[34] == session_id.len() as u8);
        assert(session_id_end(body) == after_id);
        if m >= after_id + 2 {
            assert(head[after_id] == (ciphers.len() / 256) as u8);
            assert(head[after_id + 1] == (ciphers.len() % 256) as u8);
            assert(be16(body, after_id) == ciphers.len());
            assert(ciphers_end(body) == after_ciphers);
            if m >= after_ciphers + 1 {
                assert(head[after_ciphers as int] == compression.len() as u8);
                assert(compression_end(body) == after_ciphers + 1 + compression.len());
            }
        }
    }
}

/// The start of a buffer: a handshake record of this version and length, and in
/// it a ClientHello of this length.
pub open spec fn headers(record_version: int, record_len: int, hello_len: int) -> Seq<u8> {
    seq![0x16u8] + two_bytes(record_version) + two_bytes(record_len) + seq![0x01u8] + three_bytes(
        hello_len,
    )
}

/// What of the bytes after the headers belongs to the ClientHello: as much as
/// its length and that of the record allow.
pub open spec fn hello_part(record_len: int, hello_len: int, bytes: Seq<u8>) -> Seq<u8> {
    let limit = if hello_len <= record_len - 4 {
        hello_len
    } else {
        record_len - 4
    };
    if limit <= bytes.len() {
        bytes.take(limit)
    } else {
        bytes
    }
}

/// After the headers of a record and a message, the bytes that belong to both
/// are read as the body; the message ends beyond the window where its length
/// is larger than the number of all bytes that follow.
#[verifier::rlimit(40)]
pub proof fn law_message_read(record_version: int, record_len: int, hello_len: int, bytes: Seq<u8>)
    requires
        4 <= record_len < 65536,
        0 <= hello_len < 0x100_0000,
    ensures
        parsed_fields(headers(record_version, record_len, hello_len) + bytes) == hello_fields(
            hello_part(record_len, hello_len, bytes),
            hello_len > bytes.len(),
        ),
{
    let buf = headers(record_version, record_len, hello_len) + bytes;
    assert(buf.len() == 9 + bytes.len());
    assert(buf[3] == (record_len / 256) as u8 && buf[4] == (record_len % 256) as u8);
    assert(be16(buf, 3) == record_len);
    let record = record_body(buf)->Ok_0;
    let visible = if 5 + record_len <= buf.len() {
        5 + record_len
    } else {
        buf.len() as int
    };
    assert(record == buf.subrange(5, visible));
    assert(buf[5] == 0x01);
    assert(buf[6] == (hello_len / 65536) as u8);
    assert(buf[7] == (hello_len / 256 % 256) as u8);
    assert(buf[8] == (hello_len % 256) as u8);
    assert(record[0] == buf[5] && record[1] == buf[6] && record[2] == buf[7] && record[3] == buf[8]);
    assert(be24(record, 1) == hello_len) by {
        assert(0 <= hello_len / 65536 < 256);
        assert(hello_len == 65536 * (hello_len / 65536) + 256 * (hello_len / 256 % 256) + hello_len
            % 256);
    }
    assert(hello_body(record)->Ok_0 =~= hello_part(record_len, hello_len, bytes));
}

/// The body of a record is what follows its five bytes, as long as it says or
/// as much as is there, and the body of a message what follows its four.
pub proof fn law_bodies(buf: Seq<u8>)
    ensures
        record_body(buf) matches Ok(record) ==> {
            &&& record.len() == if 256 * buf[3] + buf[4] <= buf.len() - 5 {
                256 * buf[3] + buf[4]
            } else {
                buf.len() - 5
            }
            &&& record == buf.subrange(5, 5 + record.len() as int)
        },
        record_body(buf) is Ok <==> buf.len() >= 5 && buf[0] == 0x16 && (buf.len() >= 9
            || buf.len() >= 5 + 256 * buf[3] + buf[4]),
        hello_body(buf) matches Ok(body) ==> {
            &&& body.len() == if 65536 * buf[1] + 256 * buf[2] + buf[3] <= buf.len() - 4 {
                65536 * buf[1] + 256 * buf[2] + buf[3]
            } else {
                buf.len() - 4
            }
            &&& body == buf.subrange(4, 4 + body.len() as int)
        },
        hello_body(buf) is Ok <==> buf.len() >= 4 && buf[0] == 0x01,
{
    if buf.len() >= 5 {
        assert(be16(buf, 3) == 256 * buf[3] + buf[4]);
    }
}

/// Buffers that do not reach the message: too short, not a handshake, cut in
/// the header of the message by the window or by the record, or with another
/// message.
pub proof fn law_headers_refused(buf: Seq<u8>)
    ensures
        buf.len() < 5 ==> parsed_fields(buf) == Err::<HelloFieldsView, ParseErrorView>(
            ParseErrorView::TooShort,
        ),
        buf.len() >= 5 && buf[0] != 0x16 ==> parsed_fields(buf) == Err::<
            HelloFieldsView,
            ParseErrorView,
        >(ParseErrorView::NotHandshakeRecord),
        5 <= buf.len() < 9 && buf[0] == 0x16 && buf.len() < 5 + 256 * buf[3] + buf[4]
            ==> parsed_fields(buf) == Err::<HelloFieldsView, ParseErrorView>(
            ParseErrorView::Truncated("record body"@),
        ),
        buf.len() >= 5 && buf[0] == 0x16 && buf[3] == 0 && buf[4] == 0 ==> parsed_fields(buf)
            == Err::<HelloFieldsView, ParseErrorView>(
            ParseErrorView::Truncated("handshake header"@),
        ),
        buf.len() >= 9 && buf[0] == 0x16 && 256 * buf[3] + buf[4] > 0 && buf[5] != 0x01
            ==> parsed_fields(buf) == Err::<HelloFieldsView, ParseErrorView>(
            ParseErrorView::NotClientHello,
        ),
        5 + 256 * buf[3] + buf[4] <= buf.len() < 9 && buf[0] == 0x16 && 256 * buf[3] + buf[4] > 0
            && buf[5] != 0x01 ==> parsed_fields(buf) == Err::<HelloFieldsView, ParseErrorView>(
            ParseErrorView::NotClientHello,
        ),
        5 + 256 * buf[3] + buf[4] <= buf.len() && buf[0] == 0x16 && 0 < 256 * buf[3] + buf[4] < 4
            && buf[5] == 0x01 ==> parsed_fields(buf) == Err::<HelloFieldsView, ParseErrorView>(
            ParseErrorView::Truncated("handshake length"@),
        ),
{
    if buf.len() >= 5 {
        assert(be16(buf, 3) == 256 * buf[3] + buf[4]);
        if let Ok(record) = record_body(buf) {
            if record.len() > 0 {
                assert(record[0] == buf[5]);
            }
        }
    }
}

/// A two-byte number is read as it was written, and so is a three-byte one.
pub proof fn law_numbers_read_back(s: Seq<u8>, i: int)
    requires
        0 <= i,
    ensures
        i + 2 <= s.len() ==> two_bytes(be16(s, i) as int) == s.subrange(i, i + 2),
        i + 3 <= s.len() ==> three_bytes(be24(s, i)) == s.subrange(i, i + 3) && 0 <= be24(s, i)
            < 0x100_0000,
{
    if i + 2 <= s.len() {
        let n = s[i] * 256 + s[i + 1];
        assert(be16(s, i) == n);
        assert(n / 256 == s[i] && n % 256 == s[i + 1]);
        assert(two_bytes(n) =~= s.subrange(i, i + 2));
    }
    if i + 3 <= s.len() {
        let n = s[i] * 65536 + s[i + 1] * 256 + s[i + 2];
        assert(n / 65536 == s[i] && n / 256 % 256 == s[i + 1] && n % 256 == s[i + 2]);
        assert(three_bytes(n) =~= s.subrange(i, i + 3));
    }
}

/// What follows a length is as long as the length says or as much as is there,
/// and stands right behind the length.
pub proof fn law_prefixed(s: Seq<u8>)
    ensures
        s.len() >= 1 ==> prefixed8(s).len() == if s[0] <= s.len() - 1 {
            s[0] as int
        } else {
            s.len() - 1
        },
        s.len() >= 1 ==> prefixed8(s) == s.subrange(1, 1 + prefixed8(s).len() as int),
        s.len() >= 2 ==> prefixed16(s).len() == if 256 * s[0] + s[1] <= s.len() - 2 {
            256 * s[0] + s[1]
        } else {
            s.len() - 2
        },
        s.len() >= 2 ==> prefixed16(s) == s.subrange(2, 2 + prefixed16(s).len() as int),
        s.len() < 1 ==> prefixed8(s).len() == 0,
        s.len() < 2 ==> prefixed16(s).len() == 0,
{
    if s.len() >= 2 {
        assert(be16(s, 0) == 256 * s[0] + s[1]);
    }
}

} // verus!
