//! Reading a TLS ClientHello out of the first bytes of a connection.

use vstd::prelude::*;
use vstd::slice::*;

use crate::error::{ParseError, ParseErrorView};
use crate::wire::{
    be16, be24, min, prefixed16, read_prefixed16, read_u16, read_u16_list, read_u24, u16_list,
};

verus! {

/// One extension: its number and its contents.
pub struct Extension<'a> {
    pub id: u16,
    pub data: &'a [u8],
}

/// An [`Extension`] with its contents as a sequence.
pub struct ExtensionView {
    pub id: u16,
    pub data: Seq<u8>,
}

impl<'a> View for Extension<'a> {
    type V = ExtensionView;

    open spec fn view(&self) -> ExtensionView {
        ExtensionView { id: self.id, data: self.data@ }
    }
}

/// The extensions of a vector as views.
pub open spec fn extension_views(v: Seq<Extension<'_>>) -> Seq<ExtensionView> {
    v.map_values(|e: Extension<'_>| e@)
}

/// The parts of a ClientHello that a fingerprint depends on, as they stand in
/// the message.
pub struct HelloFields<'a> {
    pub legacy_version: u16,
    pub ciphers: Vec<u16>,
    pub extensions: Vec<Extension<'a>>,
}

/// A [`HelloFields`] with sequences in place of vectors.
#[verifier::ext_equal]
pub struct HelloFieldsView {
    pub legacy_version: u16,
    pub ciphers: Seq<u16>,
    pub extensions: Seq<ExtensionView>,
}

impl<'a> View for HelloFields<'a> {
    type V = HelloFieldsView;

    open spec fn view(&self) -> HelloFieldsView {
        HelloFieldsView {
            legacy_version: self.legacy_version,
            ciphers: self.ciphers@,
            extensions: extension_views(self.extensions@),
        }
    }
}

/// The body of the handshake record at the start of `buf`, as far as it is
/// visible.
pub open spec fn record_body(buf: Seq<u8>) -> Result<Seq<u8>, ParseErrorView> {
    if buf.len() < 5 {
        Err(ParseErrorView::TooShort)
    } else if buf[0] != 0x16 {
        Err(ParseErrorView::NotHandshakeRecord)
    } else if buf.len() < 9 && buf.len() < 5 + be16(buf, 3) {
        Err(ParseErrorView::Truncated("record body"@))
    } else {
        Ok(buf.subrange(5, min(5 + be16(buf, 3), buf.len() as int)))
    }
}

/// The body of the ClientHello message at the start of a record body, as far
/// as it is visible.
pub open spec fn hello_body(record: Seq<u8>) -> Result<Seq<u8>, ParseErrorView> {
    if record.len() == 0 {
        Err(ParseErrorView::Truncated("handshake header"@))
    } else if record[0] != 0x01 {
        Err(ParseErrorView::NotClientHello)
    } else if record.len() < 4 {
        Err(ParseErrorView::Truncated("handshake length"@))
    } else {
        Ok(record.subrange(4, min(4 + be24(record, 1), record.len() as int)))
    }
}

/// Whether the ClientHello message, whose length stands at the start of the
/// record body, ends beyond the end of `buf`. The headers of further records
/// that the message may go on in are not counted.
pub open spec fn beyond_window(buf: Seq<u8>, record: Seq<u8>) -> bool {
    9 + be24(record, 1) > buf.len()
}

/// The extensions that `s` is made of; up to three bytes at the end are left
/// out. An extension that is longer than what is left of `s` ends the list
/// where the list itself is `cut`, and makes it malformed (`None`) elsewhere.
pub open spec fn extension_list(s: Seq<u8>, cut: bool) -> Option<Seq<ExtensionView>>
    decreases s.len(),
{
    if s.len() < 4 {
        Some(seq![])
    } else {
        let end = 4 + be16(s, 2);
        if end > s.len() {
            if cut {
                Some(seq![])
            } else {
                None
            }
        } else {
            match extension_list(s.skip(end), cut) {
                Some(rest) => Some(
                    seq![ExtensionView { id: be16(s, 0), data: s.subrange(4, end) }] + rest,
                ),
                None => None,
            }
        }
    }
}

/// The extensions in what follows the compression methods: a two-byte length
/// and the list. Without a length there are none. In a message that ends
/// `beyond` the window, a list that is longer than what is visible of it is
/// cut.
pub open spec fn extension_block(s: Seq<u8>, beyond: bool) -> Option<Seq<ExtensionView>> {
    if s.len() < 2 {
        Some(seq![])
    } else {
        extension_list(prefixed16(s), beyond && 2 + be16(s, 0) > s.len())
    }
}

/// The end of the session id in a ClientHello body.
pub open spec fn session_id_end(ch: Seq<u8>) -> int {
    35 + ch[34]
}

/// The end of the cipher suites in a ClientHello body.
pub open spec fn ciphers_end(ch: Seq<u8>) -> int {
    session_id_end(ch) + 2 + be16(ch, session_id_end(ch))
}

/// The end of the compression methods in a ClientHello body.
pub open spec fn compression_end(ch: Seq<u8>) -> int {
    ciphers_end(ch) + 1 + ch[ciphers_end(ch)]
}

/// The fields of a ClientHello body: version, 32 random bytes, session id,
/// cipher suites, compression methods and extensions, in this order.
pub open spec fn hello_fields(ch: Seq<u8>, beyond: bool) -> Result<
    HelloFieldsView,
    ParseErrorView,
> {
    if ch.len() < 34 {
        Err(ParseErrorView::Truncated("client hello header"@))
    } else if ch.len() == 34 {
        Err(ParseErrorView::Truncated("session_id length"@))
    } else if session_id_end(ch) > ch.len() {
        Err(ParseErrorView::Truncated("session_id"@))
    } else if session_id_end(ch) + 2 > ch.len() {
        Err(ParseErrorView::Truncated("cipher_suites length"@))
    } else if ciphers_end(ch) > ch.len() {
        Err(ParseErrorView::Truncated("cipher_suites"@))
    } else if ciphers_end(ch) == ch.len() {
        Err(ParseErrorView::Truncated("compression_methods length"@))
    } else if compression_end(ch) > ch.len() {
        Err(ParseErrorView::Truncated("compression_methods"@))
    } else {
        match extension_block(ch.skip(compression_end(ch)), beyond) {
            None => Err(ParseErrorView::BadExtensionData),
            Some(extensions) => Ok(
                HelloFieldsView {
                    legacy_version: be16(ch, 0),
                    ciphers: u16_list(ch.subrange(session_id_end(ch) + 2, ciphers_end(ch))),
                    extensions,
                },
            ),
        }
    }
}

/// The fields of the ClientHello at the start of `buf`.
pub open spec fn parsed_fields(buf: Seq<u8>) -> Result<HelloFieldsView, ParseErrorView> {
    match record_body(buf) {
        Err(e) => Err(e),
        Ok(record) => match hello_body(record) {
            Err(e) => Err(e),
            Ok(ch) => hello_fields(ch, beyond_window(buf, record)),
        },
    }
}

/// Each extension takes four bytes or more.
proof fn lemma_extension_count(s: Seq<u8>, cut: bool)
    ensures
        extension_list(s, cut) matches Some(l) ==> 4 * l.len() <= s.len(),
    decreases s.len(),
{
    if s.len() >= 4 && 4 + be16(s, 2) <= s.len() {
        lemma_extension_count(s.skip(4 + be16(s, 2)), cut);
    }
}

/// The two-byte lengths of the lists bound how many ciphers and extensions a
/// ClientHello has.
pub proof fn lemma_field_counts(buf: Seq<u8>)
    ensures
        parsed_fields(buf) matches Ok(h) ==> h.ciphers.len() <= 0x7fff && h.extensions.len()
            <= 0x3fff,
{
    if let Ok(record) = record_body(buf) {
        if let Ok(ch) = hello_body(record) {
            let beyond = beyond_window(buf, record);
            if hello_fields(ch, beyond) is Ok {
                let block = ch.skip(compression_end(ch));
                if block.len() >= 2 {
                    lemma_extension_count(
                        prefixed16(block),
                        beyond && 2 + be16(block, 0) > block.len(),
                    );
                }
            }
        }
    }
}

/// Reads the body of the handshake record at the start of `buf`.
pub fn read_record(buf: &[u8]) -> (r: Result<&[u8], ParseError>)
    ensures
        match r {
            Ok(record) => record_body(buf@) == Ok::<Seq<u8>, ParseErrorView>(record@),
            Err(e) => record_body(buf@) == Err::<Seq<u8>, ParseErrorView>(e@),
        },
{
    if buf.len() < 5 {
        return Err(ParseError::TooShort);
    }
    if buf[0] != 0x16 {
        return Err(ParseError::NotHandshakeRecord);
    }
    let record_len: usize = read_u16(buf, 3) as usize;
    if buf.len() < 5 + record_len && buf.len() < 9 {
        return Err(ParseError::Truncated("record body"));
    }
    let end: usize = if 5 + record_len <= buf.len() {
        5 + record_len
    } else {
        buf.len()
    };
    Ok(slice_subrange(buf, 5, end))
}

/// Reads the body of the ClientHello message at the start of a record body.
pub fn read_hello_body(record: &[u8]) -> (r: Result<&[u8], ParseError>)
    ensures
        match r {
            Ok(ch) => hello_body(record@) == Ok::<Seq<u8>, ParseErrorView>(ch@),
            Err(e) => hello_body(record@) == Err::<Seq<u8>, ParseErrorView>(e@),
        },
{
    if record.len() == 0 {
        return Err(ParseError::Truncated("handshake header"));
    }
    if record[0] != 0x01 {
        return Err(ParseError::NotClientHello);
    }
    if record.len() < 4 {
        return Err(ParseError::Truncated("handshake length"));
    }
    let hs_len: usize = read_u24(record, 1) as usize;
    let end: usize = if 4 + hs_len <= record.len() {
        4 + hs_len
    } else {
        record.len()
    };
    Ok(slice_subrange(record, 4, end))
}

/// Reads a list of extensions; `cut` says whether the list is longer than
/// what is visible of it.
pub fn read_extension_list(s: &[u8], cut: bool) -> (r: Option<Vec<Extension<'_>>>)
    ensures
        match r {
            Some(v) => extension_list(s@, cut) == Some(extension_views(v@)),
            None => extension_list(s@, cut) is None,
        },
{
    let mut v: Vec<Extension<'_>> = Vec::new();
    let mut pos: usize = 0;
    proof {
        assert(s@.skip(0) =~= s@);
        if let Some(l) = extension_list(s@, cut) {
            assert(extension_views(v@) + l =~= l);
        }
    }
    while s.len() - pos >= 4
        invariant
            pos <= s@.len(),
            extension_list(s@, cut) == match extension_list(s@.skip(pos as int), cut) {
                Some(rest) => Some(extension_views(v@) + rest),
                None => None,
            },
        decreases s@.len() - pos,
    {
        let ghost rest = s@.skip(pos as int);
        let ghost before = v@;
        let id: u16 = read_u16(s, pos);
        let n: usize = read_u16(s, pos + 2) as usize;
        assert(id == be16(rest, 0));
        assert(n == be16(rest, 2));
        if n > s.len() - pos - 4 {
            if cut {
                assert(extension_views(v@) + seq![] =~= extension_views(v@));
                return Some(v);
            }
            return None;
        }
        let data = slice_subrange(s, pos + 4, pos + 4 + n);
        let e = Extension { id, data };
        v.push(e);
        pos = pos + 4 + n;
        proof {
            assert(data@ =~= rest.subrange(4, 4 + n));
            assert(rest.skip(4 + n) =~= s@.skip(pos as int));
            assert(extension_views(v@) =~= extension_views(before).push(e@));
            if let Some(l) = extension_list(s@.skip(pos as int), cut) {
                assert(extension_views(before) + (seq![e@] + l) =~= extension_views(v@) + l);
            }
        }
    }
    assert(extension_views(v@) + seq![] =~= extension_views(v@));
    Some(v)
}

/// Reads the fields of a ClientHello body; `beyond` says whether the message
/// ends beyond the window.
pub fn read_fields(ch: &[u8], beyond: bool) -> (r: Result<HelloFields<'_>, ParseError>)
    ensures
        match r {
            Ok(h) => hello_fields(ch@, beyond) == Ok::<HelloFieldsView, ParseErrorView>(h@),
            Err(e) => hello_fields(ch@, beyond) == Err::<HelloFieldsView, ParseErrorView>(e@),
        },
{
    if ch.len() < 34 {
        return Err(ParseError::Truncated("client hello header"));
    }
    let legacy_version: u16 = read_u16(ch, 0);
    // 32 random bytes lie between the version and the session id.
    if ch.len() == 34 {
        return Err(ParseError::Truncated("session_id length"));
    }
    let sid_len: usize = ch[34] as usize;
    if sid_len > ch.len() - 35 {
        return Err(ParseError::Truncated("session_id"));
    }
    let sid_end: usize = 35 + sid_len;
    if ch.len() - sid_end < 2 {
        return Err(ParseError::Truncated("cipher_suites length"));
    }
    let cs_len: usize = read_u16(ch, sid_end) as usize;
    if cs_len > ch.len() - sid_end - 2 {
        return Err(ParseError::Truncated("cipher_suites"));
    }
    let cs_end: usize = sid_end + 2 + cs_len;
    let ciphers = read_u16_list(slice_subrange(ch, sid_end + 2, cs_end));
    if cs_end == ch.len() {
        return Err(ParseError::Truncated("compression_methods length"));
    }
    let cm_len: usize = ch[cs_end] as usize;
    if cm_len > ch.len() - cs_end - 1 {
        return Err(ParseError::Truncated("compression_methods"));
    }
    let cm_end: usize = cs_end + 1 + cm_len;
    let block = slice_subrange(ch, cm_end, ch.len());
    assert(block@ =~= ch@.skip(cm_end as int));
    let extensions = if block.len() < 2 {
        let none: Vec<Extension<'_>> = Vec::new();
        assert(extension_views(none@) =~= seq![]);
        none
    } else {
        let total: usize = read_u16(block, 0) as usize;
        let cut: bool = beyond && 2 + total > block.len();
        match read_extension_list(read_prefixed16(block), cut) {
            Some(list) => list,
            None => {
                return Err(ParseError::BadExtensionData);
            },
        }
    };
    Ok(HelloFields { legacy_version, ciphers, extensions })
}

/// Reads the fields of the ClientHello at the start of `buf`.
///
/// `buf` is whatever was peeked off the connection. Where the message ends
/// beyond it, the extensions that are wholly visible are taken.
pub fn parse_fields(buf: &[u8]) -> (r: Result<HelloFields<'_>, ParseError>)
    ensures
        match r {
            Ok(h) => parsed_fields(buf@) == Ok::<HelloFieldsView, ParseErrorView>(h@),
            Err(e) => parsed_fields(buf@) == Err::<HelloFieldsView, ParseErrorView>(e@),
        },
{
    let record = match read_record(buf) {
        Ok(record) => record,
        Err(e) => {
            return Err(e);
        },
    };
    let ch = match read_hello_body(record) {
        Ok(ch) => ch,
        Err(e) => {
            return Err(e);
        },
    };
    let hs_len: usize = read_u24(record, 1) as usize;
    read_fields(ch, 9 + hs_len > buf.len())
}

} // verus!
