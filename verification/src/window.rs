//! What is read where only the first bytes of a ClientHello are visible, and
//! where more than its record is.

use vstd::prelude::*;

use crate::client_hello::{
    beyond_window, ciphers_end, compression_end, extension_block, extension_list, hello_body,
    hello_fields, parsed_fields, record_body, session_id_end, ExtensionView, HelloFieldsView,
};
use crate::error::ParseErrorView;
use crate::extensions::described;
use crate::fingerprint::{fingerprint_of, parsed_fingerprint, FingerprintView};
use crate::wire::{be16, be24, min, prefixed16};

verus! {

/// The end of the compression methods of the ClientHello at the start of
/// `buf`: what comes before the extensions.
pub open spec fn head_end(buf: Seq<u8>) -> int {
    9 + compression_end(hello_body(record_body(buf)->Ok_0)->Ok_0)
}

/// The first of the extensions, as many as are complete in `space` bytes: each
/// takes four bytes and its contents.
pub open spec fn wholly_within(extensions: Seq<ExtensionView>, space: int) -> Seq<ExtensionView>
    decreases extensions.len(),
{
    if extensions.len() == 0 || 4 + extensions[0].data.len() > space {
        seq![]
    } else {
        seq![extensions[0]] + wholly_within(
            extensions.skip(1),
            space - 4 - extensions[0].data.len(),
        )
    }
}

/// The extensions of a list of which `space` bytes are visible, or all of it,
/// are those that are complete in `space` bytes.
proof fn lemma_cut_list(s: Seq<u8>, n: int, space: int, cut: bool, seen_cut: bool)
    requires
        extension_list(s, cut) is Some,
        0 <= n <= s.len(),
        n <= space,
        n < s.len() ==> n == space,
        cut ==> seen_cut,
        n < s.len() ==> seen_cut,
    ensures
        extension_list(s.take(n), seen_cut) == Some(
            wholly_within(extension_list(s, cut)->0, space),
        ),
    decreases s.len(),
{
    let t = s.take(n);
    let all = extension_list(s, cut)->0;
    if n >= 4 && 4 + be16(s, 2) <= n {
        let end = 4 + be16(s, 2);
        lemma_cut_list(s.skip(end), n - end, space - end, cut, seen_cut);
        assert(t.skip(end) =~= s.skip(end).take(n - end));
        assert(t.subrange(4, end) =~= s.subrange(4, end));
        assert(all.skip(1) =~= extension_list(s.skip(end), cut)->0);
        assert(all[0].data.len() == end - 4);
    } else if s.len() >= 4 && 4 + be16(s, 2) <= s.len() {
        assert(all[0].data.len() == be16(s, 2));
    }
}

/// The same for a list with its length.
proof fn lemma_cut_block(s: Seq<u8>, n: int, space: int, beyond: bool, seen_beyond: bool)
    requires
        extension_block(s, beyond) is Some,
        0 <= n <= s.len(),
        n <= space,
        n < s.len() ==> n == space,
        beyond ==> seen_beyond,
        n < s.len() ==> seen_beyond,
    ensures
        extension_block(s.take(n), seen_beyond) == Some(
            wholly_within(extension_block(s, beyond)->0, space - 2),
        ),
{
    let t = s.take(n);
    if n >= 2 {
        let list = prefixed16(s);
        let m = if n - 2 <= list.len() {
            n - 2
        } else {
            list.len() as int
        };
        assert(prefixed16(t) =~= list.take(m));
        lemma_cut_list(
            list,
            m,
            space - 2,
            beyond && 2 + be16(s, 0) > s.len(),
            seen_beyond && 2 + be16(t, 0) > t.len(),
        );
    }
}

/// What of a ClientHello is visible in the first `n` bytes of the buffer.
pub open spec fn visible_fields(buf: Seq<u8>, n: int) -> HelloFieldsView {
    let all = parsed_fields(buf)->Ok_0;
    HelloFieldsView {
        extensions: wholly_within(all.extensions, n - head_end(buf) - 2),
        ..all
    }
}

/// The record body and the ClientHello body of the first `n` bytes.
proof fn lemma_visible_bodies(buf: Seq<u8>, n: int)
    requires
        parsed_fields(buf) is Ok,
        head_end(buf) <= n <= buf.len(),
    ensures
        ({
            let record = record_body(buf)->Ok_0;
            let ch = hello_body(record)->Ok_0;
            let seen_record = record_body(buf.take(n))->Ok_0;
            &&& record_body(buf.take(n)) is Ok
            &&& hello_body(seen_record) == Ok::<Seq<u8>, ParseErrorView>(
                ch.take(min(n - 9, ch.len() as int)),
            )
            &&& be24(seen_record, 1) == be24(record, 1)
            &&& compression_end(ch) <= min(n - 9, ch.len() as int)
        }),
{
    let t = buf.take(n);
    let record = record_body(buf)->Ok_0;
    let ch = hello_body(record)->Ok_0;
    let seen_record = record_body(t)->Ok_0;
    assert(be16(t, 3) == be16(buf, 3));
    assert(seen_record =~= record.take(min(n - 5, record.len() as int)));
    assert(hello_body(seen_record)->Ok_0 =~= ch.take(min(n - 9, ch.len() as int)));
}

/// The fields of a ClientHello body that is cut after `n` bytes.
proof fn lemma_visible_fields(ch: Seq<u8>, n: int, space: int, beyond: bool, seen_beyond: bool)
    requires
        hello_fields(ch, beyond) is Ok,
        compression_end(ch) <= n <= ch.len(),
        n <= space,
        n < ch.len() ==> n == space && seen_beyond,
        beyond ==> seen_beyond,
    ensures
        ({
            let all = hello_fields(ch, beyond)->Ok_0;
            hello_fields(ch.take(n), seen_beyond) == Ok::<HelloFieldsView, ParseErrorView>(
                HelloFieldsView {
                    extensions: wholly_within(all.extensions, space - compression_end(ch) - 2),
                    ..all
                },
            )
        }),
{
    let seen = ch.take(n);
    let sid_end = session_id_end(ch);
    let cs_end = ciphers_end(ch);
    let end = compression_end(ch);
    assert(be16(seen, sid_end) == be16(ch, sid_end));
    assert(ciphers_end(seen) == cs_end);
    assert(compression_end(seen) == end);
    assert(seen.skip(end) =~= ch.skip(end).take(n - end));
    assert(seen.subrange(sid_end + 2, cs_end) =~= ch.subrange(sid_end + 2, cs_end));
    lemma_cut_block(ch.skip(end), n - end, space - end, beyond, seen_beyond);
}

/// Where a ClientHello can be read, it can be read as well from the first `n`
/// bytes of the buffer, if they reach as far as its extensions: with the same
/// version and ciphers, and with exactly the extensions that end at or before
/// `n`. Its fingerprint is then that of a ClientHello with these extensions.
pub proof fn law_visible_prefix(buf: Seq<u8>, n: int)
    requires
        parsed_fields(buf) is Ok,
        head_end(buf) <= n <= buf.len(),
    ensures
        parsed_fields(buf.take(n)) == Ok::<HelloFieldsView, ParseErrorView>(
            visible_fields(buf, n),
        ),
        parsed_fingerprint(buf.take(n)) == Ok::<FingerprintView, ParseErrorView>(
            fingerprint_of(described(visible_fields(buf, n))),
        ),
{
    let record = record_body(buf)->Ok_0;
    let ch = hello_body(record)->Ok_0;
    let seen_record = record_body(buf.take(n))->Ok_0;
    lemma_visible_bodies(buf, n);
    lemma_visible_fields(
        ch,
        min(n - 9, ch.len() as int),
        n - 9,
        beyond_window(buf, record),
        beyond_window(buf.take(n), seen_record),
    );
}

/// Whether the record at the start of `buf` is there as a whole.
pub open spec fn record_complete(buf: Seq<u8>) -> bool {
    buf.len() >= 5 && buf.len() >= 5 + be16(buf, 3)
}

/// Whether `rest` after `buf` reaches the end of a ClientHello that goes on
/// after its first record, which itself ends inside an extension. Such a
/// ClientHello counts as cut by the window without `rest`, and as malformed
/// with it.
pub open spec fn rest_ends_split_hello(buf: Seq<u8>, rest: Seq<u8>) -> bool {
    record_body(buf) matches Ok(record) && (hello_body(record) matches Ok(ch) && {
        &&& buf.len() < 9 + be24(record, 1) <= buf.len() + rest.len()
        &&& hello_fields(ch, true) is Ok
        &&& hello_fields(ch, false) is Err
    })
}

/// Without a cut a list of extensions is read as with one, or not at all.
proof fn lemma_uncut_list(s: Seq<u8>)
    ensures
        extension_list(s, false) is Some ==> extension_list(s, false) == extension_list(s, true),
        extension_list(s, true) is Some,
    decreases s.len(),
{
    if s.len() >= 4 && 4 + be16(s, 2) <= s.len() {
        lemma_uncut_list(s.skip(4 + be16(s, 2)));
    }
}

/// What follows a complete record changes neither the fields nor the error nor
/// the fingerprint, unless it reaches the end of a ClientHello that was split
/// inside an extension.
pub proof fn law_rest_ignored(buf: Seq<u8>, rest: Seq<u8>)
    requires
        record_complete(buf),
        !rest_ends_split_hello(buf, rest),
    ensures
        parsed_fields(buf + rest) == parsed_fields(buf),
        parsed_fingerprint(buf + rest) == parsed_fingerprint(buf),
{
    let all = buf + rest;
    assert(be16(all, 3) == be16(buf, 3));
    if let Ok(record) = record_body(buf) {
        assert(record_body(all)->Ok_0 =~= record);
        if let Ok(ch) = hello_body(record) {
            let block = ch.skip(compression_end(ch));
            lemma_uncut_list(prefixed16(block));
        }
    }
}

/// A ClientHello that is split inside an extension is read from its first
/// record alone, and is malformed once what follows reaches its end.
pub proof fn law_split_hello(buf: Seq<u8>, rest: Seq<u8>)
    requires
        record_complete(buf),
        rest_ends_split_hello(buf, rest),
    ensures
        parsed_fields(buf) is Ok,
        parsed_fields(buf + rest) == Err::<HelloFieldsView, ParseErrorView>(
            ParseErrorView::BadExtensionData,
        ),
{
    let all = buf + rest;
    assert(be16(all, 3) == be16(buf, 3));
    assert(record_body(all)->Ok_0 =~= record_body(buf)->Ok_0);
}

/// Two buffers with the same version, ciphers and extensions have the same
/// fingerprint, whatever else differs between them.
pub proof fn law_only_fields_count(a: Seq<u8>, b: Seq<u8>)
    requires
        parsed_fields(a) matches Ok(h) && parsed_fields(b) == Ok::<
            HelloFieldsView,
            ParseErrorView,
        >(h),
    ensures
        parsed_fingerprint(a) is Ok,
        parsed_fingerprint(a) == parsed_fingerprint(b),
{
}

} // verus!
