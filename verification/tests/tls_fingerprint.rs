use rpxy_lib::client_hello::parse_fields;
use rpxy_lib::error::ParseError;
use rpxy_lib::extensions::{describe, pick_version, ClientHello};
use rpxy_lib::fingerprint::{
    ja3_input, ja4_b_input, ja4_c_input, ja4_from_digests, parse_client_hello, Fingerprint,
};
use rpxy_lib::grease::is_grease_u16;
use rpxy_lib::text::hex_lower;

/// Puts a handshake message into a record.
fn record(body: &[u8]) -> Vec<u8> {
    let mut buf = Vec::new();
    buf.push(0x16);
    buf.extend_from_slice(&[0x03, 0x01]);
    buf.extend_from_slice(&(body.len() as u16).to_be_bytes());
    buf.extend_from_slice(body);
    buf
}

/// A ClientHello message without random bytes or a session id.
fn hello(version: u16, ciphers: &[u16], exts: &[(u16, Vec<u8>)]) -> Vec<u8> {
    let mut b = vec![0x01, 0, 0, 0];
    b.extend_from_slice(&version.to_be_bytes());
    b.extend_from_slice(&[0u8; 32]);
    b.push(0);
    b.extend_from_slice(&(ciphers.len() as u16 * 2).to_be_bytes());
    for c in ciphers {
        b.extend_from_slice(&c.to_be_bytes());
    }
    b.push(1);
    b.push(0);
    let mut e = Vec::new();
    for (id, data) in exts {
        e.extend_from_slice(&id.to_be_bytes());
        e.extend_from_slice(&(data.len() as u16).to_be_bytes());
        e.extend_from_slice(data);
    }
    b.extend_from_slice(&(e.len() as u16).to_be_bytes());
    b.extend_from_slice(&e);
    let n = b.len() - 4;
    b[1..4].copy_from_slice(&[(n >> 16) as u8, (n >> 8) as u8, n as u8]);
    b
}

fn sni(name: &[u8]) -> Vec<u8> {
    let mut v = Vec::new();
    v.extend_from_slice(&(name.len() as u16 + 3).to_be_bytes());
    v.push(0);
    v.extend_from_slice(&(name.len() as u16).to_be_bytes());
    v.extend_from_slice(name);
    v
}

fn alpn(names: &[&[u8]]) -> Vec<u8> {
    let mut list = Vec::new();
    for n in names {
        list.push(n.len() as u8);
        list.extend_from_slice(n);
    }
    let mut v = (list.len() as u16).to_be_bytes().to_vec();
    v.extend_from_slice(&list);
    v
}

fn values(list: &[u16]) -> Vec<u8> {
    let mut v = (list.len() as u16 * 2).to_be_bytes().to_vec();
    for x in list {
        v.extend_from_slice(&x.to_be_bytes());
    }
    v
}

fn parsed(body: &[u8]) -> Fingerprint {
    parse_client_hello(&record(body)).expect("parse")
}

fn read(body: &[u8]) -> ClientHello {
    let buf = record(body);
    describe(parse_fields(&buf).expect("parse"))
}

fn message(buf: &[u8]) -> String {
    match parse_client_hello(buf) {
        Ok(_) => panic!("parsed"),
        Err(e) => e.to_string(),
    }
}

#[test]
fn parses_synthetic_chrome_hello() {
    let mut buf = Vec::new();
    buf.push(0x16);
    buf.extend_from_slice(&[0x03, 0x01]);
    let body = client_hello_body();
    buf.extend_from_slice(&(body.len() as u16).to_be_bytes());
    buf.extend_from_slice(&body);

    let fp = parse_client_hello(&buf).expect("parse");
    assert!(!fp.ja3.is_empty());
    assert!(fp.ja4.starts_with("t1"));
    assert_eq!(fp.server_name.as_deref(), Some("example.com"));
    assert_eq!(fp.alpn.first().map(|a| a.as_slice()), Some(&b"h2"[..]));
}

#[test]
fn parses_real_firefox_hello_exact_ja3_ja4() {
    let body = firefox_client_hello_body();
    let mut buf = Vec::new();
    buf.push(0x16);
    buf.extend_from_slice(&[0x03, 0x01]);
    buf.extend_from_slice(&(body.len() as u16).to_be_bytes());
    buf.extend_from_slice(&body);

    let fp = parse_client_hello(&buf).expect("parse");
    assert_eq!(fp.ja3, "424f6d9c8b8928c0a0489a4f1a0f3e89", "ja3 mismatch: {}", fp.ja3);
    assert_eq!(fp.ja4, "t13d1517h2_8daaf6152771_3cbfd9057e0d", "ja4 mismatch: {}", fp.ja4);
    assert_eq!(fp.server_name.as_deref(), Some("localhost"));
    assert_eq!(fp.alpn, vec![b"h2".to_vec(), b"http/1.1".to_vec()]);
}

fn firefox_client_hello_body() -> Vec<u8> {
    let ciphers: &[u16] = &[
        4865, 4867, 4866, 49195, 49199, 52393, 52392, 49196, 49200, 49171, 49172, 156, 157, 47, 53,
    ];
    let exts: &[(u16, &[u8])] = &[
        (0, b""), // replaced by the name below
        (23, b""),
        (65281, b"\x00"),
        (10, b"\x00\x0e\x11\xec\x00\x1d\x00\x17\x00\x18\x00\x19\x01\x00\x01\x01"),
        (11, b"\x01\x00"),
        (35, b""),
        (16, b"\x00\x0e\x02h2\x08http/1.1"),
        (5, b"\x00\x00\x00\x00"),
        (34, b"\x00"),
        (18, b""),
        (51, b"\x00\x02\x00\x1d\x00\x20"),
        (43, b"\x02\x03\x04\x03\x03"),
        (
            13,
            b"\x00\x16\x04\x03\x05\x03\x06\x03\x08\x04\x08\x05\x08\x06\x04\x01\x05\x01\x06\x01\x02\x03\x02\x01",
        ),
        (45, b"\x01\x01"),
        (28, b"\x00\x00\x00\x00"),
        (27, b"\x01\x01\x00\x00"),
        (65037, b"\x00"),
    ];

    let mut b = Vec::new();
    b.push(0x01);
    b.extend_from_slice(&[0, 0, 0]);
    let start = b.len();
    b.extend_from_slice(&[0x03, 0x03]);
    b.extend_from_slice(&[0u8; 32]);
    b.push(0);
    b.extend_from_slice(&(ciphers.len() as u16 * 2).to_be_bytes());
    for c in ciphers {
        b.extend_from_slice(&c.to_be_bytes());
    }
    b.push(1);
    b.push(0);
    let ext_len_pos = b.len();
    b.extend_from_slice(&[0, 0]);
    let ext_start = b.len();

    let sni_name: &[u8] = b"localhost";
    let mut sni_data = Vec::new();
    let sni_entry_len = 1 + 2 + sni_name.len();
    sni_data.extend_from_slice(&(sni_entry_len as u16).to_be_bytes());
    sni_data.push(0);
    sni_data.extend_from_slice(&(sni_name.len() as u16).to_be_bytes());
    sni_data.extend_from_slice(sni_name);
    b.extend_from_slice(&0x0000u16.to_be_bytes());
    b.extend_from_slice(&(sni_data.len() as u16).to_be_bytes());
    b.extend_from_slice(&sni_data);

    for (ext_type, data) in exts.iter().skip(1) {
        b.extend_from_slice(&ext_type.to_be_bytes());
        b.extend_from_slice(&(data.len() as u16).to_be_bytes());
        b.extend_from_slice(data);
    }

    let ext_total = b.len() - ext_start;
    b[ext_len_pos..ext_len_pos + 2].copy_from_slice(&(ext_total as u16).to_be_bytes());
    let hs_len = b.len() - start;
    b[1..4].copy_from_slice(&[(hs_len >> 16) as u8, (hs_len >> 8) as u8, hs_len as u8]);
    b
}

fn client_hello_body() -> Vec<u8> {
    let mut b = Vec::new();
    b.push(0x01);
    b.extend_from_slice(&[0, 0, 0]);
    let start = b.len();
    b.extend_from_slice(&[0x03, 0x03]);
    b.extend_from_slice(&[0u8; 32]);
    b.push(0);
    b.extend_from_slice(&0x0004u16.to_be_bytes());
    b.extend_from_slice(&0x1301u16.to_be_bytes());
    b.extend_from_slice(&0x1302u16.to_be_bytes());
    b.push(1);
    b.push(0);
    let ext_len_pos = b.len();
    b.extend_from_slice(&[0, 0]);
    let ext_start = b.len();
    let sni_bytes: &[u8] = b"example.com";
    let mut sni_data = Vec::new();
    let sni_entry_len = 1 + 2 + sni_bytes.len();
    sni_data.extend_from_slice(&(sni_entry_len as u16).to_be_bytes());
    sni_data.push(0);
    sni_data.extend_from_slice(&(sni_bytes.len() as u16).to_be_bytes());
    sni_data.extend_from_slice(sni_bytes);
    b.extend_from_slice(&0x0000u16.to_be_bytes());
    b.extend_from_slice(&(sni_data.len() as u16).to_be_bytes());
    b.extend_from_slice(&sni_data);
    let mut alpn_data = Vec::new();
    let alpn_entry = {
        let mut v = Vec::new();
        v.push(b'h' as u8 + 0);
        v.push(b'2');
        v
    };
    let alpn_inner = {
        let mut v = Vec::new();
        v.push(alpn_entry.len() as u8);
        v.extend_from_slice(&alpn_entry);
        v
    };
    alpn_data.extend_from_slice(&(alpn_inner.len() as u16).to_be_bytes());
    alpn_data.extend_from_slice(&alpn_inner);
    b.extend_from_slice(&0x0010u16.to_be_bytes());
    b.extend_from_slice(&(alpn_data.len() as u16).to_be_bytes());
    b.extend_from_slice(&alpn_data);
    let ext_total = b.len() - ext_start;
    b[ext_len_pos..ext_len_pos + 2].copy_from_slice(&(ext_total as u16).to_be_bytes());
    let hs_len = b.len() - start;
    b[1..4].copy_from_slice(&[(hs_len >> 16) as u8, (hs_len >> 8) as u8, hs_len as u8]);
    b
}

#[test]
fn hashed_texts_of_the_firefox_hello() {
    let h = read(&firefox_client_hello_body());
    assert_eq!(
        ja3_input(&h),
        "771,4865-4867-4866-49195-49199-52393-52392-49196-49200-49171-49172-156-157-47-53,\
         0-23-65281-10-11-35-16-5-34-18-51-43-13-45-28-27-65037,4588-29-23-24-25-256-257,0"
    );
    assert_eq!(
        ja4_b_input(&h),
        "002f,0035,009c,009d,1301,1302,1303,c013,c014,c02b,c02c,c02f,c030,cca8,cca9"
    );
    assert_eq!(
        ja4_c_input(&h),
        "0005,000a,000b,000d,0012,0017,001b,001c,0022,0023,002b,002d,0033,fe0d,ff01_\
         0403,0503,0603,0804,0805,0806,0401,0501,0601,0203,0201"
    );
    assert_eq!(h.tls_version, 0x0304);
    assert!(h.has_supported_versions);
}

#[test]
fn hashes_of_the_synthetic_hello() {
    let fp = parsed(&client_hello_body());
    assert_eq!(fp.ja3, "335e6addd498f73d2dd9f87e9ae01695");
    assert_eq!(fp.ja4, "t12d0202h2_62ed6f6ca7ad_e3b0c44298fc");
}

#[test]
fn hello_without_extensions() {
    let mut b = hello(0x0301, &[0x002f], &[]);
    let n = b.len() - 2;
    b.truncate(n);
    b[3] -= 2;
    let fp = parsed(&b);
    assert_eq!(fp.ja3, "b02be259814e870a469a20ce9b2a7900");
    assert_eq!(fp.ja4, "t10i010000_ba72b8082249_e3b0c44298fc");
    assert_eq!(fp.server_name, None);
    assert!(fp.alpn.is_empty());
}

#[test]
fn ja4_from_given_digests() {
    let h = read(&client_hello_body());
    let s = ja4_from_digests(&h, &[0xab, 0, 1, 2, 3, 4, 5, 6], &[0xff, 0x10]);
    assert_eq!(s, "t12d0202h2_ab0001020304_ff10");
}

#[test]
fn version_field_of_ja4() {
    let field = |version: u16, exts: &[(u16, Vec<u8>)]| parsed(&hello(version, &[], exts)).ja4[1..3].to_string();
    assert_eq!(field(0x0303, &[]), "12");
    assert_eq!(field(0x0302, &[]), "11");
    assert_eq!(field(0x0301, &[]), "10");
    assert_eq!(field(0x0300, &[]), "00");
    assert_eq!(field(0x0304, &[]), "00");
    assert_eq!(field(0x0301, &[(43, vec![2, 3, 3])]), "13");
    assert_eq!(field(0x0301, &[(43, vec![])]), "13");
}

#[test]
fn highest_listed_version() {
    assert_eq!(pick_version(0x0301, &[]), 0x0301);
    assert_eq!(pick_version(0x0301, &[0x0a0a, 0x0303]), 0x0303);
    assert_eq!(pick_version(0x0301, &[0x0303, 0x0304, 0x0303]), 0x0304);
    assert_eq!(pick_version(0x0304, &[0x0303]), 0x0304);
    assert_eq!(pick_version(0x0303, &[0x0301]), 0x0303);
}

#[test]
fn alpn_field_of_ja4() {
    let field = |names: &[&[u8]]| parsed(&hello(0x0303, &[], &[(16, alpn(names))])).ja4[8..10].to_string();
    assert_eq!(field(&[b"h2", b"http/1.1"]), "h2");
    assert_eq!(field(&[b"http/1.1"]), "h1");
    assert_eq!(field(&[b"x"]), "xx");
    assert_eq!(field(&[b""]), "00");
    assert_eq!(field(&[b"\x01b"]), "00");
    assert_eq!(field(&[b"a\x7f"]), "00");
    assert_eq!(field(&[b"\xff"]), "00");
    assert_eq!(field(&[]), "00");
}

#[test]
fn incomplete_alpn_entry_ends_the_list() {
    let fp = parsed(&hello(0x0303, &[], &[(16, vec![0, 9, 2, b'h', b'2', 9, b'x'])]));
    assert_eq!(fp.alpn, vec![b"h2".to_vec()]);
    let fp = parsed(&hello(0x0303, &[], &[(16, vec![0])]));
    assert!(fp.alpn.is_empty());
}

#[test]
fn counts_stop_at_ninety_nine() {
    let ciphers: Vec<u16> = (1..=150).collect();
    let exts: Vec<(u16, Vec<u8>)> = (100..220).map(|i| (i, vec![])).collect();
    assert_eq!(&parsed(&hello(0x0303, &ciphers, &exts)).ja4[3..8], "i9999");
    assert_eq!(&parsed(&hello(0x0303, &ciphers[..99], &exts[..7])).ja4[3..8], "i9907");
}

#[test]
fn server_names() {
    let name = |data: Vec<u8>| parsed(&hello(0x0303, &[], &[(0, data)])).server_name;
    assert_eq!(name(sni(b"example.com")), Some("example.com".to_string()));
    assert_eq!(name(sni("b\u{fc}cher.example".as_bytes())), Some("b\u{fc}cher.example".to_string()));
    assert_eq!(name(sni(b"\xff\xfe")), None);
    assert_eq!(name(sni(b"")), Some(String::new()));
    assert_eq!(name(vec![]), None);
    let mut other = sni(b"example.com");
    other[2] = 1;
    assert_eq!(name(other), None);
    let mut long = sni(b"example.com");
    long[4] += 1;
    assert_eq!(name(long), None);
}

#[test]
fn first_extension_of_a_kind_counts() {
    let fp = parsed(&hello(0x0303, &[], &[(0, sni(b"one.example")), (0, sni(b"two.example"))]));
    assert_eq!(fp.server_name.as_deref(), Some("one.example"));
}

#[test]
fn grease_values_are_ignored() {
    let plain = [
        (0u16, sni(b"a.example")),
        (10, values(&[29, 23])),
        (13, values(&[0x0403, 0x0804])),
        (43, vec![2, 3, 4]),
    ];
    let greased = [
        (0x2a2au16, vec![]),
        (0, sni(b"a.example")),
        (10, values(&[0x1a1a, 29, 23])),
        (13, values(&[0x0403, 0xbaba, 0x0804])),
        (43, vec![4, 0x7a, 0x7a, 3, 4]),
        (0xfafa, vec![0]),
    ];
    let a = parsed(&hello(0x0303, &[0x1301, 0x1302], &plain));
    let b = parsed(&hello(0x0303, &[0x0a0a, 0x1301, 0xcaca, 0x1302], &greased));
    assert_eq!(a, b);
}

#[test]
fn ja4_ignores_order_and_ja3_does_not() {
    let e = |ids: &[u16]| -> Vec<(u16, Vec<u8>)> { ids.iter().map(|i| (*i, vec![])).collect() };
    let a = parsed(&hello(0x0303, &[1, 2, 3], &e(&[5, 23, 35])));
    let b = parsed(&hello(0x0303, &[3, 1, 2], &e(&[35, 5, 23])));
    assert_eq!(a.ja4, b.ja4);
    assert_ne!(a.ja3, b.ja3);
}

#[test]
fn signature_algorithms_keep_their_order() {
    let a = parsed(&hello(0x0303, &[1], &[(13, values(&[0x0403, 0x0804]))]));
    let b = parsed(&hello(0x0303, &[1], &[(13, values(&[0x0804, 0x0403]))]));
    assert_ne!(a.ja4, b.ja4);
    assert_eq!(a.ja3, b.ja3);
}

#[test]
fn server_and_protocol_names_do_not_enter_the_third_part() {
    let a = read(&hello(0x0303, &[1], &[(5, vec![])]));
    let b = read(&hello(0x0303, &[1], &[(16, alpn(&[b"h2"])), (5, vec![]), (0, sni(b"a"))]));
    assert_eq!(ja4_c_input(&a), "0005");
    assert_eq!(ja4_c_input(&a), ja4_c_input(&b));
}

#[test]
fn fields_are_read_as_written() {
    let exts = [
        (0x3a3au16, vec![]),
        (10, values(&[29, 0x1a1a, 23])),
        (11, vec![3, 0, 1, 2]),
        (13, values(&[0x0403, 0x0804])),
        (43, vec![6, 0x7a, 0x7a, 3, 4, 3, 3]),
    ];
    let mut buf = record(&hello(0x0302, &[0x1301, 0xc02b], &exts));
    buf.extend_from_slice(b"more");
    let fields = parse_fields(&buf).expect("parse");
    assert_eq!(fields.legacy_version, 0x0302);
    assert_eq!(fields.ciphers, vec![0x1301, 0xc02b]);
    assert_eq!(fields.extensions.len(), exts.len());
    for (read, (id, data)) in fields.extensions.iter().zip(&exts) {
        assert_eq!((read.id, read.data), (*id, data.as_slice()));
    }
    let h = describe(fields);
    assert_eq!(h.extension_ids, vec![0x3a3a, 10, 11, 13, 43]);
    assert_eq!(h.groups, vec![29, 0x1a1a, 23]);
    assert_eq!(h.ec_points, vec![0, 1, 2]);
    assert_eq!(h.sig_algs, vec![0x0403, 0x0804]);
    assert_eq!(h.tls_version, 0x0304);
}

#[test]
fn hello_cut_by_the_window() {
    let body = firefox_client_hello_body();
    let buf = record(&body);
    let all = parse_fields(&buf).expect("parse");
    // 9 bytes of headers, 34 of version and random, 1 of session id, 2 + 30 of
    // ciphers and 2 of compression methods come before the extensions.
    let head = 9 + 34 + 1 + 32 + 2;
    let mut seen = 0;
    for n in head..=buf.len() {
        let part = parse_fields(&buf[..n]).expect("parse");
        assert_eq!(part.ciphers, all.ciphers);
        let mut end = head + 2;
        let mut complete = 0;
        for e in &all.extensions {
            end += 4 + e.data.len();
            if end <= n {
                complete += 1;
            }
        }
        assert_eq!(part.extensions.len(), complete);
        seen = part.extensions.len();
        for (a, b) in part.extensions.iter().zip(&all.extensions) {
            assert_eq!((a.id, a.data), (b.id, b.data));
        }
        assert!(parse_client_hello(&buf[..n]).is_ok());
    }
    assert_eq!(seen, all.extensions.len());
    assert_eq!(message(&buf[..head - 1]), "truncated: compression_methods");
}

#[test]
fn fingerprint_of_a_visible_prefix() {
    let exts = [(5u16, vec![0, 0]), (23, vec![]), (35, vec![1, 2, 3])];
    let whole = record(&hello(0x0303, &[1], &exts));
    let cut = &whole[..whole.len() - 1];
    let fp = parse_client_hello(cut).expect("parse");
    assert_eq!(fp, parsed(&hello(0x0303, &[1], &exts[..2])));
}

#[test]
fn bytes_after_the_record_do_not_matter() {
    let mut buf = record(&client_hello_body());
    let fp = parse_client_hello(&buf).expect("parse");
    buf.extend_from_slice(&[0x17, 3, 3, 0, 1, 9]);
    assert_eq!(parse_client_hello(&buf).expect("parse"), fp);
}

#[test]
fn bytes_after_any_complete_record_do_not_matter() {
    let body = firefox_client_hello_body();
    // Records that end anywhere in the message, followed by less than it takes
    // to reach its end: the same fingerprint, or the same error.
    for n in 0..=body.len() {
        let mut buf = record(&body[..n]);
        let alone = match parse_client_hello(&buf) {
            Ok(fp) => Ok(fp),
            Err(e) => Err(e.to_string()),
        };
        if n < body.len() {
            buf.extend_from_slice(&vec![0x16; body.len() - n - 1]);
        } else {
            buf.extend_from_slice(&[0x16; 40]);
        }
        let followed = match parse_client_hello(&buf) {
            Ok(fp) => Ok(fp),
            Err(e) => Err(e.to_string()),
        };
        assert_eq!(alone, followed);
    }
}

#[test]
fn message_split_inside_an_extension() {
    let body = hello(0x0303, &[1], &[(5, vec![0, 0]), (35, vec![1, 2, 3])]);
    let mut buf = record(&body[..body.len() - 1]);
    assert_eq!(parse_client_hello(&buf).expect("parse"), parsed(&hello(0x0303, &[1], &[(5, vec![0, 0])])));
    buf.push(0x16);
    assert_eq!(message(&buf), "malformed extension data");
}

#[test]
fn other_parts_of_the_hello_do_not_matter() {
    let exts = [(0u16, sni(b"a.example")), (10, values(&[29])), (16, alpn(&[b"h2"]))];
    let plain = hello(0x0303, &[1, 2], &exts);
    // Another random, a session id of three bytes and two compression methods.
    let mut other = plain[..6].to_vec();
    other.extend_from_slice(&[7; 32]);
    other.extend_from_slice(&[3, 1, 2, 3]);
    other.extend_from_slice(&plain[39..45]);
    other.extend_from_slice(&[2, 0, 1]);
    other.extend_from_slice(&plain[47..]);
    other[3] += 4;
    let mut buf = record(&other);
    buf[2] = 3;
    buf.extend_from_slice(b"rest");
    assert_eq!(parse_client_hello(&buf).expect("parse"), parsed(&plain));
}

#[test]
fn grease_and_order_do_not_change_ja4() {
    let plain = [
        (0u16, sni(b"a.example")),
        (10, values(&[29, 23])),
        (13, values(&[0x0403, 0x0804])),
        (16, alpn(&[b"h2", b"http/1.1"])),
        (23, vec![]),
        (43, vec![2, 3, 4]),
    ];
    let other = [
        (16u16, alpn(&[b"h2", b"http/1.1"])),
        (0x4a4a, vec![1]),
        (43, vec![2, 3, 4]),
        (13, values(&[0x0a0a, 0x0403, 0x0804])),
        (23, vec![]),
        (0, sni(b"a.example")),
        (0xdada, vec![]),
        (10, values(&[29, 0x1a1a, 23])),
    ];
    let a = parsed(&hello(0x0303, &[0x1301, 0x1302, 0xc02b], &plain));
    let b = parsed(&hello(0x0303, &[0xc02b, 0x5a5a, 0x1302, 0x1301, 0x5a5a], &other));
    assert_eq!(a.ja4, b.ja4);
    assert_eq!(a.server_name, b.server_name);
    assert_eq!(a.alpn, b.alpn);
    assert_ne!(a.ja3, b.ja3);
}

#[test]
fn malformed_extensions() {
    // The last extension is longer than the list, which is wholly visible.
    let mut b = hello(0x0303, &[1], &[(5, vec![]), (23, vec![0])]);
    let n = b.len();
    b[n - 2] = 2;
    assert_eq!(message(&record(&b)), "malformed extension data");
    // The list is longer than the message, and the message is wholly visible.
    let mut b = hello(0x0303, &[1], &[(23, vec![0])]);
    let n = b.len();
    b[n - 2] = 2;
    b[n - 6] += 1;
    assert_eq!(message(&record(&b)), "malformed extension data");
    match parse_client_hello(&record(&b)) {
        Err(ParseError::BadExtensionData) => {}
        _ => panic!("not malformed"),
    }
}

#[test]
fn up_to_three_bytes_after_the_extensions_are_left_out() {
    let mut b = hello(0x0303, &[1], &[(5, vec![])]);
    let list = b.len() - 6;
    b.extend_from_slice(&[1, 2, 3]);
    b[list + 1] += 3;
    b[3] += 3;
    assert_eq!(parsed(&b), parsed(&hello(0x0303, &[1], &[(5, vec![])])));
}

#[test]
fn parse_errors() {
    assert_eq!(message(&[]), "buffer too short");
    assert_eq!(message(&[0x16, 3, 1, 0]), "buffer too short");
    assert_eq!(message(&[0x17, 3, 1, 0, 0]), "not a TLS handshake record");
    assert_eq!(message(&[0x16, 3, 1, 0, 9, 1, 0, 0]), "truncated: record body");
    assert_eq!(message(&[0x16, 3, 1, 0, 0]), "truncated: handshake header");
    assert_eq!(message(&[0x16, 3, 1, 0, 1, 2]), "not a ClientHello handshake message");
    assert_eq!(message(&[0x16, 3, 1, 0, 3, 1, 0, 0]), "truncated: handshake length");
    assert_eq!(message(&[0x16, 3, 1, 0, 4, 1, 0, 0, 9]), "truncated: client hello header");
    let body = hello(0x0303, &[1, 2], &[]);
    let cut = |n: usize| message(&record(&body[..4 + n]));
    assert_eq!(cut(33), "truncated: client hello header");
    assert_eq!(cut(34), "truncated: session_id length");
    assert_eq!(cut(35), "truncated: cipher_suites length");
    assert_eq!(cut(36), "truncated: cipher_suites length");
    assert_eq!(cut(40), "truncated: cipher_suites");
    assert_eq!(cut(41), "truncated: compression_methods length");
    assert_eq!(cut(42), "truncated: compression_methods");
    let mut long_id = body.clone();
    long_id[4 + 34] = 200;
    assert_eq!(message(&record(&long_id)), "truncated: session_id");
}

#[test]
fn error_variants() {
    match parse_client_hello(&[]) {
        Err(ParseError::TooShort) => {}
        _ => panic!("not too short"),
    }
    match parse_client_hello(&[0; 5]) {
        Err(ParseError::NotHandshakeRecord) => {}
        _ => panic!("a handshake record"),
    }
    match parse_client_hello(&[0x16, 3, 1, 0, 1, 2]) {
        Err(ParseError::NotClientHello) => {}
        _ => panic!("a ClientHello"),
    }
    match parse_client_hello(&[0x16, 3, 1, 0, 0]) {
        Err(ParseError::Truncated(field)) => assert_eq!(field, "handshake header"),
        _ => panic!("not truncated"),
    }
}

#[test]
fn grease_values() {
    let grease: Vec<u16> = (0..=u16::MAX).filter(|v| is_grease_u16(*v)).collect();
    assert_eq!(grease.len(), 16);
    for (i, v) in grease.iter().enumerate() {
        assert_eq!(*v, 0x0a0a + 0x1010 * i as u16);
    }
}

#[test]
fn hex_of_bytes() {
    assert_eq!(hex_lower(&[]), "");
    assert_eq!(hex_lower(&[0x00, 0x9a, 0xbc, 0xff, 0x0d]), "009abcff0d");
}

#[test]
fn hex_reads_back() {
    let bytes: Vec<u8> = (0..=255).collect();
    let text = hex_lower(&bytes);
    assert_eq!(text.len(), 512);
    let read: Vec<u8> =
        (0..256).map(|i| u8::from_str_radix(&text[2 * i..2 * i + 2], 16).unwrap()).collect();
    assert_eq!(read, bytes);
    assert_ne!(hex_lower(&[0x01, 0x10]), hex_lower(&[0x11, 0x00]));
}

#[test]
fn default_fingerprint_is_empty() {
    let fp = Fingerprint::default();
    assert_eq!(fp.ja3, "");
    assert_eq!(fp.ja4, "");
    assert_eq!(fp.server_name, None);
    assert!(fp.alpn.is_empty());
}
