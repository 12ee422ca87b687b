//! What redirections answer, in terms of their targets, hosts, ports and paths.

use vstd::prelude::*;

use crate::http_calls::{
    absolute_uri, built_uri, is_header_value, is_plain_authority, is_plain_host, is_plain_path,
    is_plain_uri, is_status, request_path, shown_path, uri_base, without_fragment, written_uri,
    UriBaseView,
};
use crate::synthetic_response::{
    authority_of, custom_redirection, located, required_base, secure_redirection, text_or,
    RedirectConfig, ResponseView,
};
use crate::text::decimal;
use crate::text_laws::{decimal_value, is_decimal, law_decimal_reads_back};

verus! {

/// Status codes are the numbers from 100 to 999.
pub proof fn law_status_codes(code: u16)
    ensures
        is_status(code) <==> 100 <= code <= 999,
{
}

/// Whether a character may stand in a header: the tab, and any from the space
/// on but the delete character.
pub open spec fn header_char(c: char) -> bool {
    c as int == 9 || c as int >= 32 && c as int != 127
}

/// A location whose characters may all stand in a header is answered with the
/// status, one with another character is refused, and a reason why there is no
/// location is handed on.
pub proof fn law_located(status: u16, location: Seq<char>)
    ensures
        (forall|i: int| 0 <= i < location.len() ==> header_char(#[trigger] location[i]))
            ==> located(status, Ok(location)) == Ok::<ResponseView, Seq<char>>(
            ResponseView { status, location: Some(location) },
        ),
        !(forall|i: int| 0 <= i < location.len() ==> header_char(#[trigger] location[i]))
            ==> located(status, Ok(location)) == Err::<ResponseView, Seq<char>>(
            "failed to parse header value"@,
        ),
        located(status, Err(location)) == Err::<ResponseView, Seq<char>>(location),
{
    if forall|i: int| 0 <= i < location.len() ==> header_char(#[trigger] location[i]) {
        assert forall|i: int| 0 <= i < location.len() implies #[trigger] location[i] == '\t'
            || location[i] >= ' ' && location[i] != '\u{7f}' by {
            assert(header_char(location[i]));
        }
        assert(is_header_value(location));
    } else {
        let i = choose|i: int|
            0 <= i < location.len() && !header_char(#[trigger] location[i]);
        assert(!(location[i] == '\t' || location[i] >= ' ' && location[i] != '\u{7f}'));
    }
}

/// A fixed target that may stand in a header is where every request is
/// redirected to, with the status of the configuration, and no target is
/// refused for anything else.
pub proof fn law_fixed_target_taken(config: RedirectConfig, path_and_query: Option<Seq<char>>)
    requires
        !config.preserve_path,
        100 <= config.status <= 999,
    ensures
        (forall|i: int| 0 <= i < config.target@.len() ==> header_char(#[trigger] config.target@[i]))
            ==> custom_redirection(config, path_and_query) == Ok::<ResponseView, Seq<char>>(
            ResponseView { status: config.status, location: Some(config.target@) },
        ),
        !(forall|i: int|
            0 <= i < config.target@.len() ==> header_char(#[trigger] config.target@[i]))
            ==> custom_redirection(config, path_and_query) == Err::<ResponseView, Seq<char>>(
            "failed to parse header value"@,
        ),
{
    law_located(config.status, config.target@);
}

/// A number that is no status code is refused, whatever the target.
pub proof fn law_bad_status_refused(config: RedirectConfig, path_and_query: Option<Seq<char>>)
    requires
        !(100 <= config.status <= 999),
    ensures
        custom_redirection(config, path_and_query) == Err::<ResponseView, Seq<char>>(
            "invalid status code"@,
        ),
{
}

/// A kept path is redirected to the URI of the scheme and the authority that
/// are read in the target and the path and query of the request, or `/` where
/// it has none; the reason why there is no such URI is handed on.
pub proof fn law_kept_path(
    config: RedirectConfig,
    path_and_query: Option<Seq<char>>,
    scheme: Seq<char>,
    authority: Seq<char>,
    path: Seq<char>,
)
    requires
        config.preserve_path,
        100 <= config.status <= 999,
        uri_base(config.target@) == Ok::<UriBaseView, Seq<char>>(
            UriBaseView { scheme: Some(scheme), authority: Some(authority) },
        ),
        path_and_query == Some(path) || path_and_query is None && path == seq!['/'],
    ensures
        match built_uri(scheme, authority, path) {
            Ok(location) => {
                &&& (forall|i: int| 0 <= i < location.len() ==> header_char(#[trigger] location[i]))
                    ==> custom_redirection(config, path_and_query) == Ok::<ResponseView, Seq<char>>(
                    ResponseView { status: config.status, location: Some(location) },
                )
                &&& !(forall|i: int|
                    0 <= i < location.len() ==> header_char(#[trigger] location[i]))
                    ==> custom_redirection(config, path_and_query) == Err::<
                    ResponseView,
                    Seq<char>,
                >("failed to parse header value"@)
            },
            Err(reason) => custom_redirection(config, path_and_query) == Err::<
                ResponseView,
                Seq<char>,
            >(reason),
        },
{
    if let Ok(location) = built_uri(scheme, authority, path) {
        law_located(config.status, location);
    }
}

/// With a kept path, a target that cannot be read, or is read without a scheme
/// or without an authority, is refused for that.
pub proof fn law_bad_target_refused(
    config: RedirectConfig,
    path_and_query: Option<Seq<char>>,
)
    requires
        config.preserve_path,
        100 <= config.status <= 999,
    ensures
        match uri_base(config.target@) {
            Err(reason) => custom_redirection(config, path_and_query) == Err::<
                ResponseView,
                Seq<char>,
            >(reason),
            Ok(base) => {
                &&& base.scheme is None ==> custom_redirection(config, path_and_query) == Err::<
                    ResponseView,
                    Seq<char>,
                >("redirect target has no scheme"@)
                &&& base.scheme is Some && base.authority is None ==> custom_redirection(
                    config,
                    path_and_query,
                ) == Err::<ResponseView, Seq<char>>("redirect target has no authority"@)
            },
        },
{
}

/// The scheme and the authority of a target are taken as they were read, and
/// the first that is missing is named.
pub proof fn law_required_base(scheme: Seq<char>, authority: Option<Seq<char>>, reason: Seq<char>)
    ensures
        required_base(Err(reason)) == Err::<(Seq<char>, Seq<char>), Seq<char>>(reason),
        required_base(Ok(UriBaseView { scheme: None, authority })) == Err::<
            (Seq<char>, Seq<char>),
            Seq<char>,
        >("redirect target has no scheme"@),
        authority is None ==> required_base(Ok(UriBaseView { scheme: Some(scheme), authority }))
            == Err::<(Seq<char>, Seq<char>), Seq<char>>("redirect target has no authority"@),
        authority is Some ==> required_base(Ok(UriBaseView { scheme: Some(scheme), authority }))
            == Ok::<(Seq<char>, Seq<char>), Seq<char>>((scheme, authority->0)),
{
}

/// Decimal numbers without leading zeros are the same where their values are.
proof fn lemma_decimal_unique(a: Seq<char>, b: Seq<char>)
    requires
        is_decimal(a),
        is_decimal(b),
        decimal_value(a) == decimal_value(b),
    ensures
        a == b,
    decreases a.len(),
{
    lemma_decimal_size(a);
    lemma_decimal_size(b);
    let x = a.last() as int - '0' as int;
    let y = b.last() as int - '0' as int;
    assert(a[a.len() - 1] == a.last() && b[b.len() - 1] == b.last());
    assert(decimal_value(a) == 10 * decimal_value(a.drop_last()) + x);
    assert(decimal_value(b) == 10 * decimal_value(b.drop_last()) + y);
    assert(x == y && decimal_value(a.drop_last()) == decimal_value(b.drop_last()));
    if a.len() > 1 {
        assert(b.len() > 1);
        lemma_decimal_front(a);
        lemma_decimal_front(b);
        lemma_decimal_unique(a.drop_last(), b.drop_last());
        assert(a =~= a.drop_last().push(a.last()));
        assert(b =~= b.drop_last().push(b.last()));
    } else {
        assert(b.len() == 1);
        assert(a =~= b);
    }
}

/// What stands before the last digit has no leading zeros either.
proof fn lemma_decimal_front(s: Seq<char>)
    requires
        is_decimal(s),
        s.len() > 1,
    ensures
        is_decimal(s.drop_last()),
        s.drop_last()[0] != '0',
{
    assert forall|i: int| 0 <= i < s.drop_last().len() implies '0' <= #[trigger] s.drop_last()[i]
        <= '9' by {
        assert(s.drop_last()[i] == s[i]);
    }
    assert(s.drop_last()[0] == s[0]);
}

/// A decimal number of more than one digit is 10 or more, and one that does not
/// start with a zero is 1 or more.
proof fn lemma_decimal_size(s: Seq<char>)
    requires
        is_decimal(s),
    ensures
        decimal_value(s) >= 0,
        s[0] != '0' ==> decimal_value(s) >= 1,
        s.len() > 1 ==> decimal_value(s) >= 10,
        s.len() == 1 ==> decimal_value(s) < 10,
    decreases s.len(),
{
    reveal_with_fuel(decimal_value, 2);
    assert(s[s.len() - 1] == s.last());
    if s.len() > 1 {
        lemma_decimal_front(s);
        lemma_decimal_size(s.drop_last());
    } else {
        assert(s.drop_last() =~= seq![]);
    }
}

/// The authority for a host and a port: the host itself without a port and for
/// port 443, and the host, a colon and the port in decimal for any other.
pub proof fn law_authority(host: Seq<char>, port: u16, digits: Seq<char>)
    requires
        is_decimal(digits),
        decimal_value(digits) == port,
    ensures
        authority_of(host, None) == host,
        authority_of(host, Some(443)) == host,
        port != 443 ==> authority_of(host, Some(port)) == host + seq![':'] + digits,
{
    law_decimal_reads_back(port as nat);
    lemma_decimal_unique(digits, decimal(port as nat));
}

/// Without a port and for port 443, a request is redirected with 301 to the
/// URI of `https`, the server name as given and the path and query of the
/// request.
pub proof fn law_secure_default_port(
    server_name: Seq<char>,
    tls_port: Option<u16>,
    path_and_query: Option<Seq<char>>,
    path: Seq<char>,
)
    requires
        tls_port is None || tls_port == Some(443u16),
        path_and_query == Some(path) || path_and_query is None && path.len() == 0,
    ensures
        secure_redirection(Some(server_name), tls_port, path_and_query) == located(
            301,
            built_uri("https"@, server_name, path),
        ),
        secure_redirection(None, tls_port, path_and_query) == located(
            301,
            built_uri("https"@, Seq::<char>::empty(), path),
        ),
{
    if path_and_query is None {
        assert(path =~= seq![]);
    }
}

/// For any other port, a request is redirected with 301 to the URI of `https`,
/// the server name as given, a colon and the port in decimal, and the path and
/// query of the request.
pub proof fn law_secure_other_port(
    server_name: Seq<char>,
    port: u16,
    digits: Seq<char>,
    path_and_query: Option<Seq<char>>,
    path: Seq<char>,
)
    requires
        port != 443,
        is_decimal(digits),
        decimal_value(digits) == port,
        path_and_query == Some(path) || path_and_query is None && path.len() == 0,
    ensures
        secure_redirection(Some(server_name), Some(port), path_and_query) == located(
            301,
            built_uri("https"@, server_name + seq![':'] + digits, path),
        ),
        secure_redirection(None, Some(port), path_and_query) == located(
            301,
            built_uri("https"@, seq![':'] + digits, path),
        ),
{
    law_authority(server_name, port, digits);
    law_authority(seq![], port, digits);
    assert(Seq::<char>::empty() + seq![':'] + digits =~= seq![':'] + digits);
    if path_and_query is None {
        assert(path =~= seq![]);
    }
}

/// Different servers are redirected to different URIs: what the URI is built of
/// holds the whole server name.
pub proof fn law_servers_kept_apart(a: Seq<char>, b: Seq<char>, tls_port: Option<u16>)
    requires
        authority_of(a, tls_port) == authority_of(b, tls_port),
    ensures
        a == b,
{
    if let Some(port) = tls_port {
        if port != 443 {
            let tail = seq![':'] + decimal(port as nat);
            let x = authority_of(a, tls_port);
            assert(x =~= a + tail);
            assert(x =~= b + tail);
            assert(a =~= x.take(x.len() - tail.len()));
            assert(b =~= x.take(x.len() - tail.len()));
        }
    }
}

/// A URI is written of the scheme, `://`, the authority and the path.
pub proof fn law_written_uri(scheme: Seq<char>, authority: Seq<char>, path: Seq<char>)
    ensures
        written_uri(scheme, authority, path) == scheme + "://"@ + authority + path,
{
    reveal_strlit("://");
    assert("://"@ =~= seq![':', '/', '/']);
}

/// The path of a request is its own where it is not empty, and `/` elsewhere.
pub proof fn law_request_path(path: Seq<char>)
    ensures
        path.len() > 0 ==> request_path(Some(path)) == path,
        path.len() == 0 ==> request_path(Some(path)) == seq!['/'],
        request_path(None) == seq!['/'],
        text_or(Some(path), seq!['/']) == path,
        text_or(None, path) == path,
{
}

/// What stands before the first number sign is what is left without a fragment.
pub proof fn law_fragment_left_out(s: Seq<char>, k: int)
    requires
        0 <= k <= s.len(),
        forall|i: int| 0 <= i < k ==> #[trigger] s[i] != '#',
        k < s.len() ==> s[k] == '#',
    ensures
        without_fragment(s) == s.take(k),
    decreases s.len(),
{
    if k == 0 {
        assert(s.take(0) =~= seq![]);
    } else {
        let rest = s.skip(1);
        assert(s[0] != '#');
        assert forall|i: int| 0 <= i < k - 1 implies #[trigger] rest[i] != '#' by {
            assert(rest[i] == s[i + 1]);
        }
        law_fragment_left_out(rest, k - 1);
        assert(s.take(k) =~= seq![s[0]] + rest.take(k - 1));
    }
}

/// An absolute URI shows the scheme, `://`, the authority and the path and
/// query up to a fragment, with a slash before an empty path.
pub proof fn law_absolute_uri(scheme: Seq<char>, authority: Seq<char>, path: Seq<char>, k: int)
    requires
        0 <= k <= path.len(),
        forall|i: int| 0 <= i < k ==> #[trigger] path[i] != '#',
        k < path.len() ==> path[k] == '#',
    ensures
        k > 0 && path[0] != '?' ==> absolute_uri(scheme, authority, path) == scheme + "://"@
            + authority + path.take(k),
        k == 0 || path[0] == '?' ==> absolute_uri(scheme, authority, path) == scheme + "://"@
            + authority + "/"@ + path.take(k),
{
    reveal_strlit("://");
    reveal_strlit("/");
    assert("://"@ =~= seq![':', '/', '/']);
    assert("/"@ =~= seq!['/']);
    law_fragment_left_out(path, k);
    let front = scheme + "://"@ + authority;
    assert(absolute_uri(scheme, authority, path) =~= front + shown_path(path));
    if k == 0 || path[0] == '?' {
        assert(front + (seq!['/'] + path.take(k)) =~= front + seq!['/'] + path.take(k));
    }
}

/// Letters, digits, dashes and dots make a plain host; with one colon among
/// them a plain authority.
pub proof fn law_plain_hosts(host: Seq<char>)
    requires
        host.len() > 0,
    ensures
        (forall|i: int|
            0 <= i < host.len() ==> ('a' <= #[trigger] host[i] <= 'z' || 'A' <= host[i] <= 'Z'
                || '0' <= host[i] <= '9' || host[i] == '-' || host[i] == '.')) ==> is_plain_host(
            host,
        ),
        (forall|i: int|
            0 <= i < host.len() ==> ('a' <= #[trigger] host[i] <= 'z' || 'A' <= host[i] <= 'Z'
                || '0' <= host[i] <= ':' || host[i] == '-' || host[i] == '.')) && (forall|
            i: int,
            j: int,
        |
            0 <= i < j < host.len() ==> !(#[trigger] host[i] == ':' && #[trigger] host[j] == ':'))
            ==> is_plain_authority(host),
{
}

/// A slash and then letters, digits and the marks that need no escape make a
/// plain path.
pub proof fn law_plain_paths(path: Seq<char>)
    requires
        path.len() <= 65534,
        path.len() > 0 ==> path[0] == '/',
        forall|i: int|
            0 <= i < path.len() ==> ('a' <= #[trigger] path[i] <= 'z' || 'A' <= path[i] <= 'Z'
                || '0' <= path[i] <= '9' || path[i] == '/' || path[i] == '?' || path[i] == '&'
                || path[i] == '=' || path[i] == '-' || path[i] == '.' || path[i] == '_' || path[i]
                == '~' || path[i] == '%' || path[i] == '+' || path[i] == ',' || path[i] == ';'
                || path[i] == ':' || path[i] == '@' || path[i] == '!' || path[i] == '$' || path[i]
                == '*' || path[i] == '(' || path[i] == ')' || path[i] == '|'),
    ensures
        is_plain_path(path),
{
}

/// `http` or `https`, `://`, a plain authority and a plain path make a plain
/// URI.
pub proof fn law_plain_uris(scheme: Seq<char>, authority: Seq<char>, path: Seq<char>)
    requires
        scheme == "http"@ || scheme == "https"@,
        is_plain_authority(authority),
        is_plain_path(path),
        scheme.len() + 3 + authority.len() + path.len() <= 65534,
    ensures
        is_plain_uri(scheme + "://"@ + authority + path, scheme, authority),
{
    law_written_uri(scheme, authority, path);
    assert(written_uri(scheme, authority, path).len() == scheme.len() + 3 + authority.len()
        + path.len());
}

} // verus!
