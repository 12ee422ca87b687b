//! Calls into the `http` crate, from plain values to plain values.

use vstd::prelude::*;

verus! {

/// The characters of an outcome of texts.
pub open spec fn texts(r: Result<String, String>) -> Result<Seq<char>, Seq<char>> {
    match r {
        Ok(s) => Ok(s@),
        Err(e) => Err(e@),
    }
}

/// Whether `code` is a status code: three digits, the first of them not zero.
pub open spec fn is_status(code: u16) -> bool {
    100 <= code <= 999
}

/// `http::StatusCode::from_u16`: takes the numbers from 100 to 999 as they
/// are, and describes its error with one message.
#[verifier::external_body]
pub(crate) fn check_status(code: u16) -> (r: Result<u16, String>)
    ensures
        match r {
            Ok(c) => is_status(code) && c == code,
            Err(e) => !is_status(code) && e@ == "invalid status code"@,
        },
{
    match http::StatusCode::from_u16(code) {
        Ok(status) => Ok(status.as_u16()),
        Err(e) => Err(e.to_string()),
    }
}

/// The scheme and the authority of a URI, where it has them.
pub struct UriBase {
    pub scheme: Option<String>,
    pub authority: Option<String>,
}

/// A [`UriBase`] with characters in place of strings.
pub struct UriBaseView {
    pub scheme: Option<Seq<char>>,
    pub authority: Option<Seq<char>>,
}

impl View for UriBase {
    type V = UriBaseView;

    open spec fn view(&self) -> UriBaseView {
        UriBaseView {
            scheme: match self.scheme {
                Some(s) => Some(s@),
                None => None,
            },
            authority: match self.authority {
                Some(s) => Some(s@),
                None => None,
            },
        }
    }
}

/// The characters of the outcome of reading a URI.
pub open spec fn base_texts(r: Result<UriBase, String>) -> Result<UriBaseView, Seq<char>> {
    match r {
        Ok(base) => Ok(base@),
        Err(e) => Err(e@),
    }
}

/// Whether `s` is `t`, but for letters that are lowercase in `s` and uppercase
/// in `t`.
pub open spec fn lowers(s: Seq<char>, t: Seq<char>) -> bool {
    s.len() == t.len() && forall|i: int|
        0 <= i < s.len() ==> #[trigger] s[i] == t[i] || 'A' <= t[i] <= 'Z' && s[i] as int
            == t[i] as int + 32
}

/// The scheme of a URI that starts with `written` and a colon: `http` and
/// `https` in lowercase, and any other as it is written.
pub open spec fn shown_scheme(written: Seq<char>) -> Seq<char> {
    if lowers("http"@, written) {
        "http"@
    } else if lowers("https"@, written) {
        "https"@
    } else {
        written
    }
}

/// Whether `c` ends the authority of a URI: a path, a query or a fragment
/// starts with it.
pub open spec fn ends_authority(c: char) -> bool {
    c == '/' || c == '?' || c == '#'
}

/// Whether `uri` starts with this scheme and this authority: with what stands
/// before the first colon, `://`, and what follows up to a path, a query, a
/// fragment or the end.
pub open spec fn starts_with_base(
    uri: Seq<char>,
    scheme: Seq<char>,
    authority: Seq<char>,
) -> bool {
    let start = scheme.len() + 3;
    let end = start + authority.len();
    &&& authority.len() > 0
    &&& end <= uri.len()
    &&& scheme == shown_scheme(uri.take(scheme.len() as int))
    &&& forall|i: int| 0 <= i < scheme.len() ==> #[trigger] scheme[i] != ':'
    &&& uri.subrange(scheme.len() as int, start as int) == seq![':', '/', '/']
    &&& uri.subrange(start as int, end as int) == authority
    &&& forall|i: int| 0 <= i < authority.len() ==> !ends_authority(#[trigger] authority[i])
    &&& end < uri.len() ==> ends_authority(uri[end as int])
}

/// Whether `c` is an ASCII letter or digit.
pub open spec fn is_alphanumeric(c: char) -> bool {
    'a' <= c <= 'z' || 'A' <= c <= 'Z' || '0' <= c <= '9'
}

/// Whether `host` is made of letters, digits, dashes and dots.
pub open spec fn is_plain_host(host: Seq<char>) -> bool {
    &&& host.len() > 0
    &&& forall|i: int|
        0 <= i < host.len() ==> is_alphanumeric(#[trigger] host[i]) || host[i] == '-' || host[i]
            == '.'
}

/// Whether `authority` is made of letters, digits, dashes, dots and at most
/// one colon.
pub open spec fn is_plain_authority(authority: Seq<char>) -> bool {
    &&& authority.len() > 0
    &&& forall|i: int|
        0 <= i < authority.len() ==> is_alphanumeric(#[trigger] authority[i]) || authority[i] == '-'
            || authority[i] == '.' || authority[i] == ':'
    &&& forall|i: int, j: int|
        0 <= i < j < authority.len() && #[trigger] authority[i] == ':' ==> #[trigger] authority[j]
            != ':'
}

/// Whether `path` is empty, or starts with a slash and is made of ASCII
/// characters that need no escape in a path or a query.
pub open spec fn is_plain_path(path: Seq<char>) -> bool {
    &&& path.len() <= 65534
    &&& path.len() > 0 ==> path[0] == '/'
    &&& forall|i: int|
        0 <= i < path.len() ==> {
            ||| #[trigger] path[i] == '!'
            ||| '$' <= path[i] <= ';'
            ||| path[i] == '='
            ||| '?' <= path[i] <= '_'
            ||| 'a' <= path[i] <= 'z'
            ||| path[i] == '|'
            ||| path[i] == '~'
        }
}

/// Whether `scheme` is `http` or `https`.
pub open spec fn is_web_scheme(scheme: Seq<char>) -> bool {
    scheme == "http"@ || scheme == "https"@
}

/// A URI of these parts as it is written.
pub open spec fn written_uri(scheme: Seq<char>, authority: Seq<char>, path: Seq<char>) -> Seq<
    char,
> {
    scheme + seq![':', '/', '/'] + authority + path
}

/// Whether `uri` is written of this scheme, `http` or `https`, this plain
/// authority and a plain path, and its length fits in 16 bits.
pub open spec fn is_plain_uri(uri: Seq<char>, scheme: Seq<char>, authority: Seq<char>) -> bool {
    &&& uri.len() <= 65534
    &&& is_web_scheme(scheme)
    &&& is_plain_authority(authority)
    &&& exists|path: Seq<char>|
        is_plain_path(path) && uri == #[trigger] written_uri(scheme, authority, path)
}

/// Whether `uri` is a plain path that is not empty or a plain authority alone,
/// and its length fits in 16 bits.
pub open spec fn is_plain_without_scheme(uri: Seq<char>) -> bool {
    &&& 0 < uri.len() <= 65534
    &&& is_plain_path(uri) || is_plain_authority(uri)
}

/// Whether `read` gives the scheme and the authority of a plain `uri`.
pub open spec fn reads_as_written(uri: Seq<char>, read: Result<UriBaseView, Seq<char>>) -> bool {
    forall|scheme: Seq<char>, authority: Seq<char>| #[trigger]
        is_plain_uri(uri, scheme, authority) ==> read == Ok::<UriBaseView, Seq<char>>(
            UriBaseView { scheme: Some(scheme), authority: Some(authority) },
        )
}

/// Whether `r` is the error that a text is empty where it must not be.
pub open spec fn says_empty<T>(r: Result<T, Seq<char>>) -> bool {
    r matches Err(message) && message == "empty string"@
}

/// Whether `read` gives this scheme and this authority.
pub open spec fn gives(
    read: Result<UriBaseView, Seq<char>>,
    scheme: Option<Seq<char>>,
    authority: Option<Seq<char>>,
) -> bool {
    read matches Ok(base) && base.scheme == scheme && base.authority == authority
}

/// The scheme and the authority that the `http` crate reads in a URI, or the
/// message of its error.
pub uninterp spec fn uri_base(uri: Seq<char>) -> Result<UriBaseView, Seq<char>>;

/// `<http::Uri as FromStr>::from_str`, with `Uri::scheme_str` and
/// `Uri::authority`: the outcome depends on the text alone. A URI with a
/// scheme has an authority too, and starts with both: the scheme, without a
/// colon, stands before `://`, and the authority ends before the first slash,
/// question mark or number sign. `http` and `https` are found in any case and
/// given in lowercase. A plain URI is read as written. A text that starts with
/// a slash has neither a scheme nor an authority, and a plain path is such a
/// URI. A plain authority alone is a URI without a scheme. The empty text is
/// none, which the error describes with one message.
#[verifier::external_body]
pub(crate) fn parse_uri(uri: &str) -> (r: Result<UriBase, String>)
    ensures
        base_texts(r) == uri_base(uri@),
        r matches Ok(base) ==> (base@.scheme matches Some(scheme) ==> {
            &&& base@.authority matches Some(authority)
            &&& starts_with_base(uri@, scheme, authority)
        }),
        reads_as_written(uri@, base_texts(r)),
        uri@.len() > 0 && uri@[0] == '/' ==> r is Err || gives(base_texts(r), None, None),
        uri@.len() > 0 && is_plain_path(uri@) ==> r is Ok,
        uri@.len() <= 65534 && is_plain_authority(uri@) ==> gives(base_texts(r), None, Some(uri@)),
        uri@.len() == 0 ==> says_empty(base_texts(r)),
{
    match uri.parse::<http::Uri>() {
        Ok(uri) => Ok(UriBase {
            scheme: uri.scheme_str().map(ToString::to_string),
            authority: uri.authority().map(ToString::to_string),
        }),
        Err(e) => Err(e.to_string()),
    }
}

/// What stands before the first `#`.
pub open spec fn without_fragment(s: Seq<char>) -> Seq<char>
    decreases s.len(),
{
    if s.len() == 0 || s[0] == '#' {
        seq![]
    } else {
        seq![s[0]] + without_fragment(s.skip(1))
    }
}

/// The path and query as a URI shows them: without a fragment, and with a `/`
/// for an empty path.
pub open spec fn shown_path(path_and_query: Seq<char>) -> Seq<char> {
    let shown = without_fragment(path_and_query);
    if shown.len() == 0 || shown[0] == '?' {
        seq!['/'] + shown
    } else {
        shown
    }
}

/// The path and query of a request, and a `/` where it has none or an empty
/// one.
pub open spec fn request_path(path_and_query: Option<Seq<char>>) -> Seq<char> {
    match path_and_query {
        Some(s) => if s.len() > 0 {
            s
        } else {
            seq!['/']
        },
        None => seq!['/'],
    }
}

/// An absolute URI of these parts.
pub open spec fn absolute_uri(
    scheme: Seq<char>,
    authority: Seq<char>,
    path_and_query: Seq<char>,
) -> Seq<char> {
    scheme + seq![':', '/', '/'] + authority + shown_path(path_and_query)
}

/// The URI that the `http` crate builds of these parts, or the message of its
/// error.
pub uninterp spec fn built_uri(
    scheme: Seq<char>,
    authority: Seq<char>,
    path_and_query: Seq<char>,
) -> Result<Seq<char>, Seq<char>>;

/// `http::uri::Builder` with a scheme, a path and query and an authority, in
/// this order: the outcome depends on the three texts alone. A URI that was
/// built shows the scheme and the authority as they were given, and the path
/// and query without a fragment, with a `/` for an empty path. Parts that are
/// plain make a URI. An empty authority makes none, which the error describes
/// with one message where the other parts are plain.
#[verifier::external_body]
pub(crate) fn build_uri(scheme: &str, authority: &str, path_and_query: &str) -> (r: Result<
    String,
    String,
>)
    ensures
        texts(r) == built_uri(scheme@, authority@, path_and_query@),
        r matches Ok(uri) ==> uri@ == absolute_uri(scheme@, authority@, path_and_query@),
        is_web_scheme(scheme@) && is_plain_authority(authority@) && is_plain_path(path_and_query@)
            ==> r is Ok,
        authority@.len() == 0 ==> r is Err,
        authority@.len() == 0 && is_web_scheme(scheme@) && is_plain_path(path_and_query@)
            ==> says_empty(texts(r)),
{
    let builder = http::Uri::builder().scheme(scheme).path_and_query(path_and_query);
    match builder.authority(authority).build() {
        Ok(uri) => Ok(uri.to_string()),
        Err(e) => Err(e.to_string()),
    }
}

/// `http::response::Builder` with a status and an empty body: a response with
/// that status.
#[verifier::external_body]
pub(crate) fn build_response(status: u16) -> (r: u16)
    requires
        is_status(status),
    ensures
        r == status,
{
    http::Response::builder().status(status).body(()).unwrap().status().as_u16()
}

/// Whether `name` is a header name made of ASCII letters alone.
pub open spec fn is_plain_header_name(name: Seq<char>) -> bool {
    &&& 0 < name.len() <= 64
    &&& forall|i: int|
        0 <= i < name.len() ==> 'a' <= #[trigger] name[i] <= 'z' || 'A' <= name[i] <= 'Z'
}

/// Whether `value` can stand in a header: it holds no control character but
/// the tab.
pub open spec fn is_header_value(value: Seq<char>) -> bool {
    forall|i: int|
        0 <= i < value.len() ==> #[trigger] value[i] == '\t' || value[i] >= ' ' && value[i]
            != '\u{7f}'
}

/// `http::response::Builder` with a status, one header and an empty body: a
/// response with that status and that header, unless the value cannot stand in
/// a header, which the error describes with one message.
#[verifier::external_body]
pub(crate) fn build_response_with(status: u16, name: &str, value: String) -> (r: Result<
    (u16, String),
    String,
>)
    requires
        is_status(status),
        is_plain_header_name(name@),
    ensures
        match r {
            Ok((s, v)) => is_header_value(value@) && s == status && v@ == value@,
            Err(e) => !is_header_value(value@) && e@ == "failed to parse header value"@,
        },
{
    match http::Response::builder().status(status).header(name, value).body(()) {
        Ok(r) => {
            let value = String::from_utf8_lossy(r.headers()[name].as_bytes()).into_owned();
            Ok((r.status().as_u16(), value))
        },
        Err(e) => Err(e.to_string()),
    }
}

} // verus!
