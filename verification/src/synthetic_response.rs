//! Responses that the proxy makes itself: errors and redirections.

use vstd::prelude::*;
use vstd::string::*;

use crate::http_calls::{
    absolute_uri, base_texts, build_response, build_response_with, build_uri, built_uri,
    check_status, is_header_value, is_plain_authority, is_plain_host, is_plain_path, is_plain_uri,
    is_plain_without_scheme, is_status, is_web_scheme, parse_uri, request_path, shown_path,
    starts_with_base, texts, uri_base, without_fragment, written_uri, UriBase, UriBaseView,
};
use crate::text::{decimal, lemma_decimal_digits, push_decimal};

verus! {

/// A status code, from 100 to 999.
#[derive(Debug, Clone, Copy, PartialEq, Eq)]
pub struct StatusCode {
    code: u16,
}

impl View for StatusCode {
    type V = u16;

    closed spec fn view(&self) -> u16 {
        self.code
    }
}

impl StatusCode {
    #[verifier::type_invariant]
    closed spec fn inv(self) -> bool {
        is_status(self.code)
    }

    /// The status code with the given number.
    pub fn from_u16(code: u16) -> (r: Result<StatusCode, String>)
        ensures
            match r {
                Ok(status) => is_status(code) && status@ == code,
                Err(e) => !is_status(code) && e@ == "invalid status code"@,
            },
    {
        match check_status(code) {
            Ok(code) => Ok(StatusCode { code }),
            Err(e) => Err(e),
        }
    }

    /// The number of the status code.
    pub fn as_u16(&self) -> (code: u16)
        ensures
            code == self@,
            is_status(code),
    {
        proof {
            use_type_invariant(self);
        }
        self.code
    }
}

/// A response without a body.
#[derive(Debug, Clone, PartialEq, Eq)]
pub struct SyntheticResponse {
    pub status: StatusCode,
    /// The value of the `Location` header, the only one that there can be.
    pub location: Option<String>,
}

/// A [`SyntheticResponse`] with plain values.
#[verifier::ext_equal]
pub struct ResponseView {
    pub status: u16,
    pub location: Option<Seq<char>>,
}

impl View for SyntheticResponse {
    type V = ResponseView;

    open spec fn view(&self) -> ResponseView {
        ResponseView {
            status: self.status@,
            location: match self.location {
                Some(l) => Some(l@),
                None => None,
            },
        }
    }
}

/// Why a response could not be made.
#[derive(Debug)]
pub enum HttpError {
    FailedToRedirect(String),
}

impl View for HttpError {
    type V = Seq<char>;

    open spec fn view(&self) -> Seq<char> {
        match self {
            HttpError::FailedToRedirect(reason) => reason@,
        }
    }
}

/// An outcome with plain values.
pub open spec fn outcome(r: Result<SyntheticResponse, HttpError>) -> Result<
    ResponseView,
    Seq<char>,
> {
    match r {
        Ok(response) => Ok(response@),
        Err(e) => Err(e@),
    }
}

/// What the responses depend on in a request.
pub struct RequestHead {
    /// The path and query of the request URI, where it has one.
    pub path_and_query: Option<String>,
}

impl View for RequestHead {
    type V = Option<Seq<char>>;

    open spec fn view(&self) -> Option<Seq<char>> {
        match self.path_and_query {
            Some(s) => Some(s@),
            None => None,
        }
    }
}

/// Where requests are redirected to.
pub struct RedirectConfig {
    /// The target URI.
    pub target: String,
    /// The status code of the redirection.
    pub status: u16,
    /// Whether the path and query of the request are kept.
    pub preserve_path: bool,
}

/// The text, and `default` where there is none.
pub open spec fn text_or(s: Option<Seq<char>>, default: Seq<char>) -> Seq<char> {
    match s {
        Some(s) => s,
        None => default,
    }
}

/// The response that redirects to `location`, or the reason why there is none.
pub open spec fn located(status: u16, location: Result<Seq<char>, Seq<char>>) -> Result<
    ResponseView,
    Seq<char>,
> {
    match location {
        Err(e) => Err(e),
        Ok(location) => if is_header_value(location) {
            Ok(ResponseView { status, location: Some(location) })
        } else {
            Err("failed to parse header value"@)
        },
    }
}

/// The authority for a host and a TLS port; the default port is left out.
pub open spec fn authority_of(host: Seq<char>, tls_port: Option<u16>) -> Seq<char> {
    match tls_port {
        None => host,
        Some(port) => if port == 443 {
            host
        } else {
            host + seq![':'] + decimal(port as nat)
        },
    }
}

/// The redirection of a request to the TLS port of the server.
pub open spec fn secure_redirection(
    server_name: Option<Seq<char>>,
    tls_port: Option<u16>,
    path_and_query: Option<Seq<char>>,
) -> Result<ResponseView, Seq<char>> {
    located(
        301,
        built_uri(
            "https"@,
            authority_of(text_or(server_name, seq![]), tls_port),
            text_or(path_and_query, seq![]),
        ),
    )
}

/// The scheme and the authority of a redirection target, which both must be
/// there.
pub open spec fn required_base(base: Result<UriBaseView, Seq<char>>) -> Result<
    (Seq<char>, Seq<char>),
    Seq<char>,
> {
    match base {
        Err(e) => Err(e),
        Ok(base) => match (base.scheme, base.authority) {
            (None, _) => Err("redirect target has no scheme"@),
            (Some(_), None) => Err("redirect target has no authority"@),
            (Some(scheme), Some(authority)) => Ok((scheme, authority)),
        },
    }
}

/// Where a request is redirected to: to the target itself, or to the path and
/// query of the request at the scheme and authority of the target.
pub open spec fn redirect_location(
    target: Seq<char>,
    preserve_path: bool,
    path_and_query: Option<Seq<char>>,
) -> Result<Seq<char>, Seq<char>> {
    if !preserve_path {
        Ok(target)
    } else {
        match required_base(uri_base(target)) {
            Err(e) => Err(e),
            Ok((scheme, authority)) => built_uri(
                scheme,
                authority,
                text_or(path_and_query, seq!['/']),
            ),
        }
    }
}

/// The redirection that a configuration asks for.
pub open spec fn custom_redirection(
    config: RedirectConfig,
    path_and_query: Option<Seq<char>>,
) -> Result<ResponseView, Seq<char>> {
    if !is_status(config.status) {
        Err("invalid status code"@)
    } else {
        located(
            config.status,
            redirect_location(config.target@, config.preserve_path, path_and_query),
        )
    }
}

/// Builds a response with the given status, meant for the codes of 4xx and 5xx.
pub fn synthetic_error_response(status_code: StatusCode) -> (r: Result<
    SyntheticResponse,
    HttpError,
>)
    ensures
        outcome(r) == Ok::<ResponseView, Seq<char>>(
            ResponseView { status: status_code@, location: None },
        ),
{
    let code: u16 = build_response(status_code.as_u16());
    Ok(SyntheticResponse { status: StatusCode { code }, location: None })
}

/// Builds the response that redirects to `location`.
pub fn redirect_to(status: StatusCode, location: Result<String, String>) -> (r: Result<
    SyntheticResponse,
    HttpError,
>)
    ensures
        outcome(r) == located(status@, texts(location)),
{
    match location {
        Err(e) => Err(HttpError::FailedToRedirect(e)),
        Ok(location) => {
            proof {
                reveal_strlit("Location");
            }
            match build_response_with(status.as_u16(), "Location", location) {
                Err(e) => Err(HttpError::FailedToRedirect(e)),
                Ok((code, location)) => Ok(
                    SyntheticResponse { status: StatusCode { code }, location: Some(location) },
                ),
            }
        },
    }
}

/// Writes the authority for a host and a TLS port.
pub fn redirect_authority(host: &str, tls_port: Option<u16>) -> (s: String)
    ensures
        s@ == authority_of(host@, tls_port),
{
    let mut s = String::from_str(host);
    match tls_port {
        None => {},
        Some(port) => {
            if port != 443 {
                s.push(':');
                push_decimal(&mut s, port);
            }
        },
    }
    s
}

/// A plain host and a port make a plain authority.
proof fn lemma_plain_authority(host: Seq<char>, tls_port: Option<u16>)
    requires
        is_plain_host(host),
    ensures
        is_plain_authority(authority_of(host, tls_port)),
{
    if let Some(port) = tls_port {
        lemma_decimal_digits(port as nat);
    }
}

/// Plain parts make a URI that can stand in a header.
proof fn lemma_plain_uri(scheme: Seq<char>, authority: Seq<char>, path: Seq<char>)
    requires
        is_web_scheme(scheme),
        is_plain_authority(authority),
        is_plain_path(path),
    ensures
        is_header_value(written_uri(scheme, authority, path)),
{
    reveal_strlit("http");
    reveal_strlit("https");
}

/// A plain path of a request is shown as it is, and as `/` where it is missing
/// or empty, whichever of the two stands for a missing one.
proof fn lemma_request_path(path_and_query: Option<Seq<char>>, default: Seq<char>)
    requires
        is_plain_path(request_path(path_and_query)),
        default == seq!['/'] || default == Seq::<char>::empty(),
    ensures
        is_plain_path(text_or(path_and_query, default)),
        shown_path(text_or(path_and_query, default)) == request_path(path_and_query),
{
    let path = text_or(path_and_query, default);
    lemma_without_fragment(path);
    if path.len() == 0 {
        assert(seq!['/'] + path =~= seq!['/']);
    }
}

/// What has no `#` has no fragment.
proof fn lemma_without_fragment(s: Seq<char>)
    requires
        !s.contains('#'),
    ensures
        without_fragment(s) == s,
    decreases s.len(),
{
    if s.len() > 0 {
        assert(s.contains(s[0]));
        assert forall|i: int| 0 <= i < s.skip(1).len() implies s.skip(1)[i] != '#' by {
            assert(s.contains(s[i + 1]));
        }
        lemma_without_fragment(s.skip(1));
        assert(s =~= seq![s[0]] + s.skip(1));
    } else {
        assert(without_fragment(s) =~= s);
    }
}

/// Builds the redirection, with 301, of a request to the TLS port of the
/// server. A server name that is no text counts as empty.
pub fn secure_redirection_response(
    server_name: Option<&str>,
    tls_port: Option<u16>,
    req: &RequestHead,
) -> (r: Result<SyntheticResponse, HttpError>)
    ensures
        outcome(r) == secure_redirection(
            match server_name {
                Some(s) => Some(s@),
                None => None,
            },
            tls_port,
            req@,
        ),
        r matches Ok(response) ==> response@ == (ResponseView {
            status: 301,
            location: Some(
                absolute_uri(
                    "https"@,
                    authority_of(
                        match server_name {
                            Some(s) => s@,
                            None => seq![],
                        },
                        tls_port,
                    ),
                    text_or(req@, seq![]),
                ),
            ),
        }),
        server_name matches Some(s) ==> (is_plain_host(s@) && is_plain_path(request_path(req@))
            ==> outcome(r) == Ok::<ResponseView, Seq<char>>(
            ResponseView {
                status: 301,
                location: Some(
                    written_uri("https"@, authority_of(s@, tls_port), request_path(req@)),
                ),
            },
        )),
        server_name is Some && is_plain_host(server_name->0@) && (tls_port is None || tls_port
            == Some(443u16)) && req@ is Some && req@->0.len() > 0 && is_plain_path(req@->0)
            ==> outcome(r) == Ok::<ResponseView, Seq<char>>(
            ResponseView {
                status: 301,
                location: Some("https://"@ + server_name->0@ + req@->0),
            },
        ),
        server_name is Some && is_plain_host(server_name->0@) && tls_port is Some && tls_port->0
            != 443 && req@ is Some && req@->0.len() > 0 && is_plain_path(req@->0) ==> outcome(r)
            == Ok::<ResponseView, Seq<char>>(
            ResponseView {
                status: 301,
                location: Some(
                    "https://"@ + server_name->0@ + seq![':'] + decimal(tls_port->0 as nat)
                        + req@->0,
                ),
            },
        ),
        server_name is None && (tls_port is None || tls_port == Some(443u16)) ==> r is Err,
        server_name is None && (tls_port is None || tls_port == Some(443u16)) && is_plain_path(
            request_path(req@),
        ) ==> outcome(r) == Err::<ResponseView, Seq<char>>("empty string"@),
{
    proof {
        reveal_strlit("");
        assert(""@ =~= seq![]);
    }
    let host = match server_name {
        Some(s) => s,
        None => "",
    };
    let pq = match &req.path_and_query {
        Some(s) => s.as_str(),
        None => "",
    };
    let authority = redirect_authority(host, tls_port);
    proof {
        if is_plain_path(request_path(req@)) {
            lemma_request_path(req@, seq![]);
            if is_plain_host(host@) {
                lemma_plain_authority(host@, tls_port);
                lemma_plain_uri("https"@, authority@, request_path(req@));
            }
        }
    }
    proof {
        reveal_strlit("https");
        reveal_strlit("https://");
        assert("https://"@ =~= "https"@ + seq![':', '/', '/']);
        if tls_port is Some && tls_port->0 != 443 {
            assert(written_uri("https"@, authority@, request_path(req@)) =~= "https://"@ + host@
                + seq![':'] + decimal(tls_port->0 as nat) + request_path(req@));
        }
    }
    redirect_to(StatusCode { code: 301 }, build_uri("https", authority.as_str(), pq))
}

/// Takes the scheme and the authority out of a redirection target.
pub fn require_base(base: Result<UriBase, String>) -> (r: Result<(String, String), String>)
    ensures
        match r {
            Ok((scheme, authority)) => required_base(base_texts(base)) == Ok::<
                (Seq<char>, Seq<char>),
                Seq<char>,
            >((scheme@, authority@)),
            Err(e) => required_base(base_texts(base)) == Err::<(Seq<char>, Seq<char>), Seq<char>>(
                e@,
            ),
        },
{
    let base = match base {
        Ok(base) => base,
        Err(e) => {
            return Err(e);
        },
    };
    let scheme = match base.scheme {
        Some(scheme) => scheme,
        None => {
            return Err(String::from_str("redirect target has no scheme"));
        },
    };
    let authority = match base.authority {
        Some(authority) => authority,
        None => {
            return Err(String::from_str("redirect target has no authority"));
        },
    };
    Ok((scheme, authority))
}

/// Finds where a request is redirected to.
fn find_location(redirect: &RedirectConfig, req: &RequestHead) -> (r: Result<String, String>)
    ensures
        texts(r) == redirect_location(redirect.target@, redirect.preserve_path, req@),
        r matches Ok(location) ==> redirects_to(
            redirect.target@,
            redirect.preserve_path,
            req@,
            location@,
        ),
        forall|scheme: Seq<char>, authority: Seq<char>| #[trigger]
            is_plain_uri(redirect.target@, scheme, authority) && redirect.preserve_path
                && is_plain_path(request_path(req@)) ==> texts(r) == Ok::<Seq<char>, Seq<char>>(
                written_uri(scheme, authority, request_path(req@)),
            ),
        redirect.preserve_path && is_plain_without_scheme(redirect.target@) ==> texts(r) == Err::<
            Seq<char>,
            Seq<char>,
        >("redirect target has no scheme"@),
        redirect.preserve_path && redirect.target@.len() == 0 ==> texts(r) == Err::<
            Seq<char>,
            Seq<char>,
        >("empty string"@),
{
    if !redirect.preserve_path {
        return Ok(redirect.target.clone());
    }
    proof {
        reveal_strlit("/");
        assert("/"@ =~= seq!['/']);
    }
    let (scheme, authority) = match require_base(parse_uri(redirect.target.as_str())) {
        Ok(base) => base,
        Err(e) => {
            return Err(e);
        },
    };
    let pq = match &req.path_and_query {
        Some(s) => s.as_str(),
        None => "/",
    };
    proof {
        if is_plain_path(request_path(req@)) {
            lemma_request_path(req@, seq!['/']);
        }
    }
    build_uri(scheme.as_str(), authority.as_str(), pq)
}

/// Whether `location` is where a request is redirected to: the target as it
/// stands, or the path and query of the request at the scheme and authority
/// that the target was read with, and starts with.
pub open spec fn redirects_to(
    target: Seq<char>,
    preserve_path: bool,
    path_and_query: Option<Seq<char>>,
    location: Seq<char>,
) -> bool {
    if !preserve_path {
        location == target
    } else {
        required_base(uri_base(target)) matches Ok((scheme, authority)) && {
            &&& starts_with_base(target, scheme, authority)
            &&& location == absolute_uri(scheme, authority, text_or(path_and_query, seq!['/']))
        }
    }
}

/// Builds the redirection that a configuration asks for.
pub fn custom_redirection_response(redirect: &RedirectConfig, req: &RequestHead) -> (r: Result<
    SyntheticResponse,
    HttpError,
>)
    ensures
        outcome(r) == custom_redirection(*redirect, req@),
        r matches Ok(response) ==> {
            &&& response@.status == redirect.status
            &&& response@.location matches Some(location)
            &&& redirects_to(redirect.target@, redirect.preserve_path, req@, location)
        },
        forall|scheme: Seq<char>, authority: Seq<char>| #[trigger]
            is_plain_uri(redirect.target@, scheme, authority) && redirect.preserve_path
                && is_plain_path(request_path(req@)) && is_status(redirect.status) ==> outcome(r)
                == Ok::<ResponseView, Seq<char>>(
                ResponseView {
                    status: redirect.status,
                    location: Some(written_uri(scheme, authority, request_path(req@))),
                },
            ),
        !redirect.preserve_path && 100 <= redirect.status <= 999 && (forall|i: int|
            0 <= i < redirect.target@.len() ==> (#[trigger] redirect.target@[i] == '\t'
                || redirect.target@[i] >= ' ' && redirect.target@[i] != '\u{7f}')) ==> outcome(r)
            == Ok::<ResponseView, Seq<char>>(
            ResponseView { status: redirect.status, location: Some(redirect.target@) },
        ),
        is_status(redirect.status) && redirect.preserve_path && is_plain_without_scheme(redirect.target@)
            ==> outcome(r) == Err::<ResponseView, Seq<char>>("redirect target has no scheme"@),
        is_status(redirect.status) && redirect.preserve_path && redirect.target@.len() == 0
            ==> outcome(r) == Err::<ResponseView, Seq<char>>("empty string"@),
{
    let status = match StatusCode::from_u16(redirect.status) {
        Ok(status) => status,
        Err(e) => {
            return Err(HttpError::FailedToRedirect(e));
        },
    };
    let location = find_location(redirect, req);
    proof {
        if is_plain_path(request_path(req@)) {
            assert forall|scheme: Seq<char>, authority: Seq<char>|
                is_web_scheme(scheme) && is_plain_authority(authority) implies is_header_value(
                #[trigger] written_uri(scheme, authority, request_path(req@)),
            ) by {
                lemma_plain_uri(scheme, authority, request_path(req@));
            }
        }
    }
    redirect_to(status, location)
}

/// The default TLS port and no port redirect alike.
pub proof fn law_default_port(
    server_name: Option<Seq<char>>,
    path_and_query: Option<Seq<char>>,
)
    ensures
        secure_redirection(server_name, Some(443), path_and_query) == secure_redirection(
            server_name,
            None,
            path_and_query,
        ),
{
}

/// A redirection that does not keep the path is the same for every request.
pub proof fn law_fixed_target(
    config: RedirectConfig,
    a: Option<Seq<char>>,
    b: Option<Seq<char>>,
)
    requires
        !config.preserve_path,
    ensures
        custom_redirection(config, a) == custom_redirection(config, b),
{
}

/// A path and query that starts with a slash and has no fragment stands in a
/// URI as it is.
pub proof fn law_path_and_query_kept(
    scheme: Seq<char>,
    authority: Seq<char>,
    path_and_query: Seq<char>,
)
    requires
        path_and_query.len() > 0,
        path_and_query[0] == '/',
        !path_and_query.contains('#'),
    ensures
        absolute_uri(scheme, authority, path_and_query) == written_uri(
            scheme,
            authority,
            path_and_query,
        ),
{
    lemma_without_fragment(path_and_query);
}

} // verus!
