use http::{Request, StatusCode};
use rpxy_lib::http_calls::UriBase;
use rpxy_lib::synthetic_response::{
    custom_redirection_response, redirect_authority, redirect_to, require_base,
    secure_redirection_response, synthetic_error_response, HttpError, RedirectConfig, RequestHead, SyntheticResponse,
};

fn req(uri: &str) -> RequestHead {
    let req: Request<()> = Request::builder().uri(uri).body(()).unwrap();
    RequestHead { path_and_query: req.uri().path_and_query().map(|x| x.as_str().to_string()) }
}

fn code(c: u16) -> rpxy_lib::synthetic_response::StatusCode {
    rpxy_lib::synthetic_response::StatusCode::from_u16(c).unwrap()
}

fn reason(r: Result<SyntheticResponse, HttpError>) -> String {
    match r {
        Ok(_) => panic!("a response"),
        Err(HttpError::FailedToRedirect(reason)) => reason,
    }
}

fn secure(name: Option<&str>, port: Option<u16>, uri: &str) -> String {
    let resp = secure_redirection_response(name, port, &req(uri)).unwrap();
    assert_eq!(resp.status.as_u16(), StatusCode::MOVED_PERMANENTLY.as_u16());
    resp.location.unwrap()
}

#[test]
fn preserves_path_and_query_with_301() {
    let r = RedirectConfig { target: "https://new.example.com".into(), status: 301, preserve_path: true };
    let resp = custom_redirection_response(&r, &req("http://old.example.com/foo/bar?x=1&y=2")).unwrap();
    assert_eq!(resp.status.as_u16(), StatusCode::MOVED_PERMANENTLY.as_u16());
    assert_eq!(resp.location.as_deref(), Some("https://new.example.com/foo/bar?x=1&y=2"));
}

#[test]
fn ignores_path_when_preserve_false() {
    let r = RedirectConfig { target: "https://new.example.com/landing".into(), status: 302, preserve_path: false };
    let resp = custom_redirection_response(&r, &req("http://old.example.com/foo?x=1")).unwrap();
    assert_eq!(resp.status.as_u16(), StatusCode::FOUND.as_u16());
    assert_eq!(resp.location.as_deref(), Some("https://new.example.com/landing"));
}

#[test]
fn honors_custom_status_308() {
    let r = RedirectConfig { target: "https://new.example.com".into(), status: 308, preserve_path: true };
    let resp = custom_redirection_response(&r, &req("http://old.example.com/")).unwrap();
    assert_eq!(resp.status.as_u16(), StatusCode::PERMANENT_REDIRECT.as_u16());
    assert_eq!(resp.location.as_deref(), Some("https://new.example.com/"));
}

#[test]
fn redirects_to_the_tls_port() {
    assert_eq!(secure(Some("a.example"), None, "http://a.example/x?y=1"), "https://a.example/x?y=1");
    assert_eq!(secure(Some("a.example"), Some(443), "/x?y=1"), "https://a.example/x?y=1");
    assert_eq!(secure(Some("a.example"), Some(8443), "/"), "https://a.example:8443/");
    assert_eq!(secure(Some("a.example"), Some(0), "/"), "https://a.example:0/");
}

#[test]
fn redirects_a_request_without_a_path() {
    let head = RequestHead { path_and_query: None };
    let resp = secure_redirection_response(Some("a.example"), None, &head).unwrap();
    assert_eq!(resp.location.as_deref(), Some("https://a.example/"));
    let r = RedirectConfig { target: "http://b.example/x".into(), status: 307, preserve_path: true };
    let resp = custom_redirection_response(&r, &head).unwrap();
    assert_eq!(resp.location.as_deref(), Some("http://b.example/"));
}

#[test]
fn query_without_a_path_gets_a_slash() {
    let head = RequestHead { path_and_query: Some("?a=1".to_string()) };
    let resp = secure_redirection_response(Some("a.example"), None, &head).unwrap();
    assert_eq!(resp.location.as_deref(), Some("https://a.example/?a=1"));
}

#[test]
fn fragments_are_left_out() {
    let head = RequestHead { path_and_query: Some("/a?b#c#d".to_string()) };
    let resp = secure_redirection_response(Some("a.example"), None, &head).unwrap();
    assert_eq!(resp.location.as_deref(), Some("https://a.example/a?b"));
}

#[test]
fn server_name_that_is_no_text() {
    assert_eq!(reason(secure_redirection_response(None, None, &req("/"))), "empty string");
    assert_eq!(reason(secure_redirection_response(None, Some(443), &req("/"))), "empty string");
    assert_eq!(reason(secure_redirection_response(Some(""), None, &req("/"))), "empty string");
    let resp = secure_redirection_response(None, Some(8443), &req("/")).unwrap();
    assert_eq!(resp.location.as_deref(), Some("https://:8443/"));
}

#[test]
fn server_name_with_bad_characters() {
    assert_eq!(reason(secure_redirection_response(Some("a b"), None, &req("/"))), "invalid uri character");
    assert_eq!(reason(secure_redirection_response(Some("a/b"), None, &req("/"))), "invalid uri character");
    assert_eq!(reason(secure_redirection_response(Some("a:1"), Some(80), &req("/"))), "invalid authority");
}

#[test]
fn the_path_is_looked_at_before_the_authority() {
    let head = RequestHead { path_and_query: Some("x".to_string()) };
    assert_eq!(reason(secure_redirection_response(Some("a b"), None, &head)), "path does not start with slash");
}

#[test]
fn bad_status() {
    for status in [0, 99, 1000, u16::MAX] {
        let r = RedirectConfig { target: "not a uri".into(), status, preserve_path: true };
        assert_eq!(reason(custom_redirection_response(&r, &req("/"))), "invalid status code");
    }
    for status in [100, 999] {
        let r = RedirectConfig { target: "https://a.example".into(), status, preserve_path: true };
        assert_eq!(custom_redirection_response(&r, &req("/")).unwrap().status.as_u16(), status);
    }
}

#[test]
fn bad_targets() {
    let failed = |target: &str| {
        let r = RedirectConfig { target: target.into(), status: 301, preserve_path: true };
        reason(custom_redirection_response(&r, &req("/x")))
    };
    assert_eq!(failed("/just/a/path"), "redirect target has no scheme");
    assert_eq!(failed("/"), "redirect target has no scheme");
    assert_eq!(failed("/a?b=1&c"), "redirect target has no scheme");
    assert_eq!(failed("new.example.com"), "redirect target has no scheme");
    assert_eq!(failed("new.example.com:8443"), "redirect target has no scheme");
    assert_eq!(failed("x"), "redirect target has no scheme");
    assert_eq!(failed(":"), "redirect target has no scheme");
    assert_eq!(failed("/a b"), "invalid uri character");
    assert_eq!(failed(""), "empty string");
    assert_eq!(failed("https://a b/"), "invalid uri character");
    assert_eq!(failed("https:///x"), "invalid format");
}

#[test]
fn bases_that_cannot_be_used() {
    let base = UriBase { scheme: Some("https".to_string()), authority: None };
    assert_eq!(require_base(Ok(base)), Err("redirect target has no authority".to_string()));
    let base = UriBase { scheme: None, authority: Some("a".to_string()) };
    assert_eq!(require_base(Ok(base)), Err("redirect target has no scheme".to_string()));
    assert_eq!(require_base(Err("x".to_string())), Err("x".to_string()));
    let base = UriBase { scheme: Some("s".to_string()), authority: Some("a".to_string()) };
    assert_eq!(require_base(Ok(base)), Ok(("s".to_string(), "a".to_string())));
}

#[test]
fn target_path_is_replaced() {
    let r = RedirectConfig {
        target: "HTTPS://User@New.example.com:8443/old?q#f".into(),
        status: 301,
        preserve_path: true,
    };
    let resp = custom_redirection_response(&r, &req("/x?y")).unwrap();
    assert_eq!(resp.location.as_deref(), Some("https://User@New.example.com:8443/x?y"));
}

#[test]
fn other_schemes_are_kept() {
    let r = RedirectConfig { target: "Ftp://a.example".into(), status: 301, preserve_path: true };
    let resp = custom_redirection_response(&r, &req("/x")).unwrap();
    assert_eq!(resp.location.as_deref(), Some("Ftp://a.example/x"));
}

#[test]
fn targets_stand_as_they_are_or_not_at_all() {
    let at = |target: &str| {
        let r = RedirectConfig { target: target.into(), status: 301, preserve_path: false };
        custom_redirection_response(&r, &req("/x"))
    };
    assert_eq!(at("anything goes\there").unwrap().location.as_deref(), Some("anything goes\there"));
    assert_eq!(at("").unwrap().location.as_deref(), Some(""));
    assert_eq!(at("/b\u{fc}cher").unwrap().location.as_deref(), Some("/b\u{fc}cher"));
    assert_eq!(reason(at("/a\r\nX-Y: z")), "failed to parse header value");
    assert_eq!(reason(at("/a\u{7f}")), "failed to parse header value");
}

#[test]
fn fixed_target_for_every_request() {
    let r = RedirectConfig { target: "https://a.example/x".into(), status: 307, preserve_path: false };
    let first = custom_redirection_response(&r, &req("/one?q")).unwrap();
    let second = custom_redirection_response(&r, &RequestHead { path_and_query: None }).unwrap();
    assert_eq!(first, second);
}

#[test]
fn redirections_from_given_outcomes() {
    let resp = redirect_to(code(303), Ok("/there".to_string())).unwrap();
    assert_eq!((resp.status.as_u16(), resp.location.as_deref()), (303, Some("/there")));
    assert_eq!(reason(redirect_to(code(303), Err("why".to_string()))), "why");
    assert_eq!(reason(redirect_to(code(303), Ok("\n".to_string()))), "failed to parse header value");
}

#[test]
fn authorities() {
    assert_eq!(redirect_authority("h", None), "h");
    assert_eq!(redirect_authority("h", Some(443)), "h");
    assert_eq!(redirect_authority("h", Some(65535)), "h:65535");
}

#[test]
fn error_responses() {
    for status in [StatusCode::BAD_REQUEST, StatusCode::SERVICE_UNAVAILABLE] {
        let resp = synthetic_error_response(code(status.as_u16())).unwrap();
        assert_eq!(resp.status.as_u16(), status.as_u16());
        assert_eq!(resp.location, None);
    }
}
