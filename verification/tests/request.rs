use browser::headers::Headers;
use browser::request::{raw_http_request, with_default_headers, Method, Request};
use browser::url::URL;

const AGENT: &str =
    "Mozilla/5.0 (compatible; MyBrowser/1.0; +https://github.com/agentbellnorm/browser-engineering)";

fn entries(h: &Headers) -> Vec<(String, String)> {
    (0..h.len()).map(|i| (h.key_at(i).clone(), h.value_at(i).clone())).collect()
}

fn pair(k: &str, v: &str) -> (String, String) {
    (k.to_string(), v.to_string())
}

fn headers(pairs: &[(&str, &str)]) -> Headers {
    let mut h = Headers::new();
    for (k, v) in pairs {
        h.insert(k.to_string(), v.to_string());
    }
    h
}

fn request(method: Method, url: &str, headers: Option<Headers>) -> Request {
    Request { url: URL::parse(url).unwrap(), headers, method, body: None }
}

#[test]
fn default_headers_stand_alone_without_a_caller() {
    let merged = with_default_headers(&None);
    assert_eq!(entries(&merged), vec![pair("user-agent", AGENT), pair("connection", "close")]);
}

#[test]
fn default_headers_stand_before_the_callers() {
    let merged = with_default_headers(&Some(headers(&[("accept", "text/html"), ("x-a", "b")])));
    assert_eq!(
        entries(&merged),
        vec![
            pair("user-agent", AGENT),
            pair("connection", "close"),
            pair("accept", "text/html"),
            pair("x-a", "b"),
        ]
    );
}

#[test]
fn caller_headers_win_over_defaults() {
    let merged = with_default_headers(&Some(headers(&[("user-agent", "mine")])));
    assert_eq!(entries(&merged), vec![pair("connection", "close"), pair("user-agent", "mine")]);
    let merged = with_default_headers(&Some(headers(&[("connection", "keep-alive")])));
    assert_eq!(
        entries(&merged),
        vec![pair("user-agent", AGENT), pair("connection", "keep-alive")]
    );
}

#[test]
fn caller_headers_win_in_any_case() {
    let merged =
        with_default_headers(&Some(headers(&[("User-Agent", "mine"), ("CONNECTION", "x")])));
    assert_eq!(entries(&merged), vec![pair("User-Agent", "mine"), pair("CONNECTION", "x")]);
}

#[test]
fn empty_caller_headers_change_nothing() {
    let merged = with_default_headers(&Some(Headers::new()));
    assert_eq!(entries(&merged), vec![pair("user-agent", AGENT), pair("connection", "close")]);
}

#[test]
fn raw_request_without_caller_headers() {
    let text = raw_http_request(&request(Method::GET, "http://example.com/index.html", None));
    assert_eq!(
        text,
        format!(
            "GET /index.html HTTP/1.1\r\nHost: example.com\r\nuser-agent: {AGENT}\r\nconnection: close\r\n\r\n"
        )
    );
}

#[test]
fn raw_request_with_caller_headers() {
    let text = raw_http_request(&request(
        Method::GET,
        "https://example.com:8443/a/b?c=d",
        Some(headers(&[("Accept", "*/*"), ("Connection", "keep-alive")])),
    ));
    assert_eq!(
        text,
        format!(
            "GET /a/b?c=d HTTP/1.1\r\nHost: example.com\r\nuser-agent: {AGENT}\r\nAccept: */*\r\nConnection: keep-alive\r\n\r\n"
        )
    );
}

#[test]
fn raw_request_names_its_method() {
    let text = raw_http_request(&request(Method::POST, "http://example.com/", None));
    assert!(text.starts_with("POST / HTTP/1.1\r\nHost: example.com\r\n"));
    assert!(text.ends_with("\r\n\r\n"));
}

#[test]
fn raw_request_leaves_the_port_out_of_the_host_header() {
    let text = raw_http_request(&request(Method::GET, "http://localhost:3000/", None));
    assert!(text.starts_with("GET / HTTP/1.1\r\nHost: localhost\r\n"));
}

#[test]
fn raw_request_ignores_the_body() {
    let mut r = request(Method::POST, "http://example.com/", None);
    r.body = Some("payload".to_string());
    assert!(raw_http_request(&r).ends_with("connection: close\r\n\r\n"));
}

#[test]
fn cloned_request_is_equal() {
    let r = request(Method::GET, "http://example.com/", Some(headers(&[("a", "b")])));
    assert_eq!(r.clone(), r);
}

#[test]
fn methods_are_named_as_on_the_wire() {
    assert_eq!(Method::GET.name(), "GET");
    assert_eq!(Method::POST.name(), "POST");
}

#[test]
fn the_client_names_itself() {
    assert_eq!(browser::request::USER_AGENT, AGENT);
}
