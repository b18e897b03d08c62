use browser::error::FetchError;
use browser::headers::Headers;
use browser::request::{Method, Request};
use browser::response::{parse_response, split_response_status_line, Response};
use browser::url::URL;

fn request() -> Request {
    Request {
        url: URL::parse("http://example.com/").unwrap(),
        headers: None,
        method: Method::GET,
        body: None,
    }
}

fn parse(raw: &str) -> Result<Response, FetchError> {
    parse_response(raw.to_string(), request())
}

fn entries(h: &Headers) -> Vec<(String, String)> {
    (0..h.len()).map(|i| (h.key_at(i).clone(), h.value_at(i).clone())).collect()
}

fn pair(k: &str, v: &str) -> (String, String) {
    (k.to_string(), v.to_string())
}

#[test]
fn status_line_with_three_fields() {
    assert_eq!(split_response_status_line(Some("HTTP/1.1 200 OK")), Ok(("HTTP/1.1", 200, "OK")));
}

#[test]
fn status_line_keeps_spaces_in_the_explanation() {
    assert_eq!(
        split_response_status_line(Some("HTTP/1.1 404 Not Found")),
        Ok(("HTTP/1.1", 404, "Not Found"))
    );
    assert_eq!(
        split_response_status_line(Some("HTTP/1.0 301 Moved  Permanently ")),
        Ok(("HTTP/1.0", 301, "Moved  Permanently "))
    );
    assert_eq!(split_response_status_line(Some("HTTP/1.1 204 ")), Ok(("HTTP/1.1", 204, "")));
}

#[test]
fn status_line_with_two_fields_fails() {
    assert_eq!(
        split_response_status_line(Some("HTTP/1.1 200")),
        Err(FetchError::MalformedStatusLine)
    );
    assert_eq!(split_response_status_line(Some("HTTP/1.1")), Err(FetchError::MalformedStatusLine));
    assert_eq!(split_response_status_line(Some("")), Err(FetchError::MalformedStatusLine));
}

#[test]
fn status_line_without_a_number_fails() {
    for line in ["HTTP/1.1 abc OK", "HTTP/1.1  200 OK", "HTTP/1.1 2x0 OK", "HTTP/1.1 -200 OK",
        "HTTP/1.1 65536 OK", " HTTP/1.1 200 OK", "HTTP/1.1 200\tOK"]
    {
        assert_eq!(split_response_status_line(Some(line)), Err(FetchError::MalformedStatusLine));
    }
}

#[test]
fn status_line_takes_any_number_that_fits() {
    assert_eq!(split_response_status_line(Some("x 0 y")), Ok(("x", 0, "y")));
    assert_eq!(split_response_status_line(Some("x 65535 y")), Ok(("x", 65535, "y")));
    assert_eq!(split_response_status_line(Some("x +200 y")), Ok(("x", 200, "y")));
    assert_eq!(split_response_status_line(Some(" 200 y")), Ok(("", 200, "y")));
}

#[test]
fn missing_status_line_fails() {
    assert_eq!(split_response_status_line(None), Err(FetchError::MalformedStatusLine));
}

#[test]
fn response_with_header_and_body() {
    let r = parse("HTTP/1.1 200 OK\r\nContent-Length: 5\r\n\r\nhello").unwrap();
    assert_eq!(r.status, 200);
    assert_eq!(r.version, "HTTP/1.1");
    assert_eq!(r.explanation, "OK");
    assert_eq!(entries(&r.headers), vec![pair("content-length", "5")]);
    assert_eq!(r.body, Some("hello".to_string()));
    assert_eq!(r.request, request());
}

#[test]
fn header_names_are_read_in_lowercase() {
    let upper = parse("HTTP/1.1 200 OK\r\nContent-Type: text/html\r\n\r\nx").unwrap();
    let lower = parse("HTTP/1.1 200 OK\r\ncontent-type: text/html\r\n\r\nx").unwrap();
    let mixed = parse("HTTP/1.1 200 OK\r\n  CONTENT-type  : text/html\r\n\r\nx").unwrap();
    assert_eq!(upper, lower);
    assert_eq!(mixed, lower);
    assert_eq!(upper.headers.get("content-type"), Some(&"text/html".to_string()));
    assert_eq!(upper.headers.get("Content-Type"), None);
}

#[test]
fn header_names_are_lowered_beyond_ascii() {
    let r = parse("HTTP/1.1 200 OK\r\nX-ÉTÉ: 1\r\n\r\n").unwrap();
    assert_eq!(entries(&r.headers), vec![pair("x-été", "1")]);
}

#[test]
fn header_values_are_trimmed_and_keep_their_case() {
    let r = parse("HTTP/1.1 200 OK\r\nServer:   Apache/2.4 (Unix)  \r\nX-Empty:\r\n\r\n").unwrap();
    assert_eq!(entries(&r.headers), vec![pair("server", "Apache/2.4 (Unix)"), pair("x-empty", "")]);
}

#[test]
fn header_values_keep_their_colons() {
    let r = parse("HTTP/1.1 301 Moved\r\nLocation: http://example.com:8080/a\r\n\r\n").unwrap();
    assert_eq!(r.headers.get("location"), Some(&"http://example.com:8080/a".to_string()));
}

#[test]
fn later_headers_replace_earlier_ones() {
    let r = parse("HTTP/1.1 200 OK\r\nA: 1\r\nB: 2\r\na: 3\r\n\r\n").unwrap();
    assert_eq!(entries(&r.headers), vec![pair("a", "3"), pair("b", "2")]);
}

#[test]
fn transfer_encoding_is_refused() {
    assert_eq!(
        parse("HTTP/1.1 200 OK\r\ntransfer-encoding: chunked\r\n\r\n5\r\nhello\r\n0\r\n\r\n"),
        Err(FetchError::UnsupportedEncoding)
    );
    assert_eq!(
        parse("HTTP/1.1 200 OK\r\nA: b\r\nTransfer-Encoding: chunked\r\nC: d\r\n\r\nbody"),
        Err(FetchError::UnsupportedEncoding)
    );
    assert_eq!(
        parse("HTTP/1.1 404 Not Found\r\ntransfer-encoding: identity"),
        Err(FetchError::UnsupportedEncoding)
    );
}

#[test]
fn content_encoding_is_refused() {
    assert_eq!(
        parse("HTTP/1.1 200 OK\r\nContent-Encoding: gzip\r\n\r\n\u{1f}"),
        Err(FetchError::UnsupportedEncoding)
    );
}

#[test]
fn encoding_in_the_body_is_not_a_header() {
    let r = parse("HTTP/1.1 200 OK\r\n\r\ntransfer-encoding: chunked").unwrap();
    assert_eq!(r.headers.len(), 0);
    assert_eq!(r.body, Some("transfer-encoding: chunked".to_string()));
}

#[test]
fn malformed_status_line_comes_before_encoding() {
    assert_eq!(
        parse("HTTP/1.1 200\r\ntransfer-encoding: chunked\r\n\r\n"),
        Err(FetchError::MalformedStatusLine)
    );
    assert_eq!(parse(""), Err(FetchError::MalformedStatusLine));
    assert_eq!(parse("\r\nHTTP/1.1 200 OK"), Err(FetchError::MalformedStatusLine));
}

#[test]
fn body_is_everything_after_the_headers_trimmed() {
    let r = parse("HTTP/1.1 200 OK\r\nA: b\r\n\r\n  line one\r\nline two: x\r\n\r\nend \r\n").unwrap();
    assert_eq!(r.body, Some("line one\r\nline two: x\r\n\r\nend".to_string()));
    assert_eq!(entries(&r.headers), vec![pair("a", "b")]);
}

#[test]
fn body_begins_with_the_first_line_without_a_colon() {
    let r = parse("HTTP/1.1 200 OK\r\nA: b\r\nno colon here\r\nC: d\r\n").unwrap();
    assert_eq!(entries(&r.headers), vec![pair("a", "b")]);
    assert_eq!(r.body, Some("no colon here\r\nC: d".to_string()));
}

#[test]
fn body_is_empty_after_the_empty_line() {
    let r = parse("HTTP/1.1 301 Moved\r\nlocation: /b\r\n\r\n").unwrap();
    assert_eq!(r.body, Some(String::new()));
    let r = parse("HTTP/1.1 200 OK\r\n").unwrap();
    assert_eq!(r.body, Some(String::new()));
}

#[test]
fn body_is_absent_where_every_line_is_a_header() {
    let r = parse("HTTP/1.1 200 OK\r\nA: b").unwrap();
    assert_eq!(r.body, None);
    assert_eq!(entries(&r.headers), vec![pair("a", "b")]);
    let r = parse("HTTP/1.1 200 OK").unwrap();
    assert_eq!(r.body, None);
    assert_eq!(r.headers.len(), 0);
}

#[test]
fn lines_end_with_carriage_return_and_line_feed_only() {
    let r = parse("HTTP/1.1 200 OK\nA: b\n\nbody").unwrap();
    assert_eq!(r.explanation, "OK\nA: b\n\nbody");
    assert_eq!(r.body, None);
}

#[test]
fn response_keeps_its_request() {
    let mut h = Headers::new();
    h.insert("x".to_string(), "y".to_string());
    let request = Request {
        url: URL::parse("https://a.example:1/p").unwrap(),
        headers: Some(h),
        method: Method::POST,
        body: Some("b".to_string()),
    };
    let r = parse_response("HTTP/1.1 200 OK\r\n\r\nok".to_string(), request.clone()).unwrap();
    assert_eq!(r.request, request);
    assert_eq!(r.clone(), r);
}
