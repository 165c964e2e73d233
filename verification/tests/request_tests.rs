use http_server::request::HTTPRequest;
use http_server::request::HTTPVersion;
use http_server::request::ParseError;
use http_server::request::head_end;
use http_server::RequestMethod;

#[test]
fn can_parse_get() {
    let payload = r#"GET /resource.txt HTTP/1.1
Host: localhost:4221
User-Agent: test-ua/1.0.0
"#;

    let (req, _) = HTTPRequest::parse(payload.as_bytes()).unwrap();
    assert_eq!(req.method, RequestMethod::GET);
    assert_eq!(req.path, "/resource.txt".as_bytes().to_vec());
    assert_eq!(req.version, HTTPVersion::V1_1);
}

#[test]
fn can_parse_headers() {
    let payload =
        "GET /resource.txt HTTP/1.1\r\nHost: localhost:4221\r\nUser-Agent: test-ua/1.0.0\r\n\r\n";
    let (req, _) = HTTPRequest::parse(payload.as_bytes()).unwrap();

    let host = req.header("Host".as_bytes()).unwrap();
    assert_eq!(host.as_slice(), "localhost:4221".as_bytes());
    let ua = req.header("User-Agent".as_bytes()).unwrap();
    assert_eq!(ua.as_slice(), "test-ua/1.0.0".as_bytes());
}

#[test]
fn can_parse_body() {
    let payload = "POST /resource.txt HTTP/1.1\r\nHost: localhost:4221\r\nContent-Type: text/plain\r\nContent-Length: 4\r\n\r\ntest";
    let (req, _) = HTTPRequest::parse(payload.as_bytes()).unwrap();

    let body = req.body.unwrap();
    assert_eq!(String::from_utf8(body).unwrap(), "test");
}

#[test]
fn parse_recovers_preamble_exactly() {
    let payload = "PATCH /a%20b/c FTP/9\r\n\r\n";
    let (req, used) = HTTPRequest::parse(payload.as_bytes()).unwrap();
    assert_eq!(req.method, RequestMethod::Unidentified);
    assert_eq!(req.path, "/a%20b/c".as_bytes().to_vec());
    assert_eq!(req.version, HTTPVersion::Unidentified);
    assert!(req.headers.is_empty());
    assert!(req.body.is_none());
    assert_eq!(used, payload.len());
}

#[test]
fn parse_post_method() {
    let payload = "POST /x HTTP/1.1\r\n\r\n";
    let (req, _) = HTTPRequest::parse(payload.as_bytes()).unwrap();
    assert_eq!(req.method, RequestMethod::POST);
}

#[test]
fn parse_does_not_consume_past_declared_body() {
    let payload = "POST /up HTTP/1.1\r\nContent-Length: 3\r\n\r\nabcEXTRA";
    let (req, used) = HTTPRequest::parse(payload.as_bytes()).unwrap();
    assert_eq!(req.body.unwrap(), "abc".as_bytes().to_vec());
    assert_eq!(used, payload.len() - "EXTRA".len());
}

#[test]
fn parse_zero_content_length_gives_no_body() {
    let payload = "POST /up HTTP/1.1\r\nContent-Length: 0\r\n\r\n";
    let (req, used) = HTTPRequest::parse(payload.as_bytes()).unwrap();
    assert!(req.body.is_none());
    assert_eq!(used, payload.len());
}

#[test]
fn parse_rejects_short_preamble() {
    let payload = "GET\r\n\r\n";
    assert_eq!(
        HTTPRequest::parse(payload.as_bytes()).unwrap_err(),
        ParseError::MalformedPreamble
    );
    assert_eq!(
        HTTPRequest::parse(&[]).unwrap_err(),
        ParseError::MalformedPreamble
    );
}

#[test]
fn parse_rejects_non_numeric_content_length() {
    let payload = "POST /up HTTP/1.1\r\nContent-Length: abc\r\n\r\nxyz";
    assert_eq!(
        HTTPRequest::parse(payload.as_bytes()).unwrap_err(),
        ParseError::InvalidContentLength
    );
}

#[test]
fn parse_rejects_truncated_body() {
    let payload = "POST /up HTTP/1.1\r\nContent-Length: 10\r\n\r\nabc";
    assert_eq!(
        HTTPRequest::parse(payload.as_bytes()).unwrap_err(),
        ParseError::TruncatedBody
    );
}

#[test]
fn duplicate_header_keeps_last_value() {
    let payload = "GET / HTTP/1.1\r\nX-K: one\r\nX-K: two\r\n\r\n";
    let (req, _) = HTTPRequest::parse(payload.as_bytes()).unwrap();
    assert_eq!(req.headers.len(), 1);
    assert_eq!(req.header("X-K".as_bytes()).unwrap().as_slice(), "two".as_bytes());
}

#[test]
fn header_line_without_separator_is_skipped() {
    let payload = "GET / HTTP/1.1\r\ngarbage-line\r\nHost: h\r\n\r\n";
    let (req, _) = HTTPRequest::parse(payload.as_bytes()).unwrap();
    assert_eq!(req.headers.len(), 1);
    assert_eq!(req.header("Host".as_bytes()).unwrap().as_slice(), "h".as_bytes());
}

#[test]
fn head_end_waits_for_blank_line() {
    assert_eq!(head_end("GET / HTTP/1.1\r\nHost: h\r\n".as_bytes()), None);
    let complete = "GET / HTTP/1.1\r\nHost: h\r\n\r\nbody";
    assert_eq!(head_end(complete.as_bytes()), Some(complete.len() - "body".len()));
}
