use http_server::request::HTTPRequest;
use http_server::request::HTTPVersion;
use http_server::response::HTTPResponse;
use http_server::response::ResponseHeader;
use http_server::response::SerializeError;
use http_server::response::StatusCode;

fn text(bytes: Vec<u8>) -> String {
    String::from_utf8(bytes).unwrap()
}

#[test]
fn http_response_to_string() {
    let response = HTTPResponse {
        version: HTTPVersion::V1_1,
        status: StatusCode::OK,
        headers: Vec::new(),
        body: None,
    };
    let response_str = text(response.serialize().unwrap());

    assert_eq!(response_str, "HTTP/1.1 200 OK\r\n\r\n");
}

#[test]
fn http_response_to_string_with_headers() {
    let response = HTTPResponse {
        version: HTTPVersion::V1_1,
        status: StatusCode::OK,
        headers: vec![ResponseHeader::new(
            "Content-Type".as_bytes().to_vec(),
            "text/html".as_bytes().to_vec(),
        )],
        body: None,
    };
    let response_str = text(response.serialize().unwrap());

    assert_eq!(
        response_str,
        "HTTP/1.1 200 OK\r\nContent-Type: text/html\r\nContent-Length: 0\r\n\r\n"
    );
}

#[test]
fn http_response_to_string_with_content() {
    let response = HTTPResponse {
        version: HTTPVersion::V1_1,
        status: StatusCode::OK,
        headers: vec![ResponseHeader::new(
            "Content-Type".as_bytes().to_vec(),
            "text/plain".as_bytes().to_vec(),
        )],
        body: Some("Hello, world!".as_bytes().to_vec()),
    };
    let response_str = text(response.serialize().unwrap());

    assert_eq!(
        response_str,
        "HTTP/1.1 200 OK\r\nContent-Type: text/plain\r\nContent-Length: 13\r\n\r\nHello, world!"
    );
}

#[test]
fn serialize_is_pure() {
    let make = || HTTPResponse {
        version: HTTPVersion::V1_1,
        status: StatusCode::Created,
        headers: vec![ResponseHeader::new(
            "Content-Type".as_bytes().to_vec(),
            "text/plain".as_bytes().to_vec(),
        )],
        body: Some("payload".as_bytes().to_vec()),
    };
    let response = make();
    let first = response.serialize().unwrap();
    let second = response.serialize().unwrap();
    assert_eq!(first, second);
    assert_eq!(make().serialize().unwrap(), first);
}

#[test]
fn serialize_rejects_unknown_version() {
    let response = HTTPResponse {
        version: HTTPVersion::Unidentified,
        status: StatusCode::OK,
        headers: Vec::new(),
        body: None,
    };
    assert_eq!(response.serialize().unwrap_err(), SerializeError::UnknownVersion);
}

#[test]
fn serialize_rejects_unknown_status() {
    let payload = "GET / HTTP/1.1\r\n\r\n";
    let (request, _) = HTTPRequest::parse(payload.as_bytes()).unwrap();
    let response = HTTPResponse::on_request(&request);
    assert_eq!(response.serialize().unwrap_err(), SerializeError::UnknownStatus);
}

#[test]
fn builder_sets_status_headers_and_body() {
    let payload = "GET / HTTP/1.1\r\n\r\n";
    let (request, _) = HTTPRequest::parse(payload.as_bytes()).unwrap();
    let response = HTTPResponse::on_request(&request)
        .set_status(StatusCode::OK)
        .add_header("X-One".as_bytes(), "1".as_bytes())
        .add_header("X-Two".as_bytes(), "2".as_bytes())
        .set_body("ab".as_bytes().to_vec());
    let out = text(response.serialize().unwrap());
    assert_eq!(
        out,
        "HTTP/1.1 200 OK\r\nX-One: 1\r\nX-Two: 2\r\nContent-Length: 2\r\n\r\nab"
    );
}

#[test]
fn bare_status_line_has_no_content_length() {
    let payload = "GET / HTTP/1.1\r\n\r\n";
    let (request, _) = HTTPRequest::parse(payload.as_bytes()).unwrap();
    let response = HTTPResponse::on_request(&request).set_status(StatusCode::NotFound);
    assert_eq!(text(response.serialize().unwrap()), "HTTP/1.1 404 Not Found\r\n\r\n");
}
