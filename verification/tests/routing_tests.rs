use http_server::handlers::handle_echo;
use http_server::handlers::handle_user_agent;
use http_server::handlers::file_name_of;
use http_server::handlers::FileReader;
use http_server::handlers::FileWriter;
use http_server::request::HTTPRequest;
use http_server::response::HTTPResponse;
use http_server::response::StatusCode;
use http_server::server::router::HandlerError;
use http_server::server::HTTPServer;

fn request(wire: &str) -> HTTPRequest {
    HTTPRequest::parse(wire.as_bytes()).unwrap().0
}

fn body_text(resp: &HTTPResponse) -> String {
    String::from_utf8(resp.body.clone().unwrap_or_default()).unwrap()
}

#[test]
fn routing_first_match_wins() {
    let mut server = HTTPServer::new(4221);
    server.map_get_fn("/echo/*".as_bytes(), handle_echo);
    server.map_get_fn("/user-agent".as_bytes(), handle_user_agent);
    let router = server.router();

    let echoed = router.handle_request(request("GET /echo/abc HTTP/1.1\r\n\r\n"));
    assert_eq!(echoed.status, StatusCode::OK);
    assert_eq!(body_text(&echoed), "abc");

    let ua = router.handle_request(request(
        "GET /user-agent HTTP/1.1\r\nUser-Agent: test-ua/1.0.0\r\n\r\n",
    ));
    assert_eq!(ua.status, StatusCode::OK);
    assert_eq!(body_text(&ua), "test-ua/1.0.0");

    let missing = router.handle_request(request("GET /missing HTTP/1.1\r\n\r\n"));
    assert_eq!(missing.status, StatusCode::NotFound);
    assert!(missing.body.is_none());
    assert!(missing.headers.is_empty());
}

#[test]
fn routing_respects_method() {
    let mut server = HTTPServer::new(4221);
    server.map_get_fn("/echo/*".as_bytes(), handle_echo);
    let router = server.router();
    let resp = router.handle_request(request("POST /echo/abc HTTP/1.1\r\n\r\n"));
    assert_eq!(resp.status, StatusCode::NotFound);
}

#[test]
fn patterns_are_normalized_to_leading_slash() {
    let mut server = HTTPServer::new(4221);
    server.map_get_fn("echo/*".as_bytes(), handle_echo);
    let router = server.router();
    let resp = router.handle_request(request("GET /echo/zz HTTP/1.1\r\n\r\n"));
    assert_eq!(resp.status, StatusCode::OK);
    assert_eq!(body_text(&resp), "zz");
}

fn failing(_req: &HTTPRequest) -> Result<HTTPResponse, HandlerError> {
    Err(HandlerError::new("disk full".as_bytes().to_vec()))
}

#[test]
fn handler_failure_becomes_500_with_message() {
    let mut server = HTTPServer::new(4221);
    server.map_get_fn("/broken".as_bytes(), failing);
    let router = server.router();
    let resp = router.handle_request(request("GET /broken HTTP/1.1\r\n\r\n"));
    assert_eq!(resp.status, StatusCode::InternalServerError);
    assert_eq!(resp.headers.len(), 1);
    assert_eq!(resp.headers[0].name, "Content-Type".as_bytes().to_vec());
    assert_eq!(resp.headers[0].value, "text/plain".as_bytes().to_vec());
    assert_eq!(body_text(&resp), "disk full");
    let wire = String::from_utf8(resp.serialize().unwrap()).unwrap();
    assert_eq!(
        wire,
        "HTTP/1.1 500 Internal Server Error\r\nContent-Type: text/plain\r\nContent-Length: 9\r\n\r\ndisk full"
    );
}

#[test]
fn echo_strips_every_leading_prefix() {
    let req = request("GET /echo//echo/x HTTP/1.1\r\n\r\n");
    let resp = handle_echo(&req).unwrap();
    assert_eq!(body_text(&resp), "x");
}

#[test]
fn user_agent_defaults_to_empty() {
    let req = request("GET /user-agent HTTP/1.1\r\n\r\n");
    let resp = handle_user_agent(&req).unwrap();
    assert_eq!(resp.status, StatusCode::OK);
    assert_eq!(body_text(&resp), "");
}

#[test]
fn file_routes_build_their_responses() {
    let req = request("GET /files/notes.txt HTTP/1.1\r\n\r\n");
    assert_eq!(file_name_of(&req), "notes.txt".as_bytes().to_vec());

    let reader = FileReader::new("/tmp/data".to_string());
    assert_eq!(reader.base_dir, "/tmp/data");
    let found = FileReader::response_for(&req, Some("contents".as_bytes().to_vec()));
    assert_eq!(found.status, StatusCode::OK);
    assert_eq!(found.headers[0].value, "application/octet-stream".as_bytes().to_vec());
    assert_eq!(body_text(&found), "contents");
    let absent = FileReader::response_for(&req, None);
    assert_eq!(absent.status, StatusCode::NotFound);

    let writer = FileWriter::new("/tmp/data".to_string());
    assert_eq!(writer.base_dir, "/tmp/data");
    let wrote = FileWriter::response_for(&req, true);
    assert_eq!(wrote.status, StatusCode::Created);
    let refused = FileWriter::response_for(&req, false);
    assert_eq!(refused.status, StatusCode::BadRequest);
}
