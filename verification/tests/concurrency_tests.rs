use http_server::handlers::handle_echo;
use http_server::handlers::handle_user_agent;
use http_server::request::HTTPRequest;
use http_server::response::HTTPResponse;
use http_server::response::StatusCode;
use http_server::server::router::HandlerError;
use http_server::server::router::HTTPHandler;
use http_server::server::HTTPServer;
use http_server::RequestMethod;

struct UserAgentHandler;

impl HTTPHandler for UserAgentHandler {
    fn handle(&self, req: &HTTPRequest) -> Result<HTTPResponse, HandlerError> {
        handle_user_agent(req)
    }
}

#[test]
fn concurrent_dispatch_with_concurrent_add_route() {
    let rt = tokio::runtime::Builder::new_multi_thread()
        .worker_threads(4)
        .build()
        .unwrap();
    rt.block_on(async {
        let mut server = HTTPServer::new(4221);
        server.map_get_fn("/echo/*".as_bytes(), handle_echo);
        let router = server.router();

        let mut writer_router = router.clone();
        let writer = tokio::spawn(async move {
            writer_router.add_route(
                RequestMethod::GET,
                "/user-agent".as_bytes(),
                Box::new(UserAgentHandler),
            );
        });

        let mut tasks = Vec::new();
        for i in 0..64 {
            let r = router.clone();
            tasks.push(tokio::spawn(async move {
                if i % 2 == 0 {
                    // Always routed, whether or not the writer has run yet.
                    let (req, _) =
                        HTTPRequest::parse("GET /echo/ok HTTP/1.1\r\n\r\n".as_bytes()).unwrap();
                    let resp = r.handle_request(req);
                    assert_eq!(resp.status, StatusCode::OK);
                    assert_eq!(resp.body, Some("ok".as_bytes().to_vec()));
                } else {
                    // Sees either the table before the addition (404) or
                    // after it (200), never anything else.
                    let (req, _) = HTTPRequest::parse(
                        "GET /user-agent HTTP/1.1\r\nUser-Agent: probe\r\n\r\n".as_bytes(),
                    )
                    .unwrap();
                    let resp = r.handle_request(req);
                    match resp.status {
                        StatusCode::NotFound => assert!(resp.body.is_none()),
                        StatusCode::OK => {
                            assert_eq!(resp.body, Some("probe".as_bytes().to_vec()))
                        }
                        other => panic!("saw a torn dispatch result: {:?}", other),
                    }
                }
            }));
        }
        writer.await.unwrap();
        for t in tasks {
            t.await.unwrap();
        }

        // After the writer finished, the new route is visible to everyone.
        let (req, _) =
            HTTPRequest::parse("GET /user-agent HTTP/1.1\r\nUser-Agent: after\r\n\r\n".as_bytes())
                .unwrap();
        let resp = router.handle_request(req);
        assert_eq!(resp.status, StatusCode::OK);
        assert_eq!(resp.body, Some("after".as_bytes().to_vec()));
    });
}
