//! The routing table: an ordered list of `(method, pattern)` routes, each
//! with a handler, shared across concurrently served connections behind a
//! reader/writer lock.  Lookup is first-match-wins in insertion order; that
//! is the lookup policy, not an oversight.
use vstd::prelude::*;

verus! {

use std::sync::Arc;
use vstd::rwlock::RwLock;
use vstd::rwlock::RwLockPredicate;
use vstd::slice::slice_subrange;
use vstd::slice::slice_to_vec;
use crate::RequestMethod;
use crate::request::HTTPRequest;
use crate::request::ReqModel;
use crate::response::HTTPResponse;
use crate::response::RespModel;
use crate::response::StatusCode;
use crate::wire::STAR;
use crate::wire::SLASH;
use crate::wire::spec_starts_with;
use crate::wire::starts_with;
use crate::wire::contains_byte;
use crate::wire::bytes_eq;
use crate::wire::append_bytes;
use crate::wire::content_type_token;
use crate::wire::text_plain_token;

/// A failure reported by a handler: its text becomes the body of the 500
/// response the router answers with.
#[derive(Debug)]
pub struct HandlerError {
    pub message: Vec<u8>,
}

impl HandlerError {
    pub fn new(message: Vec<u8>) -> (r: HandlerError)
        ensures
            r.message@ == message@,
    {
        HandlerError { message }
    }
}

/// The capability a route carries: a value that, given a request, produces
/// a response or reports a failure.  It sees neither the socket nor the
/// router's internals.
pub trait HTTPHandler: Send + Sync {
    fn handle(&self, req: &HTTPRequest) -> Result<HTTPResponse, HandlerError>;
}

/// The spec-visible part of a route: what `dispatch` matches on.
pub struct RouteKey {
    pub method: RequestMethod,
    pub pattern: Vec<u8>,
}

struct RouteTable {
    keys: Vec<RouteKey>,
    handlers: Vec<Box<dyn HTTPHandler>>,
}

/// The lock invariant of the route list: every registered pattern is
/// normalized to start with `/`.
pub struct RoutesInv;

impl RwLockPredicate<RouteTable> for RoutesInv {
    closed spec fn inv(self, v: RouteTable) -> bool {
        forall|i: int|
            0 <= i < v.keys@.len() ==> (#[trigger] v.keys@[i].pattern@).len() > 0
                && v.keys@[i].pattern@[0] == SLASH
    }
}

/// Whether a request path matches a route pattern: plain patterns match by
/// equality; a pattern containing `*` matches every path that starts with
/// the pattern minus its last byte.
pub open spec fn spec_path_matches(path: Seq<u8>, pattern: Seq<u8>) -> bool {
    if !pattern.contains(STAR) {
        path == pattern
    } else {
        spec_starts_with(path, pattern.drop_last())
    }
}

pub fn path_matches(path: &[u8], pattern: &[u8]) -> (r: bool)
    ensures
        r == spec_path_matches(path@, pattern@),
{
    if !contains_byte(pattern, STAR) {
        bytes_eq(path, pattern)
    } else {
        let prefix = slice_subrange(pattern, 0, pattern.len() - 1);
        proof {
            assert(prefix@ =~= pattern@.drop_last());
        }
        starts_with(path, prefix)
    }
}

/// Whether the route key at hand serves the request.
pub open spec fn spec_route_matches(
    key_method: RequestMethod,
    key_pattern: Seq<u8>,
    method: RequestMethod,
    path: Seq<u8>,
) -> bool {
    key_method == method && spec_path_matches(path, key_pattern)
}

/// The first route serving the request, scanning in insertion order.
pub fn find_route(keys: &Vec<RouteKey>, method: RequestMethod, path: &[u8]) -> (r: Option<usize>)
    ensures
        match r {
            Some(i) => i < keys@.len() && spec_route_matches(
                keys@[i as int].method,
                keys@[i as int].pattern@,
                method,
                path@,
            ) && forall|j: int|
                0 <= j < i ==> !spec_route_matches(
                    keys@[j].method,
                    keys@[j].pattern@,
                    method,
                    path@,
                ),
            None => forall|j: int|
                0 <= j < keys@.len() ==> !spec_route_matches(
                    keys@[j].method,
                    keys@[j].pattern@,
                    method,
                    path@,
                ),
        },
{
    let mut i: usize = 0;
    while i < keys.len()
        invariant
            i <= keys@.len(),
            forall|j: int|
                0 <= j < i ==> !spec_route_matches(
                    keys@[j].method,
                    keys@[j].pattern@,
                    method,
                    path@,
                ),
        decreases keys@.len() - i,
    {
        if keys[i].method == method && path_matches(path, keys[i].pattern.as_slice()) {
            return Some(i);
        }
        i += 1;
    }
    None
}

/// The routing miss answer: a bare 404 in the request's version.
pub open spec fn spec_not_found(req: ReqModel) -> RespModel {
    RespModel { version: req.version, status: StatusCode::NotFound, headers: Seq::empty(), body: None }
}

pub fn not_found_response(request: &HTTPRequest) -> (r: HTTPResponse)
    ensures
        r@ == spec_not_found(request@),
{
    HTTPResponse::on_request(request).set_status(StatusCode::NotFound)
}

/// The answer to a handler failure: a 500 carrying the failure's text as a
/// plain-text body.
pub open spec fn spec_error_response(req: ReqModel, message: Seq<u8>) -> RespModel {
    RespModel {
        version: req.version,
        status: StatusCode::InternalServerError,
        headers: seq![(content_type_token(), text_plain_token())],
        body: Some(message),
    }
}

pub fn error_response(request: &HTTPRequest, err: HandlerError) -> (r: HTTPResponse)
    ensures
        r@ == spec_error_response(request@, err.message@),
{
    let r = HTTPResponse::on_request(request).set_status(StatusCode::InternalServerError)
        .add_header("Content-Type".as_bytes(), "text/plain".as_bytes()).set_body(err.message);
    proof {
        assert(Seq::<(Seq<u8>, Seq<u8>)>::empty().push((content_type_token(), text_plain_token()))
            =~= seq![(content_type_token(), text_plain_token())]);
    }
    r
}

/// What the router answers, as a function of the selected handler's
/// outcome: no route gives a 404, a handler's response is passed through,
/// and a handler failure becomes a 500 with the failure's text.
pub open spec fn spec_outcome_response(
    req: ReqModel,
    outcome: Option<Result<RespModel, Seq<u8>>>,
) -> RespModel {
    match outcome {
        None => spec_not_found(req),
        Some(Ok(m)) => m,
        Some(Err(message)) => spec_error_response(req, message),
    }
}

/// The routing table.  Clones share one underlying table: routes added
/// through any clone are seen by all, and dispatch takes a consistent
/// snapshot under a reader/writer lock, so concurrent dispatches never
/// block each other.
#[derive(Clone)]
pub struct Router {
    routes: Arc<RwLock<RouteTable, RoutesInv>>,
}

impl Router {
    pub fn new() -> (r: Router) {
        let table = RouteTable { keys: Vec::new(), handlers: Vec::new() };
        proof {
            assert(RoutesInv.inv(table));
        }
        Router { routes: Arc::new(RwLock::new(table, Ghost(RoutesInv))) }
    }

    /// Normalizes a pattern to start with `/`, prepending one if missing.
    pub fn normalize_path(path: &[u8]) -> (r: Vec<u8>)
        ensures
            r@ == spec_normalize_pattern(path@),
            r@.len() > 0 && r@[0] == SLASH,
    {
        let mut r: Vec<u8> = Vec::new();
        if !(path.len() > 0 && path[0] == SLASH) {
            r.push(SLASH);
        }
        append_bytes(&mut r, path);
        proof {
            assert(r@ =~= spec_normalize_pattern(path@));
        }
        r
    }

    /// Appends a route.  Routes are meant to be added while the server is
    /// being configured; adding one later is still safe, and dispatches
    /// running at that moment see the table either without or with the
    /// whole new entry, never partially.
    pub fn add_route(&mut self, method: RequestMethod, path: &[u8], handler: Box<dyn HTTPHandler>) {
        let pattern = Self::normalize_path(path);
        let (mut table, wh) = self.routes.acquire_write();
        proof {
            assert(self.routes.pred() == RoutesInv);
        }
        let ghost keys0 = table.keys@;
        table.keys.push(RouteKey { method, pattern });
        table.handlers.push(handler);
        proof {
            assert forall|i: int|
                0 <= i < table.keys@.len() implies (#[trigger] table.keys@[i].pattern@).len() > 0
                && table.keys@[i].pattern@[0] == SLASH by {
                if i < keys0.len() {
                    assert(keys0[i].pattern@.len() > 0 && keys0[i].pattern@[0] == SLASH);
                }
            }
        }
        wh.release_write(table);
    }

    /// Serves one request: takes a read snapshot of the table, selects the
    /// first matching route, runs its handler, and converts the outcome.
    /// The answer is always the outcome conversion of the snapshot's
    /// selection; a miss is a 404, a failure a 500 with the failure text.
    pub fn handle_request(&self, request: HTTPRequest) -> (r: HTTPResponse)
        ensures
            exists|o: Option<Result<RespModel, Seq<u8>>>|
                r@ == spec_outcome_response(request@, o),
    {
        let read_handle = self.routes.acquire_read();
        let table = read_handle.borrow();
        let found = find_route(&table.keys, request.method(), request.path().as_slice());
        let resp = match found {
            None => {
                let r = not_found_response(&request);
                proof {
                    assert(r@ == spec_outcome_response(request@, None));
                }
                r
            },
            Some(i) => {
                if i < table.handlers.len() {
                    match table.handlers[i].handle(&request) {
                        Ok(resp) => {
                            proof {
                                assert(resp@ == spec_outcome_response(
                                    request@,
                                    Some(Ok(resp@)),
                                ));
                            }
                            resp
                        },
                        Err(e) => {
                            let ghost message = e.message@;
                            let r = error_response(&request, e);
                            proof {
                                assert(r@ == spec_outcome_response(
                                    request@,
                                    Some(Err(message)),
                                ));
                            }
                            r
                        },
                    }
                } else {
                    // A key is always pushed together with its handler, so
                    // this branch is never taken; it still answers with a
                    // well-formed 500.
                    let e = HandlerError::new(slice_to_vec("missing handler".as_bytes()));
                    let ghost message = e.message@;
                    let r = error_response(&request, e);
                    proof {
                        assert(r@ == spec_outcome_response(request@, Some(Err(message))));
                    }
                    r
                }
            },
        };
        read_handle.release_read();
        resp
    }
}

/// A pattern as stored: the caller-given bytes, with `/` prepended if the
/// pattern did not already start with one.
pub open spec fn spec_normalize_pattern(p: Seq<u8>) -> Seq<u8> {
    if p.len() > 0 && p[0] == SLASH {
        p
    } else {
        seq![SLASH] + p
    }
}

} // verus!
