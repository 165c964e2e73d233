//! The server object: a port, a routing table, and the registration calls
//! made while the server is configured.  The accept loop and the sockets
//! live outside this crate; they obtain the router with [`HTTPServer::router`]
//! and drive one connection at a time through parse, dispatch, serialize.
use vstd::prelude::*;

pub mod router;

verus! {

use crate::RequestMethod;
use crate::request::HTTPRequest;
use crate::response::HTTPResponse;
use crate::server::router::HTTPHandler;
use crate::server::router::HandlerError;
use crate::server::router::Router;

/// Adapts a plain function (or closure) to the handler capability.
struct FuncHTTPHandler<F> where
    F: Fn(&HTTPRequest) -> Result<HTTPResponse, HandlerError> + Send + Sync + 'static,
 {
    handler_fn: F,
}

impl<F> FuncHTTPHandler<F> where
    F: Fn(&HTTPRequest) -> Result<HTTPResponse, HandlerError> + Send + Sync + 'static,
 {
    /// Handlers take any request: the wrapped function must have no
    /// precondition.
    #[verifier::type_invariant]
    spec fn wf(self) -> bool {
        forall|req: &HTTPRequest| call_requires(self.handler_fn, (req,))
    }

    fn new(handler_fn: F) -> (r: FuncHTTPHandler<F>)
        requires
            forall|req: &HTTPRequest| call_requires(handler_fn, (req,)),
    {
        FuncHTTPHandler { handler_fn }
    }
}

impl<F> HTTPHandler for FuncHTTPHandler<F> where
    F: Fn(&HTTPRequest) -> Result<HTTPResponse, HandlerError> + Send + Sync + 'static,
 {
    fn handle(&self, req: &HTTPRequest) -> Result<HTTPResponse, HandlerError> {
        proof {
            use_type_invariant(self);
        }
        (self.handler_fn)(req)
    }
}

/// A server under configuration: routes are registered before serving
/// starts, and the listener code then drives connections against
/// [`HTTPServer::router`].
pub struct HTTPServer {
    pub port: u16,
    pub router: Router,
}

impl HTTPServer {
    pub fn new(port: u16) -> (r: HTTPServer)
        ensures
            r.port == port,
    {
        HTTPServer { port, router: Router::new() }
    }

    /// Registers a plain function for `GET` requests on `path`.  The
    /// function must accept every request, which any function without a
    /// precondition does.
    pub fn map_get_fn<F>(&mut self, path: &[u8], handler: F) where
        F: Fn(&HTTPRequest) -> Result<HTTPResponse, HandlerError> + Send + Sync + 'static,

        requires
            forall|req: &HTTPRequest| call_requires(handler, (req,)),
    {
        self.router.add_route(RequestMethod::GET, path, Box::new(FuncHTTPHandler::new(handler)));
    }

    pub fn map_get(&mut self, path: &[u8], handler: Box<dyn HTTPHandler>) {
        self.router.add_route(RequestMethod::GET, path, handler);
    }

    pub fn map_post(&mut self, path: &[u8], handler: Box<dyn HTTPHandler>) {
        self.router.add_route(RequestMethod::POST, path, handler);
    }

    /// A handle on the routing table for the code that serves connections;
    /// it shares the table with this server and with every other clone.
    pub fn router(&self) -> Router {
        self.router.clone()
    }
}

} // verus!
