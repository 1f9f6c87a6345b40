//! The server: its routes, its default handler and the state of its event
//! loop.

use crate::clock::from_clock;
use crate::reactor::{Reactor, ReactorView};
use crate::request::{parsed, Method, Request, RequestView};
use crate::response::{error_page, response_of, wire_bytes, Response};
use crate::route::{captured, matcher_source, template_params, RouteError};
use crate::router::{is_first_match, lookup, refusal_of_all, with_routes, RouteView, Router};
use crate::slab::empty_table;
use crate::utils::bad_request;
use vstd::prelude::*;
use vstd::utf8::encode_utf8;

verus! {

/// The token of the listener.
pub const LISTENER: usize = 1;

/// The token of the first connection.
pub const FIRST_CONNECTION: usize = 2;

/// The number of connections that a server holds at a time.
pub const MAX_CONNECTIONS: usize = 2048;

/// What is to be done with the bytes that a client sent.
pub enum Dispatch {
    /// The request, with its path variables, goes to the handler of the route
    /// with the index `route`, which the lookup found after it ran `probes`
    /// matchers.
    Routed { request: Request, route: usize, probes: usize },
    /// No route matches: the request goes to the default handler. The lookup
    /// ran `probes` matchers.
    Unrouted { request: Request, probes: usize },
    /// The bytes are no request: the client is told so.
    BadRequest,
}

/// The request that a handler is given: what the bytes say, with the
/// variables that the route found takes from the path.
pub open spec fn routed<H>(routes: Seq<RouteView<H>>, req: RequestView, route: Option<int>)
    -> RequestView {
    match route {
        Some(i) => RequestView {
            params: captured(
                matcher_source(routes[i].template),
                template_params(routes[i].template),
                req.path,
            ),
            ..req
        },
        None => req,
    }
}

/// The primary struct provided by the library: the routes and the default
/// handler that an application registers, and the state of the connections
/// that the event loop drives.
#[verifier::reject_recursive_types(H)]
pub struct Canteen<H> {
    pub router: Router<H>,
    pub reactor: Reactor,
    pub default: H,
}

impl<H> Canteen<H> {
    /// Whether the router and the reactor are well-formed.
    pub open spec fn wf(&self) -> bool {
        self.router.wf() && self.reactor.wf()
    }

    /// Creates a new Canteen instance without routes and without
    /// connections, whose default handler is `default`.
    pub fn new(default: H) -> (cnt: Canteen<H>)
        ensures
            cnt.wf(),
            cnt.default == default,
            cnt.router.routes() == Seq::<RouteView<H>>::empty(),
            cnt.router.cache() == Map::<(Method, Seq<char>), usize>::empty(),
            cnt.reactor@ == (ReactorView {
                listener: LISTENER,
                table: empty_table(FIRST_CONNECTION, MAX_CONNECTIONS),
            }),
    {
        Canteen {
            router: Router::new(),
            reactor: Reactor::new(LISTENER, FIRST_CONNECTION, MAX_CONNECTIONS),
            default,
        }
    }

    /// Adds a new route definition to be handled by Canteen, for each of the
    /// methods in `mlist`. A route that exists already makes the call fail
    /// and leaves the routes as they are, and so does a template that is
    /// refused.
    pub fn add_route(&mut self, path: &str, mlist: &[Method], handler: H) -> (r: Result<
        (),
        RouteError,
    >) where H: Copy
        requires
            old(self).wf(),
        ensures
            final(self).wf(),
            final(self).reactor == old(self).reactor,
            final(self).default == old(self).default,
            match refusal_of_all(old(self).router.routes(), path@, mlist@) {
                Some(e) => r == Err::<(), RouteError>(e) && final(self).router.routes() == old(
                    self,
                ).router.routes() && final(self).router.cache() == old(self).router.cache(),
                None => r is Ok && final(self).router.routes() == with_routes(
                    old(self).router.routes(),
                    path@,
                    mlist@,
                    handler,
                ) && final(self).router.cache() == if mlist@.len() == 0 {
                    old(self).router.cache()
                } else {
                    Map::<(Method, Seq<char>), usize>::empty()
                },
            },
    {
        self.router.add_route(path, mlist, handler)
    }

    /// Defines a default route for undefined paths.
    pub fn set_default(&mut self, handler: H)
        ensures
            final(self).default == handler,
            final(self).router == old(self).router,
            final(self).reactor == old(self).reactor,
    {
        self.default = handler;
    }

    /// Reads the bytes that a client sent and finds the route for the
    /// request. The variables that the route takes from the path are put
    /// into the request.
    pub fn handle_request(&mut self, raw: &[u8]) -> (r: Dispatch)
        requires
            old(self).wf(),
        ensures
            final(self).wf(),
            final(self).reactor == old(self).reactor,
            final(self).default == old(self).default,
            final(self).router.routes() == old(self).router.routes(),
            match parsed(raw@) {
                None => r is BadRequest && final(self).router.cache() == old(self).router.cache(),
                Some(req) => {
                    let routes = old(self).router.routes();
                    let found = lookup(routes, old(self).router.cache(), req.path, req.method);
                    &&& final(self).router.cache() == found.cache
                    &&& match found.route {
                        Some(i) => r matches Dispatch::Routed { request, route, probes } && route
                            == i && probes == found.probes && is_first_match(
                            routes,
                            i,
                            req.path,
                            req.method,
                        ) && request@ == routed(routes, req, found.route),
                        None => r matches Dispatch::Unrouted { request, probes } && probes
                            == found.probes && request@ == req,
                    }
                },
            },
    {
        let mut request = match Request::parse(raw) {
            Ok(request) => request,
            Err(_) => {
                return Dispatch::BadRequest;
            },
        };
        let found = self.router.resolve(request.path.as_str(), request.method);
        match found.route {
            Some(i) => {
                request.params = found.params;
                Dispatch::Routed { request, route: i, probes: found.probes }
            },
            None => Dispatch::Unrouted { request, probes: found.probes },
        }
    }

    /// The handler that a request goes to: the handler of its route, or the
    /// default handler. A route that the server does not have, and bytes that
    /// are no request, have no handler.
    pub fn handler_of(&self, dispatch: &Dispatch) -> (h: Option<&H>)
        ensures
            match *dispatch {
                Dispatch::Routed { route, .. } => if route < self.router.routes().len() {
                    h == Some(&self.router.routes()[route as int].handler)
                } else {
                    h is None
                },
                Dispatch::Unrouted { .. } => h == Some(&self.default),
                Dispatch::BadRequest => h is None,
            },
    {
        match dispatch {
            Dispatch::Routed { route, .. } => if *route < self.router.len() {
                Some(self.router.handler(*route))
            } else {
                None
            },
            Dispatch::Unrouted { .. } => Some(&self.default),
            Dispatch::BadRequest => None,
        }
    }
}

/// Whether `output` is the wire form of a response that `handler` gives to a
/// request that reads as `view`.
pub open spec fn answers<H: Fn(&Request) -> Response>(
    handler: H,
    view: RequestView,
    output: Seq<u8>,
) -> bool {
    exists|request: Request, res: Response| #[trigger]
        handler.ensures((&request,), res) && request@ == view && output == wire_bytes(res@)
}

/// Whether `output` is the wire form of the response to bytes that are no
/// request: an error page with status 400.
pub open spec fn refuses(output: Seq<u8>) -> bool {
    exists|date: Seq<char>| #[trigger]
        from_clock(date) && output == wire_bytes(
            response_of(encode_utf8(error_page("bad request"@, ""@)), "text/html"@, 400, date),
        )
}

impl<H: Fn(&Request) -> Response> Canteen<H> {
    /// Answers the bytes that a client sent, at once: the request goes to the
    /// handler of its route, or to the default handler where no route
    /// matches, and the bytes of the response come back. Bytes that are no
    /// request are answered with status 400.
    pub fn answer(&mut self, raw: &[u8]) -> (output: Vec<u8>)
        requires
            old(self).wf(),
            forall|handler: H, request: &Request| #[trigger] handler.requires((request,)),
        ensures
            final(self).wf(),
            final(self).reactor == old(self).reactor,
            final(self).default == old(self).default,
            final(self).router.routes() == old(self).router.routes(),
            match parsed(raw@) {
                None => final(self).router.cache() == old(self).router.cache() && refuses(output@),
                Some(req) => {
                    let routes = old(self).router.routes();
                    let found = lookup(routes, old(self).router.cache(), req.path, req.method);
                    let handler = match found.route {
                        Some(i) => routes[i].handler,
                        None => old(self).default,
                    };
                    &&& final(self).router.cache() == found.cache
                    &&& answers(handler, routed(routes, req, found.route), output@)
                },
            },
    {
        let dispatch = self.handle_request(raw);
        match dispatch {
            Dispatch::Routed { request, route, .. } => {
                let handler = self.router.handler(route);
                let res = handler(&request);
                let output = res.gen_output();
                assert(handler.ensures((&request,), res));
                output
            },
            Dispatch::Unrouted { request, .. } => {
                let res = (self.default)(&request);
                let output = res.gen_output();
                assert(self.default.ensures((&request,), res));
                output
            },
            Dispatch::BadRequest => {
                let res = bad_request();
                let output = res.gen_output();
                assert(from_clock(res@.headers[2].1));
                output
            },
        }
    }
}

/// Runs a handler on a request and gives the bytes of its response.
pub fn respond<F: Fn(&Request) -> Response>(handler: &F, request: &Request) -> (output: Vec<u8>)
    requires
        handler.requires((request,)),
    ensures
        answers(*handler, request@, output@),
{
    let res = handler(request);
    let output = res.gen_output();
    assert(handler.ensures((request,), res));
    output
}

} // verus!
