//! What a handler is given besides the request.

use crate::request::Request;
use vstd::prelude::*;

verus! {

/// The context of one request.
pub struct Context {
    pub request: Request,
}

impl Context {
    /// A context that holds `req`.
    pub fn new(req: Request) -> (ctx: Context)
        ensures
            ctx.request == req,
    {
        Context { request: req }
    }
}

/// A pool of connections to a backend. The default pool holds none.
pub struct ConnectionPool {}

} // verus!
