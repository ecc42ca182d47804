//! Exact-match routing on `"<METHOD> <path>"`, and the server's
//! configuration.

use vstd::prelude::*;

use crate::method::{method_name, Method};
use crate::responses::{HttpError, NotFoundError};
use crate::status::StatusCode;

verus! {

/// The key a route is registered under.
pub open spec fn route_key(m: Method, path: Seq<char>) -> Seq<char> {
    method_name(m) + seq![' '] + path
}

/// The message of the not-found outcome: `Cannot <METHOD> <path>`.
pub open spec fn not_found_message(m: Method, path: Seq<char>) -> Seq<char> {
    "Cannot "@ + method_name(m) + seq![' '] + path
}

/// The handler registered last under `k`.
pub open spec fn route_lookup<H>(routes: Seq<(Seq<char>, H)>, k: Seq<char>) -> Option<H>
    decreases routes.len(),
{
    if routes.len() == 0 {
        None
    } else if routes.last().0 == k {
        Some(routes.last().1)
    } else {
        route_lookup(routes.drop_last(), k)
    }
}

/// The routes, each a handler under its method and path. A later
/// registration of the same method and path replaces the earlier one.
pub struct Router<H> {
    endpoints: Vec<(String, H)>,
}

impl<H> Router<H> {
    pub closed spec fn routes(&self) -> Seq<(Seq<char>, H)> {
        self.endpoints@.map_values(|e: (String, H)| (e.0@, e.1))
    }

    pub fn new() -> (r: Router<H>)
        ensures
            r.routes() == Seq::<(Seq<char>, H)>::empty(),
    {
        let r = Router { endpoints: Vec::new() };
        assert(r.routes() =~= Seq::<(Seq<char>, H)>::empty());
        r
    }

    fn register(&mut self, method: Method, path: &str, handler: H)
        ensures
            final(self).routes() == old(self).routes().push((route_key(method, path@), handler)),
    {
        let mut key = String::new();
        key.append(method.as_str());
        key.append(" ");
        key.append(path);
        proof {
            reveal_strlit(" ");
        }
        assert(key@ =~= route_key(method, path@));
        self.endpoints.push((key, handler));
        assert(self.routes() =~= old(self).routes().push((route_key(method, path@), handler)));
    }

    /// Registers `handler` for POST requests to `path`.
    pub fn post(&mut self, path: &str, handler: H)
        ensures
            final(self).routes() == old(self).routes().push(
                (route_key(Method::Post, path@), handler),
            ),
    {
        self.register(Method::Post, path, handler)
    }

    /// Registers `handler` for GET requests to `path`.
    pub fn get(&mut self, path: &str, handler: H)
        ensures
            final(self).routes() == old(self).routes().push(
                (route_key(Method::Get, path@), handler),
            ),
    {
        self.register(Method::Get, path, handler)
    }

    /// Registers `handler` for DELETE requests to `path`.
    pub fn delete(&mut self, path: &str, handler: H)
        ensures
            final(self).routes() == old(self).routes().push(
                (route_key(Method::Delete, path@), handler),
            ),
    {
        self.register(Method::Delete, path, handler)
    }

    /// Registers `handler` for PUT requests to `path`.
    pub fn put(&mut self, path: &str, handler: H)
        ensures
            final(self).routes() == old(self).routes().push(
                (route_key(Method::Put, path@), handler),
            ),
    {
        self.register(Method::Put, path, handler)
    }

    /// Registers `handler` for PATCH requests to `path`.
    pub fn patch(&mut self, path: &str, handler: H)
        ensures
            final(self).routes() == old(self).routes().push(
                (route_key(Method::Patch, path@), handler),
            ),
    {
        self.register(Method::Patch, path, handler)
    }

    /// The handler for `method` and `path`, or the not-found outcome: a 404
    /// error whose message is `Cannot <METHOD> <path>`. The query string and
    /// the headers play no part.
    pub fn route(&self, method: Method, path: &str) -> (r: Result<&H, NotFoundError>)
        ensures
            match route_lookup(self.routes(), route_key(method, path@)) {
                Some(h) => r matches Ok(found) && *found == h,
                None => r matches Err(e) && e.error_message() == not_found_message(method, path@)
                    && e.error_status() == StatusCode::NotFound,
            },
    {
        let mut key = String::new();
        key.append(method.as_str());
        key.append(" ");
        key.append(path);
        proof {
            reveal_strlit(" ");
        }
        assert(key@ =~= route_key(method, path@));
        let mut i: usize = self.endpoints.len();
        assert(self.routes().subrange(0, i as int) =~= self.routes());
        while i > 0
            invariant
                i <= self.endpoints@.len(),
                self.routes().len() == self.endpoints@.len(),
                key@ == route_key(method, path@),
                route_lookup(self.routes(), key@) == route_lookup(
                    self.routes().subrange(0, i as int),
                    key@,
                ),
            decreases i,
        {
            let ghost sub = self.routes().subrange(0, i as int);
            assert(sub.drop_last() =~= self.routes().subrange(0, i - 1));
            assert(sub.last() == (self.endpoints@[i - 1].0@, self.endpoints@[i - 1].1));
            let entry = &self.endpoints[i - 1];
            if entry.0 == key {
                assert(route_lookup(sub, key@) == Some(entry.1));
                return Ok(&entry.1);
            }
            i = i - 1;
        }
        let mut message = String::new();
        message.append("Cannot ");
        message.append(key.as_str());
        proof {
            reveal_strlit("Cannot ");
        }
        assert(message@ =~= not_found_message(method, path@));
        Err(NotFoundError::with_message(message.as_str()))
    }
}

/// The server's configuration: where it listens and how it routes.
pub struct Server<H> {
    addr: String,
    router: Router<H>,
}

impl<H> Server<H> {
    pub closed spec fn spec_addr(&self) -> Seq<char> {
        self.addr@
    }

    pub closed spec fn spec_routes(&self) -> Seq<(Seq<char>, H)> {
        self.router.routes()
    }

    /// A server for `addr` that dispatches through `router`.
    pub fn new(addr: &str, router: Router<H>) -> (r: Server<H>)
        ensures
            r.spec_addr() == addr@,
            r.spec_routes() == router.routes(),
    {
        Server { addr: addr.to_owned(), router }
    }

    pub fn addr(&self) -> (r: &str)
        ensures
            r@ == self.spec_addr(),
    {
        self.addr.as_str()
    }

    pub fn router(&self) -> (r: &Router<H>)
        ensures
            r.routes() == self.spec_routes(),
    {
        &self.router
    }

    /// Hands over the router, for the serving loop to own.
    pub fn into_router(self) -> (r: Router<H>)
        ensures
            r.routes() == self.spec_routes(),
    {
        self.router
    }
}

} // verus!
