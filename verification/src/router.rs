//! The route table of the service and its dispatch function: three routes,
//! each naming the handler that serves it.

use vstd::prelude::*;
use vstd::string::StringExecFns;

verus! {

/// The handlers a route can name.
#[derive(Clone, Copy, Debug, PartialEq, Eq, Structural)]
pub enum Handler {
    /// The HTML landing page.
    Index,
    /// The JSON listing.
    PackagesGet,
    /// The JSON upsert.
    PackagesPost,
}

/// One route: an HTTP method, a path, and the handler that serves them.
pub struct Route {
    pub method: String,
    pub path: String,
    pub handler: Handler,
}

/// The handler serving `method` and `path`, if the table routes them.
pub open spec fn spec_dispatch(method: Seq<char>, path: Seq<char>) -> Option<Handler> {
    if method == "GET"@ && path == "/"@ {
        Some(Handler::Index)
    } else if method == "GET"@ && path == "/api/v1/packages"@ {
        Some(Handler::PackagesGet)
    } else if method == "POST"@ && path == "/api/v1/packages"@ {
        Some(Handler::PackagesPost)
    } else {
        None
    }
}

/// Builds the route table the server mounts: the landing page at `/`, and
/// the two package endpoints under `/api/v1`.
pub fn rocket() -> (r: Vec<Route>)
    ensures
        r@.len() == 3,
        r@[0].method@ == "GET"@ && r@[0].path@ == "/"@ && r@[0].handler == Handler::Index,
        r@[1].method@ == "GET"@ && r@[1].path@ == "/api/v1/packages"@
            && r@[1].handler == Handler::PackagesGet,
        r@[2].method@ == "POST"@ && r@[2].path@ == "/api/v1/packages"@
            && r@[2].handler == Handler::PackagesPost,
        forall|i: int|
            0 <= i < r@.len()
                ==> spec_dispatch(r@[i].method@, r@[i].path@) == Some(r@[i].handler),
{
    let mut r: Vec<Route> = Vec::new();
    r.push(Route {
        method: String::from_str("GET"),
        path: String::from_str("/"),
        handler: Handler::Index,
    });
    r.push(Route {
        method: String::from_str("GET"),
        path: String::from_str("/api/v1/packages"),
        handler: Handler::PackagesGet,
    });
    r.push(Route {
        method: String::from_str("POST"),
        path: String::from_str("/api/v1/packages"),
        handler: Handler::PackagesPost,
    });
    proof {
        reveal_strlit("GET");
        reveal_strlit("POST");
        reveal_strlit("/");
        reveal_strlit("/api/v1/packages");
        assert("GET"@.len() != "POST"@.len());
        assert("/"@.len() != "/api/v1/packages"@.len());
    }
    r
}

/// Routes a request: returns the handler the table names for `method` and
/// `path`, and `None` where the table has no such route.
pub fn dispatch(method: &str, path: &str) -> (r: Option<Handler>)
    ensures
        r == spec_dispatch(method@, path@),
{
    if crate::text::str_eq(method, "GET") {
        if crate::text::str_eq(path, "/") {
            Some(Handler::Index)
        } else if crate::text::str_eq(path, "/api/v1/packages") {
            Some(Handler::PackagesGet)
        } else {
            None
        }
    } else if crate::text::str_eq(method, "POST") {
        if crate::text::str_eq(path, "/api/v1/packages") {
            Some(Handler::PackagesPost)
        } else {
            None
        }
    } else {
        None
    }
}

} // verus!
