use vstd::prelude::*;

use crate::request::{Request, RequestView};
use crate::response::{error_response, not_found_response};
use crate::router::{bindings, param_views, segments, Router};

verus! {

/// What to do with a decoded request.
pub enum Dispatch {
    /// Run the handler of the route at this index on the request, whose parameters are bound.
    Handle(usize, Request),
    /// Write these bytes back; no handler runs.
    Respond(Vec<u8>),
}

/// Routes a decoded request: the first matching route gets it with its path parameters
/// bound; when none matches, the answer is a 404 response.
pub fn dispatch(router: &Router, req: Request) -> (d: Dispatch)
    ensures
        match d {
            Dispatch::Handle(i, r) => {
                &&& i < router.view().len()
                &&& router.view()[i as int].matches(req@.path, req@.method)
                &&& forall|j: int|
                    0 <= j < i ==> !(#[trigger] router.view()[j]).matches(req@.path, req@.method)
                &&& r@ == (RequestView {
                    params: bindings(segments(router.view()[i as int].path@), segments(req@.path)),
                    ..req@
                })
            },
            Dispatch::Respond(bytes) => {
                &&& forall|j: int|
                    0 <= j < router.view().len() ==> !(#[trigger] router.view()[j]).matches(
                        req@.path,
                        req@.method,
                    )
                &&& bytes@ == error_response(404, "Not found"@)
            },
        },
{
    let found = router.get_route(req.path(), req.method());
    match found {
        Some((i, params)) => {
            let mut req = req;
            req.set_params(params);
            Dispatch::Handle(i, req)
        },
        None => Dispatch::Respond(not_found_response()),
    }
}

} // verus!
