use vstd::prelude::*;

use crate::bytes::{bytes_eq, copy_range, split_bytes, split_on, trim_slash, trim_slashes, views};
use crate::method::HttpMethod;

verus! {

/// A path parameter bound by a match: its name and the request segment it took.
pub type Param = (Vec<u8>, Vec<u8>);

pub open spec fn param_views(ps: Seq<Param>) -> Seq<(Seq<u8>, Seq<u8>)> {
    ps.map_values(|p: Param| (p.0@, p.1@))
}

/// The segments of a path: without leading and trailing `/`, split at each `/`.
pub open spec fn segments(p: Seq<u8>) -> Seq<Seq<u8>> {
    split_on(trim_slash(p), 47)
}

/// A template segment that starts with `:` binds the request segment under the rest of its name.
pub open spec fn is_param(seg: Seq<u8>) -> bool {
    seg.len() > 0 && seg[0] == 58
}

/// Template segments `t` accept request segments `r`: as many, and each literal one equal.
pub open spec fn segments_match(t: Seq<Seq<u8>>, r: Seq<Seq<u8>>) -> bool {
    &&& t.len() == r.len()
    &&& forall|i: int| 0 <= i < t.len() ==> is_param(#[trigger] t[i]) || t[i] == r[i]
}

/// The bindings made by the first `k` segment pairs, in template order.
pub open spec fn bindings_upto(t: Seq<Seq<u8>>, r: Seq<Seq<u8>>, k: nat) -> Seq<(Seq<u8>, Seq<u8>)>
    decreases k,
{
    if k == 0 {
        Seq::empty()
    } else {
        let prev = bindings_upto(t, r, (k - 1) as nat);
        if is_param(t[k - 1]) {
            prev.push((t[k - 1].drop_first(), r[k - 1]))
        } else {
            prev
        }
    }
}

pub open spec fn bindings(t: Seq<Seq<u8>>, r: Seq<Seq<u8>>) -> Seq<(Seq<u8>, Seq<u8>)> {
    bindings_upto(t, r, t.len())
}

/// What a route registers: a path template and a method.
pub struct Route {
    pub path: Vec<u8>,
    pub method: HttpMethod,
}

impl Route {
    pub open spec fn matches(&self, path: Seq<u8>, method: HttpMethod) -> bool {
        self.method == method && segments_match(segments(self.path@), segments(path))
    }

    pub fn new(path: Vec<u8>, method: HttpMethod) -> (r: Route)
        ensures
            r.path@ == path@,
            r.method == method,
    {
        Route { path, method }
    }

    pub fn path(&self) -> (r: &[u8])
        ensures
            r@ == self.path@,
    {
        self.path.as_slice()
    }

    pub fn method(&self) -> (r: HttpMethod)
        ensures
            r == self.method,
    {
        self.method
    }
}

/// Routes in registration order; the first one that matches a request wins.
/// A match names the route by its index, so a caller keeps each route's handler at
/// the same index.
pub struct Router {
    routes: Vec<Route>,
}

/// Matches template segments against request segments, collecting the bindings.
fn match_segments(t: &Vec<Vec<u8>>, r: &Vec<Vec<u8>>) -> (res: Option<Vec<Param>>)
    ensures
        res is Some <==> segments_match(views(t@), views(r@)),
        res is Some ==> param_views(res->0@) == bindings(views(t@), views(r@)),
{
    if t.len() != r.len() {
        return None;
    }
    let ghost tv = views(t@);
    let ghost rv = views(r@);
    let mut params: Vec<Param> = Vec::new();
    let mut i: usize = 0;
    while i < t.len()
        invariant
            0 <= i <= t@.len(),
            t@.len() == r@.len(),
            tv == views(t@),
            rv == views(r@),
            forall|j: int| 0 <= j < i ==> is_param(#[trigger] tv[j]) || tv[j] == rv[j],
            param_views(params@) == bindings_upto(tv, rv, i as nat),
        decreases t@.len() - i,
    {
        let seg = t[i].as_slice();
        let req = r[i].as_slice();
        assert(tv[i as int] == seg@);
        assert(rv[i as int] == req@);
        if seg.len() > 0 && seg[0] == 58 {
            let name = copy_range(seg, 1, seg.len());
            let value = copy_range(req, 0, req.len());
            let ghost before = params@;
            assert(seg@.drop_first() =~= name@);
            assert(req@.subrange(0, req@.len() as int) =~= req@);
            params.push((name, value));
            assert(param_views(params@) =~= param_views(before).push((name@, value@)));
        } else {
            if !bytes_eq(seg, req) {
                assert(!segments_match(tv, rv)) by {
                    assert(!(is_param(tv[i as int]) || tv[i as int] == rv[i as int]));
                }
                return None;
            }
        }
        i += 1;
    }
    Some(params)
}

fn path_segments(p: &[u8]) -> (r: Vec<Vec<u8>>)
    ensures
        views(r@) == segments(p@),
{
    let trimmed = trim_slashes(p);
    split_bytes(trimmed.as_slice(), 47)
}

impl Router {
    pub closed spec fn view(&self) -> Seq<Route> {
        self.routes@
    }

    pub fn new() -> (r: Router)
        ensures
            r.view() == Seq::<Route>::empty(),
    {
        Router { routes: Vec::new() }
    }

    /// Appends a route; earlier routes keep precedence over it.
    pub fn add_route(&mut self, r: Route)
        ensures
            final(self).view() == old(self).view().push(r),
    {
        self.routes.push(r);
    }

    pub fn len(&self) -> (n: usize)
        ensures
            n == self.view().len(),
    {
        self.routes.len()
    }

    /// Finds the first registered route that matches `method` and `raw_path`, and
    /// returns its index with the path parameters it binds.
    pub fn get_route(&self, raw_path: &[u8], method: HttpMethod) -> (res: Option<(usize, Vec<Param>)>)
        ensures
            res is None <==> forall|i: int|
                0 <= i < self.view().len() ==> !(#[trigger] self.view()[i]).matches(raw_path@, method),
            res matches Some((idx, ps)) ==> {
                &&& idx < self.view().len()
                &&& self.view()[idx as int].matches(raw_path@, method)
                &&& forall|j: int| 0 <= j < idx ==> !(#[trigger] self.view()[j]).matches(raw_path@, method)
                &&& param_views(ps@) == bindings(segments(self.view()[idx as int].path@), segments(raw_path@))
            },
    {
        let req = path_segments(raw_path);
        let mut i: usize = 0;
        while i < self.routes.len()
            invariant
                0 <= i <= self.routes@.len(),
                views(req@) == segments(raw_path@),
                forall|j: int| 0 <= j < i ==> !(#[trigger] self.routes@[j]).matches(raw_path@, method),
            decreases self.routes@.len() - i,
        {
            let route = &self.routes[i];
            if route.method == method {
                let tpl = path_segments(route.path.as_slice());
                match match_segments(&tpl, &req) {
                    Some(ps) => {
                        return Some((i, ps));
                    },
                    None => {},
                }
            }
            i += 1;
        }
        None
    }
}

} // verus!
