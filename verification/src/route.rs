//! Routes: a method, a path pattern and a handler. Routes are kept in the
//! order of their registration, and the latest that serves a request wins.

use vstd::prelude::*;
use std::sync::Arc;
use crate::method::{accepts, Method, MethodView};
use crate::path::{match_path, Path, PathPartView};
use crate::request::{Request, RequestView};
use crate::response::{Response, ResponseView};
use crate::text::pair_views;

verus! {

/// A handler that takes the request alone. `Err` holds the message of a
/// failure that stopped the handler.
pub trait Handler: Send + Sync {
    /// Whether `out` is something that this handler may give on `req`. A
    /// handler that says nothing of itself may give anything.
    open spec fn gives(&self, req: RequestView, out: Result<ResponseView, Seq<char>>) -> bool {
        true
    }

    /// Answers `req`.
    fn call(&self, req: &Request) -> (out: Result<Response, String>)
        ensures
            self.gives(req@, outcome_view(out)),
    ;
}

/// The view of what a handler gave.
pub open spec fn outcome_view(out: Result<Response, String>) -> Result<ResponseView, Seq<char>> {
    match out {
        Ok(r) => Ok(r@),
        Err(m) => Err(m@),
    }
}

/// A handler that takes the server's shared state with the request. `Err`
/// holds the message of a failure that stopped the handler.
pub trait StatefulHandler<State>: Send + Sync {
    /// Whether `out` is something that this handler may give on `req` with
    /// the state `state`. A handler that says nothing of itself may give
    /// anything.
    open spec fn gives(
        &self,
        state: Arc<State>,
        req: RequestView,
        out: Result<ResponseView, Seq<char>>,
    ) -> bool {
        true
    }

    /// Answers `req`, with the shared state at hand.
    fn call(&self, state: &Arc<State>, req: &Request) -> (out: Result<Response, String>)
        ensures
            self.gives(*state, req@, outcome_view(out)),
    ;
}

/// A place for one value. A boxed handler that is put into a slot is, to
/// the proofs, the very handler that was given.
pub struct Slot<T> {
    /// What the slot holds.
    pub value: T,
}

/// The handler of a route.
#[verifier::reject_recursive_types(State)]
pub enum RouteType<State> {
    /// Takes the request.
    Stateless(Slot<Box<dyn Handler>>),
    /// Takes the shared state and the request.
    Stateful(Slot<Box<dyn StatefulHandler<State>>>),
}

/// A route.
#[verifier::reject_recursive_types(State)]
pub struct Route<State> {
    /// Method that the route is for; `ANY` takes every method.
    pub method: Method,
    /// Pattern that the path of a request is matched against.
    pub path: Path,
    /// What answers the request.
    pub handler: RouteType<State>,
}

/// Whether a route with this method and pattern serves a request with the
/// method `m` and the path `p`.
pub open spec fn serves(method: MethodView, pattern: Seq<PathPartView>, m: MethodView, p: Seq<char>) -> bool {
    accepts(method, m) && match_path(pattern, p) is Some
}

/// The index of the route that answers a request with the method `m` and
/// the path `p`: the last of `routes` that serves it.
pub open spec fn resolve<State>(routes: Seq<Route<State>>, m: MethodView, p: Seq<char>) -> Option<int>
    decreases routes.len(),
{
    if routes.len() == 0 {
        None
    } else if serves(routes.last().method@, routes.last().path@, m, p) {
        Some(routes.len() - 1)
    } else {
        resolve(routes.drop_last(), m, p)
    }
}

/// Whether some route of `routes` takes the shared state.
pub open spec fn needs_state<State>(routes: Seq<Route<State>>) -> bool {
    exists|i: int| 0 <= i < routes.len() && (#[trigger] routes[i]).handler is Stateful
}

/// The latest registration wins: the route that `resolve` gives serves
/// the request and none after it does; where it gives none, no route serves
/// the request.
pub proof fn law_last_registered_wins<State>(routes: Seq<Route<State>>, m: MethodView, p: Seq<char>)
    ensures
        match resolve(routes, m, p) {
            Some(i) => {
                &&& 0 <= i < routes.len()
                &&& serves(routes[i].method@, routes[i].path@, m, p)
                &&& forall|j: int|
                    i < j < routes.len() ==> !serves(
                        (#[trigger] routes[j]).method@,
                        routes[j].path@,
                        m,
                        p,
                    )
            },
            None => forall|j: int|
                0 <= j < routes.len() ==> !serves((#[trigger] routes[j]).method@, routes[j].path@, m, p),
        },
    decreases routes.len(),
{
    if routes.len() > 0 && !serves(routes.last().method@, routes.last().path@, m, p) {
        let rest = routes.drop_last();
        law_last_registered_wins(rest, m, p);
        assert forall|j: int| 0 <= j < rest.len() implies rest[j] == routes[j] by {}
        match resolve(rest, m, p) {
            Some(i) => {
                assert forall|j: int| i < j < routes.len() implies !serves(
                    (#[trigger] routes[j]).method@,
                    routes[j].path@,
                    m,
                    p,
                ) by {
                    if j < rest.len() {
                        assert(rest[j] == routes[j]);
                    }
                }
            },
            None => {
                assert forall|j: int| 0 <= j < routes.len() implies !serves(
                    (#[trigger] routes[j]).method@,
                    routes[j].path@,
                    m,
                    p,
                ) by {
                    if j < rest.len() {
                        assert(rest[j] == routes[j]);
                    }
                }
            },
        }
    }
}

/// A route registered last shadows every earlier one on the requests that it
/// serves, and leaves the answer for every other request as it was.
pub proof fn law_registering_shadows<State>(
    routes: Seq<Route<State>>,
    route: Route<State>,
    m: MethodView,
    p: Seq<char>,
)
    ensures
        resolve(routes.push(route), m, p) == if serves(route.method@, route.path@, m, p) {
            Some(routes.len() as int)
        } else {
            resolve(routes, m, p)
        },
{
    assert(routes.push(route).drop_last() == routes);
    assert(routes.push(route).last() == route);
}

impl<State> Route<State> {
    /// A route with the handler `handler`.
    pub fn with(method: Method, path: &str, handler: RouteType<State>) -> (r: Route<State>)
        ensures
            r.method == method,
            r.path@ == crate::path::pattern_parts(path@),
            r.path.raw@ == path@,
            r.handler == handler,
    {
        Route { method, path: Path::new(path), handler }
    }

    /// A route with a handler that takes the request alone.
    pub fn new(method: Method, path: &str, handler: Box<dyn Handler>) -> (r: Route<State>)
        ensures
            r.method == method,
            r.path@ == crate::path::pattern_parts(path@),
            r.path.raw@ == path@,
            r.handler matches RouteType::Stateless(h) && forall|
                req: RequestView,
                out: Result<ResponseView, Seq<char>>,
            | #[trigger] h.value.gives(req, out) == handler.gives(req, out),
    {
        let slot = Slot { value: handler };
        Route::with(method, path, RouteType::Stateless(slot))
    }

    /// A route with a handler that takes the shared state too.
    pub fn new_stateful(method: Method, path: &str, handler: Box<dyn StatefulHandler<State>>) -> (r:
        Route<State>)
        ensures
            r.method == method,
            r.path@ == crate::path::pattern_parts(path@),
            r.path.raw@ == path@,
            r.handler matches RouteType::Stateful(h) && forall|
                state: Arc<State>,
                req: RequestView,
                out: Result<ResponseView, Seq<char>>,
            | #[trigger] h.value.gives(state, req, out) == handler.gives(state, req, out),
    {
        let slot = Slot { value: handler };
        Route::with(method, path, RouteType::Stateful(slot))
    }
}

/// Finds the route that answers a request: its index, and the parameters
/// that its pattern takes from the path.
pub fn find_route<State>(routes: &Vec<Route<State>>, method: &Method, path: &str) -> (r: Option<
    (usize, Vec<(String, String)>),
>)
    ensures
        match resolve(routes@, method@, path@) {
            Some(i) => r matches Some(found) && found.0 == i && i < routes.len() && Some(
                pair_views(found.1@),
            ) == match_path(routes@[i].path@, path@),
            None => r is None,
        },
{
    let mut i: usize = routes.len();
    assert(routes@.take(i as int) == routes@);
    while i > 0
        invariant
            i <= routes.len(),
            resolve(routes@, method@, path@) == resolve(routes@.take(i as int), method@, path@),
        decreases i,
    {
        i = i - 1;
        proof {
            let t = routes@.take(i + 1);
            assert(t.last() == routes@[i as int]);
            assert(t.drop_last() == routes@.take(i as int));
        }
        if routes[i].method.accepts(method) {
            match routes[i].path.match_path(path) {
                Some(params) => {
                    return Some((i, params));
                },
                None => {},
            }
        }
    }
    None
}

/// Whether some route takes the shared state.
pub fn any_stateful<State>(routes: &Vec<Route<State>>) -> (r: bool)
    ensures
        r == needs_state(routes@),
{
    let mut i: usize = 0;
    while i < routes.len()
        invariant
            i <= routes.len(),
            forall|j: int| 0 <= j < i ==> !((#[trigger] routes@[j]).handler is Stateful),
        decreases routes.len() - i,
    {
        match &routes[i].handler {
            RouteType::Stateful(_) => {
                return true;
            },
            RouteType::Stateless(_) => {},
        }
        i = i + 1;
    }
    false
}

} // verus!
