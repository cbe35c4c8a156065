//! The pipeline as a function of what the hooks, the route and the error
//! handler gave: which of them is asked, in which order and on what, and what
//! the result is.

use vstd::prelude::*;
use crate::error::{ErrorView, HandleErrorView};
use crate::internal::handle::{answer_for, is_fault};
use crate::middleware::{
    flow_after_post, flow_after_pre, request_after, response_after, FlowView, MiddleRequestView,
    MiddleResponseView, Middleware,
};
use crate::path::match_path;
use crate::request::RequestView;
use crate::response::ResponseView;
use crate::route::{resolve, RouteType};
use crate::server::Server;

verus! {

/// What was given to one run of the pipeline by those that it asked.
pub struct Trace {
    /// What the `pre` hooks gave, in the order in which they were asked.
    pub pre: Seq<Result<MiddleRequestView, Seq<char>>>,
    /// What the handler of the route gave, where one was asked.
    pub route: Result<ResponseView, Seq<char>>,
    /// What the `post` hooks gave, in the order in which they were asked.
    pub post: Seq<Result<MiddleResponseView, Seq<char>>>,
    /// What the error handler gave, where it was asked.
    pub answer: ResponseView,
}

/// The request in flight when the `pre` hook number `k` is asked: the one
/// that came in, as the hooks before have left it.
pub open spec fn request_before(
    req: Result<RequestView, ErrorView>,
    outs: Seq<Result<MiddleRequestView, Seq<char>>>,
    k: int,
) -> Result<RequestView, ErrorView>
    decreases k,
{
    if k <= 0 {
        req
    } else {
        request_after(request_before(req, outs, k - 1), outs[k - 1])
    }
}

/// The response in flight when the `post` hook number `k` is asked.
pub open spec fn response_before(
    res: Result<ResponseView, ErrorView>,
    outs: Seq<Result<MiddleResponseView, Seq<char>>>,
    k: int,
) -> Result<ResponseView, ErrorView>
    decreases k,
{
    if k <= 0 {
        res
    } else {
        response_after(response_before(res, outs, k - 1), outs[k - 1])
    }
}

/// Whether the `pre` hook number `k` may give what stands for it in `outs`.
/// The hooks are asked from the middleware attached last to the one attached
/// first, each on the request as the hooks before have left it.
pub open spec fn pre_call_fits(
    mw: Seq<Box<dyn Middleware>>,
    req: Result<RequestView, ErrorView>,
    outs: Seq<Result<MiddleRequestView, Seq<char>>>,
    k: int,
) -> bool {
    mw[mw.len() - 1 - k].pre_gives(request_before(req, outs, k), outs[k])
}

/// Whether `outs` is what the `pre` hooks may give, one after the other:
/// each hook may give its part, every hook but the last that was asked let
/// the pipeline go on, and hooks are left unasked only behind one that
/// did not.
pub open spec fn pre_fits(
    mw: Seq<Box<dyn Middleware>>,
    req: Result<RequestView, ErrorView>,
    outs: Seq<Result<MiddleRequestView, Seq<char>>>,
) -> bool {
    &&& outs.len() <= mw.len()
    &&& forall|k: int| 0 <= k < outs.len() ==> #[trigger] pre_call_fits(mw, req, outs, k)
    &&& forall|k: int| 0 <= k < outs.len() - 1 ==> flow_after_pre(#[trigger] outs[k]) is Continue
    &&& outs.len() < mw.len() ==> outs.len() > 0 && !(flow_after_pre(outs.last()) is Continue)
}

/// How the pipeline goes on after the `pre` hooks.
pub open spec fn pre_flow(outs: Seq<Result<MiddleRequestView, Seq<char>>>) -> FlowView {
    if outs.len() == 0 {
        FlowView::Continue
    } else {
        flow_after_pre(outs.last())
    }
}

/// Whether the `post` hook number `k` may give what stands for it in
/// `outs`. The order is that of the `pre` hooks; each hook is asked on the
/// request and on the response as the hooks before have left it.
pub open spec fn post_call_fits(
    mw: Seq<Box<dyn Middleware>>,
    req: Result<RequestView, ErrorView>,
    res: Result<ResponseView, ErrorView>,
    outs: Seq<Result<MiddleResponseView, Seq<char>>>,
    k: int,
) -> bool {
    mw[mw.len() - 1 - k].post_gives(req, response_before(res, outs, k), outs[k])
}

/// Whether `outs` is what the `post` hooks may give, one after the other.
pub open spec fn post_fits(
    mw: Seq<Box<dyn Middleware>>,
    req: Result<RequestView, ErrorView>,
    res: Result<ResponseView, ErrorView>,
    outs: Seq<Result<MiddleResponseView, Seq<char>>>,
) -> bool {
    &&& outs.len() <= mw.len()
    &&& forall|k: int| 0 <= k < outs.len() ==> #[trigger] post_call_fits(mw, req, res, outs, k)
    &&& forall|k: int| 0 <= k < outs.len() - 1 ==> flow_after_post(#[trigger] outs[k]) is Continue
    &&& outs.len() < mw.len() ==> outs.len() > 0 && !(flow_after_post(outs.last()) is Continue)
}

/// How the pipeline goes on after the `post` hooks.
pub open spec fn post_flow(outs: Seq<Result<MiddleResponseView, Seq<char>>>) -> FlowView {
    if outs.len() == 0 {
        FlowView::Continue
    } else {
        flow_after_post(outs.last())
    }
}

/// The request as the routes leave it: with the parameters that the pattern
/// of the route that answers takes from the path, and unchanged where no
/// route serves it.
pub open spec fn routed_request<State: 'static + Send + Sync>(
    server: Server<State>,
    q: RequestView,
) -> RequestView {
    match resolve(server.routes@, q.method, q.path) {
        Some(i) => RequestView {
            path_params: match_path(server.routes@[i].path@, q.path)->Some_0,
            ..q
        },
        None => q,
    }
}

/// What the pipeline holds once a handler gave `out` on `q`: the response,
/// or the error for a handler that failed on this request.
pub open spec fn dispatched(q: RequestView, out: Result<ResponseView, Seq<char>>) -> Result<
    ResponseView,
    ErrorView,
> {
    match out {
        Ok(r) => Ok(r),
        Err(m) => Err(ErrorView::Handle(HandleErrorView::Panic(Box::new(Ok(q)), m))),
    }
}

/// Whether `out` is what the handler of the route that answers `q` may give.
/// It is the handler of the last route that serves `q`, asked on the request
/// with its path parameters, and with the shared state where it takes that.
pub open spec fn route_fits<State: 'static + Send + Sync>(
    server: Server<State>,
    q: RequestView,
    out: Result<ResponseView, Seq<char>>,
) -> bool {
    match resolve(server.routes@, q.method, q.path) {
        Some(i) => match server.routes@[i].handler {
            RouteType::Stateless(h) => h.value.gives(routed_request(server, q), out),
            RouteType::Stateful(h) => match server.state {
                Some(state) => h.value.gives(state, routed_request(server, q), out),
                None => true,
            },
        },
        None => true,
    }
}

/// What the routes make of `q`, where the handler that was asked gave `out`:
/// `NotFound` where no route serves `q`, the failure `State not
/// initialized` where the route takes a state that the server lacks, and else
/// what the handler gave.
pub open spec fn routed<State: 'static + Send + Sync>(
    server: Server<State>,
    q: RequestView,
    out: Result<ResponseView, Seq<char>>,
) -> Result<ResponseView, ErrorView> {
    match resolve(server.routes@, q.method, q.path) {
        Some(i) => if server.routes@[i].handler is Stateful && server.state is None {
            dispatched(routed_request(server, q), Err("State not initialized"@))
        } else {
            dispatched(routed_request(server, q), out)
        },
        None => Err(ErrorView::Handle(HandleErrorView::NotFound(q.method, q.path))),
    }
}

/// The error that is answered at the end, if any: that of the request goes
/// before that of the response.
pub open spec fn final_error(
    req: Result<RequestView, ErrorView>,
    res: Result<ResponseView, ErrorView>,
) -> Option<ErrorView> {
    match res {
        Ok(_) => None,
        Err(e) => match req {
            Err(first) => Some(first),
            Ok(_) => Some(e),
        },
    }
}

/// Whether `answer` is what the error handler may give at the end, where it
/// is asked: for a route that failed, on the request and the message that the
/// error holds.
pub open spec fn settle_fits<State: 'static + Send + Sync>(
    server: Server<State>,
    req: Result<RequestView, ErrorView>,
    res: Result<ResponseView, ErrorView>,
    answer: ResponseView,
) -> bool {
    match final_error(req, res) {
        Some(ErrorView::Handle(HandleErrorView::Panic(q, m))) => server.error_handler.responds(
            *q,
            m,
            answer,
        ),
        _ => true,
    }
}

/// The response at the end: the one in flight; or for an error the response
/// that stands for it, which for a failure is what the error handler gave.
pub open spec fn settled(
    req: Result<RequestView, ErrorView>,
    res: Result<ResponseView, ErrorView>,
    answer: ResponseView,
) -> ResponseView {
    match res {
        Ok(x) => x,
        Err(e) => {
            let error = match req {
                Err(first) => first,
                Ok(_) => e,
            };
            if is_fault(error) {
                answer
            } else {
                answer_for(error)
            }
        },
    }
}

/// The request and the response in flight when the `post` hooks begin. A
/// response that a `pre` hook sent stands; else the routes answer a request
/// that was read; and for an error in place of the request there is no
/// response yet.
pub open spec fn before_post<State: 'static + Send + Sync>(
    server: Server<State>,
    req: Result<RequestView, ErrorView>,
    t: Trace,
) -> (Result<RequestView, ErrorView>, Result<ResponseView, ErrorView>) {
    let cur = request_before(req, t.pre, t.pre.len() as int);
    match pre_flow(t.pre) {
        FlowView::Send(r) => (cur, Ok(r)),
        _ => match cur {
            Ok(q) => (Ok(routed_request(server, q)), routed(server, q, t.route)),
            Err(_) => (cur, Err(ErrorView::NoResponse)),
        },
    }
}

/// Whether `t` is what one run of the pipeline on `req` may be given: every
/// part is something that the one who was asked may give, on what it was
/// handed. A `pre` hook that failed is answered by the error handler at
/// once. Else the handler of the route is asked if the `pre` hooks let the
/// pipeline go on and there is a request; then the `post` hooks are asked;
/// and the error handler is asked for a `post` hook that failed, or at the
/// end for a route that failed.
pub open spec fn fits<State: 'static + Send + Sync>(
    server: Server<State>,
    req: Result<RequestView, ErrorView>,
    t: Trace,
) -> bool {
    let mw = server.middleware@;
    let cur = request_before(req, t.pre, t.pre.len() as int);
    let (after, res) = before_post(server, req, t);
    &&& pre_fits(mw, req, t.pre)
    &&& match pre_flow(t.pre) {
        FlowView::Fault(m) => server.error_handler.responds(cur, m, t.answer),
        flow => {
            &&& flow is Continue && cur is Ok ==> route_fits(server, cur->Ok_0, t.route)
            &&& post_fits(mw, after, res, t.post)
            &&& match post_flow(t.post) {
                FlowView::Fault(m) => server.error_handler.responds(after, m, t.answer),
                FlowView::Send(_) => true,
                FlowView::Continue => settle_fits(
                    server,
                    after,
                    response_before(res, t.post, t.post.len() as int),
                    t.answer,
                ),
            }
        },
    }
}

/// The request and the response that leave the pipeline, given what it was
/// given. A `pre` hook that failed is answered with what the error handler
/// gave. A response that a `post` hook sent is the result, and a `post`
/// hook that failed is answered with what the error handler gave. Else the
/// result is the response in flight after the last `post` hook, settled.
pub open spec fn run<State: 'static + Send + Sync>(
    server: Server<State>,
    req: Result<RequestView, ErrorView>,
    t: Trace,
) -> (Result<RequestView, ErrorView>, ResponseView) {
    let cur = request_before(req, t.pre, t.pre.len() as int);
    let (after, res) = before_post(server, req, t);
    match pre_flow(t.pre) {
        FlowView::Fault(m) => (cur, t.answer),
        _ => match post_flow(t.post) {
            FlowView::Send(r) => (after, r),
            FlowView::Fault(m) => (after, t.answer),
            FlowView::Continue => (
                after,
                settled(after, response_before(res, t.post, t.post.len() as int), t.answer),
            ),
        },
    }
}

/// Whether `out_req` and `out_res` are what the pipeline of `server` makes
/// of `req`, for something that it may be given on the way.
pub open spec fn piped<State: 'static + Send + Sync>(
    server: Server<State>,
    req: Result<RequestView, ErrorView>,
    out_req: Result<RequestView, ErrorView>,
    out_res: ResponseView,
) -> bool {
    exists|t: Trace| #[trigger] fits(server, req, t) && run(server, req, t) == (out_req, out_res)
}

/// A hook that is asked later does not change what an earlier hook was
/// handed.
pub proof fn lemma_request_before_push(
    req: Result<RequestView, ErrorView>,
    outs: Seq<Result<MiddleRequestView, Seq<char>>>,
    x: Result<MiddleRequestView, Seq<char>>,
    k: int,
)
    requires
        k <= outs.len(),
    ensures
        request_before(req, outs.push(x), k) == request_before(req, outs, k),
    decreases k,
{
    if k > 0 {
        lemma_request_before_push(req, outs, x, k - 1);
    }
}

/// A hook that is asked later does not change what an earlier hook was
/// handed.
pub proof fn lemma_response_before_push(
    res: Result<ResponseView, ErrorView>,
    outs: Seq<Result<MiddleResponseView, Seq<char>>>,
    x: Result<MiddleResponseView, Seq<char>>,
    k: int,
)
    requires
        k <= outs.len(),
    ensures
        response_before(res, outs.push(x), k) == response_before(res, outs, k),
    decreases k,
{
    if k > 0 {
        lemma_response_before_push(res, outs, x, k - 1);
    }
}

/// Hooks that let the pipeline go on leave the request as it came.
proof fn lemma_request_kept(
    req: Result<RequestView, ErrorView>,
    outs: Seq<Result<MiddleRequestView, Seq<char>>>,
    k: int,
)
    requires
        0 <= k <= outs.len(),
        forall|j: int|
            0 <= j < outs.len() ==> #[trigger] outs[j] == Ok::<MiddleRequestView, Seq<char>>(
                MiddleRequestView::Continue,
            ),
    ensures
        request_before(req, outs, k) == req,
    decreases k,
{
    if k > 0 {
        lemma_request_kept(req, outs, k - 1);
        assert(outs[k - 1] == Ok::<MiddleRequestView, Seq<char>>(MiddleRequestView::Continue));
    }
}

/// Hooks that let the pipeline go on leave the response as it came.
proof fn lemma_response_kept(
    res: Result<ResponseView, ErrorView>,
    outs: Seq<Result<MiddleResponseView, Seq<char>>>,
    k: int,
)
    requires
        0 <= k <= outs.len(),
        forall|j: int|
            0 <= j < outs.len() ==> #[trigger] outs[j] == Ok::<MiddleResponseView, Seq<char>>(
                MiddleResponseView::Continue,
            ),
    ensures
        response_before(res, outs, k) == res,
    decreases k,
{
    if k > 0 {
        lemma_response_kept(res, outs, k - 1);
        assert(outs[k - 1] == Ok::<MiddleResponseView, Seq<char>>(MiddleResponseView::Continue));
    }
}

/// Whether every hook of `mw` can but let the pipeline go on.
pub open spec fn all_continue(mw: Seq<Box<dyn Middleware>>) -> bool {
    &&& forall|
        k: int,
        req: Result<RequestView, ErrorView>,
        out: Result<MiddleRequestView, Seq<char>>,
    |
        0 <= k < mw.len() && #[trigger] mw[k].pre_gives(req, out) ==> out == Ok::<
            MiddleRequestView,
            Seq<char>,
        >(MiddleRequestView::Continue)
    &&& forall|
        k: int,
        req: Result<RequestView, ErrorView>,
        res: Result<ResponseView, ErrorView>,
        out: Result<MiddleResponseView, Seq<char>>,
    |
        0 <= k < mw.len() && #[trigger] mw[k].post_gives(req, res, out) ==> out == Ok::<
            MiddleResponseView,
            Seq<char>,
        >(MiddleResponseView::Continue)
}

/// Where every hook lets the pipeline go on, with or without middleware:
/// an error in place of the request is answered with the response that
/// stands for it, so a parse error with status 400, and leaves as it came. A
/// request gets its path parameters and is answered by the handler of the
/// last route that serves it: the handler's response is the result; a
/// handler that failed is answered by the error handler, on the request and
/// the message; and a request that no route serves is answered with 404.
pub proof fn law_when_all_continue<State: 'static + Send + Sync>(
    server: Server<State>,
    req: Result<RequestView, ErrorView>,
    out_req: Result<RequestView, ErrorView>,
    out_res: ResponseView,
)
    requires
        piped(server, req, out_req, out_res),
        all_continue(server.middleware@),
    ensures
        match req {
            Err(e) => out_req == req && (!is_fault(e) ==> out_res == answer_for(e)),
            Ok(q) => {
                &&& out_req == Ok::<RequestView, ErrorView>(routed_request(server, q))
                &&& exists|out: Result<ResponseView, Seq<char>>| #[trigger]
                    route_fits(server, q, out) && out_res == settled(
                        out_req,
                        routed(server, q, out),
                        out_res,
                    ) && settle_fits(server, out_req, routed(server, q, out), out_res)
            },
        },
{
    let t = choose|t: Trace| #[trigger]
        fits(server, req, t) && run(server, req, t) == (out_req, out_res);
    let mw = server.middleware@;
    assert forall|j: int| 0 <= j < t.pre.len() implies #[trigger] t.pre[j] == Ok::<
        MiddleRequestView,
        Seq<char>,
    >(MiddleRequestView::Continue) by {
        assert(pre_call_fits(mw, req, t.pre, j));
    }
    lemma_request_kept(req, t.pre, t.pre.len() as int);
    let (after, res) = before_post(server, req, t);
    assert forall|j: int| 0 <= j < t.post.len() implies #[trigger] t.post[j] == Ok::<
        MiddleResponseView,
        Seq<char>,
    >(MiddleResponseView::Continue) by {
        assert(post_call_fits(mw, after, res, t.post, j));
    }
    lemma_response_kept(res, t.post, t.post.len() as int);
    match req {
        Ok(q) => {
            assert(route_fits(server, q, t.route));
        },
        Err(_) => {},
    }
}

/// A response that a `pre` hook sends is what the `post` hooks are handed,
/// and no route is asked for one; where the `post` hooks then let the
/// pipeline go on, as far as they are asked, it is the result.
pub proof fn law_send_before_routes<State: 'static + Send + Sync>(
    server: Server<State>,
    req: Result<RequestView, ErrorView>,
    t: Trace,
    sent: ResponseView,
)
    requires
        fits(server, req, t),
        pre_flow(t.pre) == FlowView::Send(sent),
    ensures
        before_post(server, req, t).1 == Ok::<ResponseView, ErrorView>(sent),
        (forall|j: int|
            0 <= j < t.post.len() ==> #[trigger] t.post[j] == Ok::<
                MiddleResponseView,
                Seq<char>,
            >(MiddleResponseView::Continue)) ==> run(server, req, t).1 == sent,
{
    if forall|j: int|
        0 <= j < t.post.len() ==> #[trigger] t.post[j] == Ok::<MiddleResponseView, Seq<char>>(
            MiddleResponseView::Continue,
        ) {
        lemma_response_kept(Ok(sent), t.post, t.post.len() as int);
    }
}

/// A response that a `post` hook sends is the result, whatever the routes
/// gave; and a hook that fails, before or after the routes, is answered at
/// once by the error handler, on the request in flight and the message.
pub proof fn law_send_and_failure<State: 'static + Send + Sync>(
    server: Server<State>,
    req: Result<RequestView, ErrorView>,
    t: Trace,
)
    requires
        fits(server, req, t),
    ensures
        match pre_flow(t.pre) {
            FlowView::Fault(m) => {
                &&& run(server, req, t) == (
                    request_before(req, t.pre, t.pre.len() as int),
                    t.answer,
                )
                &&& server.error_handler.responds(
                    request_before(req, t.pre, t.pre.len() as int),
                    m,
                    t.answer,
                )
            },
            _ => match post_flow(t.post) {
                FlowView::Send(r) => run(server, req, t).1 == r,
                FlowView::Fault(m) => {
                    &&& run(server, req, t).1 == t.answer
                    &&& server.error_handler.responds(before_post(server, req, t).0, m, t.answer)
                },
                FlowView::Continue => t.post.len() == server.middleware@.len(),
            },
        },
{
}

} // verus!
