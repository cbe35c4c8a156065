//! From a request to its response: the middleware before the routes, the
//! route that answers, the middleware after it, and the response that
//! stands for an error.

use vstd::prelude::*;
use vstd::utf8::encode_utf8;
use crate::content_type::Content;
use crate::error::{
    clone_request_result, request_view, response_view, Error, ErrorView, HandleError,
    HandleErrorView, ParseError,
};
use crate::header::{header_views, HeaderView};
use crate::method::{method_text, Method, MethodView};
use crate::internal::pipeline::{
    before_post, dispatched, fits, lemma_request_before_push, lemma_response_before_push, piped,
    post_call_fits, post_fits, post_flow, pre_call_fits, pre_fits, pre_flow, request_before,
    response_before, route_fits, routed, routed_request, run, settle_fits, settled, Trace,
};
use crate::middleware::{
    flow_after_post, flow_after_pre, post_outcome_view, post_step, pre_outcome_view, pre_step,
    Flow, MiddleRequestView, MiddleResponseView,
};
use crate::request::{parse, parse_request, wants_keep_alive, Reading, ReadingView, Request};
use crate::response::{blank_response, wire, Response, ResponseView};
use crate::route::{find_route, outcome_view, RouteType};
use crate::server::Server;

verus! {

/// Whether an error can be answered with a response: errors of parsing, of
/// handling, and of input or output can.
pub open spec fn answerable(e: ErrorView) -> bool {
    e is Parse || e is Handle || e is Io
}

/// Whether an error stands for a route or a middleware that failed.
pub open spec fn is_fault(e: ErrorView) -> bool {
    e matches ErrorView::Handle(HandleErrorView::Panic(_, _))
}

/// The text that names a parse error in its response.
pub open spec fn parse_error_text(e: ParseError) -> Seq<char> {
    match e {
        ParseError::NoSeparator => "No separator"@,
        ParseError::NoMethod => "No method"@,
        ParseError::NoPath => "No path"@,
        ParseError::NoVersion => "No HTTP version"@,
        ParseError::NoRequestLine => "No request line"@,
        ParseError::InvalidQuery => "Invalid query"@,
        ParseError::InvalidHeader => "Invalid header"@,
        ParseError::InvalidMethod => "Invalid method"@,
    }
}

/// A response with a status and a text, and nothing else of its own.
pub open spec fn plain(status: u16, text: Seq<char>) -> ResponseView {
    ResponseView { status, data: encode_utf8(text), ..blank_response() }
}

/// The response for a request that no route serves: status 404 and the
/// plain text `Cannot`, the method and the path.
pub open spec fn not_found_view(m: MethodView, p: Seq<char>) -> ResponseView {
    ResponseView {
        status: 404,
        data: encode_utf8("Cannot "@ + method_text(m) + " "@ + p),
        headers: seq![HeaderView { name: "Content-Type"@, value: "text/plain"@ }],
        ..blank_response()
    }
}

/// The response that stands for an error, but for a route or middleware
/// that failed: 400 and the name of the violation for a parse error, 404 for
/// a request that no route serves, 500 and the message for an error of input
/// or output.
pub open spec fn answer_for(e: ErrorView) -> ResponseView {
    match e {
        ErrorView::Parse(p) => plain(400, parse_error_text(p)),
        ErrorView::Handle(HandleErrorView::NotFound(m, p)) => not_found_view(m, p),
        ErrorView::Io(msg) => plain(500, msg),
        _ => blank_response(),
    }
}

/// Every parse error is answered with status 400, a request that no
/// route serves with status 404 and a body that holds its method and path,
/// and an error of input or output with status 500 and its message.
pub proof fn law_answer_status(e: ErrorView)
    ensures
        e is Parse ==> answer_for(e).status == 400,
        e matches ErrorView::Handle(HandleErrorView::NotFound(m, p)) ==> answer_for(e).status
            == 404 && answer_for(e).data == encode_utf8("Cannot "@ + method_text(m) + " "@ + p),
        e matches ErrorView::Io(msg) ==> answer_for(e).status == 500 && answer_for(e).data
            == encode_utf8(msg),
{
}

/// The response for a parse error.
pub fn parse_error_response(e: ParseError) -> (r: Response)
    ensures
        r@ == plain(400, parse_error_text(e)),
{
    let text = match e {
        ParseError::NoSeparator => "No separator",
        ParseError::NoMethod => "No method",
        ParseError::NoPath => "No path",
        ParseError::NoVersion => "No HTTP version",
        ParseError::NoRequestLine => "No request line",
        ParseError::InvalidQuery => "Invalid query",
        ParseError::InvalidHeader => "Invalid header",
        ParseError::InvalidMethod => "Invalid method",
    };
    Response::new().status(400).text(text)
}

/// The response for a request that no route serves.
pub fn not_found_response(method: &Method, path: &str) -> (r: Response)
    ensures
        r@ == not_found_view(method@, path@),
{
    let mut text = "Cannot ".to_owned();
    let name = method.to_string();
    text.append(name.as_str());
    text.append(" ");
    text.append(path);
    let r = Response::new().status(404).text(text.as_str()).content(Content::TXT);
    assert(r@.headers =~= not_found_view(method@, path@).headers);
    r
}

/// The response that stands for an error. For a route or a middleware
/// that failed, it is one that the server's error handler gives for the
/// request and the message that the error holds.
pub fn error_response<State: 'static + Send + Sync>(err: &Error, server: &Server<State>) -> (r:
    Response)
    requires
        answerable(err@),
    ensures
        !is_fault(err@) ==> r@ == answer_for(err@),
        err@ matches ErrorView::Handle(HandleErrorView::Panic(req, message))
            ==> server.error_handler.responds(*req, message, r@),
{
    match err {
        Error::Parse(e) => parse_error_response(*e),
        Error::Handle(e) => match &**e {
            HandleError::NotFound(method, path) => not_found_response(method, path.as_str()),
            HandleError::Panic(r, e) => server.error_handler.respond(r, e.as_str()),
        },
        Error::Io(e) => Response::new().status(500).text(e.as_str()),
        _ => Response::new(),
    }
}

/// What a route's handler gave, as the pipeline holds it: the response, or
/// the error for a handler that failed on this request.
pub fn route_outcome(req: &Request, outcome: Result<Response, String>) -> (r: Result<
    Response,
    Error,
>)
    ensures
        match outcome {
            Ok(x) => r matches Ok(y) && y == x,
            Err(m) => r matches Err(e) && e@ == ErrorView::Handle(
                HandleErrorView::Panic(Box::new(Ok(req@)), m@),
            ),
        },
        response_view(r) == dispatched(req@, outcome_view(outcome)),
{
    match outcome {
        Ok(x) => Ok(x),
        Err(m) => Err(Error::Handle(Box::new(HandleError::Panic(Box::new(Ok(req.clone())), m)))),
    }
}

/// Has the route that answers a request handle it. The parameters that the
/// route's pattern takes from the path are put into the request first. A
/// handler that fails gives the error `Panic` with the request and the
/// message, and so does a route that takes the shared state while the server
/// has none. A request that no route serves is left as it is, and gives the
/// error `NotFound` with its method and path.
pub fn handle_route<State: 'static + Send + Sync>(req: &mut Request, this: &Server<State>) -> (r:
    Result<Response, Error>)
    ensures
        final(req)@ == routed_request(*this, old(req)@),
        exists|out: Result<ResponseView, Seq<char>>| #[trigger]
            route_fits(*this, old(req)@, out) && response_view(r) == routed(
                *this,
                old(req)@,
                out,
            ),
{
    match find_route(&this.routes, &req.method, req.path.as_str()) {
        Some((i, params)) => {
            req.path_params = params;
            assert(req@ == routed_request(*this, old(req)@));
            let outcome = match &this.routes[i].handler {
                RouteType::Stateless(h) => h.value.call(req),
                RouteType::Stateful(h) => match &this.state {
                    Some(state) => h.value.call(state, req),
                    None => Err("State not initialized".to_owned()),
                },
            };
            let ghost out = outcome_view(outcome);
            let r = route_outcome(req, outcome);
            assert(route_fits(*this, old(req)@, out));
            assert(response_view(r) == routed(*this, old(req)@, out));
            r
        },
        None => {
            let r = Err(
                Error::Handle(
                    Box::new(HandleError::NotFound(req.method.clone(), req.path.clone())),
                ),
            );
            let ghost out = Err::<ResponseView, Seq<char>>(Seq::empty());
            assert(route_fits(*this, old(req)@, out));
            assert(response_view(r) == routed(*this, old(req)@, out));
            r
        },
    }
}

/// The response for a middleware that failed with the message `message`:
/// one that the server's error handler gives for this request and message.
pub fn fault_response<State: 'static + Send + Sync>(
    req: &Result<Request, Error>,
    message: String,
    server: &Server<State>,
) -> (r: Response)
    ensures
        server.error_handler.responds(request_view(*req), message@, r@),
{
    let err = Error::Handle(Box::new(HandleError::Panic(Box::new(clone_request_result(req)), message)));
    error_response(&err, server)
}

/// The response for what the pipeline holds after its phases: the response
/// itself, or the one that stands for the error. The error of the request
/// goes before one of handling.
pub fn settle<State: 'static + Send + Sync>(
    req: &Result<Request, Error>,
    res: Result<Response, Error>,
    server: &Server<State>,
) -> (r: Response)
    requires
        req matches Err(e) ==> answerable(e@),
        req is Ok ==> (res matches Err(e) ==> answerable(e@)),
    ensures
        res matches Ok(x) ==> r == x,
        settle_fits(*server, request_view(*req), response_view(res), r@),
        r@ == settled(request_view(*req), response_view(res), r@),
{
    match res {
        Ok(x) => x,
        Err(e) => match req {
            Err(first) => error_response(first, server),
            Ok(_) => error_response(&e, server),
        },
    }
}

/// Takes a request, as read or as the error in its place, through the
/// pipeline. The middleware runs from the last attached to the first.
/// Before the routes, a middleware may replace the request or send a
/// response at once, which skips the rest of the middleware and the routes.
/// Then the route answers. After the routes, a middleware may replace the
/// response or send one at once. A middleware that fails is answered by the
/// error handler at once. An error that is left at the end is answered as
/// `settle` says. The result is the request as it left the pipeline, and
/// the response. An error in place of the request leaves the pipeline as it
/// entered, unless a middleware put a request in its place.
pub fn get_response<State: 'static + Send + Sync>(
    req: Result<Request, Error>,
    server: &Server<State>,
) -> (out: (Result<Request, Error>, Response))
    requires
        req matches Err(e) ==> answerable(e@),
    ensures
        piped(*server, request_view(req), request_view(out.0), out.1@),
        out.0 is Err ==> request_view(out.0) == request_view(req),
{
    let ghost reqv = request_view(req);
    let (mut cur, flow, Ghost(pre)) = pre_phase(req, server);
    let ghost mut route: Result<ResponseView, Seq<char>> = Err(Seq::empty());
    let res: Result<Response, Error>;
    match flow {
        Flow::Fault(message) => {
            let r = fault_response(&cur, message, server);
            proof {
                let t = Trace { pre, route, post: Seq::empty(), answer: r@ };
                assert(fits(*server, reqv, t));
                assert(run(*server, reqv, t) == (request_view(cur), r@));
            }
            return (cur, r);
        },
        Flow::Send(r) => {
            res = Ok(r);
        },
        Flow::Continue => {
            match &mut cur {
                Ok(q) => {
                    let ghost before = q@;
                    res = handle_route(q, server);
                    proof {
                        route = choose|out: Result<ResponseView, Seq<char>>| #[trigger]
                            route_fits(*server, before, out) && response_view(res) == routed(
                                *server,
                                before,
                                out,
                            );
                    }
                },
                Err(_) => {
                    res = Err(Error::NoResponse);
                },
            }
        },
    }
    let ghost after = request_view(cur);
    let ghost first = response_view(res);
    proof {
        let t = Trace { pre, route, post: Seq::empty(), answer: arbitrary() };
        assert(before_post(*server, reqv, t) == (after, first));
    }
    let (res, flow, Ghost(post)) = post_phase(&cur, res, server);
    let ghost t = Trace { pre, route, post, answer: arbitrary() };
    assert(before_post(*server, reqv, t) == (after, first));
    match flow {
        Flow::Send(r) => {
            proof {
                assert(fits(*server, reqv, t));
                assert(run(*server, reqv, t) == (after, r@));
            }
            (cur, r)
        },
        Flow::Fault(message) => {
            let r = fault_response(&cur, message, server);
            proof {
                let t = Trace { pre, route, post, answer: r@ };
                assert(before_post(*server, reqv, t) == (after, first));
                assert(fits(*server, reqv, t));
                assert(run(*server, reqv, t) == (after, r@));
            }
            (cur, r)
        },
        Flow::Continue => {
            let r = settle(&cur, res, server);
            proof {
                let t = Trace { pre, route, post, answer: r@ };
                assert(before_post(*server, reqv, t) == (after, first));
                assert(fits(*server, reqv, t));
                assert(run(*server, reqv, t) == (after, r@));
            }
            (cur, r)
        },
    }
}

/// Asks the `pre` hooks, from the middleware attached last to the one
/// attached first, until one does not let the pipeline go on.
fn pre_phase<State: 'static + Send + Sync>(req: Result<Request, Error>, server: &Server<State>) -> (out:
    (Result<Request, Error>, Flow, Ghost<Seq<Result<MiddleRequestView, Seq<char>>>>))
    ensures
        pre_fits(server.middleware@, request_view(req), out.2@),
        request_view(out.0) == request_before(request_view(req), out.2@, out.2@.len() as int),
        out.1@ == pre_flow(out.2@),
        out.0 is Err ==> request_view(out.0) == request_view(req),
{
    let ghost reqv = request_view(req);
    let ghost mw = server.middleware@;
    let n = server.middleware.len();
    let mut cur = req;
    let ghost mut outs: Seq<Result<MiddleRequestView, Seq<char>>> = Seq::empty();
    let mut i: usize = n;
    while i > 0
        invariant
            mw == server.middleware@,
            reqv == request_view(req),
            n == mw.len(),
            i <= n,
            outs.len() == n - i,
            forall|k: int| 0 <= k < outs.len() ==> #[trigger] pre_call_fits(mw, reqv, outs, k),
            forall|k: int| 0 <= k < outs.len() ==> flow_after_pre(#[trigger] outs[k]) is Continue,
            request_view(cur) == request_before(reqv, outs, outs.len() as int),
            cur is Err ==> request_view(cur) == reqv,
        decreases i,
    {
        i = i - 1;
        let ghost handed = request_view(cur);
        let outcome = server.middleware[i].pre(&cur);
        let ghost given = pre_outcome_view(outcome);
        let flow = pre_step(&mut cur, outcome);
        proof {
            let more = outs.push(given);
            assert(mw[mw.len() - 1 - outs.len()].pre_gives(handed, given));
            assert forall|k: int| 0 <= k < more.len() implies #[trigger] pre_call_fits(
                mw,
                reqv,
                more,
                k,
            ) by {
                lemma_request_before_push(reqv, outs, given, k);
                if k < outs.len() {
                    assert(pre_call_fits(mw, reqv, outs, k));
                }
            }
            lemma_request_before_push(reqv, outs, given, outs.len() as int);
            outs = more;
        }
        match flow {
            Flow::Continue => {},
            stop => {
                return (cur, stop, Ghost(outs));
            },
        }
    }
    (cur, Flow::Continue, Ghost(outs))
}

/// Asks the `post` hooks, from the middleware attached last to the one
/// attached first, until one does not let the pipeline go on.
fn post_phase<State: 'static + Send + Sync>(
    req: &Result<Request, Error>,
    res: Result<Response, Error>,
    server: &Server<State>,
) -> (out: (Result<Response, Error>, Flow, Ghost<Seq<Result<MiddleResponseView, Seq<char>>>>))
    ensures
        post_fits(server.middleware@, request_view(*req), response_view(res), out.2@),
        response_view(out.0) == response_before(
            response_view(res),
            out.2@,
            out.2@.len() as int,
        ),
        out.1@ == post_flow(out.2@),
        out.0 is Err ==> response_view(out.0) == response_view(res),
{
    let ghost reqv = request_view(*req);
    let ghost resv = response_view(res);
    let ghost mw = server.middleware@;
    let n = server.middleware.len();
    let mut cur = res;
    let ghost mut outs: Seq<Result<MiddleResponseView, Seq<char>>> = Seq::empty();
    let mut i: usize = n;
    while i > 0
        invariant
            mw == server.middleware@,
            reqv == request_view(*req),
            resv == response_view(res),
            n == mw.len(),
            i <= n,
            outs.len() == n - i,
            forall|k: int|
                0 <= k < outs.len() ==> #[trigger] post_call_fits(mw, reqv, resv, outs, k),
            forall|k: int| 0 <= k < outs.len() ==> flow_after_post(#[trigger] outs[k]) is Continue,
            response_view(cur) == response_before(resv, outs, outs.len() as int),
            cur is Err ==> response_view(cur) == resv,
        decreases i,
    {
        i = i - 1;
        let ghost handed = response_view(cur);
        let outcome = server.middleware[i].post(req, &cur);
        let ghost given = post_outcome_view(outcome);
        let flow = post_step(&mut cur, outcome);
        proof {
            let more = outs.push(given);
            assert(mw[mw.len() - 1 - outs.len()].post_gives(reqv, handed, given));
            assert forall|k: int| 0 <= k < more.len() implies #[trigger] post_call_fits(
                mw,
                reqv,
                resv,
                more,
                k,
            ) by {
                lemma_response_before_push(resv, outs, given, k);
                if k < outs.len() {
                    assert(post_call_fits(mw, reqv, resv, outs, k));
                }
            }
            lemma_response_before_push(resv, outs, given, outs.len() as int);
            outs = more;
        }
        match flow {
            Flow::Continue => {},
            stop => {
                return (cur, stop, Ghost(outs));
            },
        }
    }
    (cur, Flow::Continue, Ghost(outs))
}

/// Runs the hooks for a response that was written, from the last attached
/// middleware to the first.
pub fn end_phase<State: 'static + Send + Sync>(
    req: &Result<Request, Error>,
    res: &Response,
    server: &Server<State>,
) {
    let mut i: usize = server.middleware.len();
    while i > 0
        invariant
            i <= server.middleware@.len(),
        decreases i,
    {
        i = i - 1;
        server.middleware[i].end(req, res);
    }
}

/// One connection: the bytes that were received and not yet used, and the
/// address of the client.
pub struct Connection {
    /// Bytes that were received and not yet used.
    pub buffer: Vec<u8>,
    /// Address of the client.
    pub address: String,
}

/// What is to be done next on a connection.
pub enum Step {
    /// Read more bytes, and hand them over with `feed`.
    Read,
    /// Write `bytes`, which are `response` on the wire; then run the hooks
    /// for a written response on `request` and `response`; then go on with
    /// the connection if `keep_open` says so, and shut it down if not.
    Write { bytes: Vec<u8>, request: Result<Request, Error>, response: Response, keep_open: bool },
    /// Shut the connection down.
    Close,
}

/// Whether a connection stays open after a response: the request must let
/// it, and the response must not ask for the close.
pub open spec fn stays_open(keep_alive: bool, close: bool) -> bool {
    keep_alive && !close
}

/// A response that asks for the close ends the connection, whatever the
/// request says; without that, the request decides.
pub proof fn law_close_flag_wins(keep_alive: bool, close: bool)
    ensures
        close ==> !stays_open(keep_alive, close),
        !close ==> stays_open(keep_alive, close) == keep_alive,
{
}

impl Connection {
    /// A connection on which nothing was received yet.
    pub fn new(address: &str) -> (c: Connection)
        ensures
            c.buffer@ == Seq::<u8>::empty(),
            c.address@ == address@,
    {
        Connection { buffer: Vec::new(), address: address.to_owned() }
    }

    /// Takes in bytes that were received.
    pub fn feed(&mut self, bytes: &Vec<u8>)
        ensures
            final(self).buffer@ == old(self).buffer@ + bytes@,
            final(self).address == old(self).address,
    {
        let mut more = bytes.clone();
        self.buffer.append(&mut more);
    }

    /// Decides what is to be done next. `eof` says that the peer will send
    /// no more. While the bytes received hold no whole request, more are to
    /// be read. Once the peer has closed, or the stream broke off, the
    /// connection is shut down without a response. Else there is a request,
    /// or a parse error in its place: it goes through the pipeline, its
    /// bytes leave the buffer, and the response that the pipeline gives is to
    /// be written, with the request as the pipeline left it. The
    /// connection stays open after that if a request was read that lets it,
    /// and the response does not ask for the close.
    pub fn step<State: 'static + Send + Sync>(&mut self, eof: bool, server: &Server<State>) -> (r:
        Step)
        ensures
            final(self).address == old(self).address,
            match parse(old(self).buffer@, eof, old(self).address@) {
                ReadingView::Incomplete => r is Read && final(self).buffer@ == old(self).buffer@,
                ReadingView::Closed => r is Close,
                ReadingView::Failed(e) => if e is Stream {
                    r is Close
                } else {
                    &&& r matches Step::Write { bytes, request, response, keep_open }
                    &&& !keep_open
                    &&& bytes@ == wire(response@, header_views(server.default_headers@))
                    &&& piped(*server, Err(e), request_view(request), response@)
                    &&& server.middleware@.len() == 0 ==> response@ == answer_for(e)
                },
                ReadingView::Complete(q, used) => {
                    &&& r matches Step::Write { bytes, request, response, keep_open }
                    &&& keep_open == stays_open(wants_keep_alive(q), response@.close)
                    &&& bytes@ == wire(response@, header_views(server.default_headers@))
                    &&& piped(*server, Ok(q), request_view(request), response@)
                    &&& final(self).buffer@ == old(self).buffer@.skip(used)
                },
            },
    {
        let reading = parse_request(&self.buffer, eof, self.address.as_str());
        let (req, keep_alive) = match reading {
            Reading::Incomplete => {
                return Step::Read;
            },
            Reading::Closed => {
                return Step::Close;
            },
            Reading::Failed(e) => {
                match &e {
                    Error::Parse(_) => {},
                    _ => {
                        return Step::Close;
                    },
                }
                (Err(e), false)
            },
            Reading::Complete(q, used) => {
                let rest = crate::bytes::slice_bytes(&self.buffer, used, self.buffer.len());
                assert(rest@ == old(self).buffer@.skip(used as int));
                self.buffer = rest;
                let keep_alive = q.keep_alive();
                (Ok(q), keep_alive)
            },
        };
        let (request, response) = get_response(req, server);
        let bytes = response.to_bytes(&server.default_headers);
        let keep_open = keep_alive && !response.close;
        Step::Write { bytes, request, response, keep_open }
    }
}

} // verus!
