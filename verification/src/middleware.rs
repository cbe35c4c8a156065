//! Middleware: code that runs before and after the routes.

use vstd::prelude::*;
use crate::error::{request_view, response_view, Error, ErrorView};
use crate::request::{Request, RequestView};
use crate::response::{Response, ResponseView};

verus! {

/// What a middleware decides after the routes.
#[derive(Debug)]
pub enum MiddleResponse {
    /// Leave the response as it is.
    Continue,
    /// Put this response in place of the one in flight, and go on.
    Add(Response),
    /// Send this response at once.
    Send(Response),
}

/// What a middleware decides before the routes.
#[derive(Debug)]
pub enum MiddleRequest {
    /// Leave the request as it is.
    Continue,
    /// Put this request in place of the one in flight, and go on.
    Add(Request),
    /// Send this response at once.
    Send(Response),
}

/// What a decision after the routes holds.
pub enum MiddleResponseView {
    Continue,
    Add(ResponseView),
    Send(ResponseView),
}

/// What a decision before the routes holds.
pub enum MiddleRequestView {
    Continue,
    Add(RequestView),
    Send(ResponseView),
}

impl View for MiddleResponse {
    type V = MiddleResponseView;

    open spec fn view(&self) -> MiddleResponseView {
        match self {
            MiddleResponse::Continue => MiddleResponseView::Continue,
            MiddleResponse::Add(r) => MiddleResponseView::Add(r@),
            MiddleResponse::Send(r) => MiddleResponseView::Send(r@),
        }
    }
}

impl View for MiddleRequest {
    type V = MiddleRequestView;

    open spec fn view(&self) -> MiddleRequestView {
        match self {
            MiddleRequest::Continue => MiddleRequestView::Continue,
            MiddleRequest::Add(r) => MiddleRequestView::Add(r@),
            MiddleRequest::Send(r) => MiddleRequestView::Send(r@),
        }
    }
}

/// The hooks of a middleware. Each hook of `pre` and `post` answers with its
/// decision, or with `Err` and the message of a failure that stopped it.
pub trait Middleware: Send + Sync {
    /// Whether `out` is something that the hook `pre` of this middleware
    /// may give on `req`. A middleware that says nothing of its hook may
    /// give anything.
    open spec fn pre_gives(
        &self,
        req: Result<RequestView, ErrorView>,
        out: Result<MiddleRequestView, Seq<char>>,
    ) -> bool {
        true
    }

    /// Whether `out` is something that the hook `post` of this middleware
    /// may give on `req` and `res`. A middleware that says nothing of its
    /// hook may give anything.
    open spec fn post_gives(
        &self,
        req: Result<RequestView, ErrorView>,
        res: Result<ResponseView, ErrorView>,
        out: Result<MiddleResponseView, Seq<char>>,
    ) -> bool {
        true
    }

    /// Runs before the routes, on the request as read or on the error in
    /// its place.
    fn pre(&self, req: &Result<Request, Error>) -> (out: Result<MiddleRequest, String>)
        ensures
            self.pre_gives(request_view(*req), pre_outcome_view(out)),
    ;

    /// Runs after the routes, on the request and on the response or the
    /// error in its place.
    fn post(&self, req: &Result<Request, Error>, res: &Result<Response, Error>) -> (out: Result<
        MiddleResponse,
        String,
    >)
        ensures
            self.post_gives(request_view(*req), response_view(*res), post_outcome_view(out)),
    ;

    /// Runs after the response was written.
    fn end(&self, req: &Result<Request, Error>, res: &Response) {
    }
}

/// How the pipeline goes on after one hook.
pub enum Flow {
    /// With the next hook, or the next phase.
    Continue,
    /// By sending this response and leaving the phase.
    Send(Response),
    /// By answering for a failure with this message.
    Fault(String),
}

/// What a step of the pipeline holds.
pub enum FlowView {
    Continue,
    Send(ResponseView),
    Fault(Seq<char>),
}

impl View for Flow {
    type V = FlowView;

    open spec fn view(&self) -> FlowView {
        match self {
            Flow::Continue => FlowView::Continue,
            Flow::Send(r) => FlowView::Send(r@),
            Flow::Fault(m) => FlowView::Fault(m@),
        }
    }
}

/// The view of what a `pre` hook gave.
pub open spec fn pre_outcome_view(o: Result<MiddleRequest, String>) -> Result<
    MiddleRequestView,
    Seq<char>,
> {
    match o {
        Ok(x) => Ok(x@),
        Err(m) => Err(m@),
    }
}

/// The view of what a `post` hook gave.
pub open spec fn post_outcome_view(o: Result<MiddleResponse, String>) -> Result<
    MiddleResponseView,
    Seq<char>,
> {
    match o {
        Ok(x) => Ok(x@),
        Err(m) => Err(m@),
    }
}

/// The request in flight after a `pre` hook: the one that the hook put in
/// its place, else the one before.
pub open spec fn request_after(
    req: Result<RequestView, ErrorView>,
    outcome: Result<MiddleRequestView, Seq<char>>,
) -> Result<RequestView, ErrorView> {
    match outcome {
        Ok(MiddleRequestView::Add(q)) => Ok(q),
        _ => req,
    }
}

/// How the pipeline goes on after a `pre` hook.
pub open spec fn flow_after_pre(outcome: Result<MiddleRequestView, Seq<char>>) -> FlowView {
    match outcome {
        Ok(MiddleRequestView::Send(r)) => FlowView::Send(r),
        Ok(_) => FlowView::Continue,
        Err(m) => FlowView::Fault(m),
    }
}

/// The response in flight after a `post` hook: the one that the hook put in
/// its place, else the one before.
pub open spec fn response_after(
    res: Result<ResponseView, ErrorView>,
    outcome: Result<MiddleResponseView, Seq<char>>,
) -> Result<ResponseView, ErrorView> {
    match outcome {
        Ok(MiddleResponseView::Add(r)) => Ok(r),
        _ => res,
    }
}

/// How the pipeline goes on after a `post` hook.
pub open spec fn flow_after_post(outcome: Result<MiddleResponseView, Seq<char>>) -> FlowView {
    match outcome {
        Ok(MiddleResponseView::Send(r)) => FlowView::Send(r),
        Ok(_) => FlowView::Continue,
        Err(m) => FlowView::Fault(m),
    }
}

/// Takes in what a `pre` hook gave: the request may be replaced, and the
/// result says how the pipeline goes on.
pub fn pre_step(req: &mut Result<Request, Error>, outcome: Result<MiddleRequest, String>) -> (flow:
    Flow)
    ensures
        request_view(*final(req)) == request_after(
            request_view(*old(req)),
            pre_outcome_view(outcome),
        ),
        flow@ == flow_after_pre(pre_outcome_view(outcome)),
{
    match outcome {
        Ok(MiddleRequest::Continue) => Flow::Continue,
        Ok(MiddleRequest::Add(q)) => {
            *req = Ok(q);
            Flow::Continue
        },
        Ok(MiddleRequest::Send(r)) => Flow::Send(r),
        Err(m) => Flow::Fault(m),
    }
}

/// Takes in what a `post` hook gave: the response may be replaced, and the
/// result says how the pipeline goes on.
pub fn post_step(res: &mut Result<Response, Error>, outcome: Result<MiddleResponse, String>) -> (flow:
    Flow)
    ensures
        response_view(*final(res)) == response_after(
            response_view(*old(res)),
            post_outcome_view(outcome),
        ),
        flow@ == flow_after_post(post_outcome_view(outcome)),
{
    match outcome {
        Ok(MiddleResponse::Continue) => Flow::Continue,
        Ok(MiddleResponse::Add(r)) => {
            *res = Ok(r);
            Flow::Continue
        },
        Ok(MiddleResponse::Send(r)) => Flow::Send(r),
        Err(m) => Flow::Fault(m),
    }
}

} // verus!
