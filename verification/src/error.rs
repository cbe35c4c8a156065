//! Errors that can occur while starting the server, reading from a
//! connection, parsing a request and handling it.

use vstd::prelude::*;
use crate::method::{Method, MethodView};
use crate::request::{Request, RequestView};
use crate::response::{Response, ResponseView};

verus! {

/// Errors that can occur while starting the server.
#[derive(Debug, Clone, Copy, PartialEq, Eq, Structural)]
pub enum StartupError {
    /// The IP address specified is invalid.
    InvalidIp,
    /// No state was specified, but a route requires it.
    NoState,
    /// The socket timeout specified is invalid (must be greater than 0).
    InvalidSocketTimeout,
}

/// Errors that can occur while parsing the HTTP of a request.
#[derive(Debug, Clone, Copy, PartialEq, Eq, Structural)]
pub enum ParseError {
    /// No `\r\n\r\n` found in the request to part the head from the body.
    NoSeparator,
    /// No method found in the request line.
    NoMethod,
    /// No path found in the request line.
    NoPath,
    /// No version found in the request line.
    NoVersion,
    /// No request line found.
    NoRequestLine,
    /// Invalid query in the path.
    InvalidQuery,
    /// Invalid method in the request line.
    InvalidMethod,
    /// Invalid header.
    InvalidHeader,
}

/// Errors that can occur while reading from or writing to a stream.
#[derive(Debug, Clone, Copy, PartialEq, Eq, Structural)]
pub enum StreamError {
    /// The stream ended unexpectedly.
    UnexpectedEof,
}

/// Errors that can occur at startup, on a connection, while parsing a
/// request and while handling it.
#[derive(Debug, PartialEq, Eq)]
pub enum Error {
    /// Error while starting the server.
    Startup(StartupError),
    /// Error on the stream.
    Stream(StreamError),
    /// Error while handling a request.
    Handle(Box<HandleError>),
    /// Error while parsing a request.
    Parse(ParseError),
    /// Error of input or output, with its message.
    Io(String),
    /// No response exists.
    NoResponse,
}

/// Errors that can arise while handling a request.
#[derive(Debug)]
pub enum HandleError {
    /// No route matches the method and path.
    NotFound(Method, String),
    /// A route or a middleware failed while it ran: what had been read of
    /// the request, and the message of the failure.
    Panic(Box<Result<Request, Error>>, String),
}

/// What an error holds.
pub enum ErrorView {
    Startup(StartupError),
    Stream(StreamError),
    Handle(HandleErrorView),
    Parse(ParseError),
    Io(Seq<char>),
    NoResponse,
}

/// What a handling error holds.
pub enum HandleErrorView {
    NotFound(MethodView, Seq<char>),
    Panic(Box<Result<RequestView, ErrorView>>, Seq<char>),
}

/// The view of an error.
pub open spec fn error_view(e: Error) -> ErrorView
    decreases e,
{
    match e {
        Error::Startup(x) => ErrorView::Startup(x),
        Error::Stream(x) => ErrorView::Stream(x),
        Error::Handle(h) => ErrorView::Handle(handle_error_view(*h)),
        Error::Parse(x) => ErrorView::Parse(x),
        Error::Io(s) => ErrorView::Io(s@),
        Error::NoResponse => ErrorView::NoResponse,
    }
}

/// The view of a handling error.
pub open spec fn handle_error_view(h: HandleError) -> HandleErrorView
    decreases h,
{
    match h {
        HandleError::NotFound(m, p) => HandleErrorView::NotFound(m@, p@),
        HandleError::Panic(r, s) => HandleErrorView::Panic(
            Box::new(
                match *r {
                    Ok(q) => Ok(q@),
                    Err(e) => Err(error_view(e)),
                },
            ),
            s@,
        ),
    }
}

/// The view of a request that was read, or of the error in its place.
pub open spec fn request_view(r: Result<Request, Error>) -> Result<RequestView, ErrorView> {
    match r {
        Ok(q) => Ok(q@),
        Err(e) => Err(error_view(e)),
    }
}

/// The view of a response, or of the error in its place.
pub open spec fn response_view(r: Result<Response, Error>) -> Result<ResponseView, ErrorView> {
    match r {
        Ok(q) => Ok(q@),
        Err(e) => Err(error_view(e)),
    }
}

impl View for Error {
    type V = ErrorView;

    open spec fn view(&self) -> ErrorView {
        error_view(*self)
    }
}

impl View for HandleError {
    type V = HandleErrorView;

    open spec fn view(&self) -> HandleErrorView {
        handle_error_view(*self)
    }
}

/// A copy of an error.
pub fn clone_error(e: &Error) -> (r: Error)
    ensures
        r@ == e@,
    decreases e,
{
    match e {
        Error::Startup(x) => Error::Startup(*x),
        Error::Stream(x) => Error::Stream(*x),
        Error::Handle(h) => Error::Handle(Box::new(clone_handle_error(h))),
        Error::Parse(x) => Error::Parse(*x),
        Error::Io(s) => Error::Io(s.clone()),
        Error::NoResponse => Error::NoResponse,
    }
}

/// A copy of a handling error.
pub fn clone_handle_error(h: &HandleError) -> (r: HandleError)
    ensures
        r@ == h@,
    decreases h,
{
    match h {
        HandleError::NotFound(m, p) => HandleError::NotFound(m.clone(), p.clone()),
        HandleError::Panic(r, s) => {
            let inner = match &**r {
                Ok(q) => Ok(q.clone()),
                Err(e) => Err(clone_error(e)),
            };
            HandleError::Panic(Box::new(inner), s.clone())
        },
    }
}

/// A copy of a request that was read, or of the error in its place.
pub fn clone_request_result(r: &Result<Request, Error>) -> (c: Result<Request, Error>)
    ensures
        request_view(c) == request_view(*r),
{
    match r {
        Ok(q) => Ok(q.clone()),
        Err(e) => Err(clone_error(e)),
    }
}

impl Clone for Error {
    fn clone(&self) -> (r: Self)
        ensures
            r@ == self@,
    {
        clone_error(self)
    }
}

impl Clone for HandleError {
    fn clone(&self) -> (r: Self)
        ensures
            r@ == self@,
    {
        clone_handle_error(self)
    }
}

impl PartialEq for HandleError {
    fn eq(&self, other: &Self) -> (r: bool) {
        match (self, other) {
            (
                HandleError::NotFound(left_method, left_path),
                HandleError::NotFound(right_method, right_path),
            ) => left_method.is(right_method) && *left_path == *right_path,
            (HandleError::Panic(_, left_message), HandleError::Panic(_, right_message)) => {
                *left_message == *right_message
            },
            _ => false,
        }
    }
}

impl Eq for HandleError {

}

impl vstd::std_specs::cmp::PartialEqSpecImpl for HandleError {
    open spec fn obeys_eq_spec() -> bool {
        true
    }

    /// Two handling errors are equal when both are `NotFound` and agree on
    /// method and path, or both are `Panic` and agree on the message; the
    /// request is left aside.
    open spec fn eq_spec(&self, other: &Self) -> bool {
        match (self, other) {
            (
                HandleError::NotFound(left_method, left_path),
                HandleError::NotFound(right_method, right_path),
            ) => left_method@ == right_method@ && left_path@ == right_path@,
            (HandleError::Panic(_, left_message), HandleError::Panic(_, right_message)) => {
                left_message@ == right_message@
            },
            _ => false,
        }
    }
}

impl From<StartupError> for Error {
    fn from(e: StartupError) -> (r: Error) {
        Error::Startup(e)
    }
}

impl vstd::std_specs::convert::FromSpecImpl<StartupError> for Error {
    open spec fn obeys_from_spec() -> bool {
        true
    }

    open spec fn from_spec(e: StartupError) -> Error {
        Error::Startup(e)
    }
}

impl From<StreamError> for Error {
    fn from(e: StreamError) -> (r: Error) {
        Error::Stream(e)
    }
}

impl vstd::std_specs::convert::FromSpecImpl<StreamError> for Error {
    open spec fn obeys_from_spec() -> bool {
        true
    }

    open spec fn from_spec(e: StreamError) -> Error {
        Error::Stream(e)
    }
}

impl From<ParseError> for Error {
    fn from(e: ParseError) -> (r: Error) {
        Error::Parse(e)
    }
}

impl vstd::std_specs::convert::FromSpecImpl<ParseError> for Error {
    open spec fn obeys_from_spec() -> bool {
        true
    }

    open spec fn from_spec(e: ParseError) -> Error {
        Error::Parse(e)
    }
}

impl From<HandleError> for Error {
    fn from(e: HandleError) -> (r: Error) {
        Error::Handle(Box::new(e))
    }
}

impl vstd::std_specs::convert::FromSpecImpl<HandleError> for Error {
    open spec fn obeys_from_spec() -> bool {
        true
    }

    open spec fn from_spec(e: HandleError) -> Error {
        Error::Handle(Box::new(e))
    }
}

} // verus!
