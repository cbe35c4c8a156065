//! The server: where it listens, what it serves and how.

use vstd::prelude::*;
use vstd::utf8::encode_utf8;
use std::sync::Arc;
use crate::error::{request_view, Error, ErrorView, StartupError};
use crate::header::{header_views, lemma_header_views_push, Header, HeaderView};
use crate::method::Method;
use crate::middleware::Middleware;
use crate::request::{Request, RequestView};
use crate::response::{blank_response, Response, ResponseView};
use crate::route::{
    any_stateful, needs_state, Handler, Route, RouteType, Slot, StatefulHandler,
};
use crate::text::{
    chars_of, is_number, number, number_of, same_chars, split, split_chars, views,
};

verus! {

/// How long a read or a write on a socket may wait.
#[derive(Debug, Clone, Copy, PartialEq, Eq, Structural)]
pub struct Timeout {
    /// Whole seconds.
    pub secs: u64,
    /// The rest, in nanoseconds.
    pub nanos: u32,
}

/// Makes the response for a route or a middleware that failed.
pub trait ErrorHandler: Send + Sync {
    /// Whether `response` is a response that this handler may give for a
    /// failure with the message `message` on `req`. A handler that says
    /// nothing of its responses may give any.
    open spec fn responds(
        &self,
        req: Result<RequestView, ErrorView>,
        message: Seq<char>,
        response: ResponseView,
    ) -> bool {
        true
    }

    /// The response for a failure with the message `message`, on the
    /// request as read or on the error in its place.
    fn respond(&self, req: &Result<Request, Error>, message: &str) -> (r: Response)
        ensures
            self.responds(request_view(*req), message@, r@),
    ;
}

/// The handler for failures that a server starts with.
pub struct DefaultErrorHandler;

/// The response that `DefaultErrorHandler` gives for a failure.
pub open spec fn default_error_view(message: Seq<char>) -> ResponseView {
    ResponseView {
        status: 500,
        data: encode_utf8("Internal Server Error :/\nError: "@ + message),
        headers: seq![HeaderView { name: "Content-Type"@, value: "text/plain"@ }],
        ..blank_response()
    }
}

/// The response for a failure with the message `message`: status 500 and a
/// plain text that holds the message.
pub fn default_error_response(message: &str) -> (r: Response)
    ensures
        r@ == default_error_view(message@),
{
    let mut text = "Internal Server Error :/\nError: ".to_owned();
    text.append(message);
    let r = Response::new().status(500).text(text.as_str()).header("Content-Type", "text/plain");
    assert(r@.headers =~= default_error_view(message@).headers);
    r
}

impl ErrorHandler for DefaultErrorHandler {
    open spec fn responds(
        &self,
        req: Result<RequestView, ErrorView>,
        message: Seq<char>,
        response: ResponseView,
    ) -> bool {
        response == default_error_view(message)
    }

    /// Answers with status 500 and a plain text that holds the message,
    /// whatever the request.
    fn respond(&self, req: &Result<Request, Error>, message: &str) -> (r: Response)
        ensures
            r@ == default_error_view(message@),
    {
        default_error_response(message)
    }
}

/// A server.
#[verifier::reject_recursive_types(State)]
pub struct Server<State: 'static + Send + Sync> {
    /// Port to listen on.
    pub port: u16,
    /// IPv4 address to listen on.
    pub ip: [u8; 4],
    /// Size that the buffer for a request starts with.
    pub buff_size: usize,
    /// Routes, in the order of their registration.
    pub routes: Vec<Route<State>>,
    /// Middleware, in the order of its attachment.
    pub middleware: Vec<Box<dyn Middleware>>,
    /// State that is shared with the routes that take it.
    pub state: Option<Arc<State>>,
    /// Makes the response for a route or a middleware that failed.
    pub error_handler: Box<dyn ErrorHandler>,
    /// Headers that go on every response.
    pub default_headers: Vec<Header>,
    /// How long a read or a write on a socket may wait.
    pub socket_timeout: Option<Timeout>,
    /// Whether `start` serves at all.
    pub run: bool,
}

/// The number that one part of a dotted address stands for.
pub open spec fn octet_of(p: Seq<char>) -> Option<u8> {
    if is_number(p) && number(p) <= 255 {
        Some(number(p) as u8)
    } else {
        None
    }
}

/// The IPv4 address that a text stands for: `localhost` is 127.0.0.1, and
/// any other text must be four decimal numbers up to 255, joined by dots.
pub open spec fn ip_of(s: Seq<char>) -> Option<Seq<u8>> {
    let ps = split(s, '.');
    if s == "localhost"@ {
        Some(seq![127u8, 0u8, 0u8, 1u8])
    } else if ps.len() == 4 && octet_of(ps[0]) is Some && octet_of(ps[1]) is Some && octet_of(
        ps[2],
    ) is Some && octet_of(ps[3]) is Some {
        Some(seq![octet_of(ps[0])->0, octet_of(ps[1])->0, octet_of(ps[2])->0, octet_of(ps[3])->0])
    } else {
        None
    }
}

/// The name that the server gives itself in the `Server` header.
pub open spec fn server_name() -> Seq<char> {
    "afire/2.1.0"@
}

/// What keeps a server from starting, if anything: a route that takes the
/// shared state while there is none, or a socket timeout of zero.
pub open spec fn startup_fault<State: 'static + Send + Sync>(s: Server<State>) -> Option<
    StartupError,
> {
    if needs_state(s.routes@) && s.state is None {
        Some(StartupError::NoState)
    } else if s.socket_timeout == Some(Timeout { secs: 0, nanos: 0 }) {
        Some(StartupError::InvalidSocketTimeout)
    } else {
        None
    }
}

/// Reads one part of a dotted address.
pub fn parse_octet(p: &Vec<char>) -> (r: Option<u8>)
    ensures
        r == octet_of(p@),
{
    match number_of(p) {
        Some(n) => if n <= 255 {
            Some(n as u8)
        } else {
            None
        },
        None => None,
    }
}

/// Reads an IPv4 address.
pub fn parse_ip(raw_ip: &str) -> (r: Result<[u8; 4], StartupError>)
    ensures
        match ip_of(raw_ip@) {
            Some(ip) => r matches Ok(a) && a@ == ip,
            None => r == Err::<[u8; 4], StartupError>(StartupError::InvalidIp),
        },
{
    let v = chars_of(raw_ip);
    if same_chars(&v, &chars_of("localhost")) {
        let a: [u8; 4] = [127, 0, 0, 1];
        assert(a@ =~= seq![127u8, 0u8, 0u8, 1u8]);
        return Ok(a);
    }
    let parts = split_chars(&v, '.');
    if parts.len() != 4 {
        return Err(StartupError::InvalidIp);
    }
    proof {
        assert(views(parts@)[0] == parts@[0]@);
        assert(views(parts@)[1] == parts@[1]@);
        assert(views(parts@)[2] == parts@[2]@);
        assert(views(parts@)[3] == parts@[3]@);
    }
    match (
        parse_octet(&parts[0]),
        parse_octet(&parts[1]),
        parse_octet(&parts[2]),
        parse_octet(&parts[3]),
    ) {
        (Some(a), Some(b), Some(c), Some(d)) => {
            let ip: [u8; 4] = [a, b, c, d];
            assert(ip@ =~= seq![a, b, c, d]);
            Ok(ip)
        },
        _ => Err(StartupError::InvalidIp),
    }
}

impl<State: 'static + Send + Sync> Server<State> {
    /// A server for the address `raw_ip` and the port `port`, with no route,
    /// no middleware and no state, a buffer of 1024 bytes, no socket timeout,
    /// the one default header `Server`, and the default answer to failures.
    pub fn new(raw_ip: &str, port: u16) -> (r: Result<Server<State>, StartupError>)
        ensures
            match ip_of(raw_ip@) {
                Some(ip) => {
                    &&& r matches Ok(s)
                    &&& s.ip@ == ip
                    &&& s.port == port
                    &&& s.buff_size == 1024
                    &&& s.routes@.len() == 0
                    &&& s.middleware@.len() == 0
                    &&& s.state is None
                    &&& header_views(s.default_headers@) == seq![
                        HeaderView { name: "Server"@, value: server_name() },
                    ]
                    &&& s.socket_timeout is None
                    &&& s.run
                    &&& forall|
                        req: Result<RequestView, ErrorView>,
                        message: Seq<char>,
                        response: ResponseView,
                    | #[trigger]
                        s.error_handler.responds(req, message, response) <==> response
                            == default_error_view(message)
                },
                None => r matches Err(e) && e == StartupError::InvalidIp,
            },
    {
        let ip = match parse_ip(raw_ip) {
            Ok(ip) => ip,
            Err(e) => {
                return Err(e);
            },
        };
        let mut default_headers: Vec<Header> = Vec::new();
        let h = Header::new("Server", "afire/2.1.0");
        proof {
            lemma_header_views_push(default_headers@, h);
            assert(header_views(default_headers@) =~= Seq::<HeaderView>::empty());
        }
        default_headers.push(h);
        assert(header_views(default_headers@) =~= seq![
            HeaderView { name: "Server"@, value: server_name() },
        ]);
        Ok(
            Server {
                port,
                ip,
                buff_size: 1024,
                routes: Vec::new(),
                middleware: Vec::new(),
                state: None,
                error_handler: Box::new(DefaultErrorHandler),
                default_headers,
                socket_timeout: None,
                run: true,
            },
        )
    }

    /// Sets the size that the buffer for a request starts with.
    pub fn buffer(self, buf: usize) -> (s: Server<State>)
        ensures
            s == (Server { buff_size: buf, ..self }),
    {
        Server { buff_size: buf, ..self }
    }

    /// Adds a header that goes on every response, after those that are
    /// there.
    pub fn default_header(self, key: &str, value: &str) -> (s: Server<State>)
        ensures
            header_views(s.default_headers@) == header_views(self.default_headers@).push(
                HeaderView { name: key@, value: value@ },
            ),
            s == (Server { default_headers: s.default_headers, ..self }),
    {
        let mut headers = self.default_headers;
        let header = Header::new(key, value);
        proof {
            lemma_header_views_push(headers@, header);
        }
        headers.push(header);
        Server { default_headers: headers, ..self }
    }

    /// Sets how long a read or a write on a socket may wait.
    pub fn socket_timeout(self, socket_timeout: Timeout) -> (s: Server<State>)
        ensures
            s == (Server { socket_timeout: Some(socket_timeout), ..self }),
    {
        Server { socket_timeout: Some(socket_timeout), ..self }
    }

    /// Sets the state that is shared with the routes that take it.
    pub fn state(self, state: State) -> (s: Server<State>)
        ensures
            s.state matches Some(shared) && *shared == state,
            s == (Server { state: s.state, ..self }),
    {
        Server { state: Some(Arc::new(state)), ..self }
    }

    /// Sets whether `start` serves at all.
    pub fn set_run(&mut self, run: bool)
        ensures
            *final(self) == (Server { run, ..*old(self) }),
    {
        self.run = run;
    }

    /// Sets what makes the response for a route or a middleware that failed.
    pub fn error_handler(&mut self, res: Box<dyn ErrorHandler>)
        ensures
            *final(self) == (Server { error_handler: res, ..*old(self) }),
    {
        self.error_handler = res;
    }

    /// Registers a route whose handler takes the request alone. It comes
    /// after the routes that are there, and so before them in matching. The
    /// route answers as the handler that was given does.
    pub fn route(&mut self, method: Method, path: &str, handler: Box<dyn Handler>)
        ensures
            final(self).routes@.len() == old(self).routes@.len() + 1,
            final(self).routes@.drop_last() == old(self).routes@,
            final(self).routes@.last().method == method,
            final(self).routes@.last().path@ == crate::path::pattern_parts(path@),
            final(self).routes@.last().handler matches RouteType::Stateless(h) && forall|
                req: RequestView,
                out: Result<ResponseView, Seq<char>>,
            | #[trigger] h.value.gives(req, out) == handler.gives(req, out),
            *final(self) == (Server { routes: final(self).routes, ..*old(self) }),
    {
        let slot = Slot { value: handler };
        self.routes.push(Route::with(method, path, RouteType::Stateless(slot)));
        assert(self.routes@.drop_last() =~= old(self).routes@);
    }

    /// Registers a route whose handler takes the shared state too.
    pub fn stateful_route(
        &mut self,
        method: Method,
        path: &str,
        handler: Box<dyn StatefulHandler<State>>,
    )
        ensures
            final(self).routes@.len() == old(self).routes@.len() + 1,
            final(self).routes@.drop_last() == old(self).routes@,
            final(self).routes@.last().method == method,
            final(self).routes@.last().path@ == crate::path::pattern_parts(path@),
            final(self).routes@.last().handler matches RouteType::Stateful(h) && forall|
                state: Arc<State>,
                req: RequestView,
                out: Result<ResponseView, Seq<char>>,
            | #[trigger] h.value.gives(state, req, out) == handler.gives(state, req, out),
            *final(self) == (Server { routes: final(self).routes, ..*old(self) }),
    {
        let slot = Slot { value: handler };
        self.routes.push(Route::with(method, path, RouteType::Stateful(slot)));
        assert(self.routes@.drop_last() =~= old(self).routes@);
    }

    /// Attaches a middleware. It comes after those that are there, and so
    /// runs before them.
    pub fn attach(&mut self, middleware: Box<dyn Middleware>)
        ensures
            final(self).middleware@ == old(self).middleware@.push(middleware),
            *final(self) == (Server { middleware: final(self).middleware, ..*old(self) }),
    {
        self.middleware.push(middleware);
    }

    /// What `start` is to do: nothing, where the server is set not to run;
    /// else to listen, unless something keeps the server from starting.
    pub fn start_check(&self) -> (r: Result<bool, StartupError>)
        ensures
            r == if !self.run {
                Ok::<bool, StartupError>(false)
            } else {
                match startup_fault(*self) {
                    Some(e) => Err(e),
                    None => Ok(true),
                }
            },
    {
        if !self.run {
            return Ok(false);
        }
        match self.check() {
            Ok(_) => Ok(true),
            Err(e) => Err(e),
        }
    }

    /// Checks that the server can start.
    pub fn check(&self) -> (r: Result<(), StartupError>)
        ensures
            match startup_fault(*self) {
                Some(e) => r == Err::<(), StartupError>(e),
                None => r is Ok,
            },
    {
        if any_stateful(&self.routes) && self.state.is_none() {
            return Err(StartupError::NoState);
        }
        match self.socket_timeout {
            Some(t) => if t.secs == 0 && t.nanos == 0 {
                return Err(StartupError::InvalidSocketTimeout);
            },
            None => {},
        }
        Ok(())
    }
}

} // verus!
