use afire::error::{Error, HandleError, ParseError};
use afire::internal::handle::{
    end_phase, error_response, get_response, handle_route, not_found_response,
    parse_error_response, route_outcome, settle,
};
use afire::middleware::{post_step, pre_step, Flow, MiddleRequest, MiddleResponse, Middleware};
use afire::request::{parse_request, Reading};
use afire::route::{find_route, Handler, Route, StatefulHandler};
use afire::server::{default_error_response, ErrorHandler};
use afire::{Header, Method, Request, Response, Server};
use std::sync::atomic::{AtomicUsize, Ordering};
use std::sync::{Arc, Mutex};

fn request(raw: &str) -> Request {
    match parse_request(&raw.as_bytes().to_vec(), true, "10.0.0.1:4000") {
        Reading::Complete(q, _) => q,
        other => panic!("no request: {:?}", other),
    }
}

fn get(path: &str) -> Request {
    request(&format!("GET {} HTTP/1.1\r\n\r\n", path))
}

struct Says(&'static str);

impl Handler for Says {
    fn call(&self, _req: &Request) -> Result<Response, String> {
        Ok(Response::new().text(self.0))
    }
}

struct Greets;

impl Handler for Greets {
    fn call(&self, req: &Request) -> Result<Response, String> {
        Ok(Response::new().text(&format!("Hello, {}", req.path_param("name").unwrap())))
    }
}

struct Fails;

impl Handler for Fails {
    fn call(&self, _req: &Request) -> Result<Response, String> {
        Err("boom".to_owned())
    }
}

struct Counts;

impl StatefulHandler<u32> for Counts {
    fn call(&self, state: &Arc<u32>, _req: &Request) -> Result<Response, String> {
        Ok(Response::new().text(&format!("{}", **state)))
    }
}

fn server() -> Server<()> {
    Server::<()>::new("localhost", 8080).unwrap()
}

fn text(res: &Response) -> String {
    String::from_utf8(res.data.clone()).unwrap()
}

#[test]
fn the_latest_matching_route_wins() {
    let mut s = server();
    s.route(Method::GET, "/a", Box::new(Says("first")));
    s.route(Method::ANY, "/{x}", Box::new(Says("second")));
    s.route(Method::POST, "/a", Box::new(Says("third")));
    let (_, res) = get_response(Ok(get("/a")), &s);
    assert_eq!(text(&res), "second");
    let (_, res) = get_response(Ok(request("POST /a HTTP/1.1\r\n\r\n")), &s);
    assert_eq!(text(&res), "third");
    s.route(Method::GET, "/a", Box::new(Says("fourth")));
    let (_, res) = get_response(Ok(get("/a")), &s);
    assert_eq!(text(&res), "fourth");
    let (_, res) = get_response(Ok(get("/b")), &s);
    assert_eq!(text(&res), "second");
}

#[test]
fn find_route_gives_index_and_parameters() {
    let routes: Vec<Route<()>> = vec![
        Route::new(Method::GET, "/greet/{name}", Box::new(Greets)),
        Route::new(Method::GET, "/greet/{who}", Box::new(Greets)),
        Route::new(Method::POST, "/greet/{name}", Box::new(Greets)),
    ];
    assert_eq!(
        find_route(&routes, &Method::GET, "/greet/John"),
        Some((1, vec![("who".to_owned(), "John".to_owned())]))
    );
    assert_eq!(
        find_route(&routes, &Method::POST, "/greet/John"),
        Some((2, vec![("name".to_owned(), "John".to_owned())]))
    );
    assert_eq!(find_route(&routes, &Method::PUT, "/greet/John"), None);
    assert_eq!(find_route(&routes, &Method::GET, "/greet"), None);
}

#[test]
fn path_parameters_reach_the_handler() {
    let mut s = server();
    s.route(Method::GET, "/greet/{name}", Box::new(Greets));
    let (req, res) = get_response(Ok(get("/greet/John")), &s);
    assert_eq!(text(&res), "Hello, John");
    assert_eq!(req.unwrap().path_params, vec![("name".to_owned(), "John".to_owned())]);
}

#[test]
fn unresolved_path_is_not_found() {
    let mut s = server();
    s.route(Method::GET, "/a", Box::new(Says("a")));
    let (req, res) = get_response(Ok(request("DELETE /missing/page?x=1 HTTP/1.1\r\n\r\n")), &s);
    assert_eq!(res.status, 404);
    assert_eq!(text(&res), "Cannot DELETE /missing/page");
    assert_eq!(res.headers, vec![Header::new("Content-Type", "text/plain")]);
    assert!(req.unwrap().path_params.is_empty());
    let mut q = get("/nowhere");
    assert_eq!(
        handle_route(&mut q, &s),
        Err(Error::Handle(Box::new(HandleError::NotFound(Method::GET, "/nowhere".to_owned()))))
    );
    assert_eq!(not_found_response(&Method::GET, "/x"), res_404("Cannot GET /x"));
}

fn res_404(body: &str) -> Response {
    Response::new().status(404).text(body).header("Content-Type", "text/plain")
}

#[test]
fn parse_error_is_a_bad_request() {
    let s = server();
    let (req, res) = get_response(Err(Error::Parse(ParseError::NoSeparator)), &s);
    assert_eq!(res, Response::new().status(400).text("No separator"));
    assert_eq!(req, Err(Error::Parse(ParseError::NoSeparator)));
}

#[test]
fn every_parse_error_has_its_text() {
    let cases = [
        (ParseError::NoSeparator, "No separator"),
        (ParseError::NoMethod, "No method"),
        (ParseError::NoPath, "No path"),
        (ParseError::NoVersion, "No HTTP version"),
        (ParseError::NoRequestLine, "No request line"),
        (ParseError::InvalidQuery, "Invalid query"),
        (ParseError::InvalidHeader, "Invalid header"),
        (ParseError::InvalidMethod, "Invalid method"),
    ];
    for (e, t) in cases {
        let res = parse_error_response(e);
        assert_eq!(res.status, 400);
        assert_eq!(text(&res), t);
        assert!(res.headers.is_empty());
    }
}

#[test]
fn io_error_is_a_server_error() {
    let s = server();
    let res = error_response(&Error::Io("disk on fire".to_owned()), &s);
    assert_eq!(res, Response::new().status(500).text("disk on fire"));
}

#[test]
fn handler_that_fails_is_answered() {
    let mut s = server();
    s.route(Method::GET, "/boom", Box::new(Fails));
    let (req, res) = get_response(Ok(get("/boom")), &s);
    assert_eq!(res.status, 500);
    assert_eq!(text(&res), "Internal Server Error :/\nError: boom");
    assert_eq!(res.headers, vec![Header::new("Content-Type", "text/plain")]);
    assert!(req.is_ok());
    assert_eq!(res, default_error_response("boom"));
    let (_, res) = get_response(Ok(get("/other")), &s);
    assert_eq!(res.status, 404);
}

#[test]
fn handler_outcome_becomes_a_result() {
    let q = get("/x");
    assert_eq!(route_outcome(&q, Ok(Response::new().status(201))), Ok(Response::new().status(201)));
    assert_eq!(
        route_outcome(&q, Err("bad".to_owned())),
        Err(Error::Handle(Box::new(HandleError::Panic(Box::new(Ok(get("/x"))), "bad".to_owned()))))
    );
}

struct Custom;

impl ErrorHandler for Custom {
    fn respond(&self, req: &Result<Request, Error>, message: &str) -> Response {
        let path = match req {
            Ok(q) => q.path.clone(),
            Err(_) => "?".to_owned(),
        };
        Response::new().status(503).text(&format!("{} at {}", message, path))
    }
}

#[test]
fn error_handler_can_be_replaced() {
    let mut s = server();
    s.error_handler(Box::new(Custom));
    s.route(Method::GET, "/boom", Box::new(Fails));
    let (_, res) = get_response(Ok(get("/boom")), &s);
    assert_eq!(res, Response::new().status(503).text("boom at /boom"));
}

#[test]
fn stateful_route_takes_the_state() {
    let mut s = Server::<u32>::new("localhost", 8080).unwrap().state(101);
    s.stateful_route(Method::GET, "/n", Box::new(Counts));
    assert_eq!(s.check(), Ok(()));
    let (_, res) = get_response(Ok(get("/n")), &s);
    assert_eq!(text(&res), "101");
}

#[test]
fn stateful_route_without_state_fails() {
    let mut s = Server::<u32>::new("localhost", 8080).unwrap();
    s.stateful_route(Method::GET, "/n", Box::new(Counts));
    let (_, res) = get_response(Ok(get("/n")), &s);
    assert_eq!(res, default_error_response("State not initialized"));
}

struct Tag {
    name: &'static str,
    log: Arc<Mutex<Vec<String>>>,
}

impl Middleware for Tag {
    fn pre(&self, _req: &Result<Request, Error>) -> Result<MiddleRequest, String> {
        self.log.lock().unwrap().push(format!("pre {}", self.name));
        Ok(MiddleRequest::Continue)
    }

    fn post(
        &self,
        _req: &Result<Request, Error>,
        res: &Result<Response, Error>,
    ) -> Result<MiddleResponse, String> {
        self.log.lock().unwrap().push(format!("post {}", self.name));
        match res {
            Ok(r) => Ok(MiddleResponse::Add(r.clone().header("X-Tag", self.name))),
            Err(_) => Ok(MiddleResponse::Continue),
        }
    }

    fn end(&self, _req: &Result<Request, Error>, _res: &Response) {
        self.log.lock().unwrap().push(format!("end {}", self.name));
    }
}

#[test]
fn middleware_runs_from_the_last_attached() {
    let log = Arc::new(Mutex::new(Vec::new()));
    let mut s = server();
    s.route(Method::GET, "/", Box::new(Says("hi")));
    s.attach(Box::new(Tag { name: "one", log: log.clone() }));
    s.attach(Box::new(Tag { name: "two", log: log.clone() }));
    let (req, res) = get_response(Ok(get("/")), &s);
    end_phase(&req, &res, &s);
    assert_eq!(
        *log.lock().unwrap(),
        vec!["pre two", "pre one", "post two", "post one", "end two", "end one"]
    );
    assert_eq!(res.headers, vec![Header::new("X-Tag", "two"), Header::new("X-Tag", "one")]);
    assert_eq!(text(&res), "hi");
}

struct Gate;

impl Middleware for Gate {
    fn pre(&self, req: &Result<Request, Error>) -> Result<MiddleRequest, String> {
        match req {
            Ok(q) if q.path == "/secret" => {
                Ok(MiddleRequest::Send(Response::new().status(403).text("no")))
            }
            Ok(q) if q.path == "/old" => {
                let mut q = q.clone();
                q.path = "/new".to_owned();
                Ok(MiddleRequest::Add(q))
            }
            Ok(q) if q.path == "/trap" => Err("gate broke".to_owned()),
            _ => Ok(MiddleRequest::Continue),
        }
    }

    fn post(
        &self,
        _req: &Result<Request, Error>,
        _res: &Result<Response, Error>,
    ) -> Result<MiddleResponse, String> {
        Ok(MiddleResponse::Continue)
    }
}

struct Seen(Arc<AtomicUsize>);

impl Middleware for Seen {
    fn pre(&self, _req: &Result<Request, Error>) -> Result<MiddleRequest, String> {
        self.0.fetch_add(1, Ordering::SeqCst);
        Ok(MiddleRequest::Continue)
    }

    fn post(
        &self,
        _req: &Result<Request, Error>,
        _res: &Result<Response, Error>,
    ) -> Result<MiddleResponse, String> {
        self.0.fetch_add(100, Ordering::SeqCst);
        Ok(MiddleResponse::Continue)
    }
}

#[test]
fn send_before_the_routes_skips_the_rest() {
    let seen = Arc::new(AtomicUsize::new(0));
    let mut s = server();
    s.route(Method::GET, "/secret", Box::new(Says("treasure")));
    s.attach(Box::new(Seen(seen.clone())));
    s.attach(Box::new(Gate));
    let (_, res) = get_response(Ok(get("/secret")), &s);
    assert_eq!(res, Response::new().status(403).text("no"));
    assert_eq!(seen.load(Ordering::SeqCst), 100);
}

#[test]
fn request_replaced_before_the_routes() {
    let mut s = server();
    s.route(Method::GET, "/new", Box::new(Says("fresh")));
    s.attach(Box::new(Gate));
    let (req, res) = get_response(Ok(get("/old")), &s);
    assert_eq!(text(&res), "fresh");
    assert_eq!(req.unwrap().path, "/new");
}

#[test]
fn middleware_that_fails_is_answered_at_once() {
    let seen = Arc::new(AtomicUsize::new(0));
    let mut s = server();
    s.route(Method::GET, "/trap", Box::new(Says("cheese")));
    s.attach(Box::new(Seen(seen.clone())));
    s.attach(Box::new(Gate));
    let (_, res) = get_response(Ok(get("/trap")), &s);
    assert_eq!(res, default_error_response("gate broke"));
    assert_eq!(seen.load(Ordering::SeqCst), 0);
}

struct Stop;

impl Middleware for Stop {
    fn pre(&self, _req: &Result<Request, Error>) -> Result<MiddleRequest, String> {
        Ok(MiddleRequest::Continue)
    }

    fn post(
        &self,
        _req: &Result<Request, Error>,
        res: &Result<Response, Error>,
    ) -> Result<MiddleResponse, String> {
        match res {
            Err(_) => Ok(MiddleResponse::Send(Response::new().status(410).text("gone"))),
            Ok(r) if r.status == 202 => Err("stop broke".to_owned()),
            Ok(_) => Ok(MiddleResponse::Continue),
        }
    }
}

struct Accepts;

impl Handler for Accepts {
    fn call(&self, _req: &Request) -> Result<Response, String> {
        Ok(Response::new().status(202))
    }
}

#[test]
fn send_after_the_routes_skips_the_rest() {
    let seen = Arc::new(AtomicUsize::new(0));
    let mut s = server();
    s.route(Method::GET, "/ok", Box::new(Says("fine")));
    s.route(Method::GET, "/later", Box::new(Accepts));
    s.attach(Box::new(Seen(seen.clone())));
    s.attach(Box::new(Stop));
    let (_, res) = get_response(Ok(get("/none")), &s);
    assert_eq!(res, Response::new().status(410).text("gone"));
    assert_eq!(seen.load(Ordering::SeqCst), 1);
    let (_, res) = get_response(Ok(get("/ok")), &s);
    assert_eq!(text(&res), "fine");
    assert_eq!(seen.load(Ordering::SeqCst), 102);
    let (_, res) = get_response(Ok(get("/later")), &s);
    assert_eq!(res, default_error_response("stop broke"));
    assert_eq!(seen.load(Ordering::SeqCst), 103);
}

#[test]
fn steps_of_the_pipeline() {
    let mut req: Result<Request, Error> = Err(Error::Parse(ParseError::NoPath));
    assert!(matches!(pre_step(&mut req, Ok(MiddleRequest::Continue)), Flow::Continue));
    assert_eq!(req, Err(Error::Parse(ParseError::NoPath)));
    assert!(matches!(pre_step(&mut req, Ok(MiddleRequest::Add(get("/a")))), Flow::Continue));
    assert_eq!(req, Ok(get("/a")));
    match pre_step(&mut req, Ok(MiddleRequest::Send(Response::new().status(204)))) {
        Flow::Send(r) => assert_eq!(r, Response::new().status(204)),
        _ => panic!("not sent"),
    }
    assert_eq!(req, Ok(get("/a")));
    match pre_step(&mut req, Err("x".to_owned())) {
        Flow::Fault(m) => assert_eq!(m, "x"),
        _ => panic!("no fault"),
    }

    let mut res: Result<Response, Error> = Err(Error::NoResponse);
    assert!(matches!(post_step(&mut res, Ok(MiddleResponse::Continue)), Flow::Continue));
    assert_eq!(res, Err(Error::NoResponse));
    assert!(matches!(
        post_step(&mut res, Ok(MiddleResponse::Add(Response::new().status(201)))),
        Flow::Continue
    ));
    assert_eq!(res, Ok(Response::new().status(201)));
    match post_step(&mut res, Ok(MiddleResponse::Send(Response::new().status(202)))) {
        Flow::Send(r) => assert_eq!(r.status, 202),
        _ => panic!("not sent"),
    }
    assert_eq!(res, Ok(Response::new().status(201)));
    match post_step(&mut res, Err("y".to_owned())) {
        Flow::Fault(m) => assert_eq!(m, "y"),
        _ => panic!("no fault"),
    }
}

#[test]
fn error_of_the_request_goes_first() {
    let s = server();
    let req: Result<Request, Error> = Err(Error::Parse(ParseError::InvalidHeader));
    let res = settle(&req, Err(Error::NoResponse), &s);
    assert_eq!(res, Response::new().status(400).text("Invalid header"));
    let req: Result<Request, Error> = Ok(get("/"));
    let res = settle(&req, Ok(Response::new().status(204)), &s);
    assert_eq!(res.status, 204);
    let not_found = Error::Handle(Box::new(HandleError::NotFound(Method::PUT, "/p".to_owned())));
    let res = settle(&req, Err(not_found), &s);
    assert_eq!(text(&res), "Cannot PUT /p");
}

#[test]
fn handle_errors_compare_without_the_request() {
    let a = HandleError::Panic(Box::new(Ok(get("/a"))), "m".to_owned());
    let b = HandleError::Panic(Box::new(Err(Error::NoResponse)), "m".to_owned());
    let c = HandleError::Panic(Box::new(Ok(get("/a"))), "n".to_owned());
    assert_eq!(a, b);
    assert_ne!(a, c);
    assert_eq!(
        HandleError::NotFound(Method::GET, "/".to_owned()),
        HandleError::NotFound(Method::GET, "/".to_owned())
    );
    assert_ne!(
        HandleError::NotFound(Method::GET, "/".to_owned()),
        HandleError::NotFound(Method::POST, "/".to_owned())
    );
    assert_ne!(HandleError::NotFound(Method::GET, "m".to_owned()), a);
    assert_eq!(a.clone(), a);
}

#[test]
fn errors_from_their_parts() {
    assert_eq!(
        Error::from(afire::error::StartupError::NoState),
        Error::Startup(afire::error::StartupError::NoState)
    );
    assert_eq!(
        Error::from(afire::error::StreamError::UnexpectedEof),
        Error::Stream(afire::error::StreamError::UnexpectedEof)
    );
    assert_eq!(Error::from(ParseError::NoPath), Error::Parse(ParseError::NoPath));
    assert_eq!(
        Error::from(HandleError::NotFound(Method::GET, "/".to_owned())),
        Error::Handle(Box::new(HandleError::NotFound(Method::GET, "/".to_owned())))
    );
    let e = Error::Io("x".to_owned());
    assert_eq!(e.clone(), e);
}

struct Idle;

impl Middleware for Idle {
    fn pre(&self, _req: &Result<Request, Error>) -> Result<MiddleRequest, String> {
        Ok(MiddleRequest::Continue)
    }

    fn post(
        &self,
        _req: &Result<Request, Error>,
        _res: &Result<Response, Error>,
    ) -> Result<MiddleResponse, String> {
        Ok(MiddleResponse::Continue)
    }
}

#[test]
fn middleware_that_continues_changes_nothing() {
    let req: Result<Request, Error> = Ok(get("/"));
    let res: Result<Response, Error> = Ok(Response::new().status(201));
    assert!(matches!(Idle.pre(&req), Ok(MiddleRequest::Continue)));
    assert!(matches!(Idle.post(&req, &res), Ok(MiddleResponse::Continue)));
    let bad: Result<Request, Error> = Err(Error::Parse(ParseError::NoPath));
    assert!(matches!(Idle.pre(&bad), Ok(MiddleRequest::Continue)));
    let mut s = server();
    s.route(Method::GET, "/", Box::new(Says("hi")));
    s.attach(Box::new(Idle));
    let (_, out) = get_response(Ok(get("/")), &s);
    assert_eq!(text(&out), "hi");
    let (back, out) = get_response(Err(Error::Parse(ParseError::NoMethod)), &s);
    assert_eq!(out, Response::new().status(400).text("No method"));
    assert_eq!(back, Err(Error::Parse(ParseError::NoMethod)));
    let (_, out) = get_response(Ok(get("/none")), &s);
    assert_eq!(out.status, 404);
}
