use afire::error::Error;
use afire::internal::handle::{Connection, Step};
use afire::route::Handler;
use afire::{Method, Request, Response, Server};

struct Echo;

impl Handler for Echo {
    fn call(&self, req: &Request) -> Result<Response, String> {
        Ok(Response::new().text(&req.path))
    }
}

struct Closes;

impl Handler for Closes {
    fn call(&self, _req: &Request) -> Result<Response, String> {
        Ok(Response::new().text("bye").close())
    }
}

fn server() -> Server<()> {
    let mut s = Server::<()>::new("127.0.0.1", 8080).unwrap();
    s.route(Method::GET, "/*", Box::new(Echo));
    s.route(Method::GET, "/close", Box::new(Closes));
    s
}

fn written(step: Step) -> (String, Result<Request, Error>, Response, bool) {
    match step {
        Step::Write { bytes, request, response, keep_open } => {
            (String::from_utf8(bytes).unwrap(), request, response, keep_open)
        }
        Step::Read => panic!("read"),
        Step::Close => panic!("close"),
    }
}

#[test]
fn two_pipelined_requests_on_one_connection() {
    let s = server();
    let mut c = Connection::new("10.1.1.1:999");
    assert!(matches!(c.step(false, &s), Step::Read));
    c.feed(&b"GET /one HTTP/1.1\r\nHost: a\r\n\r\nGET /tw".to_vec());
    let (bytes, request, _, keep_open) = written(c.step(false, &s));
    assert_eq!(
        bytes,
        "HTTP/1.1 200 OK\r\nServer: afire/2.1.0\r\nContent-Length: 4\r\n\r\n/one"
    );
    assert_eq!(request.unwrap().address, "10.1.1.1:999");
    assert!(keep_open);
    assert_eq!(c.buffer, b"GET /tw".to_vec());
    assert!(matches!(c.step(false, &s), Step::Read));
    c.feed(&b"o HTTP/1.1\r\n\r\n".to_vec());
    let (bytes, _, _, keep_open) = written(c.step(false, &s));
    assert!(bytes.ends_with("\r\n\r\n/two"));
    assert!(keep_open);
    assert!(c.buffer.is_empty());
    assert!(matches!(c.step(false, &s), Step::Read));
    assert!(matches!(c.step(true, &s), Step::Close));
}

#[test]
fn close_flag_ends_the_connection() {
    let s = server();
    let mut c = Connection::new("10.1.1.1:999");
    c.feed(&b"GET /close HTTP/1.1\r\nConnection: keep-alive\r\n\r\n".to_vec());
    let (bytes, _, response, keep_open) = written(c.step(false, &s));
    assert!(bytes.ends_with("bye"));
    assert!(response.close);
    assert!(!keep_open);
}

#[test]
fn connection_close_ends_the_connection() {
    let s = server();
    let mut c = Connection::new("10.1.1.1:999");
    c.feed(&b"GET /x HTTP/1.1\r\nConnection: close\r\n\r\n".to_vec());
    let (_, _, response, keep_open) = written(c.step(false, &s));
    assert!(!response.close);
    assert!(!keep_open);
}

#[test]
fn parse_error_is_answered_and_closes() {
    let s = server();
    let mut c = Connection::new("10.1.1.1:999");
    c.feed(&b"GET / HTTP/1.1\r\nHost".to_vec());
    assert!(matches!(c.step(false, &s), Step::Read));
    let (bytes, request, response, keep_open) = written(c.step(true, &s));
    assert_eq!(
        bytes,
        "HTTP/1.1 400 Bad Request\r\nServer: afire/2.1.0\r\nContent-Length: 12\r\n\r\nNo separator"
    );
    assert!(request.is_err());
    assert_eq!(response.status, 400);
    assert!(!keep_open);
}

#[test]
fn broken_stream_closes_without_a_response() {
    let s = server();
    let mut c = Connection::new("10.1.1.1:999");
    c.feed(&b"POST / HTTP/1.1\r\nContent-Length: 10\r\n\r\nabc".to_vec());
    assert!(matches!(c.step(false, &s), Step::Read));
    assert!(matches!(c.step(true, &s), Step::Close));
}
