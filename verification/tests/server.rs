use afire::error::StartupError;
use afire::route::{Handler, StatefulHandler};
use afire::server::{parse_ip, Timeout};
use afire::{Header, Method, Request, Response, Server};
use std::sync::Arc;

struct Plain;

impl Handler for Plain {
    fn call(&self, _req: &Request) -> Result<Response, String> {
        Ok(Response::new())
    }
}

struct WithState;

impl StatefulHandler<String> for WithState {
    fn call(&self, state: &Arc<String>, _req: &Request) -> Result<Response, String> {
        Ok(Response::new().text(state.as_str()))
    }
}

#[test]
fn new_server() {
    let s = Server::<()>::new("localhost", 8080).unwrap();
    assert_eq!(s.ip, [127, 0, 0, 1]);
    assert_eq!(s.port, 8080);
    assert_eq!(s.buff_size, 1024);
    assert!(s.routes.is_empty());
    assert!(s.middleware.is_empty());
    assert!(s.state.is_none());
    assert_eq!(s.default_headers, vec![Header::new("Server", "afire/2.1.0")]);
    assert_eq!(s.socket_timeout, None);
    assert!(s.run);
}

#[test]
fn addresses() {
    assert_eq!(parse_ip("192.168.0.17"), Ok([192, 168, 0, 17]));
    assert_eq!(parse_ip("0.0.0.0"), Ok([0, 0, 0, 0]));
    assert_eq!(parse_ip("255.255.255.255"), Ok([255, 255, 255, 255]));
    assert_eq!(parse_ip("010.001.000.007"), Ok([10, 1, 0, 7]));
    assert_eq!(parse_ip("256.0.0.1"), Err(StartupError::InvalidIp));
    assert_eq!(parse_ip("1.2.3"), Err(StartupError::InvalidIp));
    assert_eq!(parse_ip("1.2.3.4.5"), Err(StartupError::InvalidIp));
    assert_eq!(parse_ip("1.2..4"), Err(StartupError::InvalidIp));
    assert_eq!(parse_ip("a.b.c.d"), Err(StartupError::InvalidIp));
    assert_eq!(parse_ip("Localhost"), Err(StartupError::InvalidIp));
    assert_eq!(parse_ip(""), Err(StartupError::InvalidIp));
    assert_eq!(parse_ip("1.2.3.99999999999999999999999"), Err(StartupError::InvalidIp));
    assert!(matches!(Server::<()>::new("example.com", 80), Err(StartupError::InvalidIp)));
}

#[test]
fn builders() {
    let mut s = Server::<()>::new("127.0.0.1", 1234)
        .unwrap()
        .buffer(2048)
        .default_header("Content-Type", "text/plain")
        .socket_timeout(Timeout { secs: 1, nanos: 0 });
    s.set_run(false);
    s.route(Method::GET, "/nose", Box::new(Plain));
    assert_eq!(s.buff_size, 2048);
    assert_eq!(
        s.default_headers,
        vec![Header::new("Server", "afire/2.1.0"), Header::new("Content-Type", "text/plain")]
    );
    assert_eq!(s.socket_timeout, Some(Timeout { secs: 1, nanos: 0 }));
    assert!(!s.run);
    assert_eq!(s.routes.len(), 1);
    assert_eq!(s.routes[0].method, Method::GET);
    assert_eq!(s.routes[0].path.raw, "/nose");
    assert_eq!(s.check(), Ok(()));
}

#[test]
fn state_is_needed_for_stateful_routes() {
    let mut s = Server::<String>::new("localhost", 8080).unwrap();
    s.route(Method::GET, "/", Box::new(Plain));
    assert_eq!(s.check(), Ok(()));
    s.stateful_route(Method::GET, "/s", Box::new(WithState));
    assert_eq!(s.check(), Err(StartupError::NoState));
    let s = s.state("shared".to_owned());
    assert_eq!(s.check(), Ok(()));
}

#[test]
fn a_server_set_not_to_run_does_not_listen() {
    let mut s = Server::<String>::new("localhost", 8080).unwrap();
    assert_eq!(s.start_check(), Ok(true));
    s.stateful_route(Method::GET, "/s", Box::new(WithState));
    assert_eq!(s.start_check(), Err(StartupError::NoState));
    s.set_run(false);
    assert_eq!(s.start_check(), Ok(false));
}

#[test]
fn socket_timeout_must_not_be_zero() {
    let s = Server::<()>::new("localhost", 8080)
        .unwrap()
        .socket_timeout(Timeout { secs: 0, nanos: 0 });
    assert_eq!(s.check(), Err(StartupError::InvalidSocketTimeout));
    let s = s.socket_timeout(Timeout { secs: 0, nanos: 1 });
    assert_eq!(s.check(), Ok(()));
}
