use afire::error::{Error, ParseError};
use afire::extensions::ratelimit::{
    remove_address_port, too_many_requests, LimitHandler, RateLimiter,
};
use afire::middleware::MiddleRequest;
use afire::request::{parse_request, Reading};
use afire::{Header, Request, Response};

fn from(address: &str) -> Result<Request, Error> {
    match parse_request(&b"GET / HTTP/1.1\r\n\r\n".to_vec(), true, address) {
        Reading::Complete(q, _) => Ok(q),
        other => panic!("no request: {:?}", other),
    }
}

fn is_sent(m: MiddleRequest, status: u16) -> bool {
    match m {
        MiddleRequest::Send(r) => r.status == status,
        _ => false,
    }
}

#[test]
fn the_request_after_the_limit_is_refused() {
    let mut limiter = RateLimiter::new().limit(3).timeout(60);
    let client = from("10.0.0.7:1000");
    limiter.end(&from("10.0.0.0:1"), 1000);
    for _ in 0..3 {
        assert!(matches!(limiter.pre(&client, 1010), MiddleRequest::Continue));
        limiter.end(&client, 1010);
    }
    assert!(is_sent(limiter.pre(&client, 1011), 429));
    assert!(is_sent(limiter.pre(&from("10.0.0.7:2222"), 1011), 429));
    assert!(matches!(limiter.pre(&from("10.0.0.8:1000"), 1011), MiddleRequest::Continue));
    limiter.end(&client, 1059);
    assert!(is_sent(limiter.pre(&client, 1059), 429));
}

#[test]
fn the_first_request_after_the_span_is_served() {
    let mut limiter = RateLimiter::new().limit(2).timeout(60);
    let client = from("10.0.0.7:1000");
    limiter.end(&client, 1000);
    limiter.end(&client, 1001);
    limiter.end(&client, 1002);
    assert!(is_sent(limiter.pre(&client, 1059), 429));
    assert!(matches!(limiter.pre(&client, 1060), MiddleRequest::Continue));
    assert!(matches!(limiter.pre(&client, 5000), MiddleRequest::Continue));
}

#[test]
fn the_count_starts_anew_after_the_span() {
    let mut limiter = RateLimiter::new().limit(2).timeout(60);
    let client = from("10.0.0.7:1000");
    limiter.end(&client, 100);
    limiter.end(&client, 101);
    limiter.end(&client, 102);
    assert!(is_sent(limiter.pre(&client, 103), 429));
    assert!(matches!(limiter.pre(&client, 160), MiddleRequest::Continue));
    limiter.end(&client, 160);
    assert!(matches!(limiter.pre(&client, 160), MiddleRequest::Continue));
    limiter.end(&client, 161);
    assert!(is_sent(limiter.pre(&client, 161), 429));
}

#[test]
fn default_limit_is_ten() {
    let mut limiter = RateLimiter::default();
    let client = from("1.2.3.4:5");
    for _ in 0..10 {
        assert!(!limiter.is_over_limit("1.2.3.4".to_owned()));
        limiter.add_request("1.2.3.4".to_owned());
    }
    assert!(limiter.is_over_limit("1.2.3.4".to_owned()));
    match limiter.pre(&client, 30) {
        MiddleRequest::Send(r) => {
            assert_eq!(r, too_many_requests());
            assert_eq!(r.status, 429);
            assert_eq!(r.data, b"Too Many Requests".to_vec());
            assert_eq!(r.headers, vec![Header::new("Content-Type", "text/plain")]);
        }
        _ => panic!("not refused"),
    }
}

#[test]
fn reset_clears_every_client() {
    let mut limiter = RateLimiter::new().limit(1).timeout(10);
    limiter.check_reset(10);
    limiter.add_request("a".to_owned());
    limiter.add_request("b".to_owned());
    assert!(limiter.is_over_limit("a".to_owned()));
    assert!(limiter.is_over_limit("b".to_owned()));
    limiter.check_reset(19);
    assert!(limiter.is_over_limit("a".to_owned()));
    limiter.check_reset(20);
    assert!(!limiter.is_over_limit("a".to_owned()));
    assert!(!limiter.is_over_limit("b".to_owned()));
}

#[test]
fn limit_of_zero_refuses_all() {
    let limiter = RateLimiter::new().limit(0);
    assert!(limiter.is_over_limit("anyone".to_owned()));
}

#[test]
fn unread_request_is_not_counted() {
    let mut limiter = RateLimiter::new().limit(1);
    let bad: Result<Request, Error> = Err(Error::Parse(ParseError::NoMethod));
    assert!(matches!(limiter.pre(&bad, 5), MiddleRequest::Continue));
    limiter.end(&bad, 100);
    assert!(matches!(limiter.pre(&from("x:1"), 30), MiddleRequest::Continue));
}

struct Quiet;

impl LimitHandler for Quiet {
    fn call(&self, req: &Request) -> Option<Response> {
        if req.address.starts_with("10.") {
            None
        } else {
            Some(Response::new().status(503).text("much request"))
        }
    }
}

#[test]
fn handler_decides_the_answer() {
    let mut limiter = RateLimiter::new().limit(0).handler(Box::new(Quiet));
    limiter.end(&from("10.0.0.1:1"), 1);
    assert!(matches!(limiter.pre(&from("10.0.0.1:1"), 1), MiddleRequest::Continue));
    assert!(is_sent(limiter.pre(&from("11.0.0.1:1"), 1), 503));
}

#[test]
fn address_without_port() {
    assert_eq!(remove_address_port("127.0.0.1:8080"), "127.0.0.1");
    assert_eq!(remove_address_port("localhost"), "localhost");
    assert_eq!(remove_address_port(":80"), "");
}
