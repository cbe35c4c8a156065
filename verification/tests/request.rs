use afire::error::{Error, ParseError, StreamError};
use afire::request::{parse_request, Reading};
use afire::{Header, Method, Query, Request};

fn read(bytes: &[u8], eof: bool) -> Reading {
    parse_request(&bytes.to_vec(), eof, "127.0.0.1:5000")
}

fn complete(bytes: &[u8]) -> (Request, usize) {
    match read(bytes, false) {
        Reading::Complete(q, used) => (q, used),
        other => panic!("no request: {:?}", other),
    }
}

fn failure(bytes: &[u8]) -> Error {
    match read(bytes, true) {
        Reading::Failed(e) => e,
        other => panic!("no failure: {:?}", other),
    }
}

#[test]
fn parses_a_request_without_body() {
    let raw = b"GET /greet/John?name=J%6Fhn+Doe&flag HTTP/1.1\r\nHost: localhost:8080\r\naccept:  */* \r\n\r\n";
    let (req, used) = complete(raw);
    assert_eq!(used, raw.len());
    assert_eq!(
        req,
        Request {
            method: Method::GET,
            path: "/greet/John".to_owned(),
            version: "HTTP/1.1".to_owned(),
            path_params: vec![],
            query: Query {
                data: vec![
                    ("name".to_owned(), "John Doe".to_owned()),
                    ("flag".to_owned(), "".to_owned())
                ]
            },
            headers: vec![
                Header::new("Host", "localhost:8080"),
                Header::new("accept", "*/*")
            ],
            body: vec![],
            address: "127.0.0.1:5000".to_owned(),
        }
    );
    assert_eq!(req.header("HOST"), Some("localhost:8080".to_owned()));
    assert_eq!(req.header("Missing"), None);
    assert_eq!(req.query.get("name"), Some("John Doe".to_owned()));
    assert!(req.query.has("flag"));
    assert!(!req.query.has("other"));
    assert!(req.keep_alive());
}

#[test]
fn body_of_content_length() {
    let raw = b"POST /form HTTP/1.1\r\nContent-Length: 5\r\n\r\nhello";
    let (req, used) = complete(raw);
    assert_eq!(req.body, b"hello".to_vec());
    assert_eq!(req.body.len(), 5);
    assert_eq!(used, raw.len());
    assert_eq!(req.method, Method::POST);
}

#[test]
fn body_of_content_length_leaves_the_rest() {
    let raw = b"POST /form HTTP/1.1\r\ncontent-length: 5\r\n\r\nhello and more";
    let (req, used) = complete(raw);
    assert_eq!(req.body, b"hello".to_vec());
    assert_eq!(used, raw.len() - 9);
}

#[test]
fn body_in_chunks() {
    let raw = b"POST /up HTTP/1.1\r\nTransfer-Encoding: chunked\r\n\r\n4\r\nWiki\r\n0\r\n\r\n";
    let (req, used) = complete(raw);
    assert_eq!(req.body, b"Wiki".to_vec());
    assert_eq!(used, raw.len());
}

#[test]
fn body_in_several_chunks() {
    let raw = b"POST /up HTTP/1.1\r\nTransfer-Encoding: Chunked\r\n\r\n4\r\nWiki\r\nA\r\npedia in\r\n\r\n0\r\n\r\nGET";
    let (req, used) = complete(raw);
    assert_eq!(req.body, b"Wikipedia in\r\n".to_vec());
    assert_eq!(used, raw.len() - 3);
}

#[test]
fn no_body_without_framing() {
    let raw = b"GET / HTTP/1.1\r\n\r\nGET /next HTTP/1.1\r\n\r\n";
    let (req, used) = complete(raw);
    assert_eq!(req.body, Vec::<u8>::new());
    assert_eq!(used, 18);
    let (next, _) = complete(&raw[used..]);
    assert_eq!(next.path, "/next");
}

#[test]
fn more_bytes_are_needed() {
    assert!(matches!(read(b"", false), Reading::Incomplete));
    assert!(matches!(read(b"GET / HTTP/1.1\r\nHost: x\r\n", false), Reading::Incomplete));
    assert!(matches!(
        read(b"POST / HTTP/1.1\r\nContent-Length: 5\r\n\r\nhel", false),
        Reading::Incomplete
    ));
    assert!(matches!(
        read(b"POST / HTTP/1.1\r\nTransfer-Encoding: chunked\r\n\r\n4\r\nWi", false),
        Reading::Incomplete
    ));
    assert!(matches!(
        read(b"POST / HTTP/1.1\r\nTransfer-Encoding: chunked\r\n\r\n4\r\nWiki\r\n0\r\n", false),
        Reading::Incomplete
    ));
}

#[test]
fn the_peer_has_closed() {
    assert!(matches!(read(b"", true), Reading::Closed));
}

#[test]
fn missing_separator() {
    assert_eq!(
        failure(b"GET / HTTP/1.1\r\nHost: x\r\n"),
        Error::Parse(ParseError::NoSeparator)
    );
}

#[test]
fn missing_request_line() {
    assert_eq!(failure(b"\r\n\r\n"), Error::Parse(ParseError::NoRequestLine));
}

#[test]
fn missing_method() {
    assert_eq!(failure(b"  \r\nHost: x\r\n\r\n"), Error::Parse(ParseError::NoMethod));
    assert_eq!(failure(b"\r\nHost: x\r\n\r\n"), Error::Parse(ParseError::NoMethod));
}

#[test]
fn invalid_method() {
    assert_eq!(failure(b"G@T / HTTP/1.1\r\n\r\n"), Error::Parse(ParseError::InvalidMethod));
}

#[test]
fn missing_path() {
    assert_eq!(failure(b"GET\r\n\r\n"), Error::Parse(ParseError::NoPath));
}

#[test]
fn missing_version() {
    assert_eq!(failure(b"GET /\r\n\r\n"), Error::Parse(ParseError::NoVersion));
}

#[test]
fn invalid_query() {
    assert_eq!(failure(b"GET /?a=%zz HTTP/1.1\r\n\r\n"), Error::Parse(ParseError::InvalidQuery));
    assert_eq!(failure(b"GET /?a=%4 HTTP/1.1\r\n\r\n"), Error::Parse(ParseError::InvalidQuery));
    assert_eq!(failure(b"GET /?=v HTTP/1.1\r\n\r\n"), Error::Parse(ParseError::InvalidQuery));
    assert_eq!(failure(b"GET /?a&&b HTTP/1.1\r\n\r\n"), Error::Parse(ParseError::InvalidQuery));
}

#[test]
fn invalid_header() {
    assert_eq!(
        failure(b"GET / HTTP/1.1\r\nHost localhost\r\n\r\n"),
        Error::Parse(ParseError::InvalidHeader)
    );
    assert_eq!(
        failure(b"GET / HTTP/1.1\r\nContent-Length: five\r\n\r\nhello"),
        Error::Parse(ParseError::InvalidHeader)
    );
}

#[test]
fn body_cut_short() {
    assert_eq!(
        failure(b"POST / HTTP/1.1\r\nContent-Length: 5\r\n\r\nhel"),
        Error::Stream(StreamError::UnexpectedEof)
    );
    assert_eq!(
        failure(b"POST / HTTP/1.1\r\nTransfer-Encoding: chunked\r\n\r\n4\r\nWi"),
        Error::Stream(StreamError::UnexpectedEof)
    );
    assert_eq!(
        failure(b"POST / HTTP/1.1\r\nContent-Length: 99999999999999999999999999\r\n\r\nhel"),
        Error::Stream(StreamError::UnexpectedEof)
    );
}

#[test]
fn chunks_that_are_none() {
    assert_eq!(
        failure(b"POST / HTTP/1.1\r\nTransfer-Encoding: chunked\r\n\r\nxyz\r\nWiki\r\n0\r\n\r\n"),
        Error::Stream(StreamError::UnexpectedEof)
    );
    assert_eq!(
        failure(b"POST / HTTP/1.1\r\nTransfer-Encoding: chunked\r\n\r\n4\r\nWikipedia\r\n0\r\n\r\n"),
        Error::Stream(StreamError::UnexpectedEof)
    );
}

#[test]
fn custom_method_is_kept() {
    let (req, _) = complete(b"PURGE /cache HTTP/1.1\r\n\r\n");
    assert_eq!(req.method, Method::CUSTOM("PURGE".to_owned()));
    let (req, _) = complete(b"get / HTTP/1.1\r\n\r\n");
    assert_eq!(req.method, Method::CUSTOM("get".to_owned()));
}

#[test]
fn connection_close_ends_keep_alive() {
    let (req, _) = complete(b"GET / HTTP/1.1\r\nconnection: Close\r\n\r\n");
    assert!(!req.keep_alive());
    let (req, _) = complete(b"GET / HTTP/1.1\r\nConnection: keep-alive\r\n\r\n");
    assert!(req.keep_alive());
}

#[test]
fn bytes_are_read_one_character_each() {
    let (req, _) = complete(b"GET /caf\xe9 HTTP/1.1\r\n\r\n");
    assert_eq!(req.path, "/caf\u{e9}");
}

#[test]
fn form_body_is_a_query() {
    let q = Query::from_body("name=Ada&lang=en%2Dgb&name=Bea").unwrap();
    assert_eq!(q.get("name"), Some("Ada".to_owned()));
    assert_eq!(q.get("lang"), Some("en-gb".to_owned()));
    assert_eq!(q.data.len(), 3);
    assert_eq!(Query::from_body("").unwrap().data.len(), 0);
    assert_eq!(Query::from_body("key").unwrap().get("key"), Some("".to_owned()));
    assert!(Query::from_body("a=%").is_none());
    assert!(Query::from_body("a=1&").is_none());
}

#[test]
fn header_lines() {
    assert_eq!(Header::from_string("Name: Value"), Ok(Header::new("Name", "Value")));
    assert_eq!(Header::from_string(" A :b:c\t"), Ok(Header::new("A", "b:c")));
    assert_eq!(Header::from_string("novalue:"), Ok(Header::new("novalue", "")));
    assert_eq!(Header::from_string("nothing"), Err(ParseError::InvalidHeader));
    assert_eq!(Header::new("Name", "Value").to_string(), "Name: Value");
}

#[test]
fn method_names() {
    assert_eq!(Method::from_string("DELETE"), Ok(Method::DELETE));
    assert_eq!(Method::from_string("TRACE"), Ok(Method::TRACE));
    assert_eq!(Method::from_string("M-SEARCH"), Ok(Method::CUSTOM("M-SEARCH".to_owned())));
    assert_eq!(Method::from_string(""), Err(ParseError::InvalidMethod));
    assert_eq!(Method::from_string("A B"), Err(ParseError::InvalidMethod));
    assert_eq!(Method::PATCH.to_string(), "PATCH");
    assert_eq!(Method::CUSTOM("X".to_owned()).to_string(), "X");
    assert!(Method::ANY.accepts(&Method::PUT));
    assert!(Method::PUT.accepts(&Method::PUT));
    assert!(!Method::PUT.accepts(&Method::ANY));
    assert!(!Method::GET.accepts(&Method::HEAD));
}
