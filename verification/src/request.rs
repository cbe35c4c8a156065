//! Requests.

use vstd::prelude::*;
use crate::bytes::{
    byte_views, chunks, crlf, first_match, read_chunks, separator, separator_bytes, slice_bytes,
    split_lines, split_on, find_bytes, ChunkRead, Chunks,
};
use crate::error::{Error, ErrorView, ParseError, StreamError};
use crate::header::{
    clone_headers, get_header, header_of_line, header_views, lemma_header_views_push, lookup,
    Header, HeaderView,
};
use crate::method::{is_token, method_of, Method, MethodView};
use crate::query::{find_value, first_value, query_of, Query};
use crate::text::{
    all_digits, chars_of, clone_pairs, find_char, first_index, is_number, latin1, latin1_chars,
    number, number_of, pair_views, same_ignoring_case, same_text_ignoring_case,
    slice_chars, text_of, views, words, words_of,
};

verus! {

/// An HTTP request.
#[derive(Debug, PartialEq, Eq)]
pub struct Request {
    /// Method of the request.
    pub method: Method,
    /// Path of the request, without the query.
    pub path: String,
    /// Protocol version, as the request line gives it.
    pub version: String,
    /// Parameters taken from the path by the route that matched; empty
    /// until a route has matched.
    pub path_params: Vec<(String, String)>,
    /// Parameters of the query.
    pub query: Query,
    /// Headers, in the order of the request.
    pub headers: Vec<Header>,
    /// Body.
    pub body: Vec<u8>,
    /// Address of the client.
    pub address: String,
}

/// What a request holds.
pub struct RequestView {
    pub method: MethodView,
    pub path: Seq<char>,
    pub version: Seq<char>,
    pub path_params: Seq<(Seq<char>, Seq<char>)>,
    pub query: Seq<(Seq<char>, Seq<char>)>,
    pub headers: Seq<HeaderView>,
    pub body: Seq<u8>,
    pub address: Seq<char>,
}

impl View for Request {
    type V = RequestView;

    open spec fn view(&self) -> RequestView {
        RequestView {
            method: self.method@,
            path: self.path@,
            version: self.version@,
            path_params: pair_views(self.path_params@),
            query: self.query@,
            headers: header_views(self.headers@),
            body: self.body@,
            address: self.address@,
        }
    }
}

impl Clone for Request {
    fn clone(&self) -> (r: Self)
        ensures
            r@ == self@,
    {
        Request {
            method: self.method.clone(),
            path: self.path.clone(),
            version: self.version.clone(),
            path_params: clone_pairs(&self.path_params),
            query: self.query.clone(),
            headers: clone_headers(&self.headers),
            body: self.body.clone(),
            address: self.address.clone(),
        }
    }
}

impl Request {
    /// The value of the first header with the name `name`, case aside.
    pub fn header(&self, name: &str) -> (r: Option<String>)
        ensures
            match lookup(self@.headers, name@) {
                Some(v) => r matches Some(s) && s@ == v,
                None => r is None,
            },
    {
        get_header(&self.headers, name)
    }

    /// The value of the path parameter `name`, once a route has matched.
    pub fn path_param(&self, name: &str) -> (r: Option<String>)
        ensures
            match first_value(self@.path_params, name@) {
                Some(v) => r matches Some(s) && s@ == v,
                None => r is None,
            },
    {
        find_value(&self.path_params, name)
    }

    /// Whether the request lets the connection stay open.
    pub fn keep_alive(&self) -> (r: bool)
        ensures
            r == wants_keep_alive(self@),
    {
        match get_header(&self.headers, "Connection") {
            Some(v) => !same_text_ignoring_case(v.as_str(), "close"),
            None => true,
        }
    }
}

/// The path in a request target: what stands before the first `?`.
pub open spec fn target_path(t: Seq<char>) -> Seq<char> {
    let i = first_index(t, '?');
    if 0 <= i < t.len() {
        t.take(i)
    } else {
        t
    }
}

/// The query in a request target: what stands behind the first `?`.
pub open spec fn target_query(t: Seq<char>) -> Seq<char> {
    let i = first_index(t, '?');
    if 0 <= i < t.len() {
        t.skip(i + 1)
    } else {
        Seq::empty()
    }
}

/// The request that a request line stands for, without headers and body.
/// The line holds method, target and version, parted by spaces. A line
/// without any of them lacks the method; a method that is no token is
/// invalid; then the target may be missing, its query may have no meaning,
/// and the version may be missing, in this order.
pub open spec fn request_line(line: Seq<char>, address: Seq<char>) -> Result<
    RequestView,
    ParseError,
> {
    let w = words(line);
    if w.len() == 0 {
        Err(ParseError::NoMethod)
    } else if !is_token(w[0]) {
        Err(ParseError::InvalidMethod)
    } else if w.len() == 1 {
        Err(ParseError::NoPath)
    } else if query_of(target_query(w[1])) is None {
        Err(ParseError::InvalidQuery)
    } else if w.len() == 2 {
        Err(ParseError::NoVersion)
    } else {
        Ok(
            RequestView {
                method: method_of(w[0]),
                path: target_path(w[1]),
                version: w[2],
                path_params: Seq::empty(),
                query: query_of(target_query(w[1]))->0,
                headers: Seq::empty(),
                body: Seq::empty(),
                address,
            },
        )
    }
}

/// The headers that a list of lines stands for, if every line is one.
pub open spec fn headers_of(lines: Seq<Seq<u8>>) -> Option<Seq<HeaderView>>
    decreases lines.len(),
{
    if lines.len() == 0 {
        Some(Seq::empty())
    } else {
        match (headers_of(lines.drop_last()), header_of_line(latin1(lines.last()))) {
            (Some(hs), Some(h)) => Some(hs.push(h)),
            _ => None,
        }
    }
}

/// Once a prefix of the lines holds a line that is no header, so does every
/// longer one.
proof fn lemma_headers_fail(lines: Seq<Seq<u8>>, n: int)
    requires
        0 <= n <= lines.len(),
        headers_of(lines.take(n)) is None,
    ensures
        headers_of(lines) is None,
    decreases lines.len() - n,
{
    if n < lines.len() {
        assert(lines.take(n + 1).drop_last() == lines.take(n));
        lemma_headers_fail(lines, n + 1);
    } else {
        assert(lines.take(n) == lines);
    }
}

/// The request that a head stands for, without its body. The head is cut
/// into lines at each CR LF; each byte is read as the character with that
/// code point. The first line is the request line, and each other line is a
/// header. An empty head holds no request line.
pub open spec fn head_of(head: Seq<u8>, address: Seq<char>) -> Result<RequestView, ParseError> {
    let lines = split_on(head, crlf());
    if head.len() == 0 {
        Err(ParseError::NoRequestLine)
    } else {
        match request_line(latin1(lines[0]), address) {
            Err(e) => Err(e),
            Ok(q) => match headers_of(lines.skip(1)) {
                None => Err(ParseError::InvalidHeader),
                Some(hs) => Ok(RequestView { headers: hs, ..q }),
            },
        }
    }
}

/// How the body of a request is framed.
pub enum Framing {
    /// There is no body.
    Empty,
    /// The body has this many bytes.
    Length(nat),
    /// The body comes in chunks.
    Chunked,
    /// The length that is given is no number.
    Invalid,
}

/// How the headers frame the body: `Content-Length` with the number of
/// bytes goes first; else `Transfer-Encoding: chunked`; else there is no
/// body.
pub open spec fn framing_of(hs: Seq<HeaderView>) -> Framing {
    match lookup(hs, "Content-Length"@) {
        Some(v) => if is_number(v) {
            Framing::Length(number(v))
        } else {
            Framing::Invalid
        },
        None => match lookup(hs, "Transfer-Encoding"@) {
            Some(v) => if same_ignoring_case(v, "chunked"@) {
                Framing::Chunked
            } else {
                Framing::Empty
            },
            None => Framing::Empty,
        },
    }
}

/// What a buffer of received bytes holds.
pub enum ReadingView {
    /// A request, and the number of bytes that it takes.
    Complete(RequestView, int),
    /// The beginning of a request; more bytes are needed.
    Incomplete,
    /// Nothing, and nothing will come: the peer has closed.
    Closed,
    /// No request.
    Failed(ErrorView),
}

/// What a body that is cut short stands for: more bytes are needed while
/// the stream is open, and the stream has ended unexpectedly once it is not.
pub open spec fn cut_short(eof: bool) -> ReadingView {
    if eof {
        ReadingView::Failed(ErrorView::Stream(StreamError::UnexpectedEof))
    } else {
        ReadingView::Incomplete
    }
}

/// Reads one request from the start of `buf`. `eof` says that no more bytes
/// will come. The head ends at the first empty line; without one, more
/// bytes are needed, or at the end of the stream the separator is missing,
/// or, with no bytes at all, the peer has closed. Then the head is read, and
/// the body as the headers frame it. A chunked body that cannot be read to
/// its end gives the stream error.
pub open spec fn parse(buf: Seq<u8>, eof: bool, address: Seq<char>) -> ReadingView {
    let h = first_match(buf, separator());
    if !(0 <= h && h + 4 <= buf.len()) {
        if !eof {
            ReadingView::Incomplete
        } else if buf.len() == 0 {
            ReadingView::Closed
        } else {
            ReadingView::Failed(ErrorView::Parse(ParseError::NoSeparator))
        }
    } else {
        match head_of(buf.take(h), address) {
            Err(e) => ReadingView::Failed(ErrorView::Parse(e)),
            Ok(q) => match framing_of(q.headers) {
                Framing::Invalid => ReadingView::Failed(
                    ErrorView::Parse(ParseError::InvalidHeader),
                ),
                Framing::Empty => ReadingView::Complete(q, h + 4),
                Framing::Length(n) => if h + 4 + n <= buf.len() {
                    ReadingView::Complete(
                        RequestView { body: buf.subrange(h + 4, h + 4 + n), ..q },
                        h + 4 + n,
                    )
                } else {
                    cut_short(eof)
                },
                Framing::Chunked => match chunks(buf.skip(h + 4)) {
                    Chunks::Done(body, used) => ReadingView::Complete(
                        RequestView { body, ..q },
                        h + 4 + used,
                    ),
                    Chunks::More => cut_short(eof),
                    Chunks::Bad => ReadingView::Failed(
                        ErrorView::Stream(StreamError::UnexpectedEof),
                    ),
                },
            },
        }
    }
}

/// A request that was read whole does not depend on what follows it: with
/// more bytes behind it in the buffer, the same request is read and the same
/// number of bytes is used, so that the next request begins where this one
/// ends.
pub proof fn law_pipelined_requests(
    a: Seq<u8>,
    b: Seq<u8>,
    eof: bool,
    later: bool,
    address: Seq<char>,
)
    requires
        parse(a, eof, address) is Complete,
    ensures
        parse(a + b, later, address) == parse(a, eof, address),
        parse(a, eof, address) matches ReadingView::Complete(_, used) && 0 <= used <= a.len() && (a
            + b).skip(used) == a.skip(used) + b,
{
    let h = first_match(a, separator());
    crate::bytes::lemma_first_match(a, separator());
    crate::bytes::lemma_first_match_extend(a, b, separator());
    assert((a + b).take(h) =~= a.take(h));
    match head_of(a.take(h), address) {
        Ok(q) => match framing_of(q.headers) {
            Framing::Length(n) => {
                assert((a + b).subrange(h + 4, h + 4 + n) =~= a.subrange(h + 4, h + 4 + n));
                assert((a + b).skip(h + 4 + n) =~= a.skip(h + 4 + n) + b);
            },
            Framing::Chunked => {
                assert((a + b).skip(h + 4) =~= a.skip(h + 4) + b);
                crate::bytes::lemma_chunks_extend(a.skip(h + 4), b);
                crate::bytes::lemma_chunks_within(a.skip(h + 4));
                let used = chunks(a.skip(h + 4))->Done_1;
                assert((a + b).skip(h + 4 + used) =~= a.skip(h + 4 + used) + b);
            },
            _ => {
                assert((a + b).skip(h + 4) =~= a.skip(h + 4) + b);
            },
        },
        Err(_) => {},
    }
}

/// A body that `Content-Length` frames has exactly that many bytes, and the
/// request takes its head, the empty line and those bytes.
pub proof fn law_content_length(buf: Seq<u8>, eof: bool, address: Seq<char>)
    ensures
        parse(buf, eof, address) matches ReadingView::Complete(q, used) ==> (framing_of(
            q.headers,
        ) matches Framing::Length(n) ==> q.body.len() == n && used == first_match(
            buf,
            separator(),
        ) + 4 + n),
{
}

/// Bytes without the empty line that ends a head hold no request: at the
/// end of the stream they give the parse error `NoSeparator`, and before it
/// more bytes are asked for.
pub proof fn law_no_separator(buf: Seq<u8>, address: Seq<char>)
    requires
        buf.len() > 0,
        forall|j: int| 0 <= j < buf.len() ==> !separator().is_prefix_of(#[trigger] buf.skip(j)),
    ensures
        parse(buf, true, address) == ReadingView::Failed(
            ErrorView::Parse(ParseError::NoSeparator),
        ),
        parse(buf, false, address) == ReadingView::Incomplete,
{
    crate::bytes::lemma_first_match_is(buf, separator(), buf.len() as int);
}

/// Whether a request lets the connection stay open: it does unless its
/// `Connection` header says `close`.
pub open spec fn wants_keep_alive(q: RequestView) -> bool {
    match lookup(q.headers, "Connection"@) {
        Some(v) => !same_ignoring_case(v, "close"@),
        None => true,
    }
}

/// What a buffer of received bytes holds.
#[derive(Debug)]
pub enum Reading {
    /// A request, and the number of bytes that it takes.
    Complete(Request, usize),
    /// The beginning of a request; more bytes are needed.
    Incomplete,
    /// Nothing, and nothing will come: the peer has closed.
    Closed,
    /// No request.
    Failed(Error),
}

impl View for Reading {
    type V = ReadingView;

    open spec fn view(&self) -> ReadingView {
        match self {
            Reading::Complete(q, n) => ReadingView::Complete(q@, *n as int),
            Reading::Incomplete => ReadingView::Incomplete,
            Reading::Closed => ReadingView::Closed,
            Reading::Failed(e) => ReadingView::Failed(e@),
        }
    }
}

/// How the body of a request is framed, as `framing` found it.
pub enum BodyFraming {
    Empty,
    /// The length; `None` stands for one too large for this machine.
    Length(Option<usize>),
    Chunked,
    Invalid,
}

/// How the headers frame the body.
pub fn framing(hs: &Vec<Header>) -> (r: BodyFraming)
    ensures
        match framing_of(header_views(hs@)) {
            Framing::Empty => r is Empty,
            Framing::Length(n) => r matches BodyFraming::Length(x) && match x {
                Some(m) => m == n,
                None => n > usize::MAX,
            },
            Framing::Chunked => r is Chunked,
            Framing::Invalid => r is Invalid,
        },
{
    match get_header(hs, "Content-Length") {
        Some(v) => {
            let d = chars_of(v.as_str());
            if all_digits(&d) {
                BodyFraming::Length(number_of(&d))
            } else {
                BodyFraming::Invalid
            }
        },
        None => match get_header(hs, "Transfer-Encoding") {
            Some(v) => if same_text_ignoring_case(v.as_str(), "chunked") {
                BodyFraming::Chunked
            } else {
                BodyFraming::Empty
            },
            None => BodyFraming::Empty,
        },
    }
}

/// Reads a request line.
pub fn parse_request_line(line: &Vec<char>, address: &str) -> (r: Result<Request, ParseError>)
    ensures
        match request_line(line@, address@) {
            Ok(q) => r matches Ok(x) && x@ == q,
            Err(e) => r matches Err(x) && x == e,
        },
{
    let w = words_of(line);
    proof {
        if w.len() > 0 {
            assert(views(w@)[0] == w@[0]@);
        }
        if w.len() > 1 {
            assert(views(w@)[1] == w@[1]@);
        }
        if w.len() > 2 {
            assert(views(w@)[2] == w@[2]@);
        }
    }
    if w.len() == 0 {
        return Err(ParseError::NoMethod);
    }
    let method = match Method::from_chars(&w[0]) {
        Ok(m) => m,
        Err(e) => {
            return Err(e);
        },
    };
    if w.len() == 1 {
        return Err(ParseError::NoPath);
    }
    let target = &w[1];
    let at = find_char(target, '?');
    let (path, raw_query) = if at < target.len() {
        (slice_chars(target, 0, at), slice_chars(target, at + 1, target.len()))
    } else {
        (slice_chars(target, 0, target.len()), Vec::new())
    };
    proof {
        if at < target.len() {
            assert(target@.subrange(0, at as int) == target@.take(at as int));
            assert(target@.subrange(at + 1, target.len() as int) == target@.skip(at + 1));
        } else {
            assert(target@.subrange(0, target.len() as int) == target@);
            assert(raw_query@ =~= Seq::<char>::empty());
        }
    }
    let query = match Query::from_chars(&raw_query) {
        Some(q) => q,
        None => {
            return Err(ParseError::InvalidQuery);
        },
    };
    if w.len() == 2 {
        return Err(ParseError::NoVersion);
    }
    let q = Request {
        method,
        path: text_of(&path),
        version: text_of(&w[2]),
        path_params: Vec::new(),
        query,
        headers: Vec::new(),
        body: Vec::new(),
        address: address.to_owned(),
    };
    proof {
        assert(q@.path_params =~= Seq::empty());
        assert(q@.headers =~= Seq::empty());
    }
    Ok(q)
}

/// Reads the head of a request from `buf[..end]`.
pub fn parse_head(buf: &Vec<u8>, end: usize, address: &str) -> (r: Result<Request, ParseError>)
    requires
        end <= buf.len(),
    ensures
        match head_of(buf@.take(end as int), address@) {
            Ok(q) => r matches Ok(x) && x@ == q,
            Err(e) => r matches Err(x) && x == e,
        },
{
    if end == 0 {
        return Err(ParseError::NoRequestLine);
    }
    assert(buf@.subrange(0, end as int) == buf@.take(end as int));
    let lines = split_lines(buf, 0, end);
    let ghost ls = byte_views(lines@);
    proof {
        assert(split_on(buf@.take(end as int), crlf()).len() >= 1);
        assert(ls.len() >= 1);
        assert(ls[0] == lines@[0]@);
    }
    let first = latin1_chars(&lines[0], 0, lines[0].len());
    assert(lines@[0]@.subrange(0, lines@[0]@.len() as int) == lines@[0]@);
    let mut q = match parse_request_line(&first, address) {
        Ok(q) => q,
        Err(e) => {
            return Err(e);
        },
    };
    let ghost rest = ls.skip(1);
    let mut hs: Vec<Header> = Vec::new();
    let mut i: usize = 1;
    proof {
        assert(rest.take(0) =~= Seq::<Seq<u8>>::empty());
        assert(header_views(hs@) =~= Seq::<HeaderView>::empty());
    }
    while i < lines.len()
        invariant
            1 <= i <= lines.len(),
            end > 0,
            ls == byte_views(lines@),
            ls == split_on(buf@.take(end as int), crlf()),
            request_line(latin1(ls[0]), address@) == Ok::<RequestView, ParseError>(q@),
            rest == ls.skip(1),
            headers_of(rest.take(i - 1)) == Some(header_views(hs@)),
        decreases lines.len() - i,
    {
        let line = latin1_chars(&lines[i], 0, lines[i].len());
        proof {
            assert(lines@[i as int]@.subrange(0, lines@[i as int]@.len() as int)
                == lines@[i as int]@);
            assert(rest.take(i as int).drop_last() == rest.take(i - 1));
            assert(rest.take(i as int).last() == lines@[i as int]@);
        }
        match Header::from_chars(&line) {
            Ok(h) => {
                proof {
                    lemma_header_views_push(hs@, h);
                }
                hs.push(h);
            },
            Err(_) => {
                proof {
                    assert(header_of_line(line@) is None);
                    assert(headers_of(rest.take(i as int)) is None);
                    lemma_headers_fail(rest, i as int);
                }
                return Err(ParseError::InvalidHeader);
            },
        }
        i = i + 1;
    }
    assert(rest.take(lines.len() - 1) == rest);
    q.headers = hs;
    Ok(q)
}

/// Reads one request from the start of `buf`. `eof` says that no more bytes
/// will come.
pub fn parse_request(buf: &Vec<u8>, eof: bool, address: &str) -> (r: Reading)
    ensures
        r@ == parse(buf@, eof, address@),
        r matches Reading::Complete(_, used) ==> used <= buf.len(),
{
    let sep = separator_bytes();
    assert(buf@.skip(0) == buf@);
    let h = find_bytes(buf, 0, &sep);
    proof {
        crate::bytes::lemma_first_match(buf@, separator());
    }
    if h >= buf.len() {
        return if !eof {
            Reading::Incomplete
        } else if buf.len() == 0 {
            Reading::Closed
        } else {
            Reading::Failed(Error::Parse(ParseError::NoSeparator))
        };
    }
    assert(separator().is_prefix_of(buf@.skip(h as int)));
    let mut q = match parse_head(buf, h, address) {
        Ok(q) => q,
        Err(e) => {
            return Reading::Failed(Error::Parse(e));
        },
    };
    let start = h + 4;
    match framing(&q.headers) {
        BodyFraming::Invalid => Reading::Failed(Error::Parse(ParseError::InvalidHeader)),
        BodyFraming::Empty => Reading::Complete(q, start),
        BodyFraming::Length(len) => {
            match len {
                Some(n) => {
                    if n <= buf.len() - start {
                        q.body = slice_bytes(buf, start, start + n);
                        return Reading::Complete(q, start + n);
                    }
                },
                None => {},
            }
            if eof {
                Reading::Failed(Error::Stream(StreamError::UnexpectedEof))
            } else {
                Reading::Incomplete
            }
        },
        BodyFraming::Chunked => match read_chunks(buf, start) {
            ChunkRead::Done(body, used) => {
                q.body = body;
                Reading::Complete(q, start + used)
            },
            ChunkRead::More => if eof {
                Reading::Failed(Error::Stream(StreamError::UnexpectedEof))
            } else {
                Reading::Incomplete
            },
            ChunkRead::Bad => Reading::Failed(Error::Stream(StreamError::UnexpectedEof)),
        },
    }
}

} // verus!
