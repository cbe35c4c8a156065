//! Responses: the value that a handler builds, and the bytes that go on
//! the wire for it.

use vstd::prelude::*;
use vstd::utf8::encode_utf8;
use crate::content_type::Content;
use crate::cookie::{set_cookie_text, SetCookie, SetCookieView};
use crate::header::{
    add_defaults, clone_headers, has_header, has_name, header_line, header_views,
    lemma_header_views_push, with_defaults, Header, HeaderView,
};
use crate::status::{reason_phrase, reason_text};
use crate::text::{decimal, push_decimal};

verus! {

/// An HTTP response.
#[derive(Debug, PartialEq, Eq, Hash)]
pub struct Response {
    /// Status code.
    pub status: u16,
    /// Body.
    pub data: Vec<u8>,
    /// Headers, in the order in which they were added.
    pub headers: Vec<Header>,
    /// Reason phrase; where there is none, the status code decides.
    pub reason: Option<String>,
    /// Whether the connection closes once this response is written.
    pub close: bool,
}

/// What a response holds.
pub struct ResponseView {
    pub status: u16,
    pub data: Seq<u8>,
    pub headers: Seq<HeaderView>,
    pub reason: Option<Seq<char>>,
    pub close: bool,
}

impl View for Response {
    type V = ResponseView;

    open spec fn view(&self) -> ResponseView {
        ResponseView {
            status: self.status,
            data: self.data@,
            headers: header_views(self.headers@),
            reason: match self.reason {
                Some(r) => Some(r@),
                None => None,
            },
            close: self.close,
        }
    }
}

/// A fresh response: status 200, the body `OK`, no headers, no reason
/// phrase of its own, and the connection left open.
pub open spec fn blank_response() -> ResponseView {
    ResponseView {
        status: 200,
        data: seq![79u8, 75u8],
        headers: Seq::empty(),
        reason: None,
        close: false,
    }
}

/// The `Set-Cookie` headers for a list of cookies, in order.
pub open spec fn cookie_headers(cs: Seq<SetCookieView>) -> Seq<HeaderView> {
    Seq::new(
        cs.len(),
        |i: int| HeaderView { name: "Set-Cookie"@, value: set_cookie_text(cs[i]) },
    )
}

/// The views of a list of cookies.
pub open spec fn cookie_views(cs: Seq<SetCookie>) -> Seq<SetCookieView> {
    Seq::new(cs.len(), |i: int| cs[i]@)
}

/// The headers that go on the wire for a response: its own, then each of
/// the defaults whose name none of its own carries, then `Content-Length`
/// with the length of the body. A `Content-Length` that the response or a
/// default sets is not overridden: where one is there, none is added.
pub open spec fn final_headers(r: ResponseView, defaults: Seq<HeaderView>) -> Seq<HeaderView> {
    let hs = with_defaults(r.headers, defaults);
    if has_name(hs, "Content-Length"@) {
        hs
    } else {
        hs.push(HeaderView { name: "Content-Length"@, value: decimal(r.data.len()) })
    }
}

/// The reason phrase that goes on the wire.
pub open spec fn final_reason(r: ResponseView) -> Seq<char> {
    match r.reason {
        Some(x) => x,
        None => reason_text(r.status),
    }
}

/// The header lines, each ended by CR LF.
pub open spec fn header_lines(hs: Seq<HeaderView>) -> Seq<char>
    decreases hs.len(),
{
    if hs.len() == 0 {
        Seq::empty()
    } else {
        header_lines(hs.drop_last()) + header_line(hs.last()) + "\r\n"@
    }
}

/// The head of a response on the wire: status line, header lines, and the
/// empty line that ends the head.
pub open spec fn head_text(r: ResponseView, defaults: Seq<HeaderView>) -> Seq<char> {
    "HTTP/1.1 "@ + decimal(r.status as nat) + " "@ + final_reason(r) + "\r\n"@ + header_lines(
        final_headers(r, defaults),
    ) + "\r\n"@
}

/// The bytes of a response on the wire: the head in UTF-8, then the body.
pub open spec fn wire(r: ResponseView, defaults: Seq<HeaderView>) -> Seq<u8> {
    encode_utf8(head_text(r, defaults)) + r.data
}

/// On the wire a response has its own headers first and unchanged, and
/// every default header but those whose name one of its own carries. Each
/// header that was added has a name that the response's own headers lack. A
/// `Content-Length` is always present; where neither the response nor a
/// default sets one, it is the last header and gives the length of the body.
pub proof fn law_final_headers(r: ResponseView, defaults: Seq<HeaderView>)
    ensures
        r.headers.is_prefix_of(final_headers(r, defaults)),
        forall|i: int|
            0 <= i < defaults.len() && !has_name(r.headers, (#[trigger] defaults[i]).name)
                ==> final_headers(r, defaults).contains(defaults[i]),
        forall|i: int|
            r.headers.len() <= i < final_headers(r, defaults).len() ==> !has_name(
                r.headers,
                (#[trigger] final_headers(r, defaults)[i]).name,
            ),
        has_name(final_headers(r, defaults), "Content-Length"@),
        !has_name(with_defaults(r.headers, defaults), "Content-Length"@) ==> final_headers(
            r,
            defaults,
        ).last() == (HeaderView { name: "Content-Length"@, value: decimal(r.data.len()) }),
{
    let hs = with_defaults(r.headers, defaults);
    let f = final_headers(r, defaults);
    crate::header::law_defaults_are_appended(r.headers, defaults);
    assert(hs.is_prefix_of(f));
    assert forall|i: int|
        0 <= i < defaults.len() && !has_name(r.headers, (#[trigger] defaults[i]).name) implies f.contains(
        defaults[i],
    ) by {
        let k = choose|k: int| 0 <= k < hs.len() && hs[k] == defaults[i];
        assert(f[k] == defaults[i]);
    }
    if !has_name(hs, "Content-Length"@) {
        assert(f[hs.len() as int].name == "Content-Length"@);
        assert(crate::text::same_ignoring_case(f[hs.len() as int].name, "Content-Length"@));
        assert forall|i: int| r.headers.len() <= i < f.len() implies !has_name(
            r.headers,
            (#[trigger] f[i]).name,
        ) by {
            if i < hs.len() {
                assert(f[i] == hs[i]);
            } else {
                if has_name(r.headers, f[i].name) {
                    crate::header::lemma_has_name_prefix(r.headers, hs, f[i].name);
                }
            }
        }
    }
}

impl Clone for Response {
    fn clone(&self) -> (r: Self)
        ensures
            r@ == self@,
    {
        Response {
            status: self.status,
            data: self.data.clone(),
            headers: clone_headers(&self.headers),
            reason: match &self.reason {
                Some(x) => Some(x.clone()),
                None => None,
            },
            close: self.close,
        }
    }
}

impl Default for Response {
    fn default() -> (r: Response)
        ensures
            r@ == blank_response(),
    {
        Response::new()
    }
}

impl Response {
    /// A fresh response: status 200 and the body `OK`.
    pub fn new() -> (r: Response)
        ensures
            r@ == blank_response(),
    {
        let mut data: Vec<u8> = Vec::new();
        data.push(79);
        data.push(75);
        let r = Response { status: 200, data, headers: Vec::new(), reason: None, close: false };
        assert(r@.data =~= blank_response().data);
        assert(r@.headers =~= blank_response().headers);
        r
    }

    /// Sets the status code.
    pub fn status(self, code: u16) -> (r: Response)
        ensures
            r@ == (ResponseView { status: code, ..self@ }),
    {
        Response { status: code, ..self }
    }

    /// Sets the reason phrase.
    pub fn reason(self, reason: &str) -> (r: Response)
        ensures
            r@ == (ResponseView { reason: Some(reason@), ..self@ }),
    {
        Response { reason: Some(reason.to_owned()), ..self }
    }

    /// Sets the body to the UTF-8 bytes of `text`.
    pub fn text(self, text: &str) -> (r: Response)
        ensures
            r@ == (ResponseView { data: encode_utf8(text@), ..self@ }),
    {
        Response { data: text.as_bytes_vec(), ..self }
    }

    /// Sets the body.
    pub fn bytes(self, bytes: Vec<u8>) -> (r: Response)
        ensures
            r@ == (ResponseView { data: bytes@, ..self@ }),
    {
        Response { data: bytes, ..self }
    }

    /// Adds a header after those that are there.
    pub fn header(self, key: &str, value: &str) -> (r: Response)
        ensures
            r@ == (ResponseView {
                headers: self@.headers.push(HeaderView { name: key@, value: value@ }),
                ..self@
            }),
    {
        let mut new_headers = self.headers;
        let h = Header::new(key, value);
        proof {
            lemma_header_views_push(new_headers@, h);
        }
        new_headers.push(h);
        Response { headers: new_headers, ..self }
    }

    /// Adds a list of headers, in order, after those that are there.
    pub fn headers(self, headers: Vec<Header>) -> (r: Response)
        ensures
            r@ == (ResponseView { headers: self@.headers + header_views(headers@), ..self@ }),
    {
        let mut new_headers = self.headers;
        let mut headers = headers;
        let ghost a = new_headers@;
        let ghost b = headers@;
        new_headers.append(&mut headers);
        assert(header_views(a + b) =~= header_views(a) + header_views(b));
        Response { headers: new_headers, ..self }
    }

    /// Has the connection closed once this response is written.
    pub fn close(self) -> (r: Response)
        ensures
            r@ == (ResponseView { close: true, ..self@ }),
    {
        Response { close: true, ..self }
    }

    /// Adds a `Set-Cookie` header for a cookie.
    pub fn cookie(self, cookie: SetCookie) -> (r: Response)
        ensures
            r@ == (ResponseView {
                headers: self@.headers.push(
                    HeaderView { name: "Set-Cookie"@, value: set_cookie_text(cookie@) },
                ),
                ..self@
            }),
    {
        let text = cookie.to_string();
        self.header("Set-Cookie", text.as_str())
    }

    /// Adds a `Set-Cookie` header for each cookie of a list, in order.
    pub fn cookies(self, cookie: Vec<SetCookie>) -> (r: Response)
        ensures
            r@ == (ResponseView {
                headers: self@.headers + cookie_headers(cookie_views(cookie@)),
                ..self@
            }),
    {
        let mut new: Vec<Header> = Vec::new();
        let ghost all = cookie_headers(cookie_views(cookie@));
        let mut i: usize = 0;
        while i < cookie.len()
            invariant
                i <= cookie.len(),
                all == cookie_headers(cookie_views(cookie@)),
                header_views(new@) == all.take(i as int),
            decreases cookie.len() - i,
        {
            let text = cookie[i].to_string();
            let h = Header::new("Set-Cookie", text.as_str());
            proof {
                lemma_header_views_push(new@, h);
                assert(all.take(i + 1) == all.take(i as int).push(all[i as int]));
            }
            new.push(h);
            i = i + 1;
        }
        assert(all.take(cookie.len() as int) == all);
        self.headers(new)
    }

    /// Adds a `Content-Type` header for a content type.
    pub fn content(self, content_type: Content) -> (r: Response)
        ensures
            r@ == (ResponseView {
                headers: self@.headers.push(
                    HeaderView { name: "Content-Type"@, value: content_type.mime() },
                ),
                ..self@
            }),
    {
        self.header("Content-Type", content_type.as_type())
    }

    /// The headers that go on the wire for this response.
    pub fn merged_headers(&self, default_headers: &Vec<Header>) -> (hs: Vec<Header>)
        ensures
            header_views(hs@) == final_headers(self@, header_views(default_headers@)),
    {
        let mut hs = add_defaults(&self.headers, default_headers);
        if !has_header(&hs, "Content-Length") {
            let mut value = String::new();
            push_decimal(&mut value, self.data.len() as u64);
            let h = Header { name: "Content-Length".to_owned(), value };
            proof {
                assert(value@ =~= decimal(self.data.len() as nat));
                lemma_header_views_push(hs@, h);
            }
            hs.push(h);
        }
        hs
    }

    /// The bytes that go on the wire for this response.
    pub fn to_bytes(&self, default_headers: &Vec<Header>) -> (out: Vec<u8>)
        ensures
            out@ == wire(self@, header_views(default_headers@)),
    {
        let hs = self.merged_headers(default_headers);
        let ghost hv = header_views(hs@);
        let mut head = "HTTP/1.1 ".to_owned();
        push_decimal(&mut head, self.status as u64);
        head.push(' ');
        match &self.reason {
            Some(x) => head.append(x.as_str()),
            None => head.append(reason_phrase(self.status)),
        }
        head.push('\r');
        head.push('\n');
        let ghost start = head@;
        proof {
            reveal_strlit(" ");
            reveal_strlit("\r\n");
            assert(start =~= "HTTP/1.1 "@ + decimal(self.status as nat) + " "@ + final_reason(self@)
                + "\r\n"@);
        }
        let mut i: usize = 0;
        assert(hv.take(0) =~= Seq::<HeaderView>::empty());
        while i < hs.len()
            invariant
                i <= hs.len(),
                hv == header_views(hs@),
                head@ == start + header_lines(hv.take(i as int)),
            decreases hs.len() - i,
        {
            let line = hs[i].to_string();
            head.append(line.as_str());
            head.push('\r');
            head.push('\n');
            proof {
                reveal_strlit("\r\n");
                let t = hv.take(i + 1);
                assert(t.drop_last() == hv.take(i as int));
                assert(t.last() == hs@[i as int]@);
                assert(head@ =~= start + header_lines(t));
            }
            i = i + 1;
        }
        head.push('\r');
        head.push('\n');
        proof {
            reveal_strlit("\r\n");
            assert(hv.take(hs.len() as int) == hv);
            assert(head@ =~= head_text(self@, header_views(default_headers@)));
        }
        let mut out = head.as_str().as_bytes_vec();
        let mut body = self.data.clone();
        out.append(&mut body);
        out
    }
}

} // verus!
