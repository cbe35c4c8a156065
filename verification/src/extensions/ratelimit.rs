//! A limit on the number of requests that one client may make in a span
//! of time.

use vstd::prelude::*;
use vstd::utf8::encode_utf8;
use crate::content_type::Content;
use crate::error::Error;
use crate::header::HeaderView;
use crate::middleware::{MiddleRequest, MiddleRequestView};
use crate::request::{Request, RequestView};
use crate::response::{blank_response, Response, ResponseView};
use crate::route::Slot;
use crate::text::{chars_of, find_char, first_index, same_chars, slice_chars, text_of};

verus! {

/// Makes the response for a client that is over the limit. `None` lets the
/// request through.
pub trait LimitHandler: Send + Sync {
    /// Whether `answer` is an answer that this handler may give to `req`.
    /// A handler that says nothing of its answers may give any.
    open spec fn answers(&self, req: RequestView, answer: Option<ResponseView>) -> bool {
        true
    }

    /// The answer to `req`.
    fn call(&self, req: &Request) -> (r: Option<Response>)
        ensures
            self.answers(req@, answer_view(r)),
    ;
}

/// The view of an answer.
pub open spec fn answer_view(r: Option<Response>) -> Option<ResponseView> {
    match r {
        Some(x) => Some(x@),
        None => None,
    }
}

/// The handler that a limiter starts with.
pub struct TooManyRequests;

/// The response that `TooManyRequests` gives: status 429 and a plain text.
pub open spec fn too_many_requests_view() -> ResponseView {
    ResponseView {
        status: 429,
        data: encode_utf8("Too Many Requests"@),
        headers: seq![HeaderView { name: "Content-Type"@, value: "text/plain"@ }],
        ..blank_response()
    }
}

/// The response for a client that is over the limit.
pub fn too_many_requests() -> (r: Response)
    ensures
        r@ == too_many_requests_view(),
{
    let r = Response::new().status(429).text("Too Many Requests").content(Content::TXT);
    assert(r@.headers =~= too_many_requests_view().headers);
    r
}

impl LimitHandler for TooManyRequests {
    open spec fn answers(&self, req: RequestView, answer: Option<ResponseView>) -> bool {
        answer == Some(too_many_requests_view())
    }

    /// Answers every request with status 429 and the plain text
    /// `Too Many Requests`.
    fn call(&self, req: &Request) -> (r: Option<Response>)
        ensures
            r matches Some(x) && x@ == too_many_requests_view(),
    {
        Some(too_many_requests())
    }
}

/// Limits the number of requests that are handled for one client.
pub struct RateLimiter {
    /// Requests that one client may make in one span.
    req_limit: u64,
    /// Time of the last reset, in seconds.
    last_reset: u64,
    /// Length of a span, in seconds.
    req_timeout: u64,
    /// Requests counted in this span, by client. The first entry for a
    /// client is the one that counts.
    requests: Vec<(String, u64)>,
    /// Makes the response for a client that is over the limit.
    handler: Slot<Box<dyn LimitHandler>>,
}


/// What a limiter holds.
pub struct RateLimiterView {
    /// Requests that one client may make in one span.
    pub limit: u64,
    /// Length of a span, in seconds.
    pub timeout: u64,
    /// Time of the last reset, in seconds.
    pub last_reset: u64,
    /// Requests counted in this span, for every client.
    pub counts: Map<Seq<char>, u64>,
}

/// The count in the first entry for `ip`, or 0.
pub open spec fn count_of(entries: Seq<(String, u64)>, ip: Seq<char>) -> u64
    decreases entries.len(),
{
    if entries.len() == 0 {
        0
    } else if entries[0].0@ == ip {
        entries[0].1
    } else {
        count_of(entries.drop_first(), ip)
    }
}

/// The address of a client without its port: what stands before the first
/// `:`.
pub open spec fn without_port(address: Seq<char>) -> Seq<char> {
    let i = first_index(address, ':');
    if 0 <= i < address.len() {
        address.take(i)
    } else {
        address
    }
}

/// One more than `n`, but no more than a count can hold.
pub open spec fn one_more(n: u64) -> u64 {
    if n < u64::MAX {
        (n + 1) as u64
    } else {
        n
    }
}

impl RateLimiterView {
    /// Whether the client `ip` has used up its requests for this span.
    pub open spec fn over_limit(self, ip: Seq<char>) -> bool {
        self.counts[ip] >= self.limit
    }

    /// The limiter after one more request of the client `ip` was counted.
    pub open spec fn counted(self, ip: Seq<char>) -> RateLimiterView {
        RateLimiterView { counts: self.counts.insert(ip, one_more(self.counts[ip])), ..self }
    }

    /// Whether a span has passed at the time `time` since the last reset.
    pub open spec fn span_over(self, time: u64) -> bool {
        self.last_reset + self.timeout <= time
    }

    /// The limiter after the check at the time `time`: once a span has
    /// passed since the last reset, every count is 0 again and the span
    /// starts anew.
    pub open spec fn checked(self, time: u64) -> RateLimiterView {
        if self.span_over(time) {
            RateLimiterView { counts: Map::total(|ip: Seq<char>| 0u64), last_reset: time, ..self }
        } else {
            self
        }
    }

    /// The limiter after `n` more requests of the client `ip` were counted.
    pub open spec fn counted_times(self, ip: Seq<char>, n: nat) -> RateLimiterView
        decreases n,
    {
        if n == 0 {
            self
        } else {
            self.counted_times(ip, (n - 1) as nat).counted(ip)
        }
    }
}

/// Counting `n` requests of a client adds `n` to its count, up to what a
/// count can hold, and leaves limit, span and the other clients as they are.
pub proof fn lemma_counted_times(v: RateLimiterView, ip: Seq<char>, n: nat)
    requires
        v.counts.dom().contains(ip),
    ensures
        v.counted_times(ip, n).counts.dom().contains(ip),
        v.counted_times(ip, n).counts[ip] == if v.counts[ip] + n <= u64::MAX {
            (v.counts[ip] + n) as u64
        } else {
            u64::MAX
        },
        v.counted_times(ip, n).limit == v.limit,
        v.counted_times(ip, n).timeout == v.timeout,
        v.counted_times(ip, n).last_reset == v.last_reset,
        forall|other: Seq<char>|
            other != ip ==> v.counted_times(ip, n).counts[other] == v.counts[other],
    decreases n,
{
    if n > 0 {
        lemma_counted_times(v, ip, (n - 1) as nat);
    }
}

/// With a limit of `n`, a client whose span has just begun is served `n`
/// times: it is within the limit while fewer than `n` of its requests were
/// counted, and over the limit from the `n`-th on. Another client is not
/// touched by that.
pub proof fn law_limit_reached(v: RateLimiterView, ip: Seq<char>, k: nat)
    requires
        v.counts.dom().contains(ip),
        v.counts[ip] == 0,
    ensures
        v.counted_times(ip, k).over_limit(ip) <==> k >= v.limit,
        forall|other: Seq<char>|
            other != ip ==> (v.counted_times(ip, k).over_limit(other) <==> v.over_limit(other)),
{
    lemma_counted_times(v, ip, k);
}

/// Once a span has passed, the check clears every count: no client is over
/// the limit any more, unless the limit is 0. Before that the check changes
/// nothing.
pub proof fn law_reset_after_span(v: RateLimiterView, time: u64, ip: Seq<char>)
    ensures
        v.span_over(time) && v.limit > 0 ==> !v.checked(time).over_limit(ip),
        v.span_over(time) ==> v.checked(time).counts[ip] == 0 && v.checked(time).last_reset == time,
        !v.span_over(time) ==> v.checked(time) == v,
{
}

impl RateLimiter {
    /// Whether `answer` is an answer that the limiter's handler may give to
    /// `req`.
    pub closed spec fn may_answer(self, req: RequestView, answer: Option<ResponseView>) -> bool {
        self.handler.value.answers(req, answer)
    }

    /// Whether two limiters answer alike when a client is over the limit.
    pub open spec fn answers_as(self, other: RateLimiter) -> bool {
        forall|req: RequestView, answer: Option<ResponseView>|
            self.may_answer(req, answer) == other.may_answer(req, answer)
    }
}

impl View for RateLimiter {
    type V = RateLimiterView;

    closed spec fn view(&self) -> RateLimiterView {
        RateLimiterView {
            limit: self.req_limit,
            timeout: self.req_timeout,
            last_reset: self.last_reset,
            counts: Map::total(|ip: Seq<char>| count_of(self.requests@, ip)),
        }
    }
}

/// Replacing the count in the first entry for a client changes the count
/// of that client alone.
proof fn lemma_count_updated(entries: Seq<(String, u64)>, i: int, ip: String, n: u64, other: Seq<char>)
    requires
        0 <= i < entries.len(),
        entries[i].0@ == ip@,
        forall|j: int| 0 <= j < i ==> entries[j].0@ != ip@,
    ensures
        count_of(entries.update(i, (ip, n)), other) == if other == ip@ {
            n
        } else {
            count_of(entries, other)
        },
    decreases entries.len(),
{
    let updated = entries.update(i, (ip, n));
    if i == 0 {
        assert(updated.drop_first() == entries.drop_first());
    } else {
        assert(updated.drop_first() == entries.drop_first().update(i - 1, (ip, n)));
        lemma_count_updated(entries.drop_first(), i - 1, ip, n, other);
    }
}

/// The count of a client is the one in its first entry.
proof fn lemma_count_first(entries: Seq<(String, u64)>, i: int, ip: Seq<char>)
    requires
        0 <= i < entries.len(),
        entries[i].0@ == ip,
        forall|j: int| 0 <= j < i ==> entries[j].0@ != ip,
    ensures
        count_of(entries, ip) == entries[i].1,
    decreases entries.len(),
{
    if i > 0 {
        lemma_count_first(entries.drop_first(), i - 1, ip);
    }
}

/// Adding an entry for a client without one changes the count of that
/// client alone.
proof fn lemma_count_pushed(entries: Seq<(String, u64)>, ip: String, n: u64, other: Seq<char>)
    requires
        forall|j: int| 0 <= j < entries.len() ==> entries[j].0@ != ip@,
    ensures
        count_of(entries.push((ip, n)), other) == if other == ip@ {
            n
        } else {
            count_of(entries, other)
        },
        other == ip@ ==> count_of(entries, other) == 0,
    decreases entries.len(),
{
    let pushed = entries.push((ip, n));
    if entries.len() == 0 {
        assert(pushed.drop_first() =~= entries);
    } else {
        assert(pushed.drop_first() == entries.drop_first().push((ip, n)));
        lemma_count_pushed(entries.drop_first(), ip, n, other);
    }
}

/// The address of a client without its port.
pub fn remove_address_port(address: &str) -> (r: String)
    ensures
        r@ == without_port(address@),
{
    let v = chars_of(address);
    let i = find_char(&v, ':');
    if i < v.len() {
        assert(v@.subrange(0, i as int) == v@.take(i as int));
        text_of(&slice_chars(&v, 0, i))
    } else {
        text_of(&v)
    }
}

/// What becomes of a request of a client that is over the limit, given the
/// answer of the handler: the answer is sent at once, and without an answer
/// the request goes on.
pub open spec fn refusal_view(answer: Option<ResponseView>) -> MiddleRequestView {
    match answer {
        Some(x) => MiddleRequestView::Send(x),
        None => MiddleRequestView::Continue,
    }
}

/// What becomes of a request of a client that is over the limit, given the
/// answer of the handler.
pub fn refusal(answer: Option<Response>) -> (r: MiddleRequest)
    ensures
        r@ == refusal_view(answer_view(answer)),
{
    match answer {
        Some(i) => MiddleRequest::Send(i),
        None => MiddleRequest::Continue,
    }
}

impl RateLimiter {
    /// A limiter for 10 requests in 60 seconds, which answers a client over
    /// the limit with status 429. No request is counted yet.
    pub fn new() -> (r: RateLimiter)
        ensures
            r@ == (RateLimiterView {
                limit: 10,
                timeout: 60,
                last_reset: 0,
                counts: Map::total(|ip: Seq<char>| 0u64),
            }),
            forall|req: RequestView, answer: Option<ResponseView>| #[trigger]
                r.may_answer(req, answer) <==> answer == Some(too_many_requests_view()),
    {
        let r = RateLimiter {
            last_reset: 0,
            req_limit: 10,
            req_timeout: 60,
            requests: Vec::new(),
            handler: Slot { value: Box::new(TooManyRequests) },
        };
        assert(r@.counts =~= Map::total(|ip: Seq<char>| 0u64));
        r
    }

    /// Sets the number of requests that one client may make in one span.
    pub fn limit(self, limit: u64) -> (r: RateLimiter)
        ensures
            r@ == (RateLimiterView { limit, ..self@ }),
            r.answers_as(self),
    {
        RateLimiter { req_limit: limit, ..self }
    }

    /// Sets the length of a span, in seconds.
    pub fn timeout(self, timeout: u64) -> (r: RateLimiter)
        ensures
            r@ == (RateLimiterView { timeout, ..self@ }),
            r.answers_as(self),
    {
        RateLimiter { req_timeout: timeout, ..self }
    }

    /// Sets what makes the response for a client that is over the limit.
    /// Limit, span and counts stay as they are.
    pub fn handler(self, handler: Box<dyn LimitHandler>) -> (r: RateLimiter)
        ensures
            r@ == self@,
            forall|req: RequestView, answer: Option<ResponseView>| #[trigger]
                r.may_answer(req, answer) == handler.answers(req, answer),
    {
        let slot = Slot { value: handler };
        RateLimiter { handler: slot, ..self }
    }

    /// Counts a request of the client `ip`.
    pub fn add_request(&mut self, ip: String)
        ensures
            final(self)@ == old(self)@.counted(ip@),
            final(self).answers_as(*old(self)),
    {
        let key = chars_of(ip.as_str());
        let mut i: usize = 0;
        while i < self.requests.len()
            invariant
                i <= self.requests.len(),
                key@ == ip@,
                *self == *old(self),
                forall|j: int| 0 <= j < i ==> self.requests@[j].0@ != ip@,
            decreases self.requests.len() - i,
        {
            let name = chars_of(self.requests[i].0.as_str());
            if same_chars(&name, &key) {
                let c = self.requests[i].1;
                let n = if c < u64::MAX {
                    c + 1
                } else {
                    c
                };
                proof {
                    assert forall|other: Seq<char>|
                        count_of(self.requests@.update(i as int, (ip, n)), other)
                            == #[trigger] old(self)@.counted(ip@).counts[other] by {
                        lemma_count_updated(self.requests@, i as int, ip, n, other);
                        lemma_count_first(self.requests@, i as int, ip@);
                    }
                }
                self.requests.set(i, (ip, n));
                assert(self@.counts =~= old(self)@.counted(ip@).counts);
                return ;
            }
            i = i + 1;
        }
        proof {
            assert forall|other: Seq<char>|
                count_of(self.requests@.push((ip, 1u64)), other) == #[trigger] old(
                    self,
                )@.counted(ip@).counts[other] by {
                lemma_count_pushed(self.requests@, ip, 1u64, other);
            }
        }
        self.requests.push((ip, 1));
        assert(self@.counts =~= old(self)@.counted(ip@).counts);
    }

    /// Clears the counts once a span has passed since the last reset.
    /// `time` is the time now, in seconds.
    pub fn check_reset(&mut self, time: u64)
        ensures
            final(self)@ == old(self)@.checked(time),
            final(self).answers_as(*old(self)),
    {
        if self.req_timeout <= time && self.last_reset <= time - self.req_timeout {
            self.requests = Vec::new();
            self.last_reset = time;
            assert(self@.counts =~= old(self)@.checked(time).counts);
        }
    }

    /// Whether the client `ip` has used up its requests for this span.
    pub fn is_over_limit(&self, ip: String) -> (r: bool)
        ensures
            r == self@.over_limit(ip@),
    {
        let key = chars_of(ip.as_str());
        let ghost all = self.requests@;
        let mut i: usize = 0;
        assert(all.skip(0) == all);
        while i < self.requests.len()
            invariant
                i <= self.requests.len(),
                key@ == ip@,
                all == self.requests@,
                count_of(all, ip@) == count_of(all.skip(i as int), ip@),
            decreases self.requests.len() - i,
        {
            let name = chars_of(self.requests[i].0.as_str());
            proof {
                assert(all.skip(i as int)[0] == all[i as int]);
                assert(all.skip(i as int).drop_first() == all.skip(i + 1));
            }
            if same_chars(&name, &key) {
                return self.requests[i].1 >= self.req_limit;
            }
            i = i + 1;
        }
        0 >= self.req_limit
    }

    /// Before the routes, at the time `time`: a request of a client that
    /// is over the limit is answered by the handler, unless the handler lets
    /// it through. Once a span has passed since the last reset, the counts of
    /// that span bind no more, and the client is served again. Any other
    /// request goes on, and so does a request that could not be read.
    pub fn pre(&self, req: &Result<Request, Error>, time: u64) -> (r: MiddleRequest)
        ensures
            match req {
                Ok(q) => if self@.checked(time).over_limit(without_port(q@.address)) {
                    exists|answer: Option<ResponseView>|
                        self.may_answer(q@, answer) && r@ == refusal_view(answer)
                } else {
                    r is Continue
                },
                Err(_) => r is Continue,
            },
            !(r is Add),
    {
        let req = match req {
            Ok(i) => i,
            Err(_) => {
                return MiddleRequest::Continue;
            },
        };
        let over = if self.req_timeout <= time && self.last_reset <= time - self.req_timeout {
            0 >= self.req_limit
        } else {
            self.is_over_limit(remove_address_port(req.address.as_str()))
        };
        if over {
            let answer = self.handler.value.call(req);
            assert(self.may_answer(req@, answer_view(answer)));
            return refusal(answer);
        }
        MiddleRequest::Continue
    }

    /// After a response was written: the check for a new span at the time
    /// `time`, then the request is counted for its client. A request that
    /// could not be read is not counted.
    pub fn end(&mut self, req: &Result<Request, Error>, time: u64)
        ensures
            final(self)@ == match req {
                Ok(q) => old(self)@.checked(time).counted(without_port(q@.address)),
                Err(_) => old(self)@,
            },
            final(self).answers_as(*old(self)),
    {
        let req = match req {
            Ok(i) => i,
            Err(_) => {
                return ;
            },
        };
        self.check_reset(time);
        self.add_request(remove_address_port(req.address.as_str()));
    }
}

impl Default for RateLimiter {
    fn default() -> (r: RateLimiter)
        ensures
            r@ == (RateLimiterView {
                limit: 10,
                timeout: 60,
                last_reset: 0,
                counts: Map::total(|ip: Seq<char>| 0u64),
            }),
            forall|req: RequestView, answer: Option<ResponseView>| #[trigger]
                r.may_answer(req, answer) <==> answer == Some(too_many_requests_view()),
    {
        RateLimiter::new()
    }
}

} // verus!
