//! Request methods.

use vstd::prelude::*;
use crate::error::ParseError;
use crate::text::{chars_of, same_chars, text_of};

verus! {

/// The method of a request, or of a route.
#[derive(Debug, PartialEq, Eq, Hash)]
pub enum Method {
    GET,
    POST,
    PUT,
    DELETE,
    OPTIONS,
    HEAD,
    PATCH,
    TRACE,
    /// A method that is none of the others, by its name.
    CUSTOM(String),
    /// On a route: every method.
    ANY,
}

/// What a method holds.
pub enum MethodView {
    GET,
    POST,
    PUT,
    DELETE,
    OPTIONS,
    HEAD,
    PATCH,
    TRACE,
    CUSTOM(Seq<char>),
    ANY,
}

impl View for Method {
    type V = MethodView;

    open spec fn view(&self) -> MethodView {
        match self {
            Method::GET => MethodView::GET,
            Method::POST => MethodView::POST,
            Method::PUT => MethodView::PUT,
            Method::DELETE => MethodView::DELETE,
            Method::OPTIONS => MethodView::OPTIONS,
            Method::HEAD => MethodView::HEAD,
            Method::PATCH => MethodView::PATCH,
            Method::TRACE => MethodView::TRACE,
            Method::CUSTOM(s) => MethodView::CUSTOM(s@),
            Method::ANY => MethodView::ANY,
        }
    }
}

/// A character that may stand in a method name: a letter, a digit or one of
/// ``!#$%&'*+-.^_`|~``.
pub open spec fn is_token_char(c: char) -> bool {
    ||| ('a' <= c && c <= 'z')
    ||| ('A' <= c && c <= 'Z')
    ||| ('0' <= c && c <= '9')
    ||| c == '!'
    ||| c == '#'
    ||| c == '$'
    ||| c == '%'
    ||| c == '&'
    ||| c == '\''
    ||| c == '*'
    ||| c == '+'
    ||| c == '-'
    ||| c == '.'
    ||| c == '^'
    ||| c == '_'
    ||| c == '`'
    ||| c == '|'
    ||| c == '~'
}

/// A well-formed method name: one or more token characters.
pub open spec fn is_token(s: Seq<char>) -> bool {
    &&& s.len() > 0
    &&& forall|i: int| 0 <= i < s.len() ==> is_token_char(s[i])
}

/// The method that a well-formed name stands for. A name that is none of the
/// eight known ones is kept as a custom method.
pub open spec fn method_of(s: Seq<char>) -> MethodView {
    if s == "GET"@ {
        MethodView::GET
    } else if s == "POST"@ {
        MethodView::POST
    } else if s == "PUT"@ {
        MethodView::PUT
    } else if s == "DELETE"@ {
        MethodView::DELETE
    } else if s == "OPTIONS"@ {
        MethodView::OPTIONS
    } else if s == "HEAD"@ {
        MethodView::HEAD
    } else if s == "PATCH"@ {
        MethodView::PATCH
    } else if s == "TRACE"@ {
        MethodView::TRACE
    } else {
        MethodView::CUSTOM(s)
    }
}

/// The name of a method.
pub open spec fn method_text(m: MethodView) -> Seq<char> {
    match m {
        MethodView::GET => "GET"@,
        MethodView::POST => "POST"@,
        MethodView::PUT => "PUT"@,
        MethodView::DELETE => "DELETE"@,
        MethodView::OPTIONS => "OPTIONS"@,
        MethodView::HEAD => "HEAD"@,
        MethodView::PATCH => "PATCH"@,
        MethodView::TRACE => "TRACE"@,
        MethodView::CUSTOM(s) => s,
        MethodView::ANY => "ANY"@,
    }
}

/// Whether a route registered for `route` serves a request made with
/// `request`: the two are the same, or the route takes every method.
pub open spec fn accepts(route: MethodView, request: MethodView) -> bool {
    route == MethodView::ANY || route == request
}

/// A route for `ANY` serves every method, and a route for any other method
/// serves that method alone.
pub proof fn law_any_accepts(route: MethodView, request: MethodView)
    ensures
        accepts(MethodView::ANY, request),
        route != MethodView::ANY ==> (accepts(route, request) <==> route == request),
{
}

/// Whether `c` may stand in a method name.
pub fn token_char(c: char) -> (r: bool)
    ensures
        r == is_token_char(c),
{
    (c >= 'a' && c <= 'z') || (c >= 'A' && c <= 'Z') || (c >= '0' && c <= '9') || c == '!' || c == '#'
        || c == '$' || c == '%' || c == '&' || c == '\'' || c == '*' || c == '+' || c == '-' || c
        == '.' || c == '^' || c == '_' || c == '`' || c == '|' || c == '~'
}

impl Clone for Method {
    fn clone(&self) -> (r: Self)
        ensures
            r@ == self@,
    {
        match self {
            Method::GET => Method::GET,
            Method::POST => Method::POST,
            Method::PUT => Method::PUT,
            Method::DELETE => Method::DELETE,
            Method::OPTIONS => Method::OPTIONS,
            Method::HEAD => Method::HEAD,
            Method::PATCH => Method::PATCH,
            Method::TRACE => Method::TRACE,
            Method::CUSTOM(s) => Method::CUSTOM(s.clone()),
            Method::ANY => Method::ANY,
        }
    }
}

impl Method {
    /// Reads a method from its name. A name with a character that no method
    /// name can hold, or an empty one, is refused.
    pub fn from_chars(v: &Vec<char>) -> (r: Result<Method, ParseError>)
        ensures
            is_token(v@) ==> (r matches Ok(m) && m@ == method_of(v@)),
            !is_token(v@) ==> r == Err::<Method, ParseError>(ParseError::InvalidMethod),
    {
        if v.len() == 0 {
            return Err(ParseError::InvalidMethod);
        }
        let mut i: usize = 0;
        while i < v.len()
            invariant
                i <= v.len(),
                forall|j: int| 0 <= j < i ==> is_token_char(v@[j]),
            decreases v.len() - i,
        {
            if !token_char(v[i]) {
                return Err(ParseError::InvalidMethod);
            }
            i = i + 1;
        }
        if same_chars(v, &chars_of("GET")) {
            Ok(Method::GET)
        } else if same_chars(v, &chars_of("POST")) {
            Ok(Method::POST)
        } else if same_chars(v, &chars_of("PUT")) {
            Ok(Method::PUT)
        } else if same_chars(v, &chars_of("DELETE")) {
            Ok(Method::DELETE)
        } else if same_chars(v, &chars_of("OPTIONS")) {
            Ok(Method::OPTIONS)
        } else if same_chars(v, &chars_of("HEAD")) {
            Ok(Method::HEAD)
        } else if same_chars(v, &chars_of("PATCH")) {
            Ok(Method::PATCH)
        } else if same_chars(v, &chars_of("TRACE")) {
            Ok(Method::TRACE)
        } else {
            Ok(Method::CUSTOM(text_of(v)))
        }
    }

    /// Reads a method from its name.
    pub fn from_string(s: &str) -> (r: Result<Method, ParseError>)
        ensures
            is_token(s@) ==> (r matches Ok(m) && m@ == method_of(s@)),
            !is_token(s@) ==> r == Err::<Method, ParseError>(ParseError::InvalidMethod),
    {
        let v = chars_of(s);
        Method::from_chars(&v)
    }

    /// The name of the method.
    pub fn to_string(&self) -> (s: String)
        ensures
            s@ == method_text(self@),
    {
        match self {
            Method::GET => "GET".to_owned(),
            Method::POST => "POST".to_owned(),
            Method::PUT => "PUT".to_owned(),
            Method::DELETE => "DELETE".to_owned(),
            Method::OPTIONS => "OPTIONS".to_owned(),
            Method::HEAD => "HEAD".to_owned(),
            Method::PATCH => "PATCH".to_owned(),
            Method::TRACE => "TRACE".to_owned(),
            Method::CUSTOM(s) => s.clone(),
            Method::ANY => "ANY".to_owned(),
        }
    }

    /// Whether `self` and `other` are the same method.
    pub fn is(&self, other: &Method) -> (r: bool)
        ensures
            r == (self@ == other@),
    {
        match (self, other) {
            (Method::GET, Method::GET) => true,
            (Method::POST, Method::POST) => true,
            (Method::PUT, Method::PUT) => true,
            (Method::DELETE, Method::DELETE) => true,
            (Method::OPTIONS, Method::OPTIONS) => true,
            (Method::HEAD, Method::HEAD) => true,
            (Method::PATCH, Method::PATCH) => true,
            (Method::TRACE, Method::TRACE) => true,
            (Method::CUSTOM(a), Method::CUSTOM(b)) => *a == *b,
            (Method::ANY, Method::ANY) => true,
            _ => false,
        }
    }

    /// Whether a route registered for `self` serves a request made with
    /// `request`.
    pub fn accepts(&self, request: &Method) -> (r: bool)
        ensures
            r == accepts(self@, request@),
    {
        match self {
            Method::ANY => true,
            _ => self.is(request),
        }
    }
}

} // verus!
