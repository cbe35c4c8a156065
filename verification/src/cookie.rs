//! Cookies that a response sets.

use vstd::prelude::*;
use crate::text::{decimal, push_decimal};

verus! {

/// A cookie to set, with its attributes.
#[derive(Debug, PartialEq, Eq, Hash)]
pub struct SetCookie {
    /// Name of the cookie.
    pub name: String,
    /// Value of the cookie.
    pub value: String,
    /// Seconds until the cookie expires.
    pub max_age: Option<u64>,
    /// Domain that the cookie is for.
    pub domain: Option<String>,
    /// Path that the cookie is for.
    pub path: Option<String>,
    /// Whether the cookie is sent over secure connections only.
    pub secure: bool,
}

/// What a cookie to set holds.
pub struct SetCookieView {
    pub name: Seq<char>,
    pub value: Seq<char>,
    pub max_age: Option<u64>,
    pub domain: Option<Seq<char>>,
    pub path: Option<Seq<char>>,
    pub secure: bool,
}

impl View for SetCookie {
    type V = SetCookieView;

    open spec fn view(&self) -> SetCookieView {
        SetCookieView {
            name: self.name@,
            value: self.value@,
            max_age: self.max_age,
            domain: match self.domain {
                Some(d) => Some(d@),
                None => None,
            },
            path: match self.path {
                Some(p) => Some(p@),
                None => None,
            },
            secure: self.secure,
        }
    }
}

/// The value of the `Set-Cookie` header for a cookie: `name=value;`, then
/// each attribute that is set as ` Attribute=value;`, in the order Max-Age,
/// Domain, Path, Secure.
pub open spec fn set_cookie_text(c: SetCookieView) -> Seq<char> {
    c.name + "="@ + c.value + ";"@ + (match c.max_age {
        Some(n) => " Max-Age="@ + decimal(n as nat) + ";"@,
        None => Seq::empty(),
    }) + (match c.domain {
        Some(d) => " Domain="@ + d + ";"@,
        None => Seq::empty(),
    }) + (match c.path {
        Some(p) => " Path="@ + p + ";"@,
        None => Seq::empty(),
    }) + (if c.secure {
        " Secure;"@
    } else {
        Seq::empty()
    })
}

impl SetCookie {
    /// A cookie with a name and a value, and no attribute.
    pub fn new(name: &str, value: &str) -> (c: SetCookie)
        ensures
            c@ == (SetCookieView {
                name: name@,
                value: value@,
                max_age: None,
                domain: None,
                path: None,
                secure: false,
            }),
    {
        SetCookie {
            name: name.to_owned(),
            value: value.to_owned(),
            max_age: None,
            domain: None,
            path: None,
            secure: false,
        }
    }

    /// Sets the seconds until the cookie expires.
    pub fn max_age(self, max_age: u64) -> (c: SetCookie)
        ensures
            c@ == (SetCookieView { max_age: Some(max_age), ..self@ }),
    {
        SetCookie { max_age: Some(max_age), ..self }
    }

    /// Sets the domain of the cookie.
    pub fn domain(self, domain: &str) -> (c: SetCookie)
        ensures
            c@ == (SetCookieView { domain: Some(domain@), ..self@ }),
    {
        SetCookie { domain: Some(domain.to_owned()), ..self }
    }

    /// Sets the path of the cookie.
    pub fn path(self, path: &str) -> (c: SetCookie)
        ensures
            c@ == (SetCookieView { path: Some(path@), ..self@ }),
    {
        SetCookie { path: Some(path.to_owned()), ..self }
    }

    /// Sets whether the cookie is for secure connections only.
    pub fn secure(self, secure: bool) -> (c: SetCookie)
        ensures
            c@ == (SetCookieView { secure, ..self@ }),
    {
        SetCookie { secure, ..self }
    }

    /// The value of the `Set-Cookie` header for this cookie.
    pub fn to_string(&self) -> (s: String)
        ensures
            s@ == set_cookie_text(self@),
    {
        let mut s = self.name.clone();
        s.append("=");
        s.append(self.value.as_str());
        s.append(";");
        let ghost base = s@;
        assert(base == self@.name + "="@ + self@.value + ";"@);
        match self.max_age {
            Some(n) => {
                s.append(" Max-Age=");
                push_decimal(&mut s, n);
                s.append(";");
                assert(s@ =~= base + (" Max-Age="@ + decimal(n as nat) + ";"@));
            },
            None => {
                assert(s@ =~= base + Seq::<char>::empty());
            },
        }
        let ghost b1 = s@;
        match &self.domain {
            Some(d) => {
                s.append(" Domain=");
                s.append(d.as_str());
                s.append(";");
                assert(s@ =~= b1 + (" Domain="@ + d@ + ";"@));
            },
            None => {
                assert(s@ =~= b1 + Seq::<char>::empty());
            },
        }
        let ghost b2 = s@;
        match &self.path {
            Some(p) => {
                s.append(" Path=");
                s.append(p.as_str());
                s.append(";");
                assert(s@ =~= b2 + (" Path="@ + p@ + ";"@));
            },
            None => {
                assert(s@ =~= b2 + Seq::<char>::empty());
            },
        }
        let ghost b3 = s@;
        if self.secure {
            s.append(" Secure;");
        } else {
            assert(s@ =~= b3 + Seq::<char>::empty());
        }
        s
    }
}

} // verus!
