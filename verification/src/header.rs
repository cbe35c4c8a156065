//! Header fields: name and value pairs, kept in order, looked up without
//! regard to the case of the name.

use vstd::prelude::*;
use crate::error::ParseError;
use crate::text::{
    chars_of, find_char, first_index, same_chars_ignoring_case, same_ignoring_case, slice_chars,
    text_of, trim, trim_chars,
};

verus! {

/// One header field.
#[derive(Debug, PartialEq, Eq, Hash)]
pub struct Header {
    /// Name of the field.
    pub name: String,
    /// Value of the field.
    pub value: String,
}

/// What a header holds.
pub struct HeaderView {
    pub name: Seq<char>,
    pub value: Seq<char>,
}

impl View for Header {
    type V = HeaderView;

    open spec fn view(&self) -> HeaderView {
        HeaderView { name: self.name@, value: self.value@ }
    }
}

impl Clone for Header {
    fn clone(&self) -> (r: Self)
        ensures
            r@ == self@,
    {
        Header { name: self.name.clone(), value: self.value.clone() }
    }
}

/// The views of a list of headers.
pub open spec fn header_views(hs: Seq<Header>) -> Seq<HeaderView> {
    Seq::new(hs.len(), |i: int| hs[i]@)
}

/// Adding a header to a list adds its view to the views.
pub proof fn lemma_header_views_push(hs: Seq<Header>, h: Header)
    ensures
        header_views(hs.push(h)) == header_views(hs).push(h@),
{
    assert(header_views(hs.push(h)) =~= header_views(hs).push(h@));
}

/// The header that a line `name: value` stands for: the first `:` parts the
/// name from the value, and both are trimmed. A line without `:` is none.
pub open spec fn header_of_line(line: Seq<char>) -> Option<HeaderView> {
    let i = first_index(line, ':');
    if 0 <= i < line.len() {
        Some(HeaderView { name: trim(line.take(i)), value: trim(line.skip(i + 1)) })
    } else {
        None
    }
}

/// The line that a header is written as.
pub open spec fn header_line(h: HeaderView) -> Seq<char> {
    h.name + seq![':', ' '] + h.value
}

/// Whether some header of `hs` has the name `name`, case aside.
pub open spec fn has_name(hs: Seq<HeaderView>, name: Seq<char>) -> bool {
    exists|i: int| 0 <= i < hs.len() && same_ignoring_case(#[trigger] hs[i].name, name)
}

/// The value of the first header of `hs` with the name `name`, case aside.
pub open spec fn lookup(hs: Seq<HeaderView>, name: Seq<char>) -> Option<Seq<char>>
    decreases hs.len(),
{
    if hs.len() == 0 {
        None
    } else if same_ignoring_case(hs[0].name, name) {
        Some(hs[0].value)
    } else {
        lookup(hs.drop_first(), name)
    }
}

/// `hs` followed by those of `defaults` whose name no header of `hs`
/// carries, in their order. Two defaults of one name are both kept.
pub open spec fn with_defaults(hs: Seq<HeaderView>, defaults: Seq<HeaderView>) -> Seq<HeaderView>
    decreases defaults.len(),
{
    if defaults.len() == 0 {
        hs
    } else if has_name(hs, defaults.last().name) {
        with_defaults(hs, defaults.drop_last())
    } else {
        with_defaults(hs, defaults.drop_last()).push(defaults.last())
    }
}

/// A name that is present in a list is present in every list that begins
/// with it.
pub proof fn lemma_has_name_prefix(a: Seq<HeaderView>, b: Seq<HeaderView>, name: Seq<char>)
    requires
        a.is_prefix_of(b),
        has_name(a, name),
    ensures
        has_name(b, name),
{
    let i = choose|i: int| 0 <= i < a.len() && same_ignoring_case(#[trigger] a[i].name, name);
    assert(b[i] == a[i]);
}

/// Both sets of headers are present, and defaults are appended, never put
/// before or in place of what is there: the list with defaults begins with
/// the headers that were given; every default is in it, but for those whose
/// name a given header carries; and each header that was added is one of the
/// defaults and has a name that the given headers lack.
pub proof fn law_defaults_are_appended(hs: Seq<HeaderView>, ds: Seq<HeaderView>)
    ensures
        hs.is_prefix_of(with_defaults(hs, ds)),
        forall|i: int|
            0 <= i < ds.len() && !has_name(hs, (#[trigger] ds[i]).name) ==> with_defaults(
                hs,
                ds,
            ).contains(ds[i]),
        forall|i: int| 0 <= i < ds.len() ==> has_name(with_defaults(hs, ds), #[trigger] ds[i].name),
        forall|i: int|
            hs.len() <= i < with_defaults(hs, ds).len() ==> {
                &&& !has_name(hs, (#[trigger] with_defaults(hs, ds)[i]).name)
                &&& ds.contains(with_defaults(hs, ds)[i])
            },
    decreases ds.len(),
{
    let r = with_defaults(hs, ds);
    if ds.len() > 0 {
        let d = ds.last();
        let rest = ds.drop_last();
        let before = with_defaults(hs, rest);
        law_defaults_are_appended(hs, rest);
        assert(before.is_prefix_of(r));
        assert(hs.is_prefix_of(r));
        assert forall|i: int| 0 <= i < ds.len() && !has_name(hs, (#[trigger] ds[i]).name) implies r.contains(
            ds[i],
        ) by {
            if i < rest.len() {
                assert(rest[i] == ds[i]);
                let k = choose|k: int| 0 <= k < before.len() && before[k] == rest[i];
                assert(r[k] == ds[i]);
            } else {
                assert(r[before.len() as int] == d);
            }
        }
        assert forall|i: int| 0 <= i < ds.len() implies has_name(r, #[trigger] ds[i].name) by {
            if i < rest.len() {
                assert(rest[i] == ds[i]);
                lemma_has_name_prefix(before, r, ds[i].name);
            } else if has_name(hs, d.name) {
                lemma_has_name_prefix(hs, r, d.name);
            } else {
                assert(r[before.len() as int] == d);
                assert(same_ignoring_case(r[before.len() as int].name, d.name));
            }
        }
        assert forall|i: int| hs.len() <= i < r.len() implies {
            &&& !has_name(hs, (#[trigger] r[i]).name)
            &&& ds.contains(r[i])
        } by {
            if i < before.len() {
                assert(r[i] == before[i]);
                let k = choose|k: int| 0 <= k < rest.len() && rest[k] == before[i];
                assert(ds[k] == r[i]);
            } else {
                assert(r[i] == d);
                assert(ds[ds.len() - 1] == d);
            }
        }
    }
}

impl Header {
    /// A header with the given name and value.
    pub fn new(name: &str, value: &str) -> (h: Header)
        ensures
            h@ == (HeaderView { name: name@, value: value@ }),
    {
        Header { name: name.to_owned(), value: value.to_owned() }
    }

    /// The header as the line `name: value`.
    pub fn to_string(&self) -> (s: String)
        ensures
            s@ == header_line(self@),
    {
        let mut s = self.name.clone();
        s.push(':');
        s.push(' ');
        s.append(self.value.as_str());
        assert(s@ =~= header_line(self@));
        s
    }

    /// Reads a header from a line `name: value`.
    pub fn from_string(line: &str) -> (r: Result<Header, ParseError>)
        ensures
            match header_of_line(line@) {
                Some(h) => r matches Ok(x) && x@ == h,
                None => r == Err::<Header, ParseError>(ParseError::InvalidHeader),
            },
    {
        let v = chars_of(line);
        Header::from_chars(&v)
    }

    /// Reads a header from the characters of a line `name: value`.
    pub fn from_chars(v: &Vec<char>) -> (r: Result<Header, ParseError>)
        ensures
            match header_of_line(v@) {
                Some(h) => r matches Ok(x) && x@ == h,
                None => r == Err::<Header, ParseError>(ParseError::InvalidHeader),
            },
    {
        let i = find_char(v, ':');
        if i < v.len() {
            let name = trim_chars(&slice_chars(v, 0, i));
            let value = trim_chars(&slice_chars(v, i + 1, v.len()));
            assert(v@.subrange(0, i as int) == v@.take(i as int));
            assert(v@.subrange(i + 1, v.len() as int) == v@.skip(i + 1));
            Ok(Header { name: text_of(&name), value: text_of(&value) })
        } else {
            Err(ParseError::InvalidHeader)
        }
    }
}

/// Whether some header of `hs` has the name `name`, case aside.
pub fn has_header(hs: &Vec<Header>, name: &str) -> (r: bool)
    ensures
        r == has_name(header_views(hs@), name@),
{
    let n = chars_of(name);
    let mut i: usize = 0;
    while i < hs.len()
        invariant
            i <= hs.len(),
            n@ == name@,
            forall|j: int| 0 <= j < i ==> !same_ignoring_case(#[trigger] header_views(hs@)[j].name, name@),
        decreases hs.len() - i,
    {
        let k = chars_of(hs[i].name.as_str());
        if same_chars_ignoring_case(&k, &n) {
            assert(header_views(hs@)[i as int].name == k@);
            return true;
        }
        assert(header_views(hs@)[i as int].name == k@);
        i = i + 1;
    }
    false
}

/// The value of the first header of `hs` with the name `name`, case aside.
pub fn get_header(hs: &Vec<Header>, name: &str) -> (r: Option<String>)
    ensures
        match lookup(header_views(hs@), name@) {
            Some(v) => r matches Some(s) && s@ == v,
            None => r is None,
        },
{
    let n = chars_of(name);
    let ghost all = header_views(hs@);
    let mut i: usize = 0;
    assert(all.skip(0) == all);
    while i < hs.len()
        invariant
            i <= hs.len(),
            n@ == name@,
            all == header_views(hs@),
            lookup(all, name@) == lookup(all.skip(i as int), name@),
        decreases hs.len() - i,
    {
        let k = chars_of(hs[i].name.as_str());
        proof {
            assert(all.skip(i as int)[0] == hs@[i as int]@);
            assert(all.skip(i as int).drop_first() == all.skip(i + 1));
        }
        if same_chars_ignoring_case(&k, &n) {
            return Some(hs[i].value.clone());
        }
        i = i + 1;
    }
    None
}

/// A copy of a list of headers.
pub fn clone_headers(hs: &Vec<Header>) -> (r: Vec<Header>)
    ensures
        header_views(r@) == header_views(hs@),
{
    let mut r: Vec<Header> = Vec::new();
    let mut i: usize = 0;
    while i < hs.len()
        invariant
            i <= hs.len(),
            header_views(r@) == header_views(hs@).take(i as int),
        decreases hs.len() - i,
    {
        let h = hs[i].clone();
        proof {
            lemma_header_views_push(r@, h);
            assert(header_views(hs@).take(i + 1) == header_views(hs@).take(i as int).push(hs@[i as int]@));
        }
        r.push(h);
        i = i + 1;
    }
    assert(header_views(hs@).take(hs.len() as int) == header_views(hs@));
    r
}

/// The headers of `own`, followed by each header of `defaults` whose name
/// no header of `own` carries.
pub fn add_defaults(own: &Vec<Header>, defaults: &Vec<Header>) -> (hs: Vec<Header>)
    ensures
        header_views(hs@) == with_defaults(header_views(own@), header_views(defaults@)),
{
    let mut hs = clone_headers(own);
    let ghost ds = header_views(defaults@);
    let mut i: usize = 0;
    assert(ds.take(0) =~= Seq::<HeaderView>::empty());
    while i < defaults.len()
        invariant
            i <= defaults.len(),
            ds == header_views(defaults@),
            header_views(hs@) == with_defaults(header_views(own@), ds.take(i as int)),
        decreases defaults.len() - i,
    {
        proof {
            assert(ds.take(i + 1).last() == defaults@[i as int]@);
            assert(ds.take(i + 1).drop_last() == ds.take(i as int));
        }
        if !has_header(own, defaults[i].name.as_str()) {
            let h = defaults[i].clone();
            proof {
                lemma_header_views_push(hs@, h);
            }
            hs.push(h);
        }
        i = i + 1;
    }
    assert(ds.take(defaults.len() as int) == ds);
    hs
}

} // verus!
