//! Query strings and form bodies: `key=value` pairs joined by `&`, with
//! percent-encoding undone.

use vstd::prelude::*;
use crate::text::{
    chars_of, clone_pairs, find_char, first_index, hex_value, hex_value_of, lemma_pair_views_push,
    pair_views, same_chars, slice_chars, split, split_chars, text_of, views,
};

verus! {

/// The text that a percent-encoded text stands for: `+` is a space, `%`
/// with two hexadecimal digits is the character with that code, and any
/// other character is itself. A `%` without two hexadecimal digits behind
/// it leaves the text without a meaning.
pub open spec fn url_decoded(s: Seq<char>) -> Option<Seq<char>>
    decreases s.len(),
{
    if s.len() == 0 {
        Some(Seq::empty())
    } else if s[0] == '%' {
        if s.len() >= 3 && hex_value(s[1]) is Some && hex_value(s[2]) is Some {
            match url_decoded(s.skip(3)) {
                Some(rest) => Some(
                    seq![((hex_value(s[1])->0 * 16 + hex_value(s[2])->0) as u8) as char] + rest,
                ),
                None => None,
            }
        } else {
            None
        }
    } else {
        match url_decoded(s.drop_first()) {
            Some(rest) => Some(
                seq![if s[0] == '+' {
                    ' '
                } else {
                    s[0]
                }] + rest,
            ),
            None => None,
        }
    }
}

/// The pair that one piece `key=value` of a query stands for. A piece
/// without `=` is a key with an empty value. A piece with an empty key, or
/// with a key or value that cannot be decoded, has no meaning.
pub open spec fn query_pair(piece: Seq<char>) -> Option<(Seq<char>, Seq<char>)> {
    let i = first_index(piece, '=');
    let key = if 0 <= i < piece.len() {
        piece.take(i)
    } else {
        piece
    };
    let value = if 0 <= i < piece.len() {
        piece.skip(i + 1)
    } else {
        Seq::empty()
    };
    if key.len() == 0 {
        None
    } else {
        match (url_decoded(key), url_decoded(value)) {
            (Some(k), Some(v)) => Some((k, v)),
            _ => None,
        }
    }
}

/// The pairs that a list of pieces stands for, if each piece has a meaning.
pub open spec fn query_pairs(pieces: Seq<Seq<char>>) -> Option<Seq<(Seq<char>, Seq<char>)>>
    decreases pieces.len(),
{
    if pieces.len() == 0 {
        Some(Seq::empty())
    } else {
        match (query_pairs(pieces.drop_last()), query_pair(pieces.last())) {
            (Some(ps), Some(p)) => Some(ps.push(p)),
            _ => None,
        }
    }
}

/// The pairs that a query string stands for, in order. The empty string has
/// none; any other is cut at each `&`, and each piece must have a meaning.
pub open spec fn query_of(s: Seq<char>) -> Option<Seq<(Seq<char>, Seq<char>)>> {
    if s.len() == 0 {
        Some(Seq::empty())
    } else {
        query_pairs(split(s, '&'))
    }
}

/// The value of the first pair of `ps` with the key `key`.
pub open spec fn first_value(ps: Seq<(Seq<char>, Seq<char>)>, key: Seq<char>) -> Option<Seq<char>>
    decreases ps.len(),
{
    if ps.len() == 0 {
        None
    } else if ps[0].0 == key {
        Some(ps[0].1)
    } else {
        first_value(ps.drop_first(), key)
    }
}

/// The value of the first pair of `pairs` with the key `key`.
pub fn find_value(pairs: &Vec<(String, String)>, key: &str) -> (r: Option<String>)
    ensures
        match first_value(pair_views(pairs@), key@) {
            Some(v) => r matches Some(s) && s@ == v,
            None => r is None,
        },
{
    let k = chars_of(key);
    let ghost all = pair_views(pairs@);
    let mut i: usize = 0;
    assert(all.skip(0) == all);
    while i < pairs.len()
        invariant
            i <= pairs.len(),
            k@ == key@,
            all == pair_views(pairs@),
            first_value(all, key@) == first_value(all.skip(i as int), key@),
        decreases pairs.len() - i,
    {
        let name = chars_of(pairs[i].0.as_str());
        proof {
            assert(all.skip(i as int)[0] == (pairs@[i as int].0@, pairs@[i as int].1@));
            assert(all.skip(i as int).drop_first() == all.skip(i + 1));
        }
        if same_chars(&name, &k) {
            return Some(pairs[i].1.clone());
        }
        i = i + 1;
    }
    None
}

/// Undoes percent-encoding.
pub fn url_decode(v: &Vec<char>) -> (r: Option<Vec<char>>)
    ensures
        match url_decoded(v@) {
            Some(t) => r matches Some(x) && x@ == t,
            None => r is None,
        },
{
    let mut out: Vec<char> = Vec::new();
    let mut i: usize = 0;
    assert(v@.skip(0) == v@);
    while i < v.len()
        invariant
            i <= v.len(),
            url_decoded(v@) == (match url_decoded(v@.skip(i as int)) {
                Some(rest) => Some(out@ + rest),
                None => None,
            }),
        decreases v.len() - i,
    {
        let ghost s = v@.skip(i as int);
        let c = v[i];
        if c == '%' {
            if v.len() - i < 3 {
                return None;
            }
            let hi = hex_value_of(v[i + 1]);
            let lo = hex_value_of(v[i + 2]);
            match (hi, lo) {
                (Some(h), Some(l)) => {
                    let d = (h * 16 + l) as char;
                    proof {
                        assert(s.skip(3) == v@.skip(i + 3));
                        match url_decoded(s.skip(3)) {
                            Some(rest) => {
                                assert(out@.push(d) + rest =~= out@ + (seq![d] + rest));
                            },
                            None => {},
                        }
                    }
                    out.push(d);
                    i = i + 3;
                },
                _ => {
                    return None;
                },
            }
        } else {
            let d = if c == '+' {
                ' '
            } else {
                c
            };
            proof {
                assert(s.drop_first() == v@.skip(i + 1));
                match url_decoded(s.drop_first()) {
                    Some(rest) => {
                        assert(out@.push(d) + rest =~= out@ + (seq![d] + rest));
                    },
                    None => {},
                }
            }
            out.push(d);
            i = i + 1;
        }
    }
    assert(v@.skip(v.len() as int) =~= Seq::<char>::empty());
    assert(out@ + Seq::<char>::empty() =~= out@);
    Some(out)
}

/// Named values, in order; a name may occur more than once.
#[derive(Debug, PartialEq, Eq)]
pub struct Query {
    /// The pairs of name and value.
    pub data: Vec<(String, String)>,
}

impl View for Query {
    type V = Seq<(Seq<char>, Seq<char>)>;

    open spec fn view(&self) -> Seq<(Seq<char>, Seq<char>)> {
        pair_views(self.data@)
    }
}

impl Clone for Query {
    fn clone(&self) -> (r: Self)
        ensures
            r@ == self@,
    {
        Query { data: clone_pairs(&self.data) }
    }
}

impl Query {
    /// A query without pairs.
    pub fn new() -> (q: Query)
        ensures
            q@ == Seq::<(Seq<char>, Seq<char>)>::empty(),
    {
        let q = Query { data: Vec::new() };
        assert(q@ =~= Seq::<(Seq<char>, Seq<char>)>::empty());
        q
    }

    /// Reads a query from the characters of a query string or a form body.
    pub fn from_chars(v: &Vec<char>) -> (r: Option<Query>)
        ensures
            match query_of(v@) {
                Some(ps) => r matches Some(q) && q@ == ps,
                None => r is None,
            },
    {
        let mut data: Vec<(String, String)> = Vec::new();
        if v.len() == 0 {
            let q = Query { data };
            assert(q@ =~= Seq::<(Seq<char>, Seq<char>)>::empty());
            return Some(q);
        }
        let pieces = split_chars(v, '&');
        let ghost ps = views(pieces@);
        let mut i: usize = 0;
        assert(pair_views(data@) =~= Seq::<(Seq<char>, Seq<char>)>::empty());
        while i < pieces.len()
            invariant
                i <= pieces.len(),
                ps == views(pieces@),
                query_of(v@) == query_pairs(ps),
                query_pairs(ps.take(i as int)) == Some(pair_views(data@)),
            decreases pieces.len() - i,
        {
            let piece = &pieces[i];
            proof {
                assert(ps.take(i + 1).drop_last() == ps.take(i as int));
                assert(ps.take(i + 1).last() == piece@);
            }
            let ghost stop = ps.take(i + 1);
            let at = find_char(piece, '=');
            let (key, value) = if at < piece.len() {
                (slice_chars(piece, 0, at), slice_chars(piece, at + 1, piece.len()))
            } else {
                (slice_chars(piece, 0, piece.len()), Vec::new())
            };
            proof {
                if at < piece.len() {
                    assert(piece@.subrange(0, at as int) == piece@.take(at as int));
                    assert(piece@.subrange(at + 1, piece.len() as int) == piece@.skip(at + 1));
                } else {
                    assert(piece@.subrange(0, piece.len() as int) == piece@);
                    assert(value@ =~= Seq::<char>::empty());
                }
            }
            let done = if key.len() == 0 {
                None
            } else {
                match (url_decode(&key), url_decode(&value)) {
                    (Some(k), Some(x)) => Some((text_of(&k), text_of(&x))),
                    _ => None,
                }
            };
            match done {
                Some(p) => {
                    proof {
                        lemma_pair_views_push(data@, p);
                    }
                    data.push(p);
                },
                None => {
                    proof {
                        assert(query_pair(piece@) is None);
                        assert(query_pairs(stop) is None);
                        lemma_query_pairs_fail(ps, i as int + 1);
                    }
                    return None;
                },
            }
            i = i + 1;
        }
        assert(ps.take(pieces.len() as int) == ps);
        Some(Query { data })
    }

    /// Reads a query from a form body.
    pub fn from_body(body: &str) -> (r: Option<Query>)
        ensures
            match query_of(body@) {
                Some(ps) => r matches Some(q) && q@ == ps,
                None => r is None,
            },
    {
        let v = chars_of(body);
        Query::from_chars(&v)
    }

    /// The value of the first pair with the key `key`.
    pub fn get(&self, key: &str) -> (r: Option<String>)
        ensures
            match first_value(self@, key@) {
                Some(v) => r matches Some(s) && s@ == v,
                None => r is None,
            },
    {
        find_value(&self.data, key)
    }

    /// Whether some pair has the key `key`.
    pub fn has(&self, key: &str) -> (r: bool)
        ensures
            r == first_value(self@, key@) is Some,
    {
        self.get(key).is_some()
    }
}

/// Once a prefix of the pieces has no meaning, no longer prefix has one.
proof fn lemma_query_pairs_fail(ps: Seq<Seq<char>>, n: int)
    requires
        0 <= n <= ps.len(),
        query_pairs(ps.take(n)) is None,
    ensures
        query_pairs(ps) is None,
    decreases ps.len() - n,
{
    if n < ps.len() {
        assert(ps.take(n + 1).drop_last() == ps.take(n));
        lemma_query_pairs_fail(ps, n + 1);
    } else {
        assert(ps.take(n) == ps);
    }
}

} // verus!
