//! Route paths: patterns of literal segments, named parameters and a
//! wildcard, and the matching of a request path against one.

use vstd::prelude::*;
use crate::text::{
    chars_of, lemma_pair_views_push, pair_views, same_chars, slice_chars, split, split_chars,
    text_of, views,
};

verus! {

/// One segment of a route path.
#[derive(Debug, PartialEq, Eq)]
pub enum PathPart {
    /// A literal segment, as in `/hello`.
    Normal(String),
    /// A named parameter, written `{name}`.
    Param(String),
    /// The wildcard, written `*`.
    Any,
}

/// What a segment of a route path holds.
pub enum PathPartView {
    Normal(Seq<char>),
    Param(Seq<char>),
    Any,
}

impl View for PathPart {
    type V = PathPartView;

    open spec fn view(&self) -> PathPartView {
        match self {
            PathPart::Normal(s) => PathPartView::Normal(s@),
            PathPart::Param(s) => PathPartView::Param(s@),
            PathPart::Any => PathPartView::Any,
        }
    }
}

/// A route path: the text it was made from, and its segments.
#[derive(Debug, PartialEq, Eq)]
pub struct Path {
    /// The pattern as it was written.
    pub raw: String,
    /// The segments of the pattern.
    pub parts: Vec<PathPart>,
}

/// The views of a list of segments.
pub open spec fn part_views(ps: Seq<PathPart>) -> Seq<PathPartView> {
    Seq::new(ps.len(), |i: int| ps[i]@)
}

impl View for Path {
    type V = Seq<PathPartView>;

    open spec fn view(&self) -> Seq<PathPartView> {
        part_views(self.parts@)
    }
}

/// The segment that a piece of a pattern stands for: `*` is the wildcard,
/// `{name}` a parameter, anything else a literal.
pub open spec fn part_of(seg: Seq<char>) -> PathPartView {
    if seg == seq!['*'] {
        PathPartView::Any
    } else if seg.len() >= 2 && seg.first() == '{' && seg.last() == '}' {
        PathPartView::Param(seg.subrange(1, seg.len() - 1))
    } else {
        PathPartView::Normal(seg)
    }
}

/// The segments of a pattern: its pieces between `/`, each read by
/// `part_of`.
pub open spec fn pattern_parts(raw: Seq<char>) -> Seq<PathPartView> {
    let pieces = split(raw, '/');
    Seq::new(pieces.len(), |i: int| part_of(pieces[i]))
}

/// Matches segments of a pattern against segments of a path, first against
/// first. A literal takes an equal segment. A parameter takes one segment
/// that is not empty, and binds it to its name. The wildcard takes the
/// segment in its place and all that follow, one at least. Without a
/// wildcard both lists end together. The result holds the bindings in the
/// order of the pattern.
pub open spec fn match_parts(parts: Seq<PathPartView>, segs: Seq<Seq<char>>) -> Option<
    Seq<(Seq<char>, Seq<char>)>,
>
    decreases parts.len(),
{
    if parts.len() == 0 {
        if segs.len() == 0 {
            Some(Seq::empty())
        } else {
            None
        }
    } else if segs.len() == 0 {
        None
    } else {
        match parts[0] {
            PathPartView::Any => Some(Seq::empty()),
            PathPartView::Normal(l) => if segs[0] == l {
                match_parts(parts.drop_first(), segs.drop_first())
            } else {
                None
            },
            PathPartView::Param(n) => if segs[0].len() > 0 {
                match match_parts(parts.drop_first(), segs.drop_first()) {
                    Some(ps) => Some(seq![(n, segs[0])] + ps),
                    None => None,
                }
            } else {
                None
            },
        }
    }
}

/// Matches a pattern against a path, cut into its pieces between `/`.
pub open spec fn match_path(parts: Seq<PathPartView>, path: Seq<char>) -> Option<
    Seq<(Seq<char>, Seq<char>)>,
> {
    match_parts(parts, split(path, '/'))
}

impl PathPart {
    /// Reads one segment of a pattern.
    pub fn from_segment(seg: &Vec<char>) -> (p: PathPart)
        ensures
            p@ == part_of(seg@),
    {
        let n = seg.len();
        if n == 1 && seg[0] == '*' {
            assert(seg@ =~= seq!['*']);
            PathPart::Any
        } else if n >= 2 && seg[0] == '{' && seg[n - 1] == '}' {
            assert(seg@ != seq!['*']);
            PathPart::Param(text_of(&slice_chars(seg, 1, n - 1)))
        } else {
            assert(seg@ == seq!['*'] ==> seg@.len() == 1 && seg@[0] == '*');
            PathPart::Normal(text_of(seg))
        }
    }
}

impl Path {
    /// Whether the segments are those of the text that the path holds.
    pub open spec fn well_formed(&self) -> bool {
        self@ == pattern_parts(self.raw@)
    }

    /// Reads a pattern.
    pub fn new(path: &str) -> (p: Path)
        ensures
            p@ == pattern_parts(path@),
            p.raw@ == path@,
            p.well_formed(),
    {
        let v = chars_of(path);
        let pieces = split_chars(&v, '/');
        let ghost want = pattern_parts(path@);
        let mut parts: Vec<PathPart> = Vec::new();
        let mut i: usize = 0;
        while i < pieces.len()
            invariant
                i <= pieces.len(),
                views(pieces@) == split(path@, '/'),
                want == pattern_parts(path@),
                part_views(parts@) == want.take(i as int),
            decreases pieces.len() - i,
        {
            let part = PathPart::from_segment(&pieces[i]);
            proof {
                assert(views(pieces@)[i as int] == pieces@[i as int]@);
                assert(part_views(parts@.push(part)) =~= part_views(parts@).push(part@));
                assert(want.take(i + 1) == want.take(i as int).push(want[i as int]));
            }
            parts.push(part);
            i = i + 1;
        }
        assert(want.take(pieces.len() as int) == want);
        Path { raw: path.to_owned(), parts }
    }

    /// Matches a request path against this pattern; on a match, the values
    /// of the parameters by name.
    pub fn match_path(&self, path: &str) -> (r: Option<Vec<(String, String)>>)
        ensures
            match match_path(self@, path@) {
                Some(ps) => r matches Some(x) && pair_views(x@) == ps,
                None => r is None,
            },
    {
        let v = chars_of(path);
        let segs = split_chars(&v, '/');
        let ghost parts = self@;
        let ghost ss = views(segs@);
        let mut out: Vec<(String, String)> = Vec::new();
        let mut i: usize = 0;
        proof {
            assert(parts.skip(0) == parts);
            assert(ss.skip(0) == ss);
            assert(pair_views(out@) =~= Seq::<(Seq<char>, Seq<char>)>::empty());
            match match_parts(parts, ss) {
                Some(ps) => {
                    assert(pair_views(out@) + ps =~= ps);
                },
                None => {},
            }
        }
        while i < self.parts.len()
            invariant
                i <= self.parts.len(),
                i <= segs.len(),
                parts == self@,
                ss == views(segs@),
                ss == split(path@, '/'),
                match_parts(parts, ss) == (match match_parts(
                    parts.skip(i as int),
                    ss.skip(i as int),
                ) {
                    Some(ps) => Some(pair_views(out@) + ps),
                    None => None,
                }),
            decreases self.parts.len() - i,
        {
            let ghost p = parts.skip(i as int);
            let ghost s = ss.skip(i as int);
            proof {
                assert(p[0] == self.parts@[i as int]@);
                assert(p.drop_first() == parts.skip(i + 1));
                assert(s.len() == segs.len() - i);
                if i < segs.len() {
                    assert(s[0] == segs@[i as int]@);
                    assert(s.drop_first() == ss.skip(i + 1));
                }
            }
            if i >= segs.len() {
                return None;
            }
            match &self.parts[i] {
                PathPart::Any => {
                    assert(pair_views(out@) + Seq::<(Seq<char>, Seq<char>)>::empty() =~= pair_views(
                        out@,
                    ));
                    return Some(out);
                },
                PathPart::Normal(l) => {
                    let lit = chars_of(l.as_str());
                    if !same_chars(&segs[i], &lit) {
                        return None;
                    }
                },
                PathPart::Param(n) => {
                    if segs[i].len() == 0 {
                        return None;
                    }
                    let pair = (n.clone(), text_of(&segs[i]));
                    proof {
                        lemma_pair_views_push(out@, pair);
                        match match_parts(p.drop_first(), s.drop_first()) {
                            Some(ps) => {
                                assert(pair_views(out@).push((pair.0@, pair.1@)) + ps
                                    =~= pair_views(out@) + (seq![(pair.0@, pair.1@)] + ps));
                            },
                            None => {},
                        }
                    }
                    out.push(pair);
                },
            }
            i = i + 1;
        }
        proof {
            assert(parts.skip(i as int).len() == 0);
            assert(ss.skip(i as int).len() == segs.len() - i);
            assert(pair_views(out@) + Seq::<(Seq<char>, Seq<char>)>::empty() =~= pair_views(out@));
        }
        if i == segs.len() {
            Some(out)
        } else {
            None
        }
    }
}

} // verus!
