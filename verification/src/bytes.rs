//! Bytes on the wire: finding a pattern, cutting lines, and the framing of
//! a chunked body.

use vstd::prelude::*;

verus! {

/// Carriage return and line feed.
pub open spec fn crlf() -> Seq<u8> {
    seq![13u8, 10u8]
}

/// The empty line that ends a head: carriage return and line feed, twice.
pub open spec fn separator() -> Seq<u8> {
    seq![13u8, 10u8, 13u8, 10u8]
}

/// Index of the first place where `p` stands in `s`, or `s.len()` where
/// it stands nowhere.
pub open spec fn first_match(s: Seq<u8>, p: Seq<u8>) -> int
    decreases s.len(),
{
    if p.is_prefix_of(s) || s.len() == 0 {
        0
    } else {
        1 + first_match(s.drop_first(), p)
    }
}

/// `first_match` is in range, `p` stands there when it is in range, and
/// `p` stands nowhere before it.
pub proof fn lemma_first_match(s: Seq<u8>, p: Seq<u8>)
    requires
        p.len() > 0,
    ensures
        0 <= first_match(s, p) <= s.len(),
        first_match(s, p) < s.len() ==> p.is_prefix_of(s.skip(first_match(s, p))),
        forall|j: int| 0 <= j < first_match(s, p) ==> !p.is_prefix_of(#[trigger] s.skip(j)),
    decreases s.len(),
{
    if p.is_prefix_of(s) || s.len() == 0 {
        assert(s.skip(0) == s);
    } else {
        let t = s.drop_first();
        lemma_first_match(t, p);
        let f = first_match(t, p);
        if f < t.len() {
            assert(t.skip(f) == s.skip(f + 1));
        }
        assert forall|j: int| 0 <= j < 1 + f implies !p.is_prefix_of(#[trigger] s.skip(j)) by {
            if j == 0 {
                assert(s.skip(0) == s);
            } else {
                assert(t.skip(j - 1) == s.skip(j));
            }
        }
    }
}

/// An index with the three properties of `lemma_first_match` is the first
/// match.
pub proof fn lemma_first_match_is(s: Seq<u8>, p: Seq<u8>, i: int)
    requires
        p.len() > 0,
        0 <= i <= s.len(),
        i < s.len() ==> p.is_prefix_of(s.skip(i)),
        forall|j: int| 0 <= j < i ==> !p.is_prefix_of(#[trigger] s.skip(j)),
    ensures
        first_match(s, p) == i,
{
    lemma_first_match(s, p);
    let f = first_match(s, p);
    if f < i {
        assert(!p.is_prefix_of(s.skip(f)));
    }
}

/// Bytes that follow do not move a first match: where `p` stands in `a`, it
/// stands first at the same place in `a + b`.
pub proof fn lemma_first_match_extend(a: Seq<u8>, b: Seq<u8>, p: Seq<u8>)
    requires
        p.len() > 0,
        first_match(a, p) + p.len() <= a.len(),
    ensures
        first_match(a + b, p) == first_match(a, p),
{
    lemma_first_match(a, p);
    let i = first_match(a, p);
    assert((a + b).skip(i) =~= a.skip(i) + b);
    assert((a.skip(i) + b).subrange(0, p.len() as int) =~= a.skip(i).subrange(0, p.len() as int));
    assert forall|j: int| 0 <= j < i implies !p.is_prefix_of(#[trigger] (a + b).skip(j)) by {
        assert((a + b).skip(j) =~= a.skip(j) + b);
        assert((a.skip(j) + b).subrange(0, p.len() as int) =~= a.skip(j).subrange(
            0,
            p.len() as int,
        ));
    }
    lemma_first_match_is(a + b, p, i);
}

/// The pieces of `s` between the places where `p` stands, taken from the
/// left.
pub open spec fn split_on(s: Seq<u8>, p: Seq<u8>) -> Seq<Seq<u8>>
    decreases s.len(),
{
    let i = first_match(s, p);
    if p.len() > 0 && 0 <= i && i + p.len() <= s.len() {
        seq![s.take(i)] + split_on(s.skip(i + p.len()), p)
    } else {
        seq![s]
    }
}

/// The views of a sequence of byte vectors.
pub open spec fn byte_views(v: Seq<Vec<u8>>) -> Seq<Seq<u8>> {
    Seq::new(v.len(), |i: int| v[i]@)
}

/// The value of the hexadecimal digit `b`, if it is one.
pub open spec fn hex_digit(b: u8) -> Option<int> {
    if 48 <= b && b <= 57 {
        Some(b - 48)
    } else if 97 <= b && b <= 102 {
        Some(b - 87)
    } else if 65 <= b && b <= 70 {
        Some(b - 55)
    } else {
        None
    }
}

/// `s` is one or more hexadecimal digits.
pub open spec fn is_hex(s: Seq<u8>) -> bool {
    &&& s.len() > 0
    &&& forall|i: int| 0 <= i < s.len() ==> hex_digit(s[i]) is Some
}

/// The number that the hexadecimal digits of `s` stand for.
pub open spec fn hex_number(s: Seq<u8>) -> nat
    decreases s.len(),
{
    if s.len() == 0 {
        0
    } else {
        (hex_number(s.drop_last()) * 16 + hex_digit(s.last())->0) as nat
    }
}

/// The digits of `s` up to any index stand for no more than all of them.
proof fn lemma_hex_number_grows(s: Seq<u8>, i: int)
    requires
        0 <= i <= s.len(),
        forall|j: int| 0 <= j < s.len() ==> hex_digit(s[j]) is Some,
    ensures
        hex_number(s.take(i)) <= hex_number(s),
    decreases s.len() - i,
{
    if i < s.len() {
        lemma_hex_number_grows(s, i + 1);
        assert(s.take(i + 1).drop_last() == s.take(i));
    } else {
        assert(s.take(i) == s);
    }
}

/// What a stream of chunks holds.
pub enum Chunks {
    /// All chunks up to the last: the body, and the number of bytes that
    /// they take in the stream.
    Done(Seq<u8>, int),
    /// A beginning that more bytes may complete.
    More,
    /// Bytes that no chunked body begins with.
    Bad,
}

/// How a stream of chunks begins.
pub enum ChunkHead {
    /// With a beginning that more bytes may complete.
    More,
    /// With bytes that no chunk begins with.
    Bad,
    /// With the last chunk, which takes this many bytes.
    Last(int),
    /// With a chunk whose data starts at the first index and has the length
    /// that comes second, and which takes as many bytes as the third says.
    Data(int, int, int),
}

/// Reads one chunk from the start of `s`: its size in hexadecimal digits,
/// CR LF, that many bytes, CR LF. A chunk of size 0 is the last, and CR LF
/// follows it at once.
pub open spec fn chunk_head(s: Seq<u8>) -> ChunkHead {
    let i = first_match(s, crlf());
    if !(0 <= i && i + 2 <= s.len()) {
        ChunkHead::More
    } else if !is_hex(s.take(i)) {
        ChunkHead::Bad
    } else {
        let n = hex_number(s.take(i));
        if n == 0 {
            if s.len() < i + 4 {
                ChunkHead::More
            } else if s[i + 2] == 13 && s[i + 3] == 10 {
                ChunkHead::Last(i + 4)
            } else {
                ChunkHead::Bad
            }
        } else if s.len() < i + n + 4 {
            ChunkHead::More
        } else if !(s[i + 2 + n] == 13 && s[i + 3 + n] == 10) {
            ChunkHead::Bad
        } else {
            ChunkHead::Data(i + 2, n as int, i + n + 4)
        }
    }
}

/// What follows in `chunks` once a prefix of the stream has been read: the
/// body so far goes before, and the bytes used so far are added.
pub open spec fn chunks_after(body: Seq<u8>, used: int, rest: Chunks) -> Chunks {
    match rest {
        Chunks::Done(b, u) => Chunks::Done(body + b, used + u),
        Chunks::More => Chunks::More,
        Chunks::Bad => Chunks::Bad,
    }
}

/// Reads a chunked body from the start of `s`: chunk after chunk up to the
/// last, with the data of the chunks joined in order.
pub open spec fn chunks(s: Seq<u8>) -> Chunks
    decreases s.len(),
{
    match chunk_head(s) {
        ChunkHead::More => Chunks::More,
        ChunkHead::Bad => Chunks::Bad,
        ChunkHead::Last(used) => Chunks::Done(Seq::empty(), used),
        ChunkHead::Data(start, len, used) => if 0 < used <= s.len() {
            chunks_after(s.subrange(start, start + len), used, chunks(s.skip(used)))
        } else {
            Chunks::Bad
        },
    }
}

/// A chunked body that was read to its end took no more bytes than there
/// are.
pub proof fn lemma_chunks_within(s: Seq<u8>)
    requires
        chunks(s) is Done,
    ensures
        0 <= chunks(s)->Done_1 <= s.len(),
    decreases s.len(),
{
    lemma_first_match(s, crlf());
    match chunk_head(s) {
        ChunkHead::Data(start, len, used) => {
            lemma_chunks_within(s.skip(used));
        },
        _ => {},
    }
}

/// Bytes that follow do not change a whole chunk.
proof fn lemma_chunk_head_extend(s: Seq<u8>, b: Seq<u8>)
    requires
        chunk_head(s) is Last || chunk_head(s) is Data,
    ensures
        chunk_head(s + b) == chunk_head(s),
{
    lemma_first_match(s, crlf());
    let i = first_match(s, crlf());
    lemma_first_match_extend(s, b, crlf());
    assert((s + b).take(i) =~= s.take(i));
}

/// Bytes that follow do not change a whole chunked body: what was read
/// to its end from `s` is read the same from `s + b`.
pub proof fn lemma_chunks_extend(s: Seq<u8>, b: Seq<u8>)
    requires
        chunks(s) is Done,
    ensures
        chunks(s + b) == chunks(s),
    decreases s.len(),
{
    match chunk_head(s) {
        ChunkHead::Last(used) => {
            lemma_chunk_head_extend(s, b);
        },
        ChunkHead::Data(start, len, used) => {
            lemma_chunk_head_extend(s, b);
            lemma_first_match(s, crlf());
            assert((s + b).skip(used) =~= s.skip(used) + b);
            assert((s + b).subrange(start, start + len) =~= s.subrange(start, start + len));
            lemma_chunks_extend(s.skip(used), b);
        },
        _ => {},
    }
}

/// Whether `pat` stands in `v` at the index `at`.
pub fn stands_at(v: &Vec<u8>, at: usize, pat: &Vec<u8>) -> (r: bool)
    requires
        at <= v.len(),
    ensures
        r == pat@.is_prefix_of(v@.skip(at as int)),
{
    if pat.len() > v.len() - at {
        return false;
    }
    let mut k: usize = 0;
    while k < pat.len()
        invariant
            k <= pat.len(),
            at + pat.len() <= v.len(),
            forall|j: int| 0 <= j < k ==> pat@[j] == v@[at + j],
        decreases pat.len() - k,
    {
        if pat[k] != v[at + k] {
            assert(v@.skip(at as int)[k as int] != pat@[k as int]);
            return false;
        }
        k = k + 1;
    }
    assert(v@.skip(at as int).subrange(0, pat.len() as int) =~= pat@);
    true
}

/// The index of the first place at or after `from` where `pat` stands in
/// `v`, or `v.len()`.
pub fn find_bytes(v: &Vec<u8>, from: usize, pat: &Vec<u8>) -> (i: usize)
    requires
        from <= v.len(),
        pat.len() > 0,
    ensures
        from <= i <= v.len(),
        i == from + first_match(v@.skip(from as int), pat@),
{
    let mut i: usize = from;
    let ghost s = v@.skip(from as int);
    while i < v.len() && !stands_at(v, i, pat)
        invariant
            from <= i <= v.len(),
            s == v@.skip(from as int),
            forall|j: int| 0 <= j < i - from ==> !pat@.is_prefix_of(#[trigger] s.skip(j)),
        decreases v.len() - i,
    {
        assert(s.skip(i - from) == v@.skip(i as int));
        i = i + 1;
    }
    proof {
        if i < v.len() {
            assert(s.skip(i - from) == v@.skip(i as int));
        }
        lemma_first_match_is(s, pat@, i - from);
    }
    i
}

/// The bytes of `v` from `from` up to `to`.
pub fn slice_bytes(v: &Vec<u8>, from: usize, to: usize) -> (r: Vec<u8>)
    requires
        from <= to <= v.len(),
    ensures
        r@ == v@.subrange(from as int, to as int),
{
    let mut r: Vec<u8> = Vec::new();
    let mut i: usize = from;
    while i < to
        invariant
            from <= i <= to <= v.len(),
            r@ == v@.subrange(from as int, i as int),
        decreases to - i,
    {
        r.push(v[i]);
        i = i + 1;
    }
    r
}

/// The pattern CR LF.
pub fn crlf_bytes() -> (p: Vec<u8>)
    ensures
        p@ == crlf(),
{
    let mut p: Vec<u8> = Vec::new();
    p.push(13);
    p.push(10);
    assert(p@ =~= crlf());
    p
}

/// The pattern CR LF CR LF.
pub fn separator_bytes() -> (p: Vec<u8>)
    ensures
        p@ == separator(),
{
    let mut p: Vec<u8> = Vec::new();
    p.push(13);
    p.push(10);
    p.push(13);
    p.push(10);
    assert(p@ =~= separator());
    p
}

/// The pieces of `v[from..to]` between the places where CR LF stands.
pub fn split_lines(v: &Vec<u8>, from: usize, to: usize) -> (out: Vec<Vec<u8>>)
    requires
        from <= to <= v.len(),
    ensures
        byte_views(out@) == split_on(v@.subrange(from as int, to as int), crlf()),
{
    let head = slice_bytes(v, from, to);
    let pat = crlf_bytes();
    let mut out: Vec<Vec<u8>> = Vec::new();
    let mut start: usize = 0;
    let ghost all = head@;
    proof {
        assert(all.skip(0) == all);
        assert(byte_views(out@) + split_on(all, crlf()) =~= split_on(all, crlf()));
    }
    loop
        invariant_except_break
            split_on(all, crlf()) == byte_views(out@) + split_on(all.skip(start as int), crlf()),
        invariant
            start <= head.len(),
            all == head@,
            pat@ == crlf(),
        ensures
            byte_views(out@) == split_on(all, crlf()),
        decreases head.len() - start,
    {
        let ghost rest = all.skip(start as int);
        let i = find_bytes(&head, start, &pat);
        proof {
            lemma_first_match(rest, crlf());
        }
        let piece = slice_bytes(&head, start, i);
        proof {
            assert(piece@ == rest.take(i - start));
            assert(byte_views(out@.push(piece)) =~= byte_views(out@).push(piece@));
        }
        if i < head.len() {
            proof {
                assert(crlf().is_prefix_of(rest.skip(i - start)));
                assert(rest.skip(i - start + 2) == all.skip(i + 2));
            }
            out.push(piece);
            start = i + 2;
        } else {
            proof {
                assert(rest.take(i - start) == rest);
            }
            out.push(piece);
            break;
        }
    }
    out
}

/// The value of the hexadecimal digit `b`, if it is one.
pub fn hex_digit_of(b: u8) -> (r: Option<u8>)
    ensures
        r is Some <==> hex_digit(b) is Some,
        r matches Some(d) ==> hex_digit(b) == Some(d as int) && d < 16,
{
    if b >= 48 && b <= 57 {
        Some(b - 48)
    } else if b >= 97 && b <= 102 {
        Some(b - 87)
    } else if b >= 65 && b <= 70 {
        Some(b - 55)
    } else {
        None
    }
}

/// What `hex_of` found.
pub enum HexSize {
    /// Not one or more hexadecimal digits.
    Bad,
    /// A number too large for this machine.
    Huge,
    /// The number.
    Size(usize),
}

/// Reads `v[from..to]` as a hexadecimal number.
pub fn hex_of(v: &Vec<u8>, from: usize, to: usize) -> (r: HexSize)
    requires
        from <= to <= v.len(),
    ensures
        r is Bad <==> !is_hex(v@.subrange(from as int, to as int)),
        r is Huge ==> hex_number(v@.subrange(from as int, to as int)) > usize::MAX,
        r matches HexSize::Size(n) ==> n == hex_number(v@.subrange(from as int, to as int)),
{
    let ghost s = v@.subrange(from as int, to as int);
    if from == to {
        return HexSize::Bad;
    }
    let mut i: usize = from;
    while i < to
        invariant
            from <= i <= to <= v.len(),
            s == v@.subrange(from as int, to as int),
            forall|j: int| 0 <= j < i - from ==> hex_digit(s[j]) is Some,
        decreases to - i,
    {
        if hex_digit_of(v[i]).is_none() {
            assert(hex_digit(s[i - from]) is None);
            return HexSize::Bad;
        }
        i = i + 1;
    }
    assert(is_hex(s));
    let mut n: usize = 0;
    let mut k: usize = from;
    assert(s.take(0) =~= Seq::<u8>::empty());
    while k < to
        invariant
            from <= k <= to <= v.len(),
            s == v@.subrange(from as int, to as int),
            is_hex(s),
            n == hex_number(s.take(k - from)),
        decreases to - k,
    {
        let d = match hex_digit_of(v[k]) {
            Some(d) => d as usize,
            None => 0,
        };
        proof {
            assert(s[k - from] == v@[k as int]);
            assert(s.take(k - from + 1).drop_last() == s.take(k - from));
            assert(hex_number(s.take(k - from + 1)) == n * 16 + d);
        }
        if n > (usize::MAX - d) / 16 {
            proof {
                assert(n * 16 + d > usize::MAX);
                lemma_hex_number_grows(s, k - from + 1);
            }
            return HexSize::Huge;
        }
        n = n * 16 + d;
        k = k + 1;
    }
    assert(s.take(to - from) == s);
    HexSize::Size(n)
}

/// What `read_chunks` found.
pub enum ChunkRead {
    /// The body, and the number of bytes that its chunks take.
    Done(Vec<u8>, usize),
    /// A beginning that more bytes may complete.
    More,
    /// Bytes that no chunked body begins with.
    Bad,
}

impl View for ChunkRead {
    type V = Chunks;

    open spec fn view(&self) -> Chunks {
        match self {
            ChunkRead::Done(b, n) => Chunks::Done(b@, *n as int),
            ChunkRead::More => Chunks::More,
            ChunkRead::Bad => Chunks::Bad,
        }
    }
}

/// How a stream of chunks begins, as `next_chunk` found it.
pub enum ChunkStep {
    More,
    Bad,
    Last(usize),
    Data(usize, usize, usize),
}

impl View for ChunkStep {
    type V = ChunkHead;

    open spec fn view(&self) -> ChunkHead {
        match self {
            ChunkStep::More => ChunkHead::More,
            ChunkStep::Bad => ChunkHead::Bad,
            ChunkStep::Last(u) => ChunkHead::Last(*u as int),
            ChunkStep::Data(a, n, u) => ChunkHead::Data(*a as int, *n as int, *u as int),
        }
    }
}

/// Reads one chunk from `v`, starting at `at`. The indices in the result
/// count from `at`.
pub fn next_chunk(v: &Vec<u8>, at: usize) -> (r: ChunkStep)
    requires
        at <= v.len(),
    ensures
        r@ == chunk_head(v@.skip(at as int)),
        r matches ChunkStep::Data(a, n, u) ==> a + n <= u && 0 < u && at + u <= v.len(),
        r matches ChunkStep::Last(u) ==> at + u <= v.len(),
{
    let pat = crlf_bytes();
    let ghost s = v@.skip(at as int);
    let i = find_bytes(v, at, &pat);
    proof {
        lemma_first_match(s, crlf());
    }
    if i >= v.len() {
        return ChunkStep::More;
    }
    proof {
        assert(crlf().is_prefix_of(s.skip(i - at)));
        assert(s.take(i - at) == v@.subrange(at as int, i as int));
    }
    match hex_of(v, at, i) {
        HexSize::Bad => ChunkStep::Bad,
        HexSize::Huge => ChunkStep::More,
        HexSize::Size(n) => {
            if n == 0 {
                if v.len() - i < 4 {
                    return ChunkStep::More;
                }
                proof {
                    assert(s[i - at + 2] == v@[i + 2]);
                    assert(s[i - at + 3] == v@[i + 3]);
                }
                if v[i + 2] == 13 && v[i + 3] == 10 {
                    ChunkStep::Last(i - at + 4)
                } else {
                    ChunkStep::Bad
                }
            } else if n > v.len() - i || v.len() - i - n < 4 {
                ChunkStep::More
            } else {
                proof {
                    assert(s[i - at + 2 + n] == v@[i + 2 + n]);
                    assert(s[i - at + 3 + n] == v@[i + 3 + n]);
                }
                if v[i + 2 + n] == 13 && v[i + 3 + n] == 10 {
                    ChunkStep::Data(i - at + 2, n, i - at + n + 4)
                } else {
                    ChunkStep::Bad
                }
            }
        },
    }
}

/// Reads a chunked body from `v`, starting at `from`.
pub fn read_chunks(v: &Vec<u8>, from: usize) -> (r: ChunkRead)
    requires
        from <= v.len(),
    ensures
        r@ == chunks(v@.skip(from as int)),
        r matches ChunkRead::Done(_, used) ==> from + used <= v.len(),
{
    let ghost all = v@.skip(from as int);
    let mut body: Vec<u8> = Vec::new();
    let mut at: usize = from;
    proof {
        assert(all.skip(0) == all);
        match chunks(all) {
            Chunks::Done(b, u) => {
                assert(body@ + b =~= b);
            },
            _ => {},
        }
    }
    loop
        invariant
            from <= at <= v.len(),
            all == v@.skip(from as int),
            chunks(all) == chunks_after(body@, at - from, chunks(all.skip(at - from))),
        decreases v.len() - at,
    {
        let ghost s = all.skip(at - from);
        assert(s == v@.skip(at as int));
        match next_chunk(v, at) {
            ChunkStep::More => {
                return ChunkRead::More;
            },
            ChunkStep::Bad => {
                return ChunkRead::Bad;
            },
            ChunkStep::Last(used) => {
                proof {
                    assert(body@ + Seq::<u8>::empty() =~= body@);
                }
                return ChunkRead::Done(body, at - from + used);
            },
            ChunkStep::Data(start, len, used) => {
                let mut data = slice_bytes(v, at + start, at + start + len);
                proof {
                    assert(s.subrange(start as int, start + len) == data@);
                    assert(s.skip(used as int) == all.skip(at + used - from));
                    match chunks(s.skip(used as int)) {
                        Chunks::Done(b, u) => {
                            assert(body@ + (data@ + b) =~= (body@ + data@) + b);
                        },
                        _ => {},
                    }
                }
                body.append(&mut data);
                at = at + used;
            },
        }
    }
}

} // verus!
