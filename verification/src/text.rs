//! Text primitives shared by the line parser and the path model: white
//! space, trimming, and cutting a text into pieces at a delimiter.
//!
//! A text is modelled as a `Seq<char>`. The executable functions work on a
//! slice of characters and hand back ranges of indices into it.

use vstd::prelude::*;
use vstd::string::*;
use vstd::utf8::encode_utf8_decode_utf8;

verus! {

/// White space in the sense of `str::trim`: the characters that carry the
/// Unicode property `White_Space`.
pub open spec fn is_whitespace(c: char) -> bool {
    let n = c as u32;
    ||| 0x09 <= n <= 0x0d
    ||| n == 0x20
    ||| n == 0x85
    ||| n == 0xa0
    ||| n == 0x1680
    ||| 0x2000 <= n <= 0x200a
    ||| n == 0x2028
    ||| n == 0x2029
    ||| n == 0x202f
    ||| n == 0x205f
    ||| n == 0x3000
}

/// The text without its leading white space.
pub open spec fn trim_start(s: Seq<char>) -> Seq<char>
    decreases s.len(),
{
    if s.len() > 0 && is_whitespace(s.first()) {
        trim_start(s.drop_first())
    } else {
        s
    }
}

/// The text without its trailing white space.
pub open spec fn trim_end(s: Seq<char>) -> Seq<char>
    decreases s.len(),
{
    if s.len() > 0 && is_whitespace(s.last()) {
        trim_end(s.drop_last())
    } else {
        s
    }
}

/// The text without leading and trailing white space.
pub open spec fn trim(s: Seq<char>) -> Seq<char> {
    trim_end(trim_start(s))
}

/// The character at which a text is cut into pieces.
#[derive(Clone, Copy, Debug)]
pub enum Delim {
    /// A space or a tab: between the fields of a line.
    Blank,
    /// A comma: between mount options.
    Comma,
    /// A slash: between the names of a path.
    Slash,
}

impl Delim {
    /// `c` separates two pieces.
    pub open spec fn cuts(self, c: char) -> bool {
        match self {
            Delim::Blank => c == ' ' || c == '\t',
            Delim::Comma => c == ',',
            Delim::Slash => c == '/',
        }
    }

    /// Executable form of [`Delim::cuts`].
    pub fn is_cut(self, c: char) -> (r: bool)
        ensures
            r == self.cuts(c),
    {
        match self {
            Delim::Blank => c == ' ' || c == '\t',
            Delim::Comma => c == ',',
            Delim::Slash => c == '/',
        }
    }
}

/// Which pieces of a split text are kept.
#[derive(Clone, Copy, Debug)]
pub enum Keep {
    /// Every piece, the empty ones too.
    All,
    /// The pieces that are not empty.
    NonEmpty,
    /// The pieces that name something in a path: neither empty nor `.`.
    Names,
}

impl Keep {
    /// The piece `p` is kept.
    pub open spec fn accepts(self, p: Seq<char>) -> bool {
        match self {
            Keep::All => true,
            Keep::NonEmpty => p.len() > 0,
            Keep::Names => p.len() > 0 && p != seq!['.'],
        }
    }

    /// [`Keep::accepts`] as a predicate, for `Seq::filter`.
    pub open spec fn pred(self) -> spec_fn(Seq<char>) -> bool {
        |p: Seq<char>| self.accepts(p)
    }
}

/// The number of leading characters of `s` that `d` does not cut.
pub open spec fn run_len(s: Seq<char>, d: Delim) -> nat
    decreases s.len(),
{
    if s.len() == 0 || d.cuts(s.first()) {
        0
    } else {
        1 + run_len(s.drop_first(), d)
    }
}

/// `s` cut at every delimiter: the pieces between two delimiters, before the
/// first and after the last one, empty pieces included. A text without a
/// delimiter is its own single piece.
pub open spec fn split(s: Seq<char>, d: Delim) -> Seq<Seq<char>>
    decreases s.len(),
{
    let n = run_len(s, d) as int;
    if n >= s.len() {
        seq![s]
    } else {
        seq![s.take(n)] + split(s.skip(n + 1), d)
    }
}

/// The pieces of `s` that `keep` accepts, in order.
pub open spec fn pieces(s: Seq<char>, d: Delim, keep: Keep) -> Seq<Seq<char>> {
    split(s, d).filter(keep.pred())
}

/// No character of `s` is cut by `d`.
pub open spec fn uncut(s: Seq<char>, d: Delim) -> bool {
    forall|i: int| 0 <= i < s.len() ==> !d.cuts(#[trigger] s[i])
}

/// Every character of `s` is white space.
pub open spec fn all_whitespace(s: Seq<char>) -> bool {
    forall|i: int| 0 <= i < s.len() ==> is_whitespace(#[trigger] s[i])
}

/// With every piece kept, the pieces are the split itself.
pub proof fn lemma_pieces_all(s: Seq<char>, d: Delim)
    ensures
        pieces(s, d, Keep::All) == split(s, d),
{
    lemma_filter_true(split(s, d), Keep::All.pred());
}

/// A filter that accepts everything changes nothing.
proof fn lemma_filter_true(s: Seq<Seq<char>>, f: spec_fn(Seq<char>) -> bool)
    requires
        forall|p: Seq<char>| #[trigger] f(p),
    ensures
        s.filter(f) == s,
    decreases s.len(),
{
    reveal(Seq::filter);
    if s.len() > 0 {
        lemma_filter_true(s.drop_last(), f);
        assert(s.drop_last().push(s.last()) == s);
    }
}

/// A position that no delimiter precedes, and that is the end of the text or
/// holds a delimiter, is `run_len`.
pub proof fn lemma_run_len_is(s: Seq<char>, d: Delim, n: int)
    requires
        0 <= n <= s.len(),
        forall|k: int| 0 <= k < n ==> !d.cuts(#[trigger] s[k]),
        n < s.len() ==> d.cuts(s[n]),
    ensures
        run_len(s, d) == n,
    decreases s.len(),
{
    if n > 0 {
        let t = s.drop_first();
        assert(!d.cuts(s[0]));
        assert forall|k: int| 0 <= k < n - 1 implies !d.cuts(#[trigger] t[k]) by {
            assert(t[k] == s[k + 1]);
        }
        lemma_run_len_is(t, d, n - 1);
    }
}

/// A text without a delimiter is one piece.
pub proof fn lemma_split_uncut(a: Seq<char>, d: Delim)
    requires
        uncut(a, d),
    ensures
        split(a, d) == seq![a],
{
    lemma_run_len_is(a, d, a.len() as int);
}

/// A text is cut at its first delimiter: what stands before it is the first
/// piece, and the pieces of what stands after it follow.
pub proof fn lemma_split_at_cut(a: Seq<char>, c: char, rest: Seq<char>, d: Delim)
    requires
        uncut(a, d),
        d.cuts(c),
    ensures
        split(a + seq![c] + rest, d) == seq![a] + split(rest, d),
{
    let s = a + seq![c] + rest;
    assert forall|k: int| 0 <= k < a.len() implies !d.cuts(#[trigger] s[k]) by {
        assert(s[k] == a[k]);
    }
    assert(s[a.len() as int] == c);
    lemma_run_len_is(s, d, a.len() as int);
    assert(s.take(a.len() as int) == a);
    assert(s.skip(a.len() as int + 1) == rest);
}

/// The same for the pieces that are kept.
pub proof fn lemma_pieces_at_cut(a: Seq<char>, c: char, rest: Seq<char>, d: Delim, keep: Keep)
    requires
        uncut(a, d),
        d.cuts(c),
    ensures
        pieces(a + seq![c] + rest, d, keep) == (if keep.accepts(a) {
            seq![a]
        } else {
            Seq::empty()
        }) + pieces(rest, d, keep),
{
    lemma_split_at_cut(a, c, rest, d);
    split(rest, d).lemma_filter_prepend(a, keep.pred());
}

/// Delimiters in front of a text add no piece that is not empty.
pub proof fn lemma_pieces_after_gap(gap: Seq<char>, rest: Seq<char>, d: Delim)
    requires
        forall|i: int| 0 <= i < gap.len() ==> d.cuts(#[trigger] gap[i]),
    ensures
        pieces(gap + rest, d, Keep::NonEmpty) == pieces(rest, d, Keep::NonEmpty),
    decreases gap.len(),
{
    if gap.len() == 0 {
        assert(gap + rest == rest);
    } else {
        let tail = gap.drop_first();
        let none = Seq::<char>::empty();
        assert(gap + rest == none + seq![gap.first()] + (tail + rest));
        lemma_pieces_at_cut(none, gap.first(), tail + rest, d, Keep::NonEmpty);
        assert(Seq::<Seq<char>>::empty() + pieces(tail + rest, d, Keep::NonEmpty) == pieces(
            tail + rest,
            d,
            Keep::NonEmpty,
        ));
        assert forall|i: int| 0 <= i < tail.len() implies d.cuts(#[trigger] tail[i]) by {
            assert(tail[i] == gap[i + 1]);
        }
        lemma_pieces_after_gap(tail, rest, d);
    }
}

/// White space in front of a text is trimmed away.
pub proof fn lemma_trim_start(lead: Seq<char>, body: Seq<char>)
    requires
        all_whitespace(lead),
        body.len() > 0 ==> !is_whitespace(body.first()),
    ensures
        trim_start(lead + body) == body,
    decreases lead.len(),
{
    if lead.len() == 0 {
        assert(lead + body == body);
    } else {
        assert((lead + body).first() == lead[0]);
        assert((lead + body).drop_first() == lead.drop_first() + body);
        assert forall|i: int| 0 <= i < lead.drop_first().len() implies is_whitespace(
            #[trigger] lead.drop_first()[i],
        ) by {
            assert(lead.drop_first()[i] == lead[i + 1]);
        }
        lemma_trim_start(lead.drop_first(), body);
    }
}

/// White space at the end of a text is trimmed away.
pub proof fn lemma_trim_end(body: Seq<char>, trail: Seq<char>)
    requires
        all_whitespace(trail),
        body.len() > 0 ==> !is_whitespace(body.last()),
    ensures
        trim_end(body + trail) == body,
    decreases trail.len(),
{
    if trail.len() == 0 {
        assert(body + trail == body);
    } else {
        assert((body + trail).last() == trail.last());
        assert((body + trail).drop_last() == body + trail.drop_last());
        assert forall|i: int| 0 <= i < trail.drop_last().len() implies is_whitespace(
            #[trigger] trail.drop_last()[i],
        ) by {
            assert(trail.drop_last()[i] == trail[i]);
        }
        lemma_trim_end(body, trail.drop_last());
    }
}

/// A half-open range of indices into a slice of characters.
#[derive(Clone, Copy, Debug)]
pub struct Span {
    pub start: usize,
    pub end: usize,
}

impl Span {
    /// The range lies inside a text of `len` characters.
    pub open spec fn within(self, len: int) -> bool {
        self.start <= self.end <= len
    }

    /// The part of `s` that the range covers.
    pub open spec fn of(self, s: Seq<char>) -> Seq<char> {
        s.subrange(self.start as int, self.end as int)
    }
}

/// Every range lies between `lo` and `hi`.
pub open spec fn spans_between(spans: Seq<Span>, lo: int, hi: int) -> bool {
    forall|k: int|
        0 <= k < spans.len() ==> lo <= (#[trigger] spans[k]).start <= spans[k].end <= hi
}

/// The parts of `s` that the ranges cover, in order.
pub open spec fn span_texts(s: Seq<char>, spans: Seq<Span>) -> Seq<Seq<char>> {
    Seq::new(spans.len(), |k: int| spans[k].of(s))
}

/// Executable form of [`is_whitespace`].
pub fn whitespace(c: char) -> (r: bool)
    ensures
        r == is_whitespace(c),
{
    let n: u32 = c as u32;
    (0x09 <= n && n <= 0x0d) || n == 0x20 || n == 0x85 || n == 0xa0 || n == 0x1680 || (0x2000 <= n
        && n <= 0x200a) || n == 0x2028 || n == 0x2029 || n == 0x202f || n == 0x205f || n == 0x3000
}

/// The characters of `s`, one by one.
pub fn chars_of(s: &str) -> (v: Vec<char>)
    ensures
        v@ == s@,
{
    let mut v: Vec<char> = Vec::new();
    for c in it: s.chars()
        invariant
            v@ == it.seq().take(it.index() as int),
    {
        v.push(c);
    }
    v
}

/// Whether two texts are the same, character by character.
pub fn str_eq(a: &str, b: &str) -> (r: bool)
    ensures
        r == (a@ == b@),
{
    let x = a.as_bytes();
    let y = b.as_bytes();
    let n: usize = x.len();
    if y.len() != n {
        assert(x@.len() != y@.len());
        return false;
    }
    let mut i: usize = 0;
    while i < n
        invariant
            i <= n,
            n == x@.len(),
            n == y@.len(),
            x@ == a.spec_bytes(),
            y@ == b.spec_bytes(),
            forall|k: int| 0 <= k < i ==> x@[k] == y@[k],
        decreases n - i,
    {
        if x[i] != y[i] {
            assert(x@[i as int] != y@[i as int]);
            return false;
        }
        i = i + 1;
    }
    proof {
        // A text is what its bytes decode to, so equal bytes are equal texts.
        assert(x@ =~= y@);
        encode_utf8_decode_utf8(a@);
        encode_utf8_decode_utf8(b@);
    }
    true
}

/// The part of `s` that `span` covers, as a text of its own.
pub(crate) fn text_of(s: &str, span: Span) -> (r: String)
    requires
        span.within(s@.len() as int),
    ensures
        r@ == span.of(s@),
{
    String::from_str(s.substring_char(span.start, span.end))
}

/// Whether two parts of two slices hold the same characters.
pub(crate) fn same_text(a: &[char], x: Span, b: &[char], y: Span) -> (r: bool)
    requires
        x.within(a@.len() as int),
        y.within(b@.len() as int),
    ensures
        r == (x.of(a@) == y.of(b@)),
{
    let n: usize = x.end - x.start;
    if y.end - y.start != n {
        assert(x.of(a@).len() != y.of(b@).len());
        return false;
    }
    let mut i: usize = 0;
    while i < n
        invariant
            i <= n,
            n == x.end - x.start,
            n == y.end - y.start,
            x.within(a@.len() as int),
            y.within(b@.len() as int),
            forall|k: int| 0 <= k < i ==> x.of(a@)[k] == y.of(b@)[k],
        decreases n - i,
    {
        if a[x.start + i] != b[y.start + i] {
            assert(x.of(a@)[i as int] != y.of(b@)[i as int]);
            return false;
        }
        i = i + 1;
    }
    assert(x.of(a@) =~= y.of(b@));
    true
}

/// Whether the character `c` occurs in the part of `s` that `span` covers.
pub(crate) fn span_contains(s: &[char], span: Span, c: char) -> (r: bool)
    requires
        span.within(s@.len() as int),
    ensures
        r == span.of(s@).contains(c),
{
    let mut i: usize = span.start;
    while i < span.end
        invariant
            span.start <= i <= span.end <= s@.len(),
            forall|k: int| span.start <= k < i ==> s@[k] != c,
        decreases span.end - i,
    {
        if s[i] == c {
            assert(span.of(s@)[i - span.start] == c);
            return true;
        }
        i = i + 1;
    }
    assert forall|k: int| 0 <= k < span.of(s@).len() implies span.of(s@)[k] != c by {
        assert(span.of(s@)[k] == s@[span.start + k]);
    }
    false
}

/// Trims a slice of characters: the range that is left when leading and
/// trailing white space is taken away.
pub fn trim_span(s: &[char]) -> (r: Span)
    ensures
        r.within(s@.len() as int),
        r.of(s@) == trim(s@),
{
    let n: usize = s.len();
    let mut lo: usize = 0;
    assert(s@.skip(0) == s@);
    while lo < n && whitespace(s[lo])
        invariant
            lo <= n,
            n == s@.len(),
            trim_start(s@) == trim_start(s@.skip(lo as int)),
        decreases n - lo,
    {
        assert(s@.skip(lo as int).drop_first() == s@.skip(lo as int + 1));
        lo = lo + 1;
    }
    assert(trim_start(s@) == s@.skip(lo as int));
    let mut hi: usize = n;
    while lo < hi && whitespace(s[hi - 1])
        invariant
            lo <= hi <= n,
            n == s@.len(),
            trim(s@) == trim_end(s@.subrange(lo as int, hi as int)),
        decreases hi - lo,
    {
        assert(s@.subrange(lo as int, hi as int).drop_last() == s@.subrange(
            lo as int,
            hi as int - 1,
        ));
        hi = hi - 1;
    }
    Span { start: lo, end: hi }
}

/// Cuts the part `lo..hi` of `s` at every `d` and returns the ranges of the
/// pieces that `keep` accepts.
pub(crate) fn split_spans(s: &[char], lo: usize, hi: usize, d: Delim, keep: Keep) -> (r: Vec<Span>)
    requires
        lo <= hi <= s@.len(),
    ensures
        span_texts(s@, r@) == pieces(s@.subrange(lo as int, hi as int), d, keep),
        spans_between(r@, lo as int, hi as int),
{
    let ghost t = s@.subrange(lo as int, hi as int);
    let ghost mut done: Seq<Seq<char>> = Seq::empty();
    let mut out: Vec<Span> = Vec::new();
    let mut start: usize = lo;
    let mut i: usize = lo;
    proof {
        assert(t.skip(0) == t);
        reveal(Seq::filter);
        assert(span_texts(s@, out@) == done.filter(keep.pred()));
    }
    while i < hi
        invariant
            lo <= start <= i <= hi <= s@.len(),
            t == s@.subrange(lo as int, hi as int),
            forall|k: int| start <= k < i ==> !d.cuts(#[trigger] s@[k]),
            split(t, d) == done + split(t.skip(start - lo), d),
            span_texts(s@, out@) == done.filter(keep.pred()),
            spans_between(out@, lo as int, hi as int),
        decreases hi - i,
    {
        if d.is_cut(s[i]) {
            let span = Span { start, end: i };
            proof {
                let rest = t.skip(start - lo);
                assert forall|k: int| 0 <= k < i - start implies !d.cuts(#[trigger] rest[k]) by {
                    assert(rest[k] == s@[start + k]);
                }
                assert(rest[i - start] == s@[i as int]);
                lemma_run_len_is(rest, d, i - start);
                assert(rest.take(i - start) == span.of(s@));
                assert(rest.skip(i - start + 1) == t.skip(i + 1 - lo));
                assert(split(t, d) == done.push(span.of(s@)) + split(t.skip(i + 1 - lo), d));
                done.lemma_filter_push(span.of(s@), keep.pred());
                done = done.push(span.of(s@));
            }
            if accepted(s, span, keep) {
                proof {
                    assert(span_texts(s@, out@.push(span)) == span_texts(s@, out@).push(
                        span.of(s@),
                    ));
                }
                out.push(span);
            }
            start = i + 1;
        }
        i = i + 1;
    }
    let span = Span { start, end: hi };
    proof {
        let rest = t.skip(start - lo);
        assert forall|k: int| 0 <= k < hi - start implies !d.cuts(#[trigger] rest[k]) by {
            assert(rest[k] == s@[start + k]);
        }
        lemma_run_len_is(rest, d, hi - start);
        assert(rest == span.of(s@));
        assert(split(t, d) == done.push(span.of(s@)));
        done.lemma_filter_push(span.of(s@), keep.pred());
    }
    if accepted(s, span, keep) {
        proof {
            assert(span_texts(s@, out@.push(span)) == span_texts(s@, out@).push(span.of(s@)));
        }
        out.push(span);
    }
    out
}

/// Whether `keep` accepts the piece of `s` that `span` covers.
fn accepted(s: &[char], span: Span, keep: Keep) -> (r: bool)
    requires
        span.within(s@.len() as int),
    ensures
        r == keep.accepts(span.of(s@)),
{
    match keep {
        Keep::All => true,
        Keep::NonEmpty => span.start < span.end,
        Keep::Names => {
            let one_dot = span.end - span.start == 1 && s[span.start] == '.';
            proof {
                let p = span.of(s@);
                if one_dot {
                    assert(p == seq!['.']);
                } else if p.len() == 1 {
                    assert(p[0] == s@[span.start as int]);
                    assert(seq!['.'][0] == '.');
                }
            }
            span.start < span.end && !one_dot
        },
    }
}

} // verus!
