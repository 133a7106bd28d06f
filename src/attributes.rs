//! The attribute splitter: turns the inside of an opening tag into the
//! element name and its attribute list.
use vstd::prelude::*;
use crate::text::{
    chars_of, is_ws, is_ws_exec, strip_back_at, strip_front_at, trim, trim_at, trim_quotes,
};
use crate::token::{attr_view, attrs_view, AttrView, Attribute, HtmlTag};

verus! {

/// Quoting state of the splitter. Any of `"`, `'` and `!` opens a quoted run,
/// and any of them closes it again, whichever opened it.
#[derive(PartialEq, Eq, Structural, Clone, Copy)]
pub enum QuoteStatus {
    NoQuote,
    SingleQuote,
    DoubleQuote,
    BangQuote,
}

/// State of the splitter after a prefix of the tag body: the quoting state,
/// the pieces cut so far, and whether a piece is under way and where it began.
pub struct SplitState {
    pub quote: QuoteStatus,
    pub pieces: Seq<Seq<char>>,
    pub open: bool,
    pub start: int,
}

pub open spec fn toggle(q: QuoteStatus, ch: char) -> QuoteStatus {
    match q {
        QuoteStatus::NoQuote => if ch == '"' {
            QuoteStatus::DoubleQuote
        } else if ch == '\'' {
            QuoteStatus::SingleQuote
        } else {
            QuoteStatus::BangQuote
        },
        _ => QuoteStatus::NoQuote,
    }
}

pub open spec fn is_quote_mark(ch: char) -> bool {
    ch == '"' || ch == '\'' || ch == '!'
}

/// Whether character `ch` separates pieces in quoting state `q`: whitespace
/// outside quotes.
pub open spec fn is_separator(q: QuoteStatus, ch: char) -> bool {
    is_ws(ch) && q == QuoteStatus::NoQuote
}

/// One step of the splitter over character `k` of `c`. A separator ends the
/// piece under way, if any; any other character starts a piece if none is
/// under way, and a quote mark toggles the quoting state.
pub open spec fn split_step(c: Seq<char>, st: SplitState, k: int) -> SplitState {
    let ch = c[k];
    if is_separator(st.quote, ch) {
        SplitState {
            quote: st.quote,
            pieces: if st.open { st.pieces.push(c.subrange(st.start, k)) } else { st.pieces },
            open: false,
            start: st.start,
        }
    } else {
        SplitState {
            quote: if is_quote_mark(ch) { toggle(st.quote, ch) } else { st.quote },
            pieces: st.pieces,
            open: true,
            start: if st.open { st.start } else { k },
        }
    }
}

pub open spec fn split_upto(c: Seq<char>, k: nat) -> SplitState
    decreases k,
{
    if k == 0 {
        SplitState { quote: QuoteStatus::NoQuote, pieces: seq![], open: false, start: 0 }
    } else {
        split_step(c, split_upto(c, (k - 1) as nat), k - 1)
    }
}

/// The pieces of a tag body: its maximal runs of characters that are not
/// separators, in order.
pub open spec fn split_pieces(c: Seq<char>) -> Seq<Seq<char>> {
    let st = split_upto(c, c.len());
    if st.open {
        st.pieces.push(c.subrange(st.start, c.len() as int))
    } else {
        st.pieces
    }
}

/// A piece `name=value` becomes `(name, Some(value))`, quotes trimmed off the
/// value; a piece without `=` is a name alone.
pub open spec fn attribute_of(p: Seq<char>) -> AttrView {
    match p.index_of_first('=') {
        Some(i) => (p.subrange(0, i), Some(trim_quotes(p.subrange(i + 1, p.len() as int)))),
        None => (p, None),
    }
}

/// The name and the attributes of a tag body.
pub open spec fn split_tag(body: Seq<char>) -> (Seq<char>, Seq<AttrView>) {
    let pieces = split_pieces(trim(body));
    if pieces.len() == 0 {
        (seq![], seq![])
    } else {
        (pieces[0], pieces.drop_first().map_values(|p: Seq<char>| attribute_of(p)))
    }
}

pub open spec fn ranges_view(v: Seq<char>, p: Seq<(usize, usize)>) -> Seq<Seq<char>> {
    p.map_values(|r: (usize, usize)| v.subrange(r.0 as int, r.1 as int))
}

fn toggle_exec(q: QuoteStatus, ch: char) -> (r: QuoteStatus)
    ensures
        r == toggle(q, ch),
{
    match q {
        QuoteStatus::NoQuote => if ch == '"' {
            QuoteStatus::DoubleQuote
        } else if ch == '\'' {
            QuoteStatus::SingleQuote
        } else {
            QuoteStatus::BangQuote
        },
        _ => QuoteStatus::NoQuote,
    }
}

/// Cuts `v[a..b]` into pieces; returns their bounds in `v`.
fn split_ranges(v: &Vec<char>, a: usize, b: usize) -> (r: Vec<(usize, usize)>)
    requires
        a <= b <= v@.len(),
    ensures
        ranges_view(v@, r@) == split_pieces(v@.subrange(a as int, b as int)),
        forall|i: int| 0 <= i < r@.len() ==> a <= #[trigger] r@[i].0 <= r@[i].1 <= b,
{
    let ghost c = v@.subrange(a as int, b as int);
    let mut quote = QuoteStatus::NoQuote;
    let mut pieces: Vec<(usize, usize)> = Vec::new();
    let mut open = false;
    let mut start: usize = a;
    let mut k: usize = a;
    assert(ranges_view(v@, pieces@) =~= seq![]);
    while k < b
        invariant
            a <= k <= b <= v@.len(),
            c == v@.subrange(a as int, b as int),
            a <= start <= k,
            split_upto(c, (k - a) as nat) == (SplitState {
                quote,
                pieces: ranges_view(v@, pieces@),
                open,
                start: start - a,
            }),
            forall|i: int| 0 <= i < pieces@.len() ==> a <= #[trigger] pieces@[i].0 <= pieces@[i].1 <= b,
        decreases b - k,
    {
        let ghost kk = (k - a) as int;
        let ghost old_pieces = pieces@;
        let ch = v[k];
        assert(c[kk] == ch);
        if is_ws_exec(ch) && quote == QuoteStatus::NoQuote {
            if open {
                assert(c.subrange(start - a, kk) =~= v@.subrange(start as int, k as int));
                pieces.push((start, k));
                assert(ranges_view(v@, pieces@) =~= ranges_view(v@, old_pieces).push(
                    v@.subrange(start as int, k as int),
                ));
            }
            open = false;
        } else {
            if ch == '"' || ch == '\'' || ch == '!' {
                quote = toggle_exec(quote, ch);
            }
            if !open {
                start = k;
            }
            open = true;
        }
        k = k + 1;
    }
    if open {
        let ghost old_pieces = pieces@;
        assert(c.subrange(start - a, c.len() as int) =~= v@.subrange(start as int, b as int));
        pieces.push((start, b));
        assert(ranges_view(v@, pieces@) =~= ranges_view(v@, old_pieces).push(
            v@.subrange(start as int, b as int),
        ));
    }
    pieces
}

/// The attribute that piece `v[lo..hi]` stands for.
fn attribute_at<'a>(content: &'a str, v: &Vec<char>, lo: usize, hi: usize) -> (r: Attribute<'a>)
    requires
        v@ == content@,
        lo <= hi <= v@.len(),
    ensures
        attr_view(r) == attribute_of(v@.subrange(lo as int, hi as int)),
{
    let ghost p = v@.subrange(lo as int, hi as int);
    let mut j: usize = lo;
    while j < hi && v[j] != '='
        invariant
            lo <= j <= hi <= v@.len(),
            p == v@.subrange(lo as int, hi as int),
            forall|m: int| 0 <= m < j - lo ==> p[m] != '=',
        decreases hi - j,
    {
        j = j + 1;
    }
    proof {
        p.index_of_first_ensures('=');
    }
    if j < hi {
        assert(p[j - lo] == '=');
        let s = strip_front_at(v, j + 1, hi, true);
        let e = strip_back_at(v, s, hi, true);
        assert(p.subrange(0, j - lo) =~= v@.subrange(lo as int, j as int));
        assert(p.subrange(j - lo + 1, p.len() as int) =~= v@.subrange(j + 1, hi as int));
        (content.substring_char(lo, j), Some(content.substring_char(s, e)))
    } else {
        assert(!p.contains('='));
        (content.substring_char(lo, hi), None)
    }
}

/// Name and attributes of the tag body `v[lo..hi]`.
pub fn split_tag_at<'a>(content: &'a str, v: &Vec<char>, lo: usize, hi: usize) -> (r: (
    &'a str,
    Vec<Attribute<'a>>,
))
    requires
        v@ == content@,
        lo <= hi <= v@.len(),
    ensures
        r.0@ == split_tag(v@.subrange(lo as int, hi as int)).0,
        attrs_view(r.1@) == split_tag(v@.subrange(lo as int, hi as int)).1,
{
    let (a, b) = trim_at(v, lo, hi);
    let ranges = split_ranges(v, a, b);
    let ghost pieces = split_pieces(v@.subrange(a as int, b as int));
    if ranges.len() == 0 {
        let empty: Vec<Attribute<'a>> = Vec::new();
        assert(attrs_view(empty@) =~= seq![]);
        return (content.substring_char(a, a), empty);
    }
    let name = content.substring_char(ranges[0].0, ranges[0].1);
    let mut attrs: Vec<Attribute<'a>> = Vec::new();
    let mut i: usize = 1;
    while i < ranges.len()
        invariant
            1 <= i <= ranges@.len(),
            ranges_view(v@, ranges@) == pieces,
            forall|m: int| 0 <= m < ranges@.len() ==> a <= #[trigger] ranges@[m].0 <= ranges@[m].1 <= b,
            b <= v@.len(),
            v@ == content@,
            attrs_view(attrs@) == pieces.subrange(1, i as int).map_values(
                |p: Seq<char>| attribute_of(p),
            ),
        decreases ranges@.len() - i,
    {
        let at = attribute_at(content, v, ranges[i].0, ranges[i].1);
        assert(pieces[i as int] == v@.subrange(ranges@[i as int].0 as int, ranges@[i as int].1 as int));
        let ghost before = attrs@;
        attrs.push(at);
        assert(attrs@ == before.push(at));
        assert(attrs_view(attrs@) =~= attrs_view(before).push(attr_view(at)));
        assert(pieces.subrange(1, i + 1).map_values(|p: Seq<char>| attribute_of(p))
            =~= pieces.subrange(1, i as int).map_values(|p: Seq<char>| attribute_of(p)).push(
            attribute_of(pieces[i as int]),
        ));
        assert(attrs_view(attrs@) =~= pieces.subrange(1, i + 1).map_values(
            |p: Seq<char>| attribute_of(p),
        ));
        i = i + 1;
    }
    assert(pieces.subrange(1, i as int) =~= pieces.drop_first());
    (name, attrs)
}

impl<'a> HtmlTag<'a> {
    /// Splits the inside of an opening tag into the element name and its
    /// attributes.
    pub fn parse_opening_tag_content(content: &'a str) -> (r: (&'a str, Vec<Attribute<'a>>))
        ensures
            r.0@ == split_tag(content@).0,
            attrs_view(r.1@) == split_tag(content@).1,
    {
        let v = chars_of(content);
        assert(v@.subrange(0, v@.len() as int) =~= content@);
        split_tag_at(content, &v, 0, v.len())
    }
}

} // verus!
