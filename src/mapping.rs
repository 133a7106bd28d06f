//! Tokens with their attributes seen as a lookup from name to value, the last
//! occurrence of a name winning.
use vstd::prelude::*;
use crate::text::same_text;
use crate::token::{attr_view, attrs_view, AttrView, Attribute, HtmlTag, TagView};

verus! {

/// A raw html tag representation whose attribute names are unique.
#[derive(PartialEq, Debug)]
pub enum HtmlTagMapped<'a> {
    OpeningTag(&'a str, Vec<Attribute<'a>>),
    ClosingTag(&'a str),
    Unparsable(&'a str),
    Comment(&'a str),
}

/// The view of a mapped token.
pub enum MappedView {
    Opening(Seq<char>, Map<Seq<char>, Option<Seq<char>>>),
    Closing(Seq<char>),
    Text(Seq<char>),
    Comment(Seq<char>),
}

/// The lookup that inserting the attributes of `s` in order builds.
pub open spec fn attr_map(s: Seq<AttrView>) -> Map<Seq<char>, Option<Seq<char>>>
    decreases s.len(),
{
    if s.len() == 0 {
        Map::empty()
    } else {
        attr_map(s.drop_last()).insert(s.last().0, s.last().1)
    }
}

pub open spec fn names_unique(s: Seq<AttrView>) -> bool {
    forall|i: int, j: int| 0 <= i < j < s.len() ==> #[trigger] s[i].0 != #[trigger] s[j].0
}

impl<'a> View for HtmlTagMapped<'a> {
    type V = MappedView;

    open spec fn view(&self) -> MappedView {
        match self {
            HtmlTagMapped::OpeningTag(n, a) => MappedView::Opening(n@, attr_map(attrs_view(a@))),
            HtmlTagMapped::ClosingTag(n) => MappedView::Closing(n@),
            HtmlTagMapped::Unparsable(t) => MappedView::Text(t@),
            HtmlTagMapped::Comment(t) => MappedView::Comment(t@),
        }
    }
}

impl<'a> HtmlTagMapped<'a> {
    /// Attribute names of an opening tag occur once each.
    pub open spec fn wf(&self) -> bool {
        match self {
            HtmlTagMapped::OpeningTag(_, a) => names_unique(attrs_view(a@)),
            _ => true,
        }
    }
}

/// The mapped form of a token.
pub open spec fn mapped(t: TagView) -> MappedView {
    match t {
        TagView::Opening(n, a) => MappedView::Opening(n, attr_map(a)),
        TagView::Closing(n) => MappedView::Closing(n),
        TagView::Text(x) => MappedView::Text(x),
        TagView::Comment(x) => MappedView::Comment(x),
    }
}

proof fn lemma_attr_map_update(w: Seq<AttrView>, k: int, v: AttrView)
    requires
        names_unique(w),
        0 <= k < w.len(),
        w[k].0 == v.0,
    ensures
        attr_map(w.update(k, v)) == attr_map(w).insert(v.0, v.1),
    decreases w.len(),
{
    let u = w.update(k, v);
    if k == w.len() - 1 {
        assert(u.drop_last() =~= w.drop_last());
        assert(attr_map(u) =~= attr_map(w).insert(v.0, v.1));
    } else {
        assert(u.drop_last() =~= w.drop_last().update(k, v));
        lemma_attr_map_update(w.drop_last(), k, v);
        assert(w.last().0 != v.0);
        assert(attr_map(u) =~= attr_map(w).insert(v.0, v.1));
    }
}

fn lookup_of<'a>(attrs: &Vec<Attribute<'a>>) -> (r: Vec<Attribute<'a>>)
    ensures
        names_unique(attrs_view(r@)),
        attr_map(attrs_view(r@)) == attr_map(attrs_view(attrs@)),
{
    let ghost src = attrs_view(attrs@);
    let mut out: Vec<Attribute<'a>> = Vec::new();
    let mut i: usize = 0;
    assert(attrs_view(out@) =~= seq![]);
    while i < attrs.len()
        invariant
            i <= attrs@.len(),
            src == attrs_view(attrs@),
            names_unique(attrs_view(out@)),
            attr_map(attrs_view(out@)) == attr_map(src.take(i as int)),
        decreases attrs@.len() - i,
    {
        let a = attrs[i];
        let ghost w = attrs_view(out@);
        let mut j: usize = 0;
        while j < out.len() && !same_text(out[j].0, a.0)
            invariant
                j <= out@.len(),
                w == attrs_view(out@),
                forall|m: int| 0 <= m < j ==> w[m].0 != a.0@,
            decreases out@.len() - j,
        {
            j = j + 1;
        }
        assert(src.take(i + 1).drop_last() =~= src.take(i as int));
        if j < out.len() {
            proof {
                lemma_attr_map_update(w, j as int, attr_view(a));
            }
            out.remove(j);
            out.insert(j, a);
            assert(attrs_view(out@) =~= w.update(j as int, attr_view(a)));
            assert(forall|m: int| 0 <= m < w.len() ==> #[trigger] attrs_view(out@)[m].0 == w[m].0);
        } else {
            out.push(a);
            assert(attrs_view(out@) =~= w.push(attr_view(a)));
            assert(attrs_view(out@).drop_last() =~= w);
            assert(forall|m: int| 0 <= m < w.len() ==> #[trigger] attrs_view(out@)[m] == w[m]);
            assert(attrs_view(out@)[w.len() as int].0 == a.0@);
        }
        i = i + 1;
    }
    assert(src.take(i as int) =~= src);
    out
}

impl<'a> HtmlTag<'a> {
    /// The token with its attributes as a lookup by name; of two attributes
    /// with one name the later wins.
    pub fn to_hashmap(&self) -> (r: HtmlTagMapped<'a>)
        ensures
            r.wf(),
            r@ == mapped(self@),
    {
        match self {
            HtmlTag::OpeningTag(n, a) => HtmlTagMapped::OpeningTag(*n, lookup_of(a)),
            HtmlTag::ClosingTag(n) => HtmlTagMapped::ClosingTag(*n),
            HtmlTag::Unparsable(t) => HtmlTagMapped::Unparsable(*t),
            HtmlTag::Comment(t) => HtmlTagMapped::Comment(*t),
        }
    }
}

} // verus!
