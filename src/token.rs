//! Tokens of HTML text and their mathematical view.
use vstd::prelude::*;

verus! {

/// An attribute: a name and an optional value.
pub type Attribute<'a> = (&'a str, Option<&'a str>);

/// The view of an attribute.
pub type AttrView = (Seq<char>, Option<Seq<char>>);

/// Raw html tag
#[derive(PartialEq, Debug)]
pub enum HtmlTag<'a> {
    OpeningTag(&'a str, Vec<Attribute<'a>>),
    ClosingTag(&'a str),
    Unparsable(&'a str),
    Comment(&'a str),
}

/// The view of a token: its kind and its text as character sequences.
pub enum TagView {
    Opening(Seq<char>, Seq<AttrView>),
    Closing(Seq<char>),
    Text(Seq<char>),
    Comment(Seq<char>),
}

pub open spec fn opt_view(o: Option<&str>) -> Option<Seq<char>> {
    match o {
        Some(s) => Some(s@),
        None => None,
    }
}

pub open spec fn attr_view(a: Attribute) -> AttrView {
    (a.0@, opt_view(a.1))
}

pub open spec fn attrs_view(a: Seq<Attribute>) -> Seq<AttrView> {
    a.map_values(|x: Attribute| attr_view(x))
}

impl<'a> View for HtmlTag<'a> {
    type V = TagView;

    open spec fn view(&self) -> TagView {
        match self {
            HtmlTag::OpeningTag(n, a) => TagView::Opening(n@, attrs_view(a@)),
            HtmlTag::ClosingTag(n) => TagView::Closing(n@),
            HtmlTag::Unparsable(t) => TagView::Text(t@),
            HtmlTag::Comment(t) => TagView::Comment(t@),
        }
    }
}

/// The view of a token sequence.
pub open spec fn tags_view(s: Seq<HtmlTag>) -> Seq<TagView> {
    s.map_values(|t: HtmlTag| t@)
}

/// The tokens of `v` in reverse order, so that popping yields them in order.
pub fn reversed<'a>(v: Vec<HtmlTag<'a>>) -> (r: Vec<HtmlTag<'a>>)
    ensures
        r@.len() == v@.len(),
        forall|j: int| 0 <= j < r@.len() ==> #[trigger] r@[j] == v@[v@.len() - 1 - j],
{
    let ghost s = v@;
    let mut rest = v;
    let mut rev: Vec<HtmlTag> = Vec::new();
    while rest.len() > 0
        invariant
            rest@.len() + rev@.len() == s.len(),
            forall|j: int| 0 <= j < rest@.len() ==> #[trigger] rest@[j] == s[j],
            forall|j: int| 0 <= j < rev@.len() ==> #[trigger] rev@[j] == s[s.len() - 1 - j],
        decreases rest@.len(),
    {
        match rest.pop() {
            Some(t) => rev.push(t),
            None => {},
        }
    }
    rev
}

} // verus!
