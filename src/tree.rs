//! The tree builder: turns a token sequence into a forest of elements and
//! text, matching each closing tag with the nearest open element of its name.
use vstd::prelude::*;
use crate::text::same_text;
use crate::token::{attrs_view, reversed, tags_view, AttrView, Attribute, HtmlTag, TagView};

verus! {

/// Possible tag state of an element
#[derive(PartialEq, Eq, Structural, Clone, Copy, Debug)]
pub enum ElementTagState {
    OnlyStartTag,
    OnlyEndTag,
    BothTag,
}

/// A html element
#[derive(PartialEq, Debug)]
pub struct HtmlElement<'a> {
    /// Name of the element
    pub name: &'a str,
    /// Attributes of the element
    pub attributes: Vec<Attribute<'a>>,
    /// Possible tag state of an element
    pub tag_state: ElementTagState,
    /// Contents of the element
    pub content: Vec<ElementContent<'a>>,
}

/// Possible content of an element
#[derive(PartialEq, Debug)]
pub enum ElementContent<'a> {
    HtmlElement(Box<HtmlElement<'a>>),
    LiteralContent(&'a str),
}

/// The view of a node of the tree.
pub enum ContentView {
    Element {
        name: Seq<char>,
        attributes: Seq<AttrView>,
        tag_state: ElementTagState,
        content: Seq<ContentView>,
    },
    Text(Seq<char>),
}

pub open spec fn view_content(c: ElementContent) -> ContentView
    decreases c,
{
    match c {
        ElementContent::HtmlElement(e) => ContentView::Element {
            name: e.name@,
            attributes: attrs_view(e.attributes@),
            tag_state: e.tag_state,
            content: Seq::new(
                e.content@.len(),
                |i: int|
                    if 0 <= i < e.content@.len() {
                        view_content(e.content@[i])
                    } else {
                        ContentView::Text(seq![])
                    },
            ),
        },
        ElementContent::LiteralContent(s) => ContentView::Text(s@),
    }
}

/// The view of a sequence of nodes.
pub open spec fn forest_view(v: Seq<ElementContent>) -> Seq<ContentView> {
    v.map_values(|c: ElementContent| view_content(c))
}

/// Whether node `c` is an element named `n`, whatever its tag state.
pub open spec fn is_named(c: ContentView, n: Seq<char>) -> bool {
    match c {
        ContentView::Element { name, .. } => name == n,
        ContentView::Text(_) => false,
    }
}

/// Position of the last element named `n` in `s`.
pub open spec fn last_named(s: Seq<ContentView>, n: Seq<char>) -> Option<int>
    decreases s.len(),
{
    if s.len() == 0 {
        None
    } else if is_named(s.last(), n) {
        Some(s.len() - 1)
    } else {
        last_named(s.drop_last(), n)
    }
}

/// Closes the element at position `j`: everything after it becomes the end of
/// its content, in order, and it has seen both of its tags.
pub open spec fn close_at(s: Seq<ContentView>, j: int) -> Seq<ContentView> {
    match s[j] {
        ContentView::Element { name, attributes, tag_state, content } => s.take(j).push(
            ContentView::Element {
                name,
                attributes,
                tag_state: ElementTagState::BothTag,
                content: content + s.skip(j + 1),
            },
        ),
        ContentView::Text(_) => s,
    }
}

/// One token applied to the list of nodes built so far; `None` for a closing
/// tag that no element matches.
pub open spec fn build_step(s: Seq<ContentView>, t: TagView) -> Option<Seq<ContentView>> {
    match t {
        TagView::Opening(n, a) => Some(
            s.push(
                ContentView::Element {
                    name: n,
                    attributes: a,
                    tag_state: ElementTagState::OnlyStartTag,
                    content: seq![],
                },
            ),
        ),
        TagView::Text(x) => Some(s.push(ContentView::Text(x))),
        TagView::Comment(_) => Some(s),
        TagView::Closing(n) => match last_named(s, n) {
            Some(j) => Some(close_at(s, j)),
            None => None,
        },
    }
}

pub open spec fn build_upto(ts: Seq<TagView>, i: nat) -> Option<Seq<ContentView>>
    decreases i,
{
    if i == 0 {
        Some(seq![])
    } else {
        match build_upto(ts, (i - 1) as nat) {
            Some(s) => build_step(s, ts[i - 1]),
            None => None,
        }
    }
}

/// The forest built from token sequence `ts`, or `None` when a closing tag
/// has no element to close.
pub open spec fn build(ts: Seq<TagView>) -> Option<Seq<ContentView>> {
    build_upto(ts, ts.len())
}

/// No node of `c`, at any depth, is marked as having only its closing tag.
pub open spec fn never_end_only(c: ContentView) -> bool
    decreases c,
{
    match c {
        ContentView::Element { tag_state, content, .. } => tag_state != ElementTagState::OnlyEndTag
            && forall|i: int| 0 <= i < content.len() ==> never_end_only(#[trigger] content[i]),
        ContentView::Text(_) => true,
    }
}

pub open spec fn all_never_end_only(s: Seq<ContentView>) -> bool {
    forall|m: int| 0 <= m < s.len() ==> never_end_only(#[trigger] s[m])
}

proof fn lemma_step_never_end_only(s: Seq<ContentView>, t: TagView)
    requires
        all_never_end_only(s),
        build_step(s, t) is Some,
    ensures
        all_never_end_only(build_step(s, t)->0),
{
    let r = build_step(s, t)->0;
    match t {
        TagView::Closing(n) => {
            let j = last_named(s, n)->0;
            lemma_last_named_in_range(s, n);
            match s[j] {
                ContentView::Element { name, attributes, tag_state, content } => {
                    assert(never_end_only(s[j]));
                    let c2 = content + s.skip(j + 1);
                    assert forall|i: int| 0 <= i < c2.len() implies never_end_only(#[trigger] c2[i]) by {
                        if i >= content.len() {
                            assert(c2[i] == s[j + 1 + i - content.len()]);
                        }
                    }
                    assert forall|m: int| 0 <= m < r.len() implies never_end_only(#[trigger] r[m]) by {
                        if m < j {
                            assert(r[m] == s[m]);
                        }
                    }
                },
                ContentView::Text(_) => {},
            }
        },
        _ => {
            assert forall|m: int| 0 <= m < r.len() implies never_end_only(#[trigger] r[m]) by {
                if m < s.len() {
                    assert(r[m] == s[m]);
                }
            }
        },
    }
}

proof fn lemma_last_named_in_range(s: Seq<ContentView>, n: Seq<char>)
    ensures
        last_named(s, n) is Some ==> 0 <= last_named(s, n)->0 < s.len() && is_named(
            s[last_named(s, n)->0],
            n,
        ),
    decreases s.len(),
{
    if s.len() > 0 {
        lemma_last_named_in_range(s.drop_last(), n);
    }
}

/// Building never marks an element as having only its closing tag: every
/// element is left open or has both tags.
pub proof fn lemma_build_never_end_only(ts: Seq<TagView>, i: nat)
    requires
        i <= ts.len(),
    ensures
        build_upto(ts, i) is Some ==> all_never_end_only(build_upto(ts, i)->0),
    decreases i,
{
    if i > 0 {
        lemma_build_never_end_only(ts, (i - 1) as nat);
        if build_upto(ts, (i - 1) as nat) is Some {
            let s = build_upto(ts, (i - 1) as nat)->0;
            if build_step(s, ts[i - 1]) is Some {
                lemma_step_never_end_only(s, ts[i - 1]);
            }
        }
    }
}

proof fn lemma_build_fails_on(ts: Seq<TagView>, i: nat, m: nat)
    requires
        i <= m,
        build_upto(ts, i) is None,
    ensures
        build_upto(ts, m) is None,
    decreases m - i,
{
    if i < m {
        lemma_build_fails_on(ts, i + 1, m);
    }
}

proof fn lemma_last_named_none(s: Seq<ContentView>, n: Seq<char>)
    requires
        forall|m: int| 0 <= m < s.len() ==> !is_named(#[trigger] s[m], n),
    ensures
        last_named(s, n) is None,
    decreases s.len(),
{
    if s.len() > 0 {
        lemma_last_named_none(s.drop_last(), n);
    }
}

proof fn lemma_last_named_found(a: Seq<ContentView>, b: Seq<ContentView>, n: Seq<char>)
    requires
        a.len() > 0,
        is_named(a.last(), n),
        forall|m: int| 0 <= m < b.len() ==> !is_named(#[trigger] b[m], n),
    ensures
        last_named(a + b, n) == Some(a.len() - 1),
    decreases b.len(),
{
    if b.len() == 0 {
        assert(a + b =~= a);
    } else {
        assert((a + b).drop_last() =~= a + b.drop_last());
        lemma_last_named_found(a, b.drop_last(), n);
    }
}

proof fn lemma_element_content(e: HtmlElement)
    ensures
        view_content(ElementContent::HtmlElement(Box::new(e))) == (ContentView::Element {
            name: e.name@,
            attributes: attrs_view(e.attributes@),
            tag_state: e.tag_state,
            content: forest_view(e.content@),
        }),
{
    let c = view_content(ElementContent::HtmlElement(Box::new(e)));
    match c {
        ContentView::Element { content, .. } => {
            assert(content =~= forest_view(e.content@));
        },
        ContentView::Text(_) => {},
    }
}

fn is_named_exec(c: &ElementContent, n: &str) -> (r: bool)
    ensures
        r == is_named(view_content(*c), n@),
{
    match c {
        ElementContent::HtmlElement(e) => same_text(e.name, n),
        ElementContent::LiteralContent(_) => false,
    }
}

fn push_node<'a>(v: &mut Vec<ElementContent<'a>>, c: ElementContent<'a>)
    ensures
        forest_view(final(v)@) == forest_view(old(v)@).push(view_content(c)),
{
    v.push(c);
    assert(forest_view(v@) =~= forest_view(old(v)@).push(view_content(c)));
}

/// Applies closing tag `name` to the nodes built so far; `false` when no
/// element of that name is there, the nodes then being left in no
/// particular state.
fn close_element<'a>(constructed: &mut Vec<ElementContent<'a>>, name: &'a str) -> (ok: bool)
    ensures
        ok == (last_named(forest_view(old(constructed)@), name@) is Some),
        ok ==> forest_view(final(constructed)@) == close_at(
            forest_view(old(constructed)@),
            last_named(forest_view(old(constructed)@), name@)->0,
        ),
{
    let ghost s = forest_view(constructed@);
    let mut tail: Vec<ElementContent<'a>> = Vec::new();
    assert(forest_view(constructed@) + forest_view(tail@) =~= s);
    while constructed.len() > 0 && !is_named_exec(&constructed[constructed.len() - 1], name)
        invariant
            forest_view(constructed@) + forest_view(tail@) == s,
            forall|m: int| 0 <= m < tail@.len() ==> !is_named(#[trigger] view_content(tail@[m]), name@),
        decreases constructed@.len(),
    {
        let ghost before_c = constructed@;
        let ghost before_t = tail@;
        match constructed.pop() {
            Some(x) => {
                tail.insert(0, x);
                assert(forest_view(before_c) =~= forest_view(constructed@).push(view_content(x)));
                assert(forest_view(tail@) =~= seq![view_content(x)] + forest_view(before_t));
                assert(forest_view(constructed@) + forest_view(tail@) =~= forest_view(before_c) + forest_view(before_t));
                assert(tail@ =~= seq![x] + before_t);
            },
            None => {},
        }
    }
    if constructed.len() == 0 {
        proof {
            assert(forest_view(constructed@) + forest_view(tail@) =~= forest_view(tail@));
            lemma_last_named_none(s, name@);
        }
        return false;
    }
    proof {
        lemma_last_named_found(forest_view(constructed@), forest_view(tail@), name@);
    }
    let ghost j = constructed@.len() - 1;
    let ghost before_c = constructed@;
    match constructed.pop() {
        Some(ElementContent::HtmlElement(b)) => {
            let mut e = *b;
            let ghost old_e = e;
            e.content.append(&mut tail);
            e.tag_state = ElementTagState::BothTag;
            proof {
                lemma_element_content(old_e);
                lemma_element_content(e);
                assert(forest_view(e.content@) =~= forest_view(old_e.content@) + s.skip(j + 1));
                assert(s.take(j) =~= forest_view(constructed@));
            }
            push_node(constructed, ElementContent::HtmlElement(Box::new(e)));
            proof {
                assert(forest_view(constructed@) =~= close_at(s, j));
            }
            true
        },
        _ => false,
    }
}

impl<'a> ElementContent<'a> {
    /// Parse a vector of html tag to elements
    ///
    /// # Errors
    ///
    /// If the input content contains ending tag of a non-existing element, the function will
    /// yield an error.
    pub fn parse(content: Vec<HtmlTag<'a>>) -> (r: Result<Vec<ElementContent<'a>>, ()>)
        ensures
            match r {
                Ok(v) => build(tags_view(content@)) == Some(forest_view(v@)),
                Err(_) => build(tags_view(content@)) is None,
            },
    {
        let ghost ts = tags_view(content@);
        let n = content.len();
        let mut rev = reversed(content);
        let mut constructed: Vec<ElementContent<'a>> = Vec::new();
        let mut i: usize = 0;
        assert(forest_view(constructed@) =~= seq![]);
        while i < n
            invariant
                n == ts.len(),
                ts == tags_view(content@),
                i <= n,
                rev@.len() == n - i,
                forall|j: int| 0 <= j < rev@.len() ==> (#[trigger] rev@[j])@ == ts[n - 1 - j],
                build_upto(ts, i as nat) == Some(forest_view(constructed@)),
            decreases n - i,
        {
            let ghost s = forest_view(constructed@);
            match rev.pop() {
                Some(t) => {
                    assert(t@ == ts[i as int]);
                    match t {
                        HtmlTag::OpeningTag(name, attributes) => {
                            let e = HtmlElement {
                                name,
                                attributes,
                                tag_state: ElementTagState::OnlyStartTag,
                                content: Vec::new(),
                            };
                            proof {
                                lemma_element_content(e);
                                assert(forest_view(e.content@) =~= seq![]);
                            }
                            push_node(&mut constructed, ElementContent::HtmlElement(Box::new(e)));
                        },
                        HtmlTag::ClosingTag(name) => {
                            if !close_element(&mut constructed, name) {
                                proof {
                                    assert(ts[i as int] == TagView::Closing(name@));
                                    assert(build_step(s, ts[i as int]) is None);
                                    assert(build_upto(ts, (i + 1) as nat) is None);
                                    lemma_build_fails_on(ts, (i + 1) as nat, n as nat);
                                }
                                return Err(());
                            }
                        },
                        HtmlTag::Unparsable(text) => {
                            push_node(&mut constructed, ElementContent::LiteralContent(text));
                        },
                        HtmlTag::Comment(_) => {},
                    }
                },
                None => {},
            }
            i = i + 1;
        }
        Ok(constructed)
    }
}

} // verus!
