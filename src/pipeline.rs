//! Facts about the stages taken together.
use vstd::prelude::*;
use crate::complete::{
    closes_after, complete, complete_upto, completed_piece, is_void_name, next_of, opening_name,
};
use crate::token::{AttrView, TagView};
use crate::tree::{build, build_upto, close_at, last_named, ContentView, ElementTagState};

verus! {

/// A void element on its own is closed by completion, and building the
/// completed tokens gives that one element, with both tags seen and no
/// content.
pub proof fn lemma_void_element_closed(n: Seq<char>, a: Seq<AttrView>)
    requires
        is_void_name(n),
    ensures
        complete(seq![TagView::Opening(n, a)]) == seq![TagView::Opening(n, a), TagView::Closing(n)],
        build(complete(seq![TagView::Opening(n, a)])) == Some(
            seq![
                ContentView::Element {
                    name: n,
                    attributes: a,
                    tag_state: ElementTagState::BothTag,
                    content: seq![],
                },
            ],
        ),
{
    let s = seq![TagView::Opening(n, a)];
    assert(s[0] == TagView::Opening(n, a));
    assert(closes_after(s[0], next_of(s, 0)));
    assert(completed_piece(s, 0) == seq![TagView::Opening(n, a), TagView::Closing(opening_name(s[0]))]);
    assert(complete_upto(s, 0) == Seq::<TagView>::empty());
    assert(complete_upto(s, 1) =~= seq![TagView::Opening(n, a), TagView::Closing(n)]);
    let u = complete(s);
    let open = ContentView::Element {
        name: n,
        attributes: a,
        tag_state: ElementTagState::OnlyStartTag,
        content: seq![],
    };
    assert(u.len() == 2 && u[0] == TagView::Opening(n, a) && u[1] == TagView::Closing(n));
    assert(build_upto(u, 0) == Some(Seq::<ContentView>::empty()));
    assert(seq![].push(open) =~= seq![open]);
    assert(build_upto(u, 1) == Some(seq![open]));
    assert(seq![open].drop_last() =~= seq![]);
    assert(last_named(seq![open], n) == Some(0int));
    assert(close_at(seq![open], 0) =~= seq![
        ContentView::Element {
            name: n,
            attributes: a,
            tag_state: ElementTagState::BothTag,
            content: seq![],
        },
    ]);
}

} // verus!
