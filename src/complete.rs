//! Tag completion: inserts the closing tags that HTML lets an author omit, for
//! a fixed subset of its rules, looking one token ahead.
use vstd::prelude::*;
use crate::text::same_text;
use crate::token::{reversed, tags_view, HtmlTag, TagView};

verus! {

/// Elements that never have content and are closed right away.
pub open spec fn is_void_name(n: Seq<char>) -> bool {
    n == "area"@ || n == "base"@ || n == "br"@ || n == "col"@ || n == "embed"@ || n == "hr"@
        || n == "img"@ || n == "input"@ || n == "link"@ || n == "meta"@ || n == "param"@
        || n == "source"@ || n == "track"@ || n == "wbr"@
}

/// Elements closed by an opening tag of the same name that follows at once.
pub open spec fn is_sibling_closed_name(n: Seq<char>) -> bool {
    n == "li"@ || n == "dd"@ || n == "dt"@ || n == "rt"@ || n == "rp"@ || n == "optgroup"@
        || n == "tr"@ || n == "td"@ || n == "th"@
}

/// Elements whose opening tag closes a `p` that comes right before it.
pub open spec fn closes_paragraph_name(n: Seq<char>) -> bool {
    n == "address"@ || n == "article"@ || n == "aside"@ || n == "blockquote"@ || n == "details"@
        || n == "div"@ || n == "dl"@ || n == "fieldset"@ || n == "figcaption"@ || n == "figure"@
        || n == "footer"@ || n == "form"@ || n == "h1"@ || n == "h2"@ || n == "h3"@ || n == "h4"@
        || n == "h5"@ || n == "h6"@ || n == "header"@ || n == "hgroup"@ || n == "hr"@
        || n == "main"@ || n == "menu"@ || n == "nav"@ || n == "ol"@ || n == "p"@ || n == "pre"@
        || n == "section"@ || n == "table"@ || n == "ul"@
}

/// Whether a closing tag is inserted right after token `t`, the token after
/// it being `next`.
pub open spec fn closes_after(t: TagView, next: Option<TagView>) -> bool {
    match t {
        TagView::Opening(n, _) => is_void_name(n) || (is_sibling_closed_name(n) && match next {
            Some(TagView::Opening(m, _)) => m == n,
            _ => false,
        }) || (n == "p"@ && match next {
            Some(TagView::Opening(m, _)) => closes_paragraph_name(m),
            _ => false,
        }),
        _ => false,
    }
}

pub open spec fn next_of(s: Seq<TagView>, i: int) -> Option<TagView> {
    if i + 1 < s.len() {
        Some(s[i + 1])
    } else {
        None
    }
}

/// The name of an opening tag.
pub open spec fn opening_name(t: TagView) -> Seq<char> {
    match t {
        TagView::Opening(n, _) => n,
        _ => seq![],
    }
}

/// Token `i` of `s`, followed by the closing tag that it calls for, if any.
pub open spec fn completed_piece(s: Seq<TagView>, i: int) -> Seq<TagView> {
    if closes_after(s[i], next_of(s, i)) {
        seq![s[i], TagView::Closing(opening_name(s[i]))]
    } else {
        seq![s[i]]
    }
}

pub open spec fn complete_upto(s: Seq<TagView>, i: nat) -> Seq<TagView>
    decreases i,
{
    if i == 0 {
        seq![]
    } else {
        complete_upto(s, (i - 1) as nat) + completed_piece(s, i - 1)
    }
}

/// The completed token sequence.
pub open spec fn complete(s: Seq<TagView>) -> Seq<TagView> {
    complete_upto(s, s.len())
}

/// No token of `s` is the opening tag of a void element.
pub open spec fn has_no_void_opening(s: Seq<TagView>) -> bool {
    forall|i: int| 0 <= i < s.len() ==> !(#[trigger] s[i] is Opening && is_void_name(opening_name(s[i])))
}

/// No token of `s` calls for a closing tag after it.
pub open spec fn is_complete(s: Seq<TagView>) -> bool {
    forall|m: int| 0 <= m < s.len() ==> !closes_after(#[trigger] s[m], next_of(s, m))
}

proof fn lemma_complete_keeps(u: Seq<TagView>, i: nat)
    requires
        is_complete(u),
        i <= u.len(),
    ensures
        complete_upto(u, i) == u.take(i as int),
    decreases i,
{
    if i > 0 {
        lemma_complete_keeps(u, (i - 1) as nat);
        assert(!closes_after(u[i - 1], next_of(u, i - 1)));
        assert(u.take(i - 1) + seq![u[i - 1]] =~= u.take(i as int));
    }
}

proof fn lemma_completed_prefix(s: Seq<TagView>, i: nat)
    requires
        has_no_void_opening(s),
        i <= s.len(),
    ensures
        ({
            let w = complete_upto(s, i);
            &&& i > 0 ==> w.len() > 0
            &&& forall|m: int| 0 <= m < w.len() - 1 ==> !closes_after(#[trigger] w[m], Some(w[m + 1]))
            &&& i > 0 ==> (w.last() is Closing || (w.last() == s[i - 1] && !closes_after(
                s[i - 1],
                next_of(s, i - 1),
            )))
        }),
    decreases i,
{
    if i > 0 {
        let j = i - 1;
        lemma_completed_prefix(s, j as nat);
        let w = complete_upto(s, j as nat);
        let p = completed_piece(s, j);
        let w2 = complete_upto(s, i);
        assert(w2 == w + p);
        assert(!(s[j] is Opening && is_void_name(opening_name(s[j]))));
        assert forall|m: int| 0 <= m < w2.len() - 1 implies !closes_after(#[trigger] w2[m], Some(w2[m + 1])) by {
            if m < w.len() - 1 {
                assert(w2[m] == w[m] && w2[m + 1] == w[m + 1]);
            } else if m == w.len() - 1 {
                assert(w2[m] == w.last() && w2[m + 1] == s[j]);
                if !(w.last() is Closing) {
                    assert(next_of(s, j - 1) == Some(s[j]));
                }
            } else {
                assert(w2[m] == s[j]);
                assert(w2[m + 1] == TagView::Closing(opening_name(s[j])));
            }
        }
    }
}

/// Completing a token sequence a second time changes nothing, when it has no
/// opening tag of a void element (each of those gets one more closing tag on
/// every pass).
pub proof fn lemma_complete_idempotent(s: Seq<TagView>)
    requires
        has_no_void_opening(s),
    ensures
        complete(complete(s)) == complete(s),
{
    let u = complete(s);
    lemma_completed_prefix(s, s.len());
    assert forall|m: int| 0 <= m < u.len() implies !closes_after(#[trigger] u[m], next_of(u, m)) by {
        if m == u.len() - 1 && !(u.last() is Closing) {
            assert(s.len() > 0);
            assert(next_of(s, s.len() - 1) == None::<TagView>);
        }
    }
    lemma_complete_keeps(u, u.len());
    assert(u.take(u.len() as int) =~= u);
}

fn is_void_name_exec(n: &str) -> (r: bool)
    ensures
        r == is_void_name(n@),
{
    same_text(n, "area") || same_text(n, "base") || same_text(n, "br") || same_text(n, "col") || same_text(
        n,
        "embed",
    ) || same_text(n, "hr") || same_text(n, "img") || same_text(n, "input") || same_text(n, "link")
        || same_text(n, "meta") || same_text(n, "param") || same_text(n, "source") || same_text(n, "track")
        || same_text(n, "wbr")
}

fn is_sibling_closed_name_exec(n: &str) -> (r: bool)
    ensures
        r == is_sibling_closed_name(n@),
{
    same_text(n, "li") || same_text(n, "dd") || same_text(n, "dt") || same_text(n, "rt") || same_text(n, "rp")
        || same_text(n, "optgroup") || same_text(n, "tr") || same_text(n, "td") || same_text(n, "th")
}

fn closes_paragraph_name_exec(n: &str) -> (r: bool)
    ensures
        r == closes_paragraph_name(n@),
{
    same_text(n, "address") || same_text(n, "article") || same_text(n, "aside") || same_text(
        n,
        "blockquote",
    ) || same_text(n, "details") || same_text(n, "div") || same_text(n, "dl") || same_text(n, "fieldset")
        || same_text(n, "figcaption") || same_text(n, "figure") || same_text(n, "footer") || same_text(
        n,
        "form",
    ) || same_text(n, "h1") || same_text(n, "h2") || same_text(n, "h3") || same_text(n, "h4") || same_text(
        n,
        "h5",
    ) || same_text(n, "h6") || same_text(n, "header") || same_text(n, "hgroup") || same_text(n, "hr")
        || same_text(n, "main") || same_text(n, "menu") || same_text(n, "nav") || same_text(n, "ol")
        || same_text(n, "p") || same_text(n, "pre") || same_text(n, "section") || same_text(n, "table")
        || same_text(n, "ul")
}

fn closes_after_exec(t: &HtmlTag, next: Option<&HtmlTag>) -> (r: bool)
    ensures
        r == closes_after(
            t@,
            match next {
                Some(x) => Some(x@),
                None => None,
            },
        ),
{
    match t {
        HtmlTag::OpeningTag(n, _) => {
            let same_sibling = match next {
                Some(HtmlTag::OpeningTag(m, _)) => same_text(*m, *n),
                _ => false,
            };
            let breaks_paragraph = match next {
                Some(HtmlTag::OpeningTag(m, _)) => closes_paragraph_name_exec(m),
                _ => false,
            };
            is_void_name_exec(n) || (is_sibling_closed_name_exec(n) && same_sibling) || (same_text(
                n,
                "p",
            ) && breaks_paragraph)
        },
        _ => false,
    }
}

/// A tag "completer" that fills in the closing tags that the html
/// specification lets an author leave out, for a subset of its rules.
pub fn tag_optimize<'a>(content: Vec<HtmlTag<'a>>) -> (r: Vec<HtmlTag<'a>>)
    ensures
        tags_view(r@) == complete(tags_view(content@)),
{
    let ghost s = tags_view(content@);
    let n = content.len();
    let mut flags: Vec<bool> = Vec::new();
    let mut i: usize = 0;
    while i < n
        invariant
            n == content@.len(),
            s == tags_view(content@),
            i <= n,
            flags@.len() == i,
            forall|j: int| 0 <= j < i ==> #[trigger] flags@[j] == closes_after(s[j], next_of(s, j)),
        decreases n - i,
    {
        let f = if i + 1 < n {
            closes_after_exec(&content[i], Some(&content[i + 1]))
        } else {
            closes_after_exec(&content[i], None)
        };
        flags.push(f);
        i = i + 1;
    }
    let mut rev = reversed(content);
    let mut out: Vec<HtmlTag<'a>> = Vec::new();
    let mut i: usize = 0;
    assert(tags_view(out@) =~= seq![]);
    while i < n
        invariant
            n == s.len(),
            flags@.len() == n,
            forall|j: int| 0 <= j < n ==> #[trigger] flags@[j] == closes_after(s[j], next_of(s, j)),
            i <= n,
            rev@.len() == n - i,
            forall|j: int| 0 <= j < rev@.len() ==> #[trigger] rev@[j]@ == s[n - 1 - j],
            tags_view(out@) == complete_upto(s, i as nat),
        decreases n - i,
    {
        let ghost before = tags_view(out@);
        match rev.pop() {
            Some(t) => {
                assert(t@ == s[i as int]);
                let closing = if flags[i] {
                    match &t {
                        HtmlTag::OpeningTag(name, _) => Some(HtmlTag::ClosingTag(*name)),
                        _ => None,
                    }
                } else {
                    None
                };
                out.push(t);
                match closing {
                    Some(c) => out.push(c),
                    None => {},
                }
                assert(tags_view(out@) =~= before + completed_piece(s, i as int));
            },
            None => {},
        }
        i = i + 1;
    }
    out
}

} // verus!
