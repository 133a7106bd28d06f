//! The tokenizer: one left-to-right scan of the input that cuts it into
//! opening tags, closing tags, comments and runs of text.
use vstd::prelude::*;
use crate::attributes::{split_tag, split_tag_at};
use crate::text::{chars_of, same_text, strip_front_at, trim, trim_at, trim_start};
use crate::token::{tags_view, HtmlTag, TagView};

verus! {

/// Elements whose body is taken as text up to their own closing tag.
pub open spec fn is_raw_text_name(n: Seq<char>) -> bool {
    n == "script"@ || n == "style"@ || n == "textarea"@ || n == "title"@
}

/// State of the scan after a prefix of the input: the position of the last
/// tag boundary, the tokens emitted, and the open raw-text element with the
/// position where its body starts.
pub struct ScanState {
    pub last: int,
    pub out: Seq<TagView>,
    pub raw: Option<(Seq<char>, int)>,
}

/// What the scan does at a `>` at position `k`: classify `c[last..k]`.
pub open spec fn scan_close(c: Seq<char>, st: ScanState, k: int) -> ScanState {
    if st.last >= k || c[st.last] != '<' {
        st
    } else {
        let t = trim_start(c.subrange(st.last + 1, k));
        if t.len() > 0 && t[0] == '/' {
            let name = t.subrange(1, t.len() as int);
            match st.raw {
                Some(open) => if open.0 == name {
                    ScanState {
                        last: k,
                        out: st.out.push(TagView::Text(c.subrange(open.1, st.last))).push(
                            TagView::Closing(name),
                        ),
                        raw: None,
                    }
                } else {
                    st
                },
                None => ScanState { last: k, out: st.out.push(TagView::Closing(name)), raw: None },
            }
        } else if st.raw is Some {
            st
        } else if t.len() > 0 && t[0] == '!' {
            ScanState { last: k, out: st.out.push(TagView::Comment(t)), raw: None }
        } else {
            let parts = split_tag(t);
            ScanState {
                last: k,
                out: st.out.push(TagView::Opening(parts.0, parts.1)),
                raw: if is_raw_text_name(parts.0) { Some((parts.0, k + 1)) } else { None },
            }
        }
    }
}

/// One step of the scan over character `k` of `c`. At a `<` outside raw text,
/// the text since the last boundary is emitted when it is not blank and some
/// boundary came before it.
pub open spec fn scan_step(c: Seq<char>, st: ScanState, k: int) -> ScanState {
    if c[k] == '<' {
        let body = c.subrange(st.last + 1, k);
        ScanState {
            last: k,
            out: if st.raw is None && st.last != 0 && trim(body).len() > 0 {
                st.out.push(TagView::Text(body))
            } else {
                st.out
            },
            raw: st.raw,
        }
    } else if c[k] == '>' {
        scan_close(c, st, k)
    } else {
        st
    }
}

pub open spec fn scan_upto(c: Seq<char>, k: nat) -> ScanState
    decreases k,
{
    if k == 0 {
        ScanState { last: 0, out: seq![], raw: None }
    } else {
        scan_step(c, scan_upto(c, (k - 1) as nat), k - 1)
    }
}

/// The tokens of input `c`.
pub open spec fn tokenize(c: Seq<char>) -> Seq<TagView> {
    scan_upto(c, c.len()).out
}

pub open spec fn raw_view(r: Option<(&str, usize)>) -> Option<(Seq<char>, int)> {
    match r {
        Some(p) => Some((p.0@, p.1 as int)),
        None => None,
    }
}

fn is_raw_text_name_exec(n: &str) -> (r: bool)
    ensures
        r == is_raw_text_name(n@),
{
    same_text(n, "script") || same_text(n, "style") || same_text(n, "textarea") || same_text(
        n,
        "title",
    )
}

fn push_tag<'a>(out: &mut Vec<HtmlTag<'a>>, t: HtmlTag<'a>)
    ensures
        tags_view(final(out)@) == tags_view(old(out)@).push(t@),
{
    out.push(t);
    assert(tags_view(out@) =~= tags_view(old(out)@).push(t@));
}

impl<'a> HtmlTag<'a> {
    /// Parse a html to tags
    pub fn parse(content: &'a str) -> (r: Vec<HtmlTag<'a>>)
        ensures
            tags_view(r@) == tokenize(content@),
    {
        let v = chars_of(content);
        let ghost c = v@;
        let n = v.len();
        let mut last: usize = 0;
        let mut out: Vec<HtmlTag<'a>> = Vec::new();
        let mut raw: Option<(&'a str, usize)> = None;
        let mut k: usize = 0;
        assert(tags_view(out@) =~= seq![]);
        while k < n
            invariant
                c == v@,
                c == content@,
                n == v@.len(),
                k <= n,
                last <= k,
                last == 0 || last < k,
                match raw {
                    Some(p) => p.1 <= k && (p.1 <= last || (p.1 == last + 1 && c[last as int] == '>')),
                    None => true,
                },
                scan_upto(c, k as nat) == (ScanState { last: last as int, out: tags_view(out@), raw: raw_view(raw) }),
            decreases n - k,
        {
            let ch = v[k];
            if ch == '<' {
                if raw.is_none() && last != 0 {
                    let (a, b) = trim_at(&v, last + 1, k);
                    if a < b {
                        push_tag(&mut out, HtmlTag::Unparsable(content.substring_char(last + 1, k)));
                    }
                }
                last = k;
            } else if ch == '>' && last < k && v[last] == '<' {
                let ts = strip_front_at(&v, last + 1, k, false);
                let ghost t = c.subrange(ts as int, k as int);
                if ts < k && v[ts] == '/' {
                    assert(t.subrange(1, t.len() as int) =~= c.subrange(ts + 1, k as int));
                    let name = content.substring_char(ts + 1, k);
                    match raw {
                        Some(open) => {
                            if same_text(open.0, name) {
                                push_tag(&mut out, HtmlTag::Unparsable(content.substring_char(open.1, last)));
                                push_tag(&mut out, HtmlTag::ClosingTag(name));
                                raw = None;
                                last = k;
                            } else {
                                raw = Some(open);
                            }
                        },
                        None => {
                            push_tag(&mut out, HtmlTag::ClosingTag(name));
                            last = k;
                        },
                    }
                } else if raw.is_some() {
                    // inside raw text only the matching closing tag counts
                } else if ts < k && v[ts] == '!' {
                    push_tag(&mut out, HtmlTag::Comment(content.substring_char(ts, k)));
                    last = k;
                } else {
                    let (name, attrs) = split_tag_at(content, &v, ts, k);
                    if is_raw_text_name_exec(name) {
                        raw = Some((name, k + 1));
                    }
                    push_tag(&mut out, HtmlTag::OpeningTag(name, attrs));
                    last = k;
                }
            }
            k = k + 1;
        }
        out
    }
}

} // verus!
