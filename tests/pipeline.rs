use rusthtml::{tag_optimize, ElementContent, ElementTagState, HtmlElement, HtmlTag, HtmlTagMapped};

fn open<'a>(name: &'a str, list: Vec<(&'a str, Option<&'a str>)>) -> HtmlTag<'a> {
    HtmlTag::OpeningTag(name, list)
}

fn close(name: &str) -> HtmlTag<'_> {
    HtmlTag::ClosingTag(name)
}

fn text(t: &str) -> HtmlTag<'_> {
    HtmlTag::Unparsable(t)
}

fn elem<'a>(
    name: &'a str,
    attributes: Vec<(&'a str, Option<&'a str>)>,
    tag_state: ElementTagState,
    content: Vec<ElementContent<'a>>,
) -> ElementContent<'a> {
    ElementContent::HtmlElement(Box::new(HtmlElement { name, attributes, tag_state, content }))
}

fn lit(t: &str) -> ElementContent<'_> {
    ElementContent::LiteralContent(t)
}

#[test]
fn void_element_is_closed_and_built() {
    let tokens = HtmlTag::parse("<img abc>");
    assert_eq!(tokens, vec![open("img", vec![("abc", None)])]);
    let completed = tag_optimize(tokens);
    assert_eq!(completed, vec![open("img", vec![("abc", None)]), close("img")]);
    assert_eq!(
        ElementContent::parse(completed),
        Ok(vec![elem("img", vec![("abc", None)], ElementTagState::BothTag, vec![])])
    );
}

#[test]
fn every_void_name_gets_a_closing_tag() {
    for name in [
        "area", "base", "br", "col", "embed", "hr", "img", "input", "link", "meta", "param",
        "source", "track", "wbr",
    ] {
        assert_eq!(tag_optimize(vec![open(name, vec![])]), vec![open(name, vec![]), close(name)]);
    }
}

#[test]
fn paragraph_text_then_div() {
    let tokens = HtmlTag::parse("<p>a<div>b</div>");
    let expected = vec![open("p", vec![]), text("a"), open("div", vec![]), text("b"), close("div")];
    assert_eq!(tokens, expected);
    // the token after `<p>` is text, so the one-token lookahead inserts nothing
    let completed = tag_optimize(tokens);
    assert_eq!(completed, expected);
    assert_eq!(
        ElementContent::parse(completed),
        Ok(vec![
            elem("p", vec![], ElementTagState::OnlyStartTag, vec![]),
            lit("a"),
            elem("div", vec![], ElementTagState::BothTag, vec![lit("b")]),
        ])
    );
}

#[test]
fn paragraph_directly_before_div_is_closed() {
    let completed = tag_optimize(HtmlTag::parse("<p><div>b</div>"));
    assert_eq!(
        completed,
        vec![open("p", vec![]), close("p"), open("div", vec![]), text("b"), close("div")]
    );
    assert_eq!(
        ElementContent::parse(completed),
        Ok(vec![
            elem("p", vec![], ElementTagState::BothTag, vec![]),
            elem("div", vec![], ElementTagState::BothTag, vec![lit("b")]),
        ])
    );
}

#[test]
fn paragraph_before_inline_element_stays_open() {
    let tokens = vec![open("p", vec![]), open("span", vec![])];
    assert_eq!(tag_optimize(tokens), vec![open("p", vec![]), open("span", vec![])]);
    let tokens = vec![open("p", vec![]), open("h1", vec![])];
    assert_eq!(tag_optimize(tokens), vec![open("p", vec![]), close("p"), open("h1", vec![])]);
}

#[test]
fn list_items_with_text() {
    let tokens = HtmlTag::parse("<li>1<li>2");
    // text after the last tag is never emitted
    let expected = vec![open("li", vec![]), text("1"), open("li", vec![])];
    assert_eq!(tokens, expected);
    let completed = tag_optimize(tokens);
    assert_eq!(completed, expected);
    assert_eq!(
        ElementContent::parse(completed),
        Ok(vec![
            elem("li", vec![], ElementTagState::OnlyStartTag, vec![]),
            lit("1"),
            elem("li", vec![], ElementTagState::OnlyStartTag, vec![]),
        ])
    );
}

#[test]
fn adjacent_list_items_are_split() {
    let completed = tag_optimize(HtmlTag::parse("<li><li>"));
    assert_eq!(completed, vec![open("li", vec![]), close("li"), open("li", vec![])]);
    assert_eq!(
        ElementContent::parse(completed),
        Ok(vec![
            elem("li", vec![], ElementTagState::BothTag, vec![]),
            elem("li", vec![], ElementTagState::OnlyStartTag, vec![]),
        ])
    );
}

#[test]
fn sibling_rule_needs_the_same_name() {
    let tokens = vec![open("li", vec![]), open("dd", vec![])];
    assert_eq!(tag_optimize(tokens), vec![open("li", vec![]), open("dd", vec![])]);
    let tokens = vec![open("td", vec![]), open("td", vec![])];
    assert_eq!(tag_optimize(tokens), vec![open("td", vec![]), close("td"), open("td", vec![])]);
}

#[test]
fn trailing_open_paragraph_is_left_alone() {
    assert_eq!(tag_optimize(vec![open("p", vec![])]), vec![open("p", vec![])]);
    assert_eq!(tag_optimize(vec![open("li", vec![])]), vec![open("li", vec![])]);
}

#[test]
fn lone_closing_tag_is_unbalanced() {
    let tokens = HtmlTag::parse("</x>");
    assert_eq!(tokens, vec![close("x")]);
    assert_eq!(ElementContent::parse(tag_optimize(tokens)), Err(()));
}

#[test]
fn closing_tag_of_other_name_is_unbalanced() {
    assert_eq!(ElementContent::parse(HtmlTag::parse("<a>x</b>")), Err(()));
}

#[test]
fn script_body_is_raw_text() {
    assert_eq!(
        HtmlTag::parse("<script>1<2</script>"),
        vec![open("script", vec![]), text("1<2"), close("script")]
    );
}

#[test]
fn raw_text_ignores_other_closing_tags() {
    assert_eq!(
        HtmlTag::parse("<style>a</b>c</style>"),
        vec![open("style", vec![]), text("a</b>c"), close("style")]
    );
}

#[test]
fn raw_text_ignores_comments_and_opening_tags() {
    assert_eq!(
        HtmlTag::parse("<title><!-- x --><b></title>"),
        vec![open("title", vec![]), text("<!-- x --><b>"), close("title")]
    );
}

#[test]
fn empty_raw_text_body_is_kept() {
    assert_eq!(
        HtmlTag::parse("<textarea></textarea>"),
        vec![open("textarea", vec![]), text(""), close("textarea")]
    );
}

#[test]
fn quoted_space_does_not_split() {
    assert_eq!(
        HtmlTag::parse_opening_tag_content("a href=\"a b\""),
        ("a", vec![("href", Some("a b"))])
    );
    assert_eq!(HtmlTag::parse("<a href=\"a b\">"), vec![open("a", vec![("href", Some("a b"))])]);
}

#[test]
fn single_quotes_are_trimmed_from_values() {
    assert_eq!(
        HtmlTag::parse_opening_tag_content("input value='v' checked"),
        ("input", vec![("value", Some("v")), ("checked", None)])
    );
}

#[test]
fn bang_toggles_quoting() {
    assert_eq!(
        HtmlTag::parse_opening_tag_content("a x=!y z"),
        ("a", vec![("x", Some("!y z"))])
    );
}

#[test]
fn whitespace_run_is_one_separator() {
    assert_eq!(
        HtmlTag::parse_opening_tag_content("a  b c"),
        ("a", vec![("b", None), ("c", None)])
    );
}

#[test]
fn tabs_and_newlines_separate_attributes() {
    assert_eq!(HtmlTag::parse_opening_tag_content("a\tb"), ("a", vec![("b", None)]));
    assert_eq!(
        HtmlTag::parse("<input\n  type=text\r\n\tdisabled>"),
        vec![open("input", vec![("type", Some("text")), ("disabled", None)])]
    );
}

#[test]
fn whitespace_inside_quotes_is_kept() {
    assert_eq!(
        HtmlTag::parse_opening_tag_content("a t='x\ty'  u"),
        ("a", vec![("t", Some("x\ty")), ("u", None)])
    );
}

#[test]
fn empty_tag_body() {
    assert_eq!(HtmlTag::parse_opening_tag_content(""), ("", vec![]));
    assert_eq!(HtmlTag::parse_opening_tag_content("   "), ("", vec![]));
    assert_eq!(HtmlTag::parse_opening_tag_content(" x "), ("x", vec![]));
}

#[test]
fn comment_builds_nothing() {
    let tokens = HtmlTag::parse("<!-- c -->");
    assert_eq!(tokens, vec![HtmlTag::Comment("!-- c --")]);
    assert_eq!(ElementContent::parse(tag_optimize(tokens)), Ok(vec![]));
}

#[test]
fn completing_twice_changes_nothing() {
    let once = tag_optimize(HtmlTag::parse("<p><div><li><li>x</div>"));
    let expected = vec![
        open("p", vec![]),
        close("p"),
        open("div", vec![]),
        open("li", vec![]),
        close("li"),
        open("li", vec![]),
        text("x"),
        close("div"),
    ];
    assert_eq!(once, expected);
    assert_eq!(tag_optimize(once), expected);
}

#[test]
fn void_elements_are_closed_again_on_a_second_pass() {
    let twice = tag_optimize(tag_optimize(vec![open("br", vec![])]));
    assert_eq!(twice, vec![open("br", vec![]), close("br"), close("br")]);
}

#[test]
fn empty_input() {
    assert_eq!(HtmlTag::parse(""), vec![]);
    assert_eq!(tag_optimize(vec![]), vec![]);
    assert_eq!(ElementContent::parse(vec![]), Ok(vec![]));
}

#[test]
fn text_before_the_first_tag_is_dropped() {
    assert_eq!(HtmlTag::parse("hi<b>x</b>"), vec![open("b", vec![]), text("x"), close("b")]);
}

#[test]
fn blank_text_is_not_emitted() {
    assert_eq!(HtmlTag::parse("<a> \n<b>"), vec![open("a", vec![]), open("b", vec![])]);
}

#[test]
fn stray_angle_brackets_are_tolerated() {
    assert_eq!(HtmlTag::parse(">"), vec![]);
    assert_eq!(HtmlTag::parse("a>b"), vec![]);
    assert_eq!(HtmlTag::parse("<a>>"), vec![open("a", vec![])]);
}

#[test]
fn space_after_angle_bracket_is_skipped() {
    assert_eq!(HtmlTag::parse("< p>"), vec![open("p", vec![])]);
    assert_eq!(HtmlTag::parse("</p >"), vec![close("p ")]);
}

#[test]
fn non_ascii_text() {
    assert_eq!(
        HtmlTag::parse("<p>é ü</p>"),
        vec![open("p", vec![]), text("é ü"), close("p")]
    );
}

#[test]
fn mismatched_nesting_is_reparented() {
    assert_eq!(
        ElementContent::parse(HtmlTag::parse("<a><b>x</a>")),
        Ok(vec![elem(
            "a",
            vec![],
            ElementTagState::BothTag,
            vec![elem("b", vec![], ElementTagState::OnlyStartTag, vec![]), lit("x")],
        )])
    );
}

#[test]
fn nested_elements_in_order() {
    assert_eq!(
        ElementContent::parse(HtmlTag::parse("<div id=m><p>x</p><p>y</p></div>")),
        Ok(vec![elem(
            "div",
            vec![("id", Some("m"))],
            ElementTagState::BothTag,
            vec![
                elem("p", vec![], ElementTagState::BothTag, vec![lit("x")]),
                elem("p", vec![], ElementTagState::BothTag, vec![lit("y")]),
            ],
        )])
    );
}

#[test]
fn closing_tag_may_match_a_closed_element() {
    assert_eq!(
        ElementContent::parse(HtmlTag::parse("<a></a>x</a>")),
        Ok(vec![elem("a", vec![], ElementTagState::BothTag, vec![lit("x")])])
    );
}

#[test]
fn mapping_keeps_the_last_value() {
    let tag = open("a", vec![("x", Some("1")), ("y", None), ("x", Some("2"))]);
    assert_eq!(
        tag.to_hashmap(),
        HtmlTagMapped::OpeningTag("a", vec![("x", Some("2")), ("y", None)])
    );
}

#[test]
fn mapping_passes_other_tokens_through() {
    assert_eq!(close("a").to_hashmap(), HtmlTagMapped::ClosingTag("a"));
    assert_eq!(text("t").to_hashmap(), HtmlTagMapped::Unparsable("t"));
    assert_eq!(HtmlTag::Comment("!c").to_hashmap(), HtmlTagMapped::Comment("!c"));
}
