use markie::html::{
    apply_inline_html_attr, inline_html_action, parse_inline_html_attrs, parse_inline_html_tag,
    sanitize_color, InlineHtmlAction, InlineHtmlStyle, StyleTag,
};

#[test]
fn sanitize_color_accepts_colors() {
    assert_eq!(sanitize_color(" #ff0000 ").as_deref(), Some("#ff0000"));
    assert_eq!(sanitize_color("#abc").as_deref(), Some("#abc"));
    assert_eq!(sanitize_color("#11223344").as_deref(), Some("#11223344"));
    assert_eq!(sanitize_color("rgb(1, 2, 3)").as_deref(), Some("rgb(1, 2, 3)"));
    assert_eq!(sanitize_color("hsl(120, 50%, 50%)").as_deref(), Some("hsl(120, 50%, 50%)"));
    assert_eq!(sanitize_color("blue").as_deref(), Some("blue"));
}

#[test]
fn sanitize_color_rejects_the_rest() {
    assert_eq!(sanitize_color(""), None);
    assert_eq!(sanitize_color("#12345"), None);
    assert_eq!(sanitize_color("url(javascript:alert(1))"), None);
    assert_eq!(sanitize_color("red\" onmouseover=\"x"), None);
    assert_eq!(sanitize_color("<script>"), None);
    assert_eq!(sanitize_color("red1"), None);
    let long = "a".repeat(65);
    assert_eq!(sanitize_color(&long), None);
    assert_eq!(sanitize_color(&"a".repeat(64)).map(|c| c.len()), Some(64));
}

#[test]
fn style_attribute_declarations() {
    let st = parse_inline_html_attrs(
        "style=\"color: #ff0000; background-color: yellow; text-decoration: Underline; font-size: 150%\"",
    );
    assert_eq!(st.color.as_deref(), Some("#ff0000"));
    assert_eq!(st.background.as_deref(), Some("yellow"));
    assert!(st.underline);
    assert_eq!(st.font_sizes, vec!["150%".to_string()]);
}

#[test]
fn attribute_scanning_handles_quotes_and_bare_values() {
    let st = parse_inline_html_attrs("COLOR=blue class='x y' bgcolor = \"#00ff00\"");
    assert_eq!(st.color.as_deref(), Some("blue"));
    assert_eq!(st.background.as_deref(), Some("#00ff00"));
    assert!(!st.underline);
    let st = parse_inline_html_attrs("=  color=red");
    assert_eq!(st.color.as_deref(), Some("red"));
}

#[test]
fn unsafe_style_values_are_dropped() {
    let st = parse_inline_html_attrs("style=\"color: red; background: url(javascript:alert(1))\"");
    assert_eq!(st.color.as_deref(), Some("red"));
    assert_eq!(st.background, None);
}

#[test]
fn apply_attr_by_name() {
    let mut st = InlineHtmlStyle::plain();
    apply_inline_html_attr(&mut st, "color", "  green ");
    assert_eq!(st.color.as_deref(), Some("green"));
    apply_inline_html_attr(&mut st, "background", "#fff");
    assert_eq!(st.background.as_deref(), Some("#fff"));
    apply_inline_html_attr(&mut st, "class", "whatever");
    assert_eq!(st.color.as_deref(), Some("green"));
    apply_inline_html_attr(&mut st, "style", "color:;font-size:2em");
    assert_eq!(st.color.as_deref(), Some("green"));
    assert_eq!(st.font_sizes, vec!["2em".to_string()]);
}

#[test]
fn parse_tags() {
    let t = parse_inline_html_tag("  <SPAN style=\"color: red\">").unwrap();
    assert_eq!(t.name, "span");
    assert!(!t.closing);
    assert!(!t.self_closing);
    assert_eq!(t.style.color.as_deref(), Some("red"));

    let t = parse_inline_html_tag("</sup>").unwrap();
    assert_eq!(t.name, "sup");
    assert!(t.closing);

    let t = parse_inline_html_tag("<br />").unwrap();
    assert_eq!(t.name, "br");
    assert!(t.self_closing);

    assert!(parse_inline_html_tag("hello").is_none());
    assert!(parse_inline_html_tag("<1abc>").is_none());
    assert!(parse_inline_html_tag("<>").is_none());
    assert!(parse_inline_html_tag("<a-b>").is_none());
}

#[test]
fn actions_for_plain_formatting_tags() {
    assert!(matches!(inline_html_action("<BR>"), InlineHtmlAction::LineBreak));
    assert!(matches!(inline_html_action("<br />"), InlineHtmlAction::LineBreak));
    assert!(matches!(inline_html_action("<del>"), InlineHtmlAction::Strikethrough(true)));
    assert!(matches!(inline_html_action("</s>"), InlineHtmlAction::Strikethrough(false)));
    assert!(matches!(inline_html_action("<em>"), InlineHtmlAction::Emphasis(true)));
    assert!(matches!(inline_html_action("</i>"), InlineHtmlAction::Emphasis(false)));
    assert!(matches!(inline_html_action("<b>"), InlineHtmlAction::Strong(true)));
    assert!(matches!(inline_html_action("</strong>"), InlineHtmlAction::Strong(false)));
}

#[test]
fn actions_for_style_tags() {
    match inline_html_action("<sup style=\"color: green\">") {
        InlineHtmlAction::OpenStyle(StyleTag::Sup, st) => assert_eq!(st.color.as_deref(), Some("green")),
        _ => panic!("expected sup"),
    }
    assert!(matches!(inline_html_action("<sub>"), InlineHtmlAction::OpenStyle(StyleTag::Sub, _)));
    match inline_html_action("<u>") {
        InlineHtmlAction::OpenStyle(StyleTag::Underline, st) => assert!(st.underline),
        _ => panic!("expected u"),
    }
    assert!(matches!(inline_html_action("<mark>"), InlineHtmlAction::OpenStyle(StyleTag::Mark, _)));
    match inline_html_action("<font color=\"blue\">") {
        InlineHtmlAction::OpenStyle(StyleTag::Span, st) => assert_eq!(st.color.as_deref(), Some("blue")),
        _ => panic!("expected font"),
    }
    assert!(matches!(inline_html_action("</span>"), InlineHtmlAction::CloseStyle));
}

#[test]
fn unknown_and_self_closing_tags_are_ignored() {
    assert!(matches!(inline_html_action("<custom>"), InlineHtmlAction::Ignore));
    assert!(matches!(inline_html_action("<img src=\"x\"/>"), InlineHtmlAction::Ignore));
    assert!(matches!(inline_html_action("not a tag"), InlineHtmlAction::Ignore));
}

#[test]
fn malicious_styles_never_reach_the_style() {
    match inline_html_action("<span style=\"color: red; background: url(javascript:alert(1))\">") {
        InlineHtmlAction::OpenStyle(StyleTag::Span, st) => {
            assert_eq!(st.color.as_deref(), Some("red"));
            assert_eq!(st.background, None);
        }
        _ => panic!("expected span"),
    }
    match inline_html_action("<span style='color: \"onmouseover=\"'>") {
        InlineHtmlAction::OpenStyle(StyleTag::Span, st) => assert_eq!(st.color, None),
        _ => panic!("expected span"),
    }
}
