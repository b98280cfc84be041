use markie::math::{
    build_math_tree, build_node, escape_xml, extract_text, get_attr, is_large_operator, math_tree,
    parse_mathml, MathEvent, MathNode,
};

fn s(x: &str) -> String {
    x.to_string()
}

fn attrs(v: &[(&str, &str)]) -> Vec<(String, String)> {
    v.iter().map(|(k, v)| (k.to_string(), v.to_string())).collect()
}

fn text_of(n: &MathNode) -> String {
    match n {
        MathNode::Ident(t) | MathNode::Number(t) | MathNode::Operator(t) | MathNode::Text(t) => t.clone(),
        _ => panic!("not a token: {:?}", n),
    }
}

#[test]
fn get_attr_finds_the_first_match() {
    let a = attrs(&[("form", "prefix"), ("stretchy", "true"), ("form", "postfix")]);
    assert_eq!(get_attr(&a, "form"), Some(s("prefix")));
    assert_eq!(get_attr(&a, "stretchy"), Some(s("true")));
    assert_eq!(get_attr(&a, "width"), None);
}

#[test]
fn extract_text_joins_token_children() {
    let children = vec![
        MathNode::Ident(s("x")),
        MathNode::Space(s("1")),
        MathNode::Number(s("2")),
        MathNode::Operator(s("+")),
    ];
    assert_eq!(extract_text(&children), "x2+");
}

#[test]
fn build_node_tokens() {
    let n = build_node("mi", vec![MathNode::Text(s("x"))], &[]);
    assert!(matches!(&n, MathNode::Ident(t) if t == "x"));
    let n = build_node("mn", vec![MathNode::Text(s("42"))], &[]);
    assert!(matches!(&n, MathNode::Number(t) if t == "42"));
    let n = build_node("mtext", vec![MathNode::Text(s("if"))], &[]);
    assert!(matches!(&n, MathNode::Text(t) if t == "if"));
}

#[test]
fn build_node_stretchy_operator() {
    let a = attrs(&[("stretchy", "true")]);
    let n = build_node("mo", vec![MathNode::Text(s("("))], &a);
    match n {
        MathNode::StretchyOp { op, form } => {
            assert_eq!(op, "(");
            assert_eq!(form, "infix");
        }
        other => panic!("expected stretchy op, got {:?}", other),
    }
    let a = attrs(&[("stretchy", "false")]);
    let n = build_node("mo", vec![MathNode::Text(s("("))], &a);
    assert!(matches!(&n, MathNode::Operator(t) if t == "("));
    // An empty operator is never stretchy.
    let a = attrs(&[("stretchy", "true")]);
    let n = build_node("mo", vec![], &a);
    assert!(matches!(&n, MathNode::Operator(t) if t.is_empty()));
}

#[test]
fn build_node_scripts_take_the_last_children() {
    let n = build_node(
        "msup",
        vec![MathNode::Ident(s("a")), MathNode::Ident(s("x")), MathNode::Number(s("2"))],
        &[],
    );
    match n {
        MathNode::Sup { base, sup } => {
            assert_eq!(text_of(&base), "x");
            assert_eq!(text_of(&sup), "2");
        }
        other => panic!("expected sup, got {:?}", other),
    }
    let n = build_node(
        "msubsup",
        vec![MathNode::Ident(s("x")), MathNode::Number(s("1")), MathNode::Number(s("2"))],
        &[],
    );
    match n {
        MathNode::SubSup { base, sub, sup } => {
            assert_eq!(text_of(&base), "x");
            assert_eq!(text_of(&sub), "1");
            assert_eq!(text_of(&sup), "2");
        }
        other => panic!("expected subsup, got {:?}", other),
    }
}

#[test]
fn build_node_with_too_few_children_is_a_row_or_the_child() {
    let n = build_node("msup", vec![MathNode::Ident(s("x"))], &[]);
    assert!(matches!(&n, MathNode::Ident(t) if t == "x"));
    let n = build_node("mfrac", vec![], &[]);
    assert!(matches!(&n, MathNode::Row(v) if v.is_empty()));
}

#[test]
fn build_node_fraction_keeps_line_thickness() {
    let a = attrs(&[("linethickness", "0")]);
    let n = build_node("mfrac", vec![MathNode::Number(s("1")), MathNode::Number(s("2"))], &a);
    match n {
        MathNode::Frac { num, den, line_thickness } => {
            assert_eq!(text_of(&num), "1");
            assert_eq!(text_of(&den), "2");
            assert_eq!(line_thickness, Some(s("0")));
        }
        other => panic!("expected frac, got {:?}", other),
    }
}

#[test]
fn build_node_root_and_underover() {
    let n = build_node("mroot", vec![MathNode::Ident(s("x")), MathNode::Number(s("3"))], &[]);
    match n {
        MathNode::Root { radicand, index } => {
            assert_eq!(text_of(&radicand), "x");
            assert_eq!(text_of(&index), "3");
        }
        other => panic!("expected root, got {:?}", other),
    }
    let n = build_node(
        "munderover",
        vec![MathNode::Operator(s("∑")), MathNode::Ident(s("i")), MathNode::Ident(s("n"))],
        &[],
    );
    match n {
        MathNode::UnderOver { base, under, over } => {
            assert_eq!(text_of(&base), "∑");
            assert_eq!(text_of(&under.unwrap()), "i");
            assert_eq!(text_of(&over.unwrap()), "n");
        }
        other => panic!("expected underover, got {:?}", other),
    }
    let n = build_node("msqrt", vec![MathNode::Ident(s("a")), MathNode::Ident(s("b"))], &[]);
    match n {
        MathNode::Sqrt { radicand } => assert!(matches!(*radicand, MathNode::Row(ref v) if v.len() == 2)),
        other => panic!("expected sqrt, got {:?}", other),
    }
}

#[test]
fn tree_from_events() {
    let events = vec![
        MathEvent::Start(s("math"), vec![]),
        MathEvent::Start(s("msup"), vec![]),
        MathEvent::Start(s("mi"), vec![]),
        MathEvent::Text(s("x")),
        MathEvent::End,
        MathEvent::Start(s("mn"), vec![]),
        MathEvent::Text(s("2")),
        MathEvent::End,
        MathEvent::End,
        MathEvent::End,
        MathEvent::Error(s("never read")),
    ];
    match build_math_tree(&events).unwrap() {
        MathNode::Sup { base, sup } => {
            assert_eq!(text_of(&base), "x");
            assert_eq!(text_of(&sup), "2");
        }
        other => panic!("expected sup, got {:?}", other),
    }
}

#[test]
fn tree_from_events_gathers_tables() {
    let events = vec![
        MathEvent::Start(s("math"), vec![]),
        MathEvent::Start(s("mtable"), vec![]),
        MathEvent::Start(s("mtr"), vec![]),
        MathEvent::Start(s("mtd"), vec![]),
        MathEvent::Start(s("mn"), vec![]),
        MathEvent::Text(s("1")),
        MathEvent::End,
        MathEvent::End,
        MathEvent::Start(s("mtd"), vec![]),
        MathEvent::Start(s("mn"), vec![]),
        MathEvent::Text(s("2")),
        MathEvent::End,
        MathEvent::End,
        MathEvent::End,
        MathEvent::End,
        MathEvent::End,
        MathEvent::Eof,
    ];
    match build_math_tree(&events).unwrap() {
        MathNode::Table { rows, column_align } => {
            assert_eq!(column_align, vec![s("center")]);
            assert_eq!(rows.len(), 1);
            match &rows[0] {
                MathNode::Row(cells) => {
                    assert_eq!(cells.len(), 2);
                    assert_eq!(text_of(&cells[0]), "1");
                    assert_eq!(text_of(&cells[1]), "2");
                }
                other => panic!("expected a row, got {:?}", other),
            }
        }
        other => panic!("expected table, got {:?}", other),
    }
}

#[test]
fn tree_from_events_errors_and_end() {
    let events = vec![MathEvent::Start(s("math"), vec![]), MathEvent::Error(s("broken"))];
    assert_eq!(build_math_tree(&events).unwrap_err(), "XML parse error: broken");
    let events = vec![MathEvent::Other, MathEvent::Eof];
    assert!(matches!(build_math_tree(&events).unwrap(), MathNode::Row(v) if v.is_empty()));
    let events = vec![
        MathEvent::Start(s("mrow"), vec![]),
        MathEvent::Empty(s("mspace"), attrs(&[("width", "0.5em")])),
        MathEvent::End,
    ];
    assert!(matches!(build_math_tree(&events).unwrap(), MathNode::Space(w) if w == "0.5"));
}

#[test]
fn parse_mathml_reads_a_document() {
    let tree = parse_mathml("<math><mfrac><mn>1</mn><mi>x</mi></mfrac></math>").unwrap();
    match tree {
        MathNode::Frac { num, den, line_thickness } => {
            assert_eq!(text_of(&num), "1");
            assert_eq!(text_of(&den), "x");
            assert_eq!(line_thickness, None);
        }
        other => panic!("expected frac, got {:?}", other),
    }
}

#[test]
fn parse_mathml_reports_bad_xml() {
    let err = parse_mathml("<math><mi>x</mo></math>").unwrap_err();
    assert!(err.starts_with("XML parse error: "), "{}", err);
}

#[test]
fn math_tree_from_latex() {
    match math_tree("x^2", false).unwrap() {
        MathNode::Sup { base, sup } => {
            assert_eq!(text_of(&base), "x");
            assert_eq!(text_of(&sup), "2");
        }
        other => panic!("expected sup, got {:?}", other),
    }
}

#[test]
fn math_tree_reports_bad_latex() {
    let err = math_tree("\\frac{1}{", true).unwrap_err();
    assert!(err.starts_with("LaTeX parse error: "), "{}", err);
    assert!(err.len() > "LaTeX parse error: ".len(), "the converter's message follows: {}", err);
}

#[test]
fn large_operators() {
    assert!(is_large_operator("∑"));
    assert!(is_large_operator("∫"));
    assert!(!is_large_operator("+"));
    assert!(!is_large_operator("∑∑"));
}

#[test]
fn math_text_is_escaped_with_apostrophes() {
    assert_eq!(escape_xml("a<b & 'c'"), "a&lt;b &amp; &apos;c&apos;");
}
