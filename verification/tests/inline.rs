use scenewriter::inline_parser::{exprs_as_html, parse_inline, Expression};

#[test]
fn plain_text_is_one_text() {
    let (rest, exprs) = parse_inline("Nothing special here.").unwrap();
    assert_eq!(rest, "");
    assert_eq!(exprs, vec![Expression::Text("Nothing special here.".to_string())]);
    assert_eq!(exprs_as_html(&exprs), "Nothing special here.");
}

#[test]
fn empty_input_reads_as_nothing() {
    let (_, exprs) = parse_inline("").unwrap();
    assert!(exprs.is_empty());
}

#[test]
fn each_emphasis_kind() {
    let (_, exprs) = parse_inline("a ***b*** c **d** e *f* g _h_").unwrap();
    assert_eq!(
        exprs,
        vec![
            Expression::Text("a ".to_string()),
            Expression::BoldItalic(vec![Expression::Text("b".to_string())]),
            Expression::Text(" c ".to_string()),
            Expression::Bold(vec![Expression::Text("d".to_string())]),
            Expression::Text(" e ".to_string()),
            Expression::Italic(vec![Expression::Text("f".to_string())]),
            Expression::Text(" g ".to_string()),
            Expression::Underline(vec![Expression::Text("h".to_string())]),
        ]
    );
    assert_eq!(
        exprs_as_html(&exprs),
        "a <b>b</b> c <b>d</b> e <i>f</i> g <u>h</u>"
    );
}

#[test]
fn nested_emphasis() {
    let (_, exprs) = parse_inline("_under *it* line_").unwrap();
    assert_eq!(
        exprs,
        vec![Expression::Underline(vec![
            Expression::Text("under ".to_string()),
            Expression::Italic(vec![Expression::Text("it".to_string())]),
            Expression::Text(" line".to_string()),
        ])]
    );
    assert_eq!(exprs[0].as_html(), "<u>under <i>it</i> line</u>");
}

#[test]
fn unclosed_marker_is_text() {
    let (_, exprs) = parse_inline("a *b c").unwrap();
    assert_eq!(exprs, vec![Expression::Text("a *b c".to_string())]);
}

#[test]
fn empty_bold_reads_as_empty_emphasis() {
    let (_, exprs) = parse_inline("x****y").unwrap();
    assert_eq!(
        exprs,
        vec![
            Expression::Text("x".to_string()),
            Expression::Bold(vec![]),
            Expression::Text("y".to_string()),
        ]
    );
}

fn source_of(exprs: &[Expression]) -> String {
    let mut out = String::new();
    for e in exprs {
        match e {
            Expression::Text(t) => out.push_str(t),
            Expression::Italic(v) => out.push_str(&format!("*{}*", source_of(v))),
            Expression::Bold(v) => out.push_str(&format!("**{}**", source_of(v))),
            Expression::BoldItalic(v) => out.push_str(&format!("***{}***", source_of(v))),
            Expression::Underline(v) => out.push_str(&format!("_{}_", source_of(v))),
        }
    }
    out
}

fn leaves_of(exprs: &[Expression]) -> String {
    let mut out = String::new();
    for e in exprs {
        match e {
            Expression::Text(t) => out.push_str(t),
            Expression::Italic(v)
            | Expression::Bold(v)
            | Expression::BoldItalic(v)
            | Expression::Underline(v) => out.push_str(&leaves_of(v)),
        }
    }
    out
}

#[test]
fn reading_loses_no_text() {
    for input in [
        "a ***b*** c **d** e *f* g _h_",
        "_The *nested* one_ and **a *b* c** and *lone",
        "** odd * markers _ everywhere",
        "",
    ] {
        let (_, exprs) = parse_inline(input).unwrap();
        assert_eq!(source_of(&exprs), input);
    }
}

#[test]
fn stripping_tags_gives_the_text() {
    let (_, exprs) = parse_inline("_The *nested* one_ and **a *b* c**").unwrap();
    let html = exprs_as_html(&exprs);
    assert_eq!(html, "<u>The <i>nested</i> one</u> and <b>a <i>b</i> c</b>");
    let mut stripped = html.clone();
    for tag in ["<i>", "</i>", "<b>", "</b>", "<u>", "</u>"] {
        stripped = stripped.replace(tag, "");
    }
    assert_eq!(stripped, leaves_of(&exprs));
    assert_eq!(stripped, "The nested one and a b c");
}

#[test]
fn stripping_tags_of_a_sequence_gives_the_leaves() {
    let (_, exprs) = parse_inline("plain ***bi*** _u *i*_ tail").unwrap();
    let mut stripped = exprs_as_html(&exprs);
    for tag in ["<i>", "</i>", "<b>", "</b>", "<u>", "</u>"] {
        stripped = stripped.replace(tag, "");
    }
    assert_eq!(stripped, "plain bi u i tail");
}
