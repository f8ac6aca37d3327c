use scenewriter::inline_parser::parse_inline;
use scenewriter::parser::parse_fountain;

#[test]
fn tests_test_dialogue_as_html() {
    let input = "FRED (ABC) (EFG)\nHere's some **bold**, *italicized*, ***bold-italicized***  and _underlined_ dialogue\n";
    let (_, document) = parse_fountain(input).unwrap();
    assert_eq!(document.elements.len(), 1);
    let html = document.elements[0].as_html();
    assert_eq!(html, "<div class=\"element-dialogue\">\n<p>FRED  (ABC) (EFG)</p>\n<p>Here's some <b>bold</b>, <i>italicized</i>, <b>bold-italicized</b>  and <u>underlined</u> dialogue</p>\n</div>\n\n")
}

#[test]
fn test_parse_inline() {
    let (_remainder, expressions) =
        parse_inline("Dave is *actually* **really** ***pissed*** _now_.").unwrap();
    assert_eq!(expressions.len(), 9);
}
