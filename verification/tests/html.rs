use scenewriter::constants::{DEFAULT_CREDIT, DEFAULT_TITLE};
use scenewriter::document::{Action, FarceDocument, FarceElement, SceneHeading, TitlePage};
use scenewriter::fountain_to_html;
use scenewriter::html::{html_string, write_html, HTML_FOOTER, HTML_HEADER};

fn doc(title_page: Option<TitlePage>) -> FarceDocument {
    FarceDocument {
        title_page,
        elements: vec![
            FarceElement::FSceneHeading(SceneHeading { int_or_ext: "EXT".to_string(), text: "A field".to_string() }),
            FarceElement::FAction(Action { is_centered: true, text: "Rain *falls*".to_string() }),
            FarceElement::FPageBreak,
        ],
    }
}

const BODY: &str = "<div class=\"scene-heading\">\n<p>EXT. A field</p>\n</div>\n\n<div class=\"element-action\">\n<p>Rain <i>falls</i></p>\n</div>\n\n<div class=\"element-pagebreak\"></div>\n\n";

#[test]
fn elements_without_frame() {
    let mut w: Vec<u8> = Vec::new();
    write_html(doc(None), &mut w, false).unwrap();
    assert_eq!(String::from_utf8(w).unwrap(), BODY);
}

#[test]
fn frame_around_body() {
    let mut w: Vec<u8> = b"prefix".to_vec();
    write_html(doc(None), &mut w, true).unwrap();
    let expected = format!("prefix{}{}{}", HTML_HEADER, BODY, HTML_FOOTER);
    assert_eq!(String::from_utf8(w).unwrap(), expected);
}

#[test]
fn title_page_with_author_and_default_credit() {
    let tp = TitlePage {
        fields: vec![("Title".to_string(), "Small Whale".to_string()), ("Author".to_string(), "Fred July".to_string())],
    };
    let html = html_string(&doc(Some(tp)), false);
    let expected = format!(
        "<div id=\"title-page\"><div id=\"title-page-credits\"><p>Small Whale</p><p>{}</p><p>Fred July</p></div></div>{}",
        DEFAULT_CREDIT, BODY
    );
    assert_eq!(html, expected);
}

#[test]
fn title_page_without_title() {
    let tp = TitlePage { fields: vec![("Draft".to_string(), "3".to_string())] };
    let html = html_string(&doc(Some(tp)), false);
    let expected = format!(
        "<div id=\"title-page\"><div id=\"title-page-credits\">{}</div></div>{}",
        DEFAULT_TITLE, BODY
    );
    assert_eq!(html, expected);
}

#[test]
fn fountain_to_html_whole_page() {
    let html = fountain_to_html("Title: T\n\nINT. Room\n\nBOB\nHi.\n");
    let expected = format!(
        "{}<div id=\"title-page\"><div id=\"title-page-credits\"><p>T</p></div></div><div class=\"scene-heading\">\n<p>INT. Room</p>\n</div>\n\n<div class=\"element-dialogue\">\n<p>BOB</p>\n<p>Hi.</p>\n</div>\n\n{}",
        HTML_HEADER, HTML_FOOTER
    );
    assert_eq!(html, expected);
}
