use scenewriter::document::{Action, Dialogue, FarceDocument, FarceElement, SceneHeading, TitlePage};
use scenewriter::parser::{parse_element, parse_elements, parse_fountain};
use scenewriter::utils::truncate_string;

fn dialogue(name: &str, exts: &[&str], text: &str) -> Dialogue {
    Dialogue {
        character_name: name.to_string(),
        character_extensions: exts.iter().map(|s| s.to_string()).collect(),
        text: text.to_string(),
    }
}

#[test]
fn character_line_with_and_without_extensions() {
    assert_eq!(dialogue("WILL", &[], "x").character_line_as_text(), "WILL");
    assert_eq!(dialogue("WILL", &["V.O.", "CONT'D"], "x").character_line_as_text(), "WILL (V.O.) (CONT'D)");
}

#[test]
fn word_counts() {
    assert_eq!(dialogue("A", &[], "  Hello   there,\tfriend \n").get_num_words(), 3);
    assert_eq!(dialogue("A", &[], "").get_num_words(), 0);
    assert_eq!(Action { is_centered: false, text: "one\u{2003}two\u{a0}three".to_string() }.get_num_words(), 3);
}

#[test]
fn truncation() {
    let s = "abcdefghijklmnopqrstuvwxyz".to_string();
    assert_eq!(truncate_string(&s, None), "abcdefghijklmnopqrst...");
    assert_eq!(truncate_string(&s, Some(3)), "abc...");
    assert_eq!(truncate_string(&s, Some(26)), s);
    assert_eq!(truncate_string(&"éèêë".to_string(), Some(2)), "éè...");
}

#[test]
fn display_texts() {
    assert_eq!(dialogue("BOB", &[], "Short").display_text(), "BOB: Short");
    let h = SceneHeading { int_or_ext: "INT".to_string(), text: "A very long heading indeed, yes".to_string() };
    assert_eq!(h.display_text(), "INT: A very long heading ...");
}

#[test]
fn document_chars_are_unique_and_complete() {
    let doc = FarceDocument {
        title_page: None,
        elements: vec![
            FarceElement::FAction(Action { is_centered: false, text: "ab\nba".to_string() }),
            FarceElement::FDialogue(dialogue("Z", &["q"], "é")),
            FarceElement::FPageBreak,
        ],
    };
    let mut chars = doc.get_all_chars();
    let n = chars.len();
    chars.sort();
    chars.dedup();
    assert_eq!(chars.len(), n);
    let mut expected: Vec<char> = "abZ (q)éINTEXT._".chars().collect();
    expected.sort();
    expected.dedup();
    assert_eq!(chars, expected);
    assert_eq!(doc.elements[1].get_all_chars(), "Z (q)é");
    assert_eq!(doc.elements[2].get_all_chars(), "");
}

#[test]
fn title_fields() {
    let doc = FarceDocument {
        title_page: Some(TitlePage {
            fields: vec![
                ("Title".to_string(), "First".to_string()),
                ("Author".to_string(), "A".to_string()),
                ("Title".to_string(), "Second".to_string()),
            ],
        }),
        elements: vec![],
    };
    assert!(doc.has_title_page());
    assert_eq!(doc.get_title().unwrap(), "Second");
    assert_eq!(doc.get_titlepage_field("Author").unwrap(), "A");
    assert!(doc.get_titlepage_field("Credit").is_none());
    let none = FarceDocument { title_page: None, elements: vec![] };
    assert!(!none.has_title_page());
    assert!(none.get_title().is_none());
}

#[test]
fn scene_heading_and_page_break_and_centered() {
    let (rest, els) = parse_elements("EXT.  Beach\n\n===\n>  THE END  <\n").unwrap();
    assert_eq!(rest, "");
    assert_eq!(els.len(), 3);
    match &els[0] {
        FarceElement::FSceneHeading(h) => {
            assert_eq!(h.int_or_ext, "EXT");
            assert_eq!(h.text, "Beach");
        }
        _ => panic!(),
    }
    assert!(matches!(els[1], FarceElement::FPageBreak));
    match &els[2] {
        FarceElement::FAction(a) => {
            assert!(a.is_centered);
            assert_eq!(a.text, "THE END");
        }
        _ => panic!(),
    }
}

#[test]
fn crlf_line_endings() {
    let (rest, el) = parse_element("BOB\r\nHello\r\nthere\r\n\r\nnext").unwrap();
    assert_eq!(rest, "\r\nnext");
    match el {
        FarceElement::FDialogue(d) => assert_eq!(d.text, "Hello there"),
        _ => panic!(),
    }
}

#[test]
fn whitespace_line_ends_a_block() {
    let (rest, el) = parse_element("Walks in.\n   \nSits.").unwrap();
    assert_eq!(rest, "   \nSits.");
    match el {
        FarceElement::FAction(a) => assert_eq!(a.text, "Walks in."),
        _ => panic!(),
    }
}

#[test]
fn nothing_to_read() {
    assert!(parse_element("").is_err());
    assert!(parse_element("\n\nAction").is_err());
    let (rest, els) = parse_elements("\nAction").unwrap();
    assert_eq!(rest, "\nAction");
    assert!(els.is_empty());
    let (rest, doc) = parse_fountain("").unwrap();
    assert_eq!(rest, "");
    assert!(doc.title_page.is_none());
    assert!(doc.elements.is_empty());
}

#[test]
fn two_equals_is_an_action() {
    let (_, el) = parse_element("==\n").unwrap();
    match el {
        FarceElement::FAction(a) => assert_eq!(a.text, "=="),
        _ => panic!(),
    }
}

#[test]
fn parsed_elements_are_well_formed() {
    let (_, doc) = parse_fountain("JO 2 (V.O.)\nline one\nline two\r\n\n>centered<\nAct one\nAct two\n").unwrap();
    assert_eq!(doc.elements.len(), 3);
    match &doc.elements[0] {
        FarceElement::FDialogue(d) => {
            assert_eq!(d.character_name, "JO 2 ");
            assert_eq!(d.character_extensions, vec!["V.O.".to_string()]);
            assert_eq!(d.text, "line one line two");
            assert!(!d.text.contains('\n') && !d.text.contains('\r'));
        }
        _ => panic!(),
    }
    match &doc.elements[2] {
        FarceElement::FAction(a) => {
            assert_eq!(a.text, "Act one\nAct two");
            assert!(!a.text.contains('\r'));
        }
        _ => panic!(),
    }
}
