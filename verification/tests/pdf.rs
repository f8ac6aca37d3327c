use scenewriter::document::{FarceDocument, TitlePage};
use scenewriter::parser::parse_fountain;
use scenewriter::pdf::{
    page_header, pdf_layout, render_inline_formatting, Alignment, Margins, PaperSize, PdfBlock, TextState,
};

fn spans(b: &PdfBlock) -> Vec<(String, TextState)> {
    match b {
        PdfBlock::Paragraph { spans, .. } => spans.iter().map(|s| (s.text.clone(), s.style)).collect(),
        _ => panic!("not a paragraph"),
    }
}

const PLAIN: TextState = TextState { bold: false, italic: false, underline: false };

#[test]
fn test_create_pdf_layout() {
    let (_, doc) = parse_fountain(
        "Here's some *italic*, _underlined_, **bold** and ***Bold / italic*** text.",
    )
    .unwrap();
    let layout = pdf_layout(doc, PaperSize::A4);
    assert_eq!(layout.paper_size, PaperSize::A4);
    assert_eq!(layout.title, "Untitled");
    assert!(!layout.has_title_page);
    assert_eq!(layout.blocks.len(), 2);
    let it = TextState { italic: true, ..PLAIN };
    let un = TextState { underline: true, ..PLAIN };
    let bo = TextState { bold: true, ..PLAIN };
    let bi = TextState { bold: true, italic: true, underline: false };
    assert_eq!(
        spans(&layout.blocks[0]),
        vec![
            ("Here's some ".to_string(), PLAIN),
            ("italic".to_string(), it),
            (", ".to_string(), PLAIN),
            ("underlined".to_string(), un),
            (", ".to_string(), PLAIN),
            ("bold".to_string(), bo),
            (" and ".to_string(), PLAIN),
            ("Bold / italic".to_string(), bi),
            (" text.".to_string(), PLAIN),
        ]
    );
    assert!(matches!(layout.blocks[1], PdfBlock::Break(1)));
}

#[test]
fn nested_emphasis_switches_off_after_inner() {
    let spans: Vec<(String, TextState)> = render_inline_formatting(&"**a *b* c**".to_string())
        .into_iter()
        .map(|s| (s.text, s.style))
        .collect();
    let bo = TextState { bold: true, ..PLAIN };
    let bi = TextState { bold: true, italic: true, underline: false };
    assert_eq!(spans, vec![("a ".to_string(), bo), ("b".to_string(), bi), (" c".to_string(), bo)]);
    let spans2: Vec<TextState> =
        render_inline_formatting(&"**a **".to_string()).into_iter().map(|s| s.style).collect();
    assert_eq!(spans2, vec![bo]);
    let spans3: Vec<(String, TextState)> = render_inline_formatting(&"***x** y*".to_string())
        .into_iter()
        .map(|s| (s.text, s.style))
        .collect();
    assert_eq!(spans3, vec![("*x".to_string(), bo), (" y*".to_string(), PLAIN)]);
}

#[test]
fn title_page_and_dialogue_layout() {
    let doc = FarceDocument {
        title_page: Some(TitlePage {
            fields: vec![("Title".to_string(), "Big Fish".to_string()), ("Author".to_string(), "John August".to_string())],
        }),
        elements: vec![],
    };
    let layout = pdf_layout(doc, PaperSize::Letter);
    assert!(layout.has_title_page);
    assert_eq!(layout.font_size, 12);
    assert_eq!(layout.line_spacing, 1000);
    assert!(layout.minimal_conformance);
    assert_eq!(layout.page_margins, Margins { top: 12700, right: 20320, bottom: 25400, left: 38100 });
    assert_eq!(layout.blocks.len(), 7);
    assert!(matches!(layout.blocks[0], PdfBlock::Break(10)));
    assert_eq!(spans(&layout.blocks[1]), vec![("Big Fish".to_string(), PLAIN)]);
    assert_eq!(spans(&layout.blocks[3]), vec![("written by".to_string(), PLAIN)]);
    assert_eq!(spans(&layout.blocks[5]), vec![("John August".to_string(), PLAIN)]);
    match &layout.blocks[5] {
        PdfBlock::Paragraph { alignment, padding, .. } => {
            assert_eq!(*alignment, Alignment::Center);
            assert!(padding.is_none());
        }
        _ => panic!(),
    }
    assert!(matches!(layout.blocks[6], PdfBlock::PageBreak));

    let (_, doc) = parse_fountain("FRED (V.O.)\nHi *there*\n\nINT. Hall\n").unwrap();
    let layout = pdf_layout(doc, PaperSize::A4);
    assert_eq!(layout.blocks.len(), 5);
    match &layout.blocks[0] {
        PdfBlock::Paragraph { padding, .. } => {
            assert_eq!(*padding, Some(Margins { top: 0, right: 0, bottom: 0, left: 48260 }))
        }
        _ => panic!(),
    }
    assert_eq!(spans(&layout.blocks[0]), vec![("FRED  (V.O.)".to_string(), PLAIN)]);
    match &layout.blocks[1] {
        PdfBlock::Paragraph { padding, .. } => {
            assert_eq!(*padding, Some(Margins { top: 0, right: 33020, bottom: 0, left: 22225 }))
        }
        _ => panic!(),
    }
    assert_eq!(
        spans(&layout.blocks[3]),
        vec![("INT. Hall".to_string(), TextState { bold: true, ..PLAIN })]
    );
}

fn header(has_title_page: bool, page: usize) -> Vec<String> {
    let h = page_header(has_title_page, page);
    assert_eq!(h.font_size, 10);
    h.blocks
        .iter()
        .map(|b| match b {
            PdfBlock::Paragraph { spans, alignment, padding } => {
                assert!(padding.is_none());
                let text: String = spans.iter().map(|s| s.text.clone()).collect();
                assert!(spans.iter().all(|s| s.style == PLAIN));
                format!("{:?}:{}", alignment, text)
            }
            PdfBlock::Break(n) => format!("break {}", n),
            PdfBlock::PageBreak => "page".to_string(),
        })
        .collect()
}

#[test]
fn page_headers() {
    assert_eq!(header(true, 1), vec!["break 4"]);
    assert_eq!(header(true, 2), vec!["break 4"]);
    assert_eq!(header(true, 3), vec!["Right:2.", "break 3"]);
    assert_eq!(header(true, 4), vec!["Right:3.", "break 3"]);
    assert_eq!(header(false, 1), vec!["break 4"]);
    assert_eq!(header(false, 12), vec!["Right:12.", "break 3"]);
    for p in 1..20 {
        assert_eq!(header(true, p + 1), header(false, p));
    }
}

#[test]
fn paper_labels() {
    assert_eq!(PaperSize::A4.label(), "A4");
    assert_eq!(PaperSize::Letter.label(), "US Letter");
}

#[test]
fn span_texts_are_the_text_without_fences() {
    let spans = render_inline_formatting(&"_The *nested* one_ and **a *b* c** end".to_string());
    let text: String = spans.iter().map(|s| s.text.as_str()).collect();
    assert_eq!(text, "The nested one and a b c end");
}
