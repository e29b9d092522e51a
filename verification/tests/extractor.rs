use clikipedia_tui::parser::{HtmlParser, Link, Paragraph, ParagraphElement};

fn page_of(html: &str) -> clikipedia_tui::parser::Page {
    HtmlParser::parse_page(html)
}

#[test]
fn one_paragraph_with_text_bold_and_link() {
    let html = "<html><head><title>T</title></head><body>\
                <p>A<b>B</b><a rel=\"mw:WikiLink\" href=\"Target\">C</a></p>\
                </body></html>";
    let page = page_of(html);
    assert_eq!(page.paragraphs.len(), 1);
    let elems = &page.paragraphs[0].elems;
    assert_eq!(elems.len(), 3);
    match &elems[0] {
        ParagraphElement::Text(content, emphasized) => {
            assert_eq!(content, "A");
            assert!(!emphasized);
        },
        _ => panic!("expected a plain text run first"),
    }
    match &elems[1] {
        ParagraphElement::Text(content, emphasized) => {
            assert_eq!(content, "B");
            assert!(emphasized);
        },
        _ => panic!("expected an emphasized run second"),
    }
    match &elems[2] {
        ParagraphElement::Link(Link { link, text }) => {
            assert_eq!(link, "Target");
            assert_eq!(text, "C");
        },
        _ => panic!("expected a link third"),
    }
}

#[test]
fn whitespace_only_paragraph_is_dropped() {
    let html = "<html><body><p>  \n\t  </p></body></html>";
    let page = page_of(html);
    assert_eq!(page.paragraphs.len(), 0);
}

#[test]
fn anchor_without_internal_marker_is_excluded() {
    let html = "<html><body><p><a href=\"Elsewhere\">ext</a></p></body></html>";
    let page = page_of(html);
    assert_eq!(page.paragraphs.len(), 0);

    let html = "<html><body><p>keep<a href=\"X\">drop</a></p></body></html>";
    let page = page_of(html);
    assert_eq!(page.paragraphs.len(), 1);
    assert_eq!(page.paragraphs[0].elems.len(), 1);
}

#[test]
fn anchor_missing_destination_or_label_is_dropped() {
    let html = "<html><body><p><a rel=\"mw:WikiLink\">label</a></p></body></html>";
    assert_eq!(page_of(html).paragraphs.len(), 0);

    let html = "<html><body><p><a rel=\"mw:WikiLink\" href=\"T\"><b>x</b></a></p></body></html>";
    assert_eq!(page_of(html).paragraphs.len(), 0);

    let html = "<html><body><p><a rel=\"mw:WikiLink\" href=\"T\"></a></p></body></html>";
    assert_eq!(page_of(html).paragraphs.len(), 0);
}

#[test]
fn missing_title_falls_back_to_placeholder() {
    let html = "<html><body><p>x</p></body></html>";
    let page = page_of(html);
    assert_eq!(page.title, "-");
}

#[test]
fn title_italic_markup_is_stripped() {
    let html = "<html><head><title>Giant <i>Sequoia</i></title></head><body></body></html>";
    let page = page_of(html);
    assert_eq!(page.title, "Giant Sequoia");
}

#[test]
fn styled_span_flattens_descendant_text() {
    let html = "<html><body><p><span>X<b>Y</b>Z</span></p></body></html>";
    let page = page_of(html);
    assert_eq!(page.paragraphs.len(), 1);
    match &page.paragraphs[0].elems[0] {
        ParagraphElement::Text(content, emphasized) => {
            assert_eq!(content, "XYZ");
            assert!(!emphasized);
        },
        _ => panic!("expected a text run"),
    }
}

#[test]
fn empty_styled_span_is_dropped() {
    let html = "<html><body><p><span></span><i></i></p></body></html>";
    assert_eq!(page_of(html).paragraphs.len(), 0);
}

#[test]
fn italic_element_is_emphasized() {
    let html = "<html><body><p><i>species</i></p></body></html>";
    let page = page_of(html);
    match &page.paragraphs[0].elems[0] {
        ParagraphElement::Text(content, emphasized) => {
            assert_eq!(content, "species");
            assert!(emphasized);
        },
        _ => panic!("expected a text run"),
    }
}

#[test]
fn unknown_elements_are_ignored() {
    let html = "<html><body><p>before<code>skip me</code>after</p></body></html>";
    let page = page_of(html);
    let elems = &page.paragraphs[0].elems;
    assert_eq!(elems.len(), 2);
    match (&elems[0], &elems[1]) {
        (ParagraphElement::Text(a, _), ParagraphElement::Text(b, _)) => {
            assert_eq!(a, "before");
            assert_eq!(b, "after");
        },
        _ => panic!("expected two text runs"),
    }
}

#[test]
fn paragraphs_keep_document_order() {
    let html = "<html><body><p>one</p><div><p>two</p></div><p>three</p></body></html>";
    let page = page_of(html);
    assert_eq!(page.paragraphs.len(), 3);
    let texts: Vec<String> = page.paragraphs.iter().map(|p| p.display_string()).collect();
    assert_eq!(texts, vec!["one", "two", "three"]);
}

#[test]
fn display_strings() {
    let link = Link { link: "Target".to_string(), text: "C".to_string() };
    assert_eq!(link.display_string(), "[C](Target)");
    let para = Paragraph {
        elems: vec![
            ParagraphElement::Text("A".to_string(), false),
            ParagraphElement::Link(link),
        ],
    };
    assert_eq!(para.display_string(), "A[C](Target)");
}
