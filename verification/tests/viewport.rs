use clikipedia_tui::app::{App, ScrollKey, SpanKind};
use clikipedia_tui::links::LinkIndex;
use clikipedia_tui::parser::{Link, Page, Paragraph, ParagraphElement};
use clikipedia_tui::util::usize_to_base26;

fn page_with_links(n: usize) -> Page {
    let mut elems = Vec::new();
    for i in 0..n {
        elems.push(ParagraphElement::Link(Link {
            link: format!("Target{}", i),
            text: format!("L{}", i),
        }));
    }
    Page { title: "T".to_string(), paragraphs: vec![Paragraph { elems }] }
}

fn app_with_links(n: usize) -> App {
    let mut app = App::new();
    app.links = LinkIndex::build(&page_with_links(n));
    app
}

#[test]
fn line_down_clamps_at_margin_and_home_returns_to_zero() {
    let mut app = App::new();
    app.set_scroll_params(50);
    for _ in 0..60 {
        app.scroll(ScrollKey::Down);
    }
    assert_eq!(app.vertical_scroll, 45);
    assert!(app.vertical_scroll <= 50);
    app.scroll(ScrollKey::Home);
    assert_eq!(app.vertical_scroll, 0);

    app.scroll(ScrollKey::End);
    assert_eq!(app.vertical_scroll, 45);
    app.scroll(ScrollKey::Home);
    assert_eq!(app.vertical_scroll, 0);
}

#[test]
fn page_movement_uses_frame_height() {
    let mut app = App::new();
    app.set_scroll_params(100);
    app.resize(80, 12);
    app.scroll(ScrollKey::PageDown);
    assert_eq!(app.vertical_scroll, 10);
    app.scroll(ScrollKey::PageUp);
    assert_eq!(app.vertical_scroll, 0);
    app.scroll(ScrollKey::Up);
    assert_eq!(app.vertical_scroll, 0);
}

#[test]
fn content_length_change_reclamps_scroll() {
    let mut app = App::new();
    app.set_scroll_params(50);
    app.scroll(ScrollKey::End);
    assert_eq!(app.vertical_scroll, 45);
    app.set_scroll_params(10);
    assert_eq!(app.vertical_scroll, 5);
    assert_eq!(app.page_content_length, 10);
    app.set_scroll_params(3);
    assert_eq!(app.vertical_scroll, 0);
}

#[test]
fn selector_rejects_extension_of_a_miss_and_extends_a_hit() {
    let mut app = app_with_links(2);
    app.link_select('z');
    assert_eq!(app.selector, "z");
    app.link_select('x');
    assert_eq!(app.selector, "z");

    let mut app = app_with_links(28);
    app.link_select('a');
    assert_eq!(app.selector, "a");
    assert!(app.link_selector_exists());
    app.link_select('b');
    assert_eq!(app.selector, "ab");
    assert!(app.link_selector_exists());
}

#[test]
fn backspace_always_removes_the_last_letter() {
    let mut app = app_with_links(1);
    app.link_select('q');
    assert_eq!(app.selector, "q");
    app.delete_link_selector();
    assert_eq!(app.selector, "");
    app.delete_link_selector();
    assert_eq!(app.selector, "");
}

#[test]
fn resolved_selector_navigates_and_clears() {
    let mut app = app_with_links(3);
    app.link_select('b');
    let target = app.go_to_selected_link();
    assert_eq!(target, Some("Target1".to_string()));
    assert_eq!(app.selector, "");

    let mut app = app_with_links(1);
    app.link_select('z');
    assert_eq!(app.go_to_selected_link(), None);
    assert_eq!(app.selector, "z");
}

#[test]
fn link_index_assigns_codes_in_document_order() {
    let index = LinkIndex::build(&page_with_links(27));
    for i in 0..27 {
        let code = usize_to_base26(i);
        assert!(index.contains(&code));
        let link = index.get(&code).expect("assigned code must resolve");
        assert_eq!(link.link, format!("Target{}", i));
    }
    assert_eq!(usize_to_base26(26), "aa");
    assert!(!index.contains("ab"));
    assert!(!index.contains(""));
    assert!(!index.contains("A"));
    assert_eq!(index.len(), 27);
}

#[test]
fn get_text_styles_runs_and_brackets_codes() {
    let mut app = App::new();
    app.paragraphs = vec![
        Paragraph {
            elems: vec![
                ParagraphElement::Text("Hello ".to_string(), false),
                ParagraphElement::Text("bold".to_string(), true),
                ParagraphElement::Link(Link {
                    link: "T".to_string(),
                    text: "L".to_string(),
                }),
            ],
        },
    ];
    let lines = app.get_text();
    assert_eq!(lines.len(), 2);
    assert_eq!(lines[1].spans.len(), 0);
    let spans = &lines[0].spans;
    assert_eq!(spans.len(), 4);
    assert_eq!(spans[0].content, "Hello ");
    assert_eq!(spans[0].kind, SpanKind::Plain);
    assert_eq!(spans[1].content, "bold");
    assert_eq!(spans[1].kind, SpanKind::Emphasized);
    assert_eq!(spans[2].content, "L");
    assert_eq!(spans[2].kind, SpanKind::Link { selected: false });
    assert_eq!(spans[3].content, "[a]");
    assert_eq!(spans[3].kind, SpanKind::Link { selected: false });
}

#[test]
fn get_text_highlights_the_selected_link() {
    let mut app = app_with_links(2);
    app.paragraphs = page_with_links(2).paragraphs;
    app.link_select('b');
    let lines = app.get_text();
    let spans = &lines[0].spans;
    assert_eq!(spans.len(), 4);
    assert_eq!(spans[0].kind, SpanKind::Link { selected: false });
    assert_eq!(spans[1].content, "[a]");
    assert_eq!(spans[2].kind, SpanKind::Link { selected: true });
    assert_eq!(spans[3].content, "[b]");
    assert_eq!(spans[3].kind, SpanKind::Link { selected: true });
}

#[test]
fn set_html_replaces_page_and_resets_state() {
    let mut app = App::new();
    app.set_scroll_params(50);
    app.scroll(ScrollKey::End);
    app.link_select('q');
    assert_eq!(app.selector, "q");
    app.set_html(
        "<html><head><title>New</title></head><body>\
         <p>text<a rel=\"mw:WikiLink\" href=\"T\">go</a></p></body></html>",
    );
    assert_eq!(app.page_title, "New");
    assert_eq!(app.paragraphs.len(), 1);
    assert_eq!(app.vertical_scroll, 0);
    assert_eq!(app.selector, "");
    assert!(app.links.contains("a"));
    assert!(!app.links.contains("b"));
}
