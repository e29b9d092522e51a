use clikipedia_tui::app::App;
use clikipedia_tui::handler::{
    handle_key_events, handle_mouse_events, KeyChoice, KeyInput, MouseInput, NavRequest,
};
use clikipedia_tui::links::LinkIndex;
use clikipedia_tui::parser::{Link, Page, Paragraph, ParagraphElement};

fn key(code: KeyChoice) -> KeyInput {
    KeyInput { code, ctrl: false }
}

fn app_with_one_link() -> App {
    let mut app = App::new();
    let page = Page {
        title: "T".to_string(),
        paragraphs: vec![Paragraph {
            elems: vec![ParagraphElement::Link(Link {
                link: "Target0".to_string(),
                text: "L".to_string(),
            })],
        }],
    };
    app.links = LinkIndex::build(&page);
    app
}

#[test]
fn ctrl_c_quits_and_still_buffers_the_letter() {
    let mut app = App::new();
    let r = handle_key_events(&mut app, KeyInput { code: KeyChoice::Char('c'), ctrl: true });
    assert!(r.is_none());
    assert!(!app.running);
    assert_eq!(app.selector, "c");

    let mut app = App::new();
    let r = handle_key_events(&mut app, key(KeyChoice::Char('c')));
    assert!(r.is_none());
    assert!(app.running);
    assert_eq!(app.selector, "c");
}

#[test]
fn arrow_keys_scroll() {
    let mut app = App::new();
    app.set_scroll_params(50);
    assert!(handle_key_events(&mut app, key(KeyChoice::Down)).is_none());
    assert_eq!(app.vertical_scroll, 1);
    assert!(handle_key_events(&mut app, key(KeyChoice::Up)).is_none());
    assert_eq!(app.vertical_scroll, 0);
    app.resize(80, 10);
    assert!(handle_key_events(&mut app, key(KeyChoice::PageDown)).is_none());
    assert_eq!(app.vertical_scroll, 8);
    assert!(handle_key_events(&mut app, key(KeyChoice::PageUp)).is_none());
    assert_eq!(app.vertical_scroll, 0);
}

#[test]
fn space_requests_a_random_page() {
    let mut app = App::new();
    let r = handle_key_events(&mut app, key(KeyChoice::Char(' ')));
    assert!(matches!(r, Some(NavRequest::Random)));
}

#[test]
fn letters_feed_the_selector_and_backspace_removes() {
    let mut app = app_with_one_link();
    assert!(handle_key_events(&mut app, key(KeyChoice::Char('a'))).is_none());
    assert_eq!(app.selector, "a");
    assert!(handle_key_events(&mut app, key(KeyChoice::Char('Q'))).is_none());
    assert_eq!(app.selector, "a");
    assert!(handle_key_events(&mut app, key(KeyChoice::Backspace)).is_none());
    assert_eq!(app.selector, "");
}

#[test]
fn enter_navigates_to_the_resolved_link() {
    let mut app = app_with_one_link();
    handle_key_events(&mut app, key(KeyChoice::Char('a')));
    let r = handle_key_events(&mut app, key(KeyChoice::Enter));
    match r {
        Some(NavRequest::Target(t)) => assert_eq!(t, "Target0"),
        _ => panic!("expected navigation to the resolved link"),
    }
    assert_eq!(app.selector, "");

    let r = handle_key_events(&mut app, key(KeyChoice::Enter));
    assert!(r.is_none());
}

#[test]
fn other_keys_change_nothing() {
    let mut app = App::new();
    assert!(handle_key_events(&mut app, key(KeyChoice::Other)).is_none());
    assert!(handle_key_events(&mut app, key(KeyChoice::Char('?'))).is_none());
    assert!(app.running);
    assert_eq!(app.selector, "");
    assert_eq!(app.vertical_scroll, 0);
}

#[test]
fn mouse_wheel_scrolls_by_one_line() {
    let mut app = App::new();
    app.set_scroll_params(50);
    handle_mouse_events(&mut app, MouseInput::ScrollDown);
    handle_mouse_events(&mut app, MouseInput::ScrollDown);
    assert_eq!(app.vertical_scroll, 2);
    handle_mouse_events(&mut app, MouseInput::ScrollUp);
    assert_eq!(app.vertical_scroll, 1);
    handle_mouse_events(&mut app, MouseInput::Other);
    assert_eq!(app.vertical_scroll, 1);
}
