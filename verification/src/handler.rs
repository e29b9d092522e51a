//! Key and mouse dispatch: maps one input event to the state change it
//! causes. Work the library cannot do itself — fetching a page over the
//! network — is returned as a navigation request for the caller to perform.
use vstd::prelude::*;

verus! {

use crate::app::{App, ScrollKey};
use crate::util::decode26;

/// The key pressed, reduced to what the application reacts to.
#[derive(Clone, Copy)]
pub enum KeyChoice {
    Char(char),
    Up,
    Down,
    PageUp,
    PageDown,
    Backspace,
    Enter,
    Home,
    End,
    Other,
}

/// One key event: the key and whether the control modifier was held.
#[derive(Clone, Copy)]
pub struct KeyInput {
    pub code: KeyChoice,
    pub ctrl: bool,
}

/// One mouse event, reduced to what the application reacts to.
#[derive(Clone, Copy)]
pub enum MouseInput {
    ScrollUp,
    ScrollDown,
    Other,
}

/// A navigation the caller must perform: fetch a random page, or fetch the
/// page a resolved link points to.
pub enum NavRequest {
    Random,
    Target(String),
}

/// Whether the event is the quit chord: control with the letter c.
pub open spec fn is_ctrl_c(key: KeyInput) -> bool {
    key.ctrl && match key.code {
        KeyChoice::Char(c) => c == 'c' || c == 'C',
        _ => false,
    }
}

/// Handles one key event and updates the application state; a returned
/// request asks the caller to fetch a page and hand the markup back through
/// `set_html`.
pub fn handle_key_events(app: &mut App, key: KeyInput) -> (r: Option<NavRequest>)
    requires
        old(app).wf(),
        (key.code is PageUp || key.code is PageDown) ==> old(app).frame_height >= 2,
    ensures
        final(app).wf(),
        final(app).running == (!is_ctrl_c(key) && old(app).running),
        (key.code is Up || key.code is Down || key.code is PageUp || key.code is PageDown) ==> {
            &&& final(app).vertical_scroll == old(app).scroll_target(
                match key.code {
                    KeyChoice::Up => ScrollKey::Up,
                    KeyChoice::Down => ScrollKey::Down,
                    KeyChoice::PageUp => ScrollKey::PageUp,
                    _ => ScrollKey::PageDown,
                },
            )
            &&& *final(app) == (App {
                running: final(app).running,
                vertical_scroll: final(app).vertical_scroll,
                ..*old(app)
            })
            &&& r is None
        },
        (key.code matches KeyChoice::Char(c) && c == ' ') ==> {
            &&& *final(app) == (App { running: final(app).running, ..*old(app) })
            &&& r == Some(NavRequest::Random)
        },
        (key.code matches KeyChoice::Char(c) && 'a' <= c <= 'z') ==> {
            &&& final(app).selector@ == (if old(app).links.spec_contains(old(app).selector@)
                || old(app).selector@.len() == 0 {
                old(app).selector@.push(key.code->Char_0)
            } else {
                old(app).selector@
            })
            &&& *final(app) == (App {
                running: final(app).running,
                selector: final(app).selector,
                ..*old(app)
            })
            &&& r is None
        },
        key.code is Backspace ==> {
            &&& final(app).selector@ == (if old(app).selector@.len() > 0 {
                old(app).selector@.drop_last()
            } else {
                old(app).selector@
            })
            &&& *final(app) == (App {
                running: final(app).running,
                selector: final(app).selector,
                ..*old(app)
            })
            &&& r is None
        },
        key.code is Enter && old(app).links.spec_contains(old(app).selector@) ==> {
            &&& r matches Some(nr) && nr matches NavRequest::Target(t) && t@ == old(
                app,
            ).links@[decode26(old(app).selector@)].link
            &&& final(app).selector@ == Seq::<char>::empty()
            &&& *final(app) == (App {
                running: final(app).running,
                selector: final(app).selector,
                ..*old(app)
            })
        },
        key.code is Enter && !old(app).links.spec_contains(old(app).selector@) ==> {
            &&& *final(app) == (App { running: final(app).running, ..*old(app) })
            &&& r is None
        },
        (key.code is Home || key.code is End || key.code is Other || (key.code matches
        KeyChoice::Char(c) && c != ' ' && !('a' <= c <= 'z'))) ==> {
            &&& *final(app) == (App { running: final(app).running, ..*old(app) })
            &&& r is None
        },
{
    match key.code {
        KeyChoice::Char(c) => {
            if (c == 'c' || c == 'C') && key.ctrl {
                app.quit();
            }
        },
        _ => {},
    }
    match key.code {
        KeyChoice::Up => {
            app.scroll(ScrollKey::Up);
            None
        },
        KeyChoice::Down => {
            app.scroll(ScrollKey::Down);
            None
        },
        KeyChoice::PageUp => {
            app.scroll(ScrollKey::PageUp);
            None
        },
        KeyChoice::PageDown => {
            app.scroll(ScrollKey::PageDown);
            None
        },
        KeyChoice::Char(c) => {
            if c == ' ' {
                Some(NavRequest::Random)
            } else {
                let u = c as u32;
                if 97 <= u && u <= 122 {
                    app.link_select(c);
                }
                None
            }
        },
        KeyChoice::Backspace => {
            app.delete_link_selector();
            None
        },
        KeyChoice::Enter => {
            match app.go_to_selected_link() {
                Some(t) => Some(NavRequest::Target(t)),
                None => None,
            }
        },
        KeyChoice::Home => None,
        KeyChoice::End => None,
        KeyChoice::Other => None,
    }
}

/// Handles one mouse event: wheel movement scrolls by a line.
pub fn handle_mouse_events(app: &mut App, mouse: MouseInput)
    requires
        old(app).wf(),
    ensures
        final(app).wf(),
        mouse is ScrollDown ==> final(app).vertical_scroll == old(app).scroll_target(
            ScrollKey::Down,
        ) && *final(app) == (App {
            vertical_scroll: final(app).vertical_scroll,
            ..*old(app)
        }),
        mouse is ScrollUp ==> final(app).vertical_scroll == old(app).scroll_target(ScrollKey::Up)
            && *final(app) == (App { vertical_scroll: final(app).vertical_scroll, ..*old(app) }),
        mouse is Other ==> *final(app) == *old(app),
{
    match mouse {
        MouseInput::ScrollDown => app.scroll(ScrollKey::Down),
        MouseInput::ScrollUp => app.scroll(ScrollKey::Up),
        MouseInput::Other => {},
    }
}

} // verus!
