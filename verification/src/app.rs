//! The application state: the current page and its link index, the scroll
//! position (always clamped to the content), and the link-selector buffer.
//! Scrolling, selector editing and page replacement are specified exactly;
//! the terminal painting around this state lives outside the library.
use vstd::prelude::*;

verus! {

use crate::links::{
    LinkIndex,
    lemma_links_elems_prefix_le,
    lemma_links_paras_prefix_le,
    links_of_elems,
    links_of_paragraphs,
};
use crate::markup::markup_tree_of;
use crate::parser::{
    HtmlParser,
    Page,
    Paragraph,
    ParagraphElement,
    ParagraphElementView,
    ParagraphView,
    page_spec,
    paras_view,
};
use crate::text::{append_chars, chars_to_string, pop_char, push_char};
use crate::util::{decode26, encode26, encode26_chars, lemma_encode26_wf, str_eq_chars};

/// The trailing slack kept below the end of the content, so the last lines
/// stay reachable without overscrolling past them.
pub const SCROLL_MARGIN: usize = 5;

/// A scroll movement: one line, one page (the visible height less the fixed
/// chrome rows), or a jump to an extreme.
pub enum ScrollKey {
    Up,
    Down,
    PageUp,
    PageDown,
    Home,
    End,
}

pub struct App {
    pub running: bool,
    pub paragraphs: Vec<Paragraph>,
    pub page_title: String,
    pub links: LinkIndex,
    pub vertical_scroll: usize,
    pub frame_width: u16,
    pub frame_height: u16,
    pub page_content_length: usize,
    pub selector: String,
}

impl App {
    /// The largest scroll offset: the content length less the margin.
    pub open spec fn max_scroll(self) -> int {
        if self.page_content_length >= SCROLL_MARGIN {
            self.page_content_length - SCROLL_MARGIN
        } else {
            0
        }
    }

    /// The scroll offset never passes the clamp bound.
    pub open spec fn wf(self) -> bool {
        self.vertical_scroll <= self.max_scroll()
    }

    /// How many lines a page movement covers: the frame height less the two
    /// fixed chrome rows.
    pub open spec fn page_amount(self) -> int {
        self.frame_height - 2
    }

    pub open spec fn scroll_up_target(self, amount: int) -> int {
        if self.vertical_scroll >= amount {
            self.vertical_scroll - amount
        } else {
            0
        }
    }

    pub open spec fn scroll_down_target(self, amount: int) -> int {
        if self.vertical_scroll + amount <= self.max_scroll() {
            self.vertical_scroll + amount
        } else {
            self.max_scroll()
        }
    }

    /// Where each movement lands: clamped below at 0 and above at the
    /// margin-adjusted end of the content; the extremes jump there directly.
    pub open spec fn scroll_target(self, key: ScrollKey) -> int {
        match key {
            ScrollKey::Home => 0,
            ScrollKey::End => self.max_scroll(),
            ScrollKey::Up => self.scroll_up_target(1),
            ScrollKey::Down => self.scroll_down_target(1),
            ScrollKey::PageUp => self.scroll_up_target(self.page_amount()),
            ScrollKey::PageDown => self.scroll_down_target(self.page_amount()),
        }
    }

    /// The freshly started application: running, with no page, no links, no
    /// scroll and an empty selector.
    pub open spec fn is_initial(self) -> bool {
        &&& self.running == true
        &&& self.paragraphs@.len() == 0
        &&& self.page_title@ == Seq::<char>::empty()
        &&& self.links@ == Seq::<crate::parser::LinkView>::empty()
        &&& self.vertical_scroll == 0
        &&& self.frame_width == 0
        &&& self.frame_height == 0
        &&& self.page_content_length == 0
        &&& self.selector@ == Seq::<char>::empty()
    }
}

impl Default for App {
    fn default() -> (r: App)
        ensures
            r.is_initial(),
            r.wf(),
    {
        App {
            running: true,
            paragraphs: Vec::new(),
            page_title: String::new(),
            links: LinkIndex::new(),
            vertical_scroll: 0,
            frame_width: 0,
            frame_height: 0,
            page_content_length: 0,
            selector: String::new(),
        }
    }
}

impl App {
    /// Constructs a new instance of the application state.
    pub fn new() -> (r: App)
        ensures
            r.is_initial(),
            r.wf(),
    {
        App::default()
    }

    /// Handles the tick event of the terminal: nothing changes.
    pub fn tick(&mut self)
        ensures
            *final(self) == *old(self),
    {
    }

    /// Stops the application.
    pub fn quit(&mut self)
        ensures
            final(self).running == false,
            *final(self) == (App { running: false, ..*old(self) }),
    {
        self.running = false;
    }

    /// Records the terminal's new size.
    pub fn resize(&mut self, width: u16, height: u16)
        ensures
            final(self).frame_width == width,
            final(self).frame_height == height,
            *final(self) == (App { frame_width: width, frame_height: height, ..*old(self) }),
    {
        self.frame_width = width;
        self.frame_height = height;
    }

    /// Types one letter into the link selector. The first letter is always
    /// accepted; a further letter is accepted only while the buffer already
    /// resolves to a known code, and is ignored otherwise.
    pub fn link_select(&mut self, c: char)
        ensures
            final(self).selector@ == (if old(self).links.spec_contains(old(self).selector@)
                || old(self).selector@.len() == 0 {
                old(self).selector@.push(c)
            } else {
                old(self).selector@
            }),
            *final(self) == (App { selector: final(self).selector, ..*old(self) }),
    {
        if self.link_selector_exists() || self.selector.as_str().is_empty() {
            push_char(&mut self.selector, c);
        }
    }

    /// Removes the last letter of the link selector, if any.
    pub fn delete_link_selector(&mut self)
        ensures
            final(self).selector@ == (if old(self).selector@.len() > 0 {
                old(self).selector@.drop_last()
            } else {
                old(self).selector@
            }),
            *final(self) == (App { selector: final(self).selector, ..*old(self) }),
    {
        pop_char(&mut self.selector);
    }

    /// Whether the selector buffer currently resolves to a link's code.
    pub fn link_selector_exists(&self) -> (r: bool)
        ensures
            r == self.links.spec_contains(self.selector@),
    {
        self.links.contains(self.selector.as_str())
    }

    /// Resolves the selector: when it addresses a link, clears the buffer
    /// and returns that link's target for the caller to navigate to;
    /// otherwise changes nothing and returns nothing.
    pub fn go_to_selected_link(&mut self) -> (r: Option<String>)
        ensures
            old(self).links.spec_contains(old(self).selector@) ==> {
                &&& r matches Some(t) && t@ == old(self).links@[decode26(
                    old(self).selector@,
                )].link
                &&& final(self).selector@ == Seq::<char>::empty()
                &&& *final(self) == (App { selector: final(self).selector, ..*old(self) })
            },
            !old(self).links.spec_contains(old(self).selector@) ==> r is None && *final(self)
                == *old(self),
    {
        let target: Option<String> = match self.links.get(self.selector.as_str()) {
            Some(l) => Some(l.link.clone()),
            None => None,
        };
        match target {
            Some(t) => {
                self.selector = String::new();
                Some(t)
            },
            None => None,
        }
    }

    fn max_scroll_pos(&self) -> (r: usize)
        ensures
            r == self.max_scroll(),
    {
        if self.page_content_length >= SCROLL_MARGIN {
            self.page_content_length - SCROLL_MARGIN
        } else {
            0
        }
    }

    /// Moves the scroll position: up or down by a line or a page, or to an
    /// extreme, always clamped to `[0, max_scroll]`. Jumping home always
    /// lands on 0, whatever the prior state.
    pub fn scroll(&mut self, key: ScrollKey)
        requires
            old(self).wf(),
            (key is PageUp || key is PageDown) ==> old(self).frame_height >= 2,
        ensures
            final(self).vertical_scroll == old(self).scroll_target(key),
            final(self).wf(),
            *final(self) == (App { vertical_scroll: final(self).vertical_scroll, ..*old(self) }),
    {
        let max = self.max_scroll_pos();
        match key {
            ScrollKey::Home => {
                self.vertical_scroll = 0;
            },
            ScrollKey::End => {
                self.vertical_scroll = max;
            },
            ScrollKey::Up => {
                self.vertical_scroll = if self.vertical_scroll >= 1 {
                    self.vertical_scroll - 1
                } else {
                    0
                };
            },
            ScrollKey::Down => {
                self.vertical_scroll = if max - self.vertical_scroll >= 1 {
                    self.vertical_scroll + 1
                } else {
                    max
                };
            },
            ScrollKey::PageUp => {
                let amount = (self.frame_height - 2) as usize;
                self.vertical_scroll = if self.vertical_scroll >= amount {
                    self.vertical_scroll - amount
                } else {
                    0
                };
            },
            ScrollKey::PageDown => {
                let amount = (self.frame_height - 2) as usize;
                self.vertical_scroll = if max - self.vertical_scroll >= amount {
                    self.vertical_scroll + amount
                } else {
                    max
                };
            },
        }
    }

    /// Records the content length reported by the layout pass, re-clamping
    /// the scroll position but never otherwise resetting it.
    pub fn set_scroll_params(&mut self, length: usize)
        ensures
            final(self).page_content_length == length,
            final(self).vertical_scroll == (if old(self).vertical_scroll
                <= final(self).max_scroll() {
                old(self).vertical_scroll as int
            } else {
                final(self).max_scroll()
            }),
            final(self).wf(),
            *final(self) == (App {
                vertical_scroll: final(self).vertical_scroll,
                page_content_length: length,
                ..*old(self)
            }),
    {
        self.page_content_length = length;
        let max = self.max_scroll_pos();
        if self.vertical_scroll > max {
            self.vertical_scroll = max;
        }
    }

    /// Replaces the page wholesale: extracts the document model from the
    /// markup, rebuilds the link index from it, and resets the scroll
    /// position and the selector buffer together.
    pub fn set_html(&mut self, html: &str)
        ensures
            final(self).page_title@ == page_spec(markup_tree_of(html@)).title,
            paras_view(final(self).paragraphs@) == page_spec(markup_tree_of(html@)).paragraphs,
            final(self).links@ == links_of_paragraphs(page_spec(markup_tree_of(html@)).paragraphs),
            final(self).vertical_scroll == 0,
            final(self).selector@ == Seq::<char>::empty(),
            final(self).running == old(self).running,
            final(self).frame_width == old(self).frame_width,
            final(self).frame_height == old(self).frame_height,
            final(self).page_content_length == old(self).page_content_length,
            final(self).wf(),
    {
        let page = HtmlParser::parse_page(html);
        let index = LinkIndex::build(&page);
        let Page { title, paragraphs } = page;
        self.page_title = title;
        self.paragraphs = paragraphs;
        self.links = index;
        self.vertical_scroll = 0;
        self.selector = String::new();
    }
}

/// How a span is to be painted: plain prose, emphasized prose, or a link —
/// highlighted when it is the one the selector currently addresses.
#[derive(Clone, Copy, Debug, PartialEq, Eq, Structural)]
pub enum SpanKind {
    Plain,
    Emphasized,
    Link { selected: bool },
}

/// One styled run of a rendered line.
pub struct StyledSpan {
    pub content: String,
    pub kind: SpanKind,
}

/// One rendered line: a sequence of styled runs; a blank line has none.
pub struct StyledLine {
    pub spans: Vec<StyledSpan>,
}

pub struct SpanView {
    pub content: Seq<char>,
    pub kind: SpanKind,
}

impl View for StyledSpan {
    type V = SpanView;

    open spec fn view(&self) -> SpanView {
        SpanView { content: self.content@, kind: self.kind }
    }
}

impl View for StyledLine {
    type V = Seq<SpanView>;

    open spec fn view(&self) -> Seq<SpanView> {
        spans_view(self.spans@)
    }
}

pub open spec fn spans_view(v: Seq<StyledSpan>) -> Seq<SpanView> {
    Seq::new(v.len(), |i: int| v[i]@)
}

pub open spec fn lines_view(v: Seq<StyledLine>) -> Seq<Seq<SpanView>> {
    Seq::new(v.len(), |i: int| v[i]@)
}

/// The spans one run produces, given how many links came before it: prose
/// gives one span; a link gives its label and its bracketed code, both
/// highlighted exactly when the selector holds that code.
pub open spec fn spans_of_elem(e: ParagraphElementView, counter: nat, sel: Seq<char>) -> Seq<
    SpanView,
> {
    match e {
        ParagraphElementView::Text { content, emphasized } => seq![
            SpanView {
                content,
                kind: if emphasized {
                    SpanKind::Emphasized
                } else {
                    SpanKind::Plain
                },
            },
        ],
        ParagraphElementView::Link(l) => {
            let selected = sel == encode26(counter);
            seq![
                SpanView { content: l.text, kind: (SpanKind::Link { selected }) },
                SpanView {
                    content: seq!['['] + encode26(counter) + seq![']'],
                    kind: (SpanKind::Link { selected }),
                },
            ]
        },
    }
}

pub open spec fn spans_of_elems(es: Seq<ParagraphElementView>, c0: nat, sel: Seq<char>) -> Seq<
    SpanView,
>
    decreases es.len(),
{
    if es.len() == 0 {
        Seq::empty()
    } else {
        spans_of_elems(es.drop_last(), c0, sel) + spans_of_elem(
            es.last(),
            (c0 + links_of_elems(es.drop_last()).len()) as nat,
            sel,
        )
    }
}

/// The rendered lines: each paragraph that yields spans becomes one line of
/// spans followed by one blank line, with link counting running across the
/// whole page in document order.
pub open spec fn lines_of_paragraphs(ps: Seq<ParagraphView>, c0: nat, sel: Seq<char>) -> Seq<
    Seq<SpanView>,
>
    decreases ps.len(),
{
    if ps.len() == 0 {
        Seq::empty()
    } else {
        lines_of_paragraphs(ps.drop_last(), c0, sel) + {
            let spans = spans_of_elems(
                ps.last().elems,
                (c0 + links_of_paragraphs(ps.drop_last()).len()) as nat,
                sel,
            );
            if spans.len() > 0 {
                seq![spans, Seq::<SpanView>::empty()]
            } else {
                Seq::<Seq<SpanView>>::empty()
            }
        }
    }
}

pub open spec fn rendered_lines(ps: Seq<ParagraphView>, sel: Seq<char>) -> Seq<Seq<SpanView>> {
    lines_of_paragraphs(ps, 0, sel)
}

impl App {
    /// The bracketed code shown after a link's label.
    fn format_link_ref(&self, link_counter: usize, selected: bool) -> (r: StyledSpan)
        ensures
            r.content@ == seq!['['] + encode26(link_counter as nat) + seq![']'],
            r.kind == (SpanKind::Link { selected }),
    {
        let code = encode26_chars(link_counter);
        let mut cv: Vec<char> = Vec::new();
        cv.push('[');
        append_chars(&mut cv, &code);
        cv.push(']');
        proof {
            assert(cv@ =~= seq!['['] + encode26(link_counter as nat) + seq![']']);
        }
        StyledSpan { content: chars_to_string(cv), kind: SpanKind::Link { selected } }
    }

    /// The page as styled lines: one line per non-empty paragraph, each
    /// followed by a blank line; every link is rendered as its label and its
    /// bracketed code, highlighted when the selector holds that code.
    pub fn get_text(&self) -> (r: Vec<StyledLine>)
        requires
            links_of_paragraphs(paras_view(self.paragraphs@)).len() <= usize::MAX,
        ensures
            lines_view(r@) == rendered_lines(paras_view(self.paragraphs@), self.selector@),
    {
        let mut lines: Vec<StyledLine> = Vec::new();
        let mut counter: usize = 0;
        let ghost pvs = paras_view(self.paragraphs@);
        let ghost sel = self.selector@;
        let ghost total = links_of_paragraphs(pvs).len();
        let n = self.paragraphs.len();
        let mut i: usize = 0;
        proof {
            assert(links_of_paragraphs(pvs.take(0)) == Seq::<crate::parser::LinkView>::empty())
                by {
                assert(pvs.take(0) =~= Seq::<ParagraphView>::empty());
            }
            assert(lines_of_paragraphs(pvs.take(0), 0, sel) == Seq::<Seq<SpanView>>::empty()) by {
                assert(pvs.take(0) =~= Seq::<ParagraphView>::empty());
            }
            assert(lines_view(lines@) =~= Seq::<Seq<SpanView>>::empty());
        }
        while i < n
            invariant
                0 <= i <= n,
                n == self.paragraphs@.len(),
                pvs == paras_view(self.paragraphs@),
                pvs.len() == n,
                sel == self.selector@,
                total == links_of_paragraphs(pvs).len(),
                total <= usize::MAX,
                counter == links_of_paragraphs(pvs.take(i as int)).len(),
                lines_view(lines@) == lines_of_paragraphs(pvs.take(i as int), 0, sel),
            decreases n - i,
        {
            let para = &self.paragraphs[i];
            let ghost evs = pvs[i as int].elems;
            let ghost c_para = counter as nat;
            proof {
                assert(pvs[i as int] == self.paragraphs@[i as int]@);
                assert(pvs.take(i + 1).drop_last() =~= pvs.take(i as int));
                assert(pvs.take(i + 1).last() == pvs[i as int]);
                lemma_links_paras_prefix_le(pvs, i + 1);
                assert(c_para + links_of_elems(evs).len() <= total);
                assert(spans_of_elems(evs.take(0), c_para, sel) == Seq::<SpanView>::empty()) by {
                    assert(evs.take(0) =~= Seq::<ParagraphElementView>::empty());
                }
                assert(links_of_elems(evs.take(0)) == Seq::<crate::parser::LinkView>::empty())
                    by {
                    assert(evs.take(0) =~= Seq::<ParagraphElementView>::empty());
                }
            }
            let mut spans: Vec<StyledSpan> = Vec::new();
            let mut j: usize = 0;
            let m = para.elems.len();
            proof {
                assert(spans_view(spans@) =~= Seq::<SpanView>::empty());
            }
            while j < m
                invariant
                    0 <= j <= m,
                    m == para.elems@.len(),
                    evs.len() == m,
                    forall|k: int| 0 <= k < m ==> evs[k] == para.elems@[k]@,
                    sel == self.selector@,
                    c_para + links_of_elems(evs).len() <= total,
                    total <= usize::MAX,
                    counter == c_para + links_of_elems(evs.take(j as int)).len(),
                    spans_view(spans@) == spans_of_elems(evs.take(j as int), c_para, sel),
                decreases m - j,
            {
                proof {
                    assert(evs.take(j + 1).drop_last() =~= evs.take(j as int));
                    assert(evs.take(j + 1).last() == evs[j as int]);
                    lemma_links_elems_prefix_le(evs, j + 1);
                }
                let ghost before = spans@;
                match &para.elems[j] {
                    ParagraphElement::Text(content, emphasized) => {
                        let kind = if *emphasized {
                            SpanKind::Emphasized
                        } else {
                            SpanKind::Plain
                        };
                        spans.push(StyledSpan { content: content.clone(), kind });
                        proof {
                            assert(spans_view(spans@) =~= spans_view(before) + spans_of_elem(
                                evs[j as int],
                                counter as nat,
                                sel,
                            ));
                        }
                    },
                    ParagraphElement::Link(l) => {
                        proof {
                            lemma_encode26_wf(counter as nat);
                        }
                        let code = encode26_chars(counter);
                        let selected = str_eq_chars(self.selector.as_str(), &code);
                        spans.push(
                            StyledSpan {
                                content: l.text.clone(),
                                kind: SpanKind::Link { selected },
                            },
                        );
                        let refspan = self.format_link_ref(counter, selected);
                        spans.push(refspan);
                        counter = counter + 1;
                        proof {
                            assert(spans_view(spans@) =~= spans_view(before) + spans_of_elem(
                                evs[j as int],
                                c_para + links_of_elems(evs.take(j as int)).len(),
                                sel,
                            ));
                        }
                    },
                }
                proof {
                    assert(spans_view(spans@) =~= spans_of_elems(evs.take(j + 1), c_para, sel));
                }
                j += 1;
            }
            proof {
                assert(evs.take(m as int) =~= evs);
            }
            let ghost lines_before = lines@;
            if spans.len() > 0 {
                lines.push(StyledLine { spans });
                lines.push(StyledLine { spans: Vec::new() });
                proof {
                    assert(spans_view(Seq::<StyledSpan>::empty()) =~= Seq::<SpanView>::empty());
                    assert(lines_view(lines@) =~= lines_view(lines_before) + seq![
                        spans_of_elems(evs, c_para, sel),
                        Seq::<SpanView>::empty(),
                    ]);
                    assert(lines_view(lines@) =~= lines_of_paragraphs(pvs.take(i + 1), 0, sel));
                }
            } else {
                proof {
                    assert(lines_view(lines@) =~= lines_of_paragraphs(pvs.take(i + 1), 0, sel));
                }
            }
            i += 1;
        }
        proof {
            assert(pvs.take(n as int) =~= pvs);
        }
        lines
    }
}

} // verus!
