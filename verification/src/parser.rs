//! The document extractor: turns parsed article markup into a `Page` — a
//! title and ordered paragraphs of styled text runs and internal links.
//! Extraction never fails: a missing title falls back to a placeholder and
//! malformed elements are dropped, never replaced by synthesized values.
use vstd::prelude::*;

verus! {

use vstd::string::StringExecFns;
use crate::markup::{
    MarkupElem,
    MarkupElemView,
    MarkupNode,
    MarkupNodeView,
    attr_of,
    elem_refs_view,
    elem_view,
    flat_text,
    flat_text_of,
    lemma_nodes_view,
    markup_tree_of,
    node_view,
    nodes_view,
    parse_markup,
    select,
    select_node,
};
use crate::text::{
    all_ws,
    chars_all_ws,
    chars_eq,
    chars_remove_all,
    chars_to_string,
    copy_chars,
    remove_all,
};

/// An internal link: the destination article identifier and its visible
/// anchor text.
pub struct Link {
    pub link: String,
    pub text: String,
}

/// One run of a paragraph: either prose (with an emphasis flag) or an
/// internal link.
pub enum ParagraphElement {
    Text(String, bool),
    Link(Link),
}

pub struct Paragraph {
    pub elems: Vec<ParagraphElement>,
}

pub struct Page {
    pub title: String,
    pub paragraphs: Vec<Paragraph>,
}

pub struct LinkView {
    pub link: Seq<char>,
    pub text: Seq<char>,
}

pub enum ParagraphElementView {
    Text { content: Seq<char>, emphasized: bool },
    Link(LinkView),
}

pub struct ParagraphView {
    pub elems: Seq<ParagraphElementView>,
}

pub struct PageView {
    pub title: Seq<char>,
    pub paragraphs: Seq<ParagraphView>,
}

impl View for Link {
    type V = LinkView;

    open spec fn view(&self) -> LinkView {
        LinkView { link: self.link@, text: self.text@ }
    }
}

impl View for ParagraphElement {
    type V = ParagraphElementView;

    open spec fn view(&self) -> ParagraphElementView {
        match self {
            ParagraphElement::Text(content, emphasized) => ParagraphElementView::Text {
                content: content@,
                emphasized: *emphasized,
            },
            ParagraphElement::Link(l) => ParagraphElementView::Link(l@),
        }
    }
}

impl View for Paragraph {
    type V = ParagraphView;

    open spec fn view(&self) -> ParagraphView {
        ParagraphView { elems: Seq::new(self.elems@.len(), |i: int| self.elems@[i]@) }
    }
}

pub open spec fn paras_view(v: Seq<Paragraph>) -> Seq<ParagraphView> {
    Seq::new(v.len(), |i: int| v[i]@)
}

impl View for Page {
    type V = PageView;

    open spec fn view(&self) -> PageView {
        PageView { title: self.title@, paragraphs: paras_view(self.paragraphs@) }
    }
}

impl Paragraph {
    pub fn new() -> (p: Paragraph)
        ensures
            p@.elems == Seq::<ParagraphElementView>::empty(),
    {
        let p = Paragraph { elems: Vec::new() };
        proof {
            assert(p@.elems =~= Seq::<ParagraphElementView>::empty());
        }
        p
    }

    pub fn push(&mut self, elem: ParagraphElement)
        ensures
            final(self)@.elems == old(self)@.elems.push(elem@),
    {
        let ghost before = self@.elems;
        self.elems.push(elem);
        proof {
            assert(self@.elems =~= before.push(elem@));
        }
    }
}

/// The raw text of the first child, when that child is a text node.
pub open spec fn first_child_raw(cs: Seq<MarkupNodeView>) -> Seq<char> {
    if cs.len() > 0 {
        match cs[0] {
            MarkupNodeView::Text(t) => t,
            MarkupNodeView::Elem(_) => Seq::empty(),
        }
    } else {
        Seq::empty()
    }
}

/// The run produced by an inline styling element: all its descendant text,
/// or, when that is empty, its first child's raw text; an element yielding
/// no text at all produces no run.
pub open spec fn styled_elem(e: MarkupElemView, emphasized: bool) -> Option<ParagraphElementView> {
    let flat = flat_text_of(e.children);
    let content = if flat.len() > 0 {
        flat
    } else {
        first_child_raw(e.children)
    };
    if content.len() == 0 {
        None
    } else {
        Some(ParagraphElementView::Text { content, emphasized })
    }
}

/// The link produced by an anchor element: only anchors carrying the
/// internal-link marker, a destination attribute and a non-empty text label
/// become links; anything else is dropped.
pub open spec fn anchor_elem(e: MarkupElemView) -> Option<ParagraphElementView> {
    let rel = attr_of(e.attrs, "rel"@);
    let href = attr_of(e.attrs, "href"@);
    let label = first_child_raw(e.children);
    match (rel, href) {
        (Some(r), Some(h)) => if r == "mw:WikiLink"@ && label.len() > 0 {
            Some(ParagraphElementView::Link(LinkView { link: h, text: label }))
        } else {
            None
        },
        _ => None,
    }
}

/// The paragraph run produced by one direct child of a paragraph element,
/// if any: non-whitespace text nodes become plain runs, inline styling
/// elements become styled runs, marked anchors become links, and everything
/// else is ignored.
pub open spec fn extract_child(n: MarkupNodeView) -> Option<ParagraphElementView> {
    match n {
        MarkupNodeView::Text(t) => if all_ws(t) {
            None
        } else {
            Some(ParagraphElementView::Text { content: t, emphasized: false })
        },
        MarkupNodeView::Elem(e) => if e.name == "span"@ {
            styled_elem(e, false)
        } else if e.name == "b"@ || e.name == "i"@ {
            styled_elem(e, true)
        } else if e.name == "a"@ {
            anchor_elem(e)
        } else {
            None
        },
    }
}

/// The runs of one paragraph, in reading order.
pub open spec fn extract_elems(cs: Seq<MarkupNodeView>) -> Seq<ParagraphElementView>
    decreases cs.len(),
{
    if cs.len() == 0 {
        Seq::empty()
    } else {
        extract_elems(cs.drop_last()) + match extract_child(cs.last()) {
            Some(e) => seq![e],
            None => Seq::<ParagraphElementView>::empty(),
        }
    }
}

/// The paragraphs of the page: one per paragraph element that yields at
/// least one run; paragraphs with no runs are omitted entirely.
pub open spec fn paragraphs_spec(ps: Seq<MarkupElemView>) -> Seq<ParagraphView>
    decreases ps.len(),
{
    if ps.len() == 0 {
        Seq::empty()
    } else {
        paragraphs_spec(ps.drop_last()) + {
            let es = extract_elems(ps.last().children);
            if es.len() > 0 {
                seq![ParagraphView { elems: es }]
            } else {
                Seq::<ParagraphView>::empty()
            }
        }
    }
}

/// The page title: the text under the first title element, with embedded
/// italic markup tags stripped; a fixed placeholder when there is none.
pub open spec fn title_spec(root: MarkupElemView) -> Seq<char> {
    let ts = select_node(MarkupNodeView::Elem(root), "title"@);
    if ts.len() == 0 {
        "-"@
    } else {
        remove_all(remove_all(flat_text_of(ts[0].children), "<i>"@), "</i>"@)
    }
}

/// The document model extracted from a markup tree.
pub open spec fn page_spec(root: MarkupElemView) -> PageView {
    PageView {
        title: title_spec(root),
        paragraphs: paragraphs_spec(select_node(MarkupNodeView::Elem(root), "p"@)),
    }
}

/// The raw text of an element's first child, when that child is a text node.
fn first_child_text(e: &MarkupElem) -> (r: Vec<char>)
    ensures
        r@ == first_child_raw(elem_view(*e).children),
{
    proof {
        lemma_nodes_view(e.children@);
    }
    if e.children.len() > 0 {
        match &e.children[0] {
            MarkupNode::Text(t) => copy_chars(t),
            MarkupNode::Elem(_) => Vec::new(),
        }
    } else {
        Vec::new()
    }
}

fn extract_styled(e: &MarkupElem, emphasized: bool) -> (r: Option<ParagraphElement>)
    ensures
        match r {
            Some(el) => styled_elem(elem_view(*e), emphasized) == Some(el@),
            None => styled_elem(elem_view(*e), emphasized) is None,
        },
{
    let mut t = flat_text(&e.children);
    if t.len() == 0 {
        t = first_child_text(e);
    }
    if t.len() == 0 {
        None
    } else {
        Some(ParagraphElement::Text(chars_to_string(t), emphasized))
    }
}

fn extract_anchor(e: &MarkupElem) -> (r: Option<ParagraphElement>)
    ensures
        match r {
            Some(el) => anchor_elem(elem_view(*e)) == Some(el@),
            None => anchor_elem(elem_view(*e)) is None,
        },
{
    let rel_name: Vec<char> = vec!['r', 'e', 'l'];
    let marker: Vec<char> = vec!['m', 'w', ':', 'W', 'i', 'k', 'i', 'L', 'i', 'n', 'k'];
    let href_name: Vec<char> = vec!['h', 'r', 'e', 'f'];
    proof {
        reveal_strlit("rel");
        reveal_strlit("href");
        reveal_strlit("mw:WikiLink");
        assert(rel_name@ =~= "rel"@);
        assert(href_name@ =~= "href"@);
        assert(marker@ =~= "mw:WikiLink"@);
    }
    let rel_ok = match e.attr(&rel_name) {
        Some(v) => chars_eq(v, &marker),
        None => false,
    };
    if !rel_ok {
        return None;
    }
    let href = match e.attr(&href_name) {
        Some(v) => v,
        None => {
            return None;
        },
    };
    let label = first_child_text(e);
    if label.len() == 0 {
        return None;
    }
    Some(
        ParagraphElement::Link(
            Link { link: chars_to_string(copy_chars(href)), text: chars_to_string(label) },
        ),
    )
}

/// The run, if any, that one direct child of a paragraph element produces.
pub fn extract_element(n: &MarkupNode) -> (r: Option<ParagraphElement>)
    ensures
        match r {
            Some(el) => extract_child(node_view(*n)) == Some(el@),
            None => extract_child(node_view(*n)) is None,
        },
{
    match n {
        MarkupNode::Text(t) => {
            if chars_all_ws(t) {
                None
            } else {
                Some(ParagraphElement::Text(chars_to_string(copy_chars(t)), false))
            }
        },
        MarkupNode::Elem(e) => {
            let span_name: Vec<char> = vec!['s', 'p', 'a', 'n'];
            let b_name: Vec<char> = vec!['b'];
            let i_name: Vec<char> = vec!['i'];
            let a_name: Vec<char> = vec!['a'];
            proof {
                reveal_strlit("span");
                reveal_strlit("b");
                reveal_strlit("i");
                reveal_strlit("a");
                assert(span_name@ =~= "span"@);
                assert(b_name@ =~= "b"@);
                assert(i_name@ =~= "i"@);
                assert(a_name@ =~= "a"@);
            }
            if chars_eq(&e.name, &span_name) {
                extract_styled(e, false)
            } else if chars_eq(&e.name, &b_name) || chars_eq(&e.name, &i_name) {
                extract_styled(e, true)
            } else if chars_eq(&e.name, &a_name) {
                extract_anchor(e)
            } else {
                None
            }
        },
    }
}

/// Builds the page's paragraphs and title from a parsed markup tree.
pub fn extract_page(root: &MarkupElem) -> (p: Page)
    ensures
        p@ == page_spec(elem_view(*root)),
{
    let p_name: Vec<char> = vec!['p'];
    proof {
        reveal_strlit("p");
        assert(p_name@ =~= "p"@);
    }
    let ps = select(root, &p_name);
    let ghost pviews = select_node(MarkupNodeView::Elem(elem_view(*root)), "p"@);
    let mut paragraphs: Vec<Paragraph> = Vec::new();
    let mut i: usize = 0;
    let n = ps.len();
    proof {
        assert(paragraphs_spec(pviews.take(0)) == Seq::<ParagraphView>::empty()) by {
            assert(pviews.take(0) =~= Seq::<MarkupElemView>::empty());
        }
        assert(paras_view(paragraphs@) =~= Seq::<ParagraphView>::empty());
    }
    while i < n
        invariant
            0 <= i <= n,
            n == ps@.len(),
            elem_refs_view(ps@) == pviews,
            pviews.len() == n,
            paras_view(paragraphs@) == paragraphs_spec(pviews.take(i as int)),
        decreases n - i,
    {
        let e: &MarkupElem = ps[i];
        proof {
            assert(pviews[i as int] == elem_view(*ps@[i as int]));
        }
        let mut para = Paragraph::new();
        let mut j: usize = 0;
        let m = e.children.len();
        let ghost cvs = nodes_view(e.children@);
        proof {
            lemma_nodes_view(e.children@);
            assert(pviews[i as int].children == cvs);
            assert(extract_elems(cvs.take(0)) == Seq::<ParagraphElementView>::empty()) by {
                assert(cvs.take(0) =~= Seq::<MarkupNodeView>::empty());
            }
        }
        while j < m
            invariant
                0 <= j <= m,
                m == e.children@.len(),
                cvs == nodes_view(e.children@),
                cvs.len() == m,
                forall|k: int| 0 <= k < m ==> cvs[k] == node_view(e.children@[k]),
                para@.elems == extract_elems(cvs.take(j as int)),
            decreases m - j,
        {
            proof {
                assert(cvs.take(j + 1).drop_last() =~= cvs.take(j as int));
                assert(cvs.take(j + 1).last() == cvs[j as int]);
            }
            match extract_element(&e.children[j]) {
                Some(el) => {
                    para.push(el);
                    proof {
                        assert(para@.elems =~= extract_elems(cvs.take(j + 1)));
                    }
                },
                None => {
                    proof {
                        assert(para@.elems =~= extract_elems(cvs.take(j + 1)));
                    }
                },
            }
            j += 1;
        }
        proof {
            assert(cvs.take(m as int) =~= cvs);
            assert(pviews.take(i + 1).drop_last() =~= pviews.take(i as int));
            assert(pviews.take(i + 1).last() == pviews[i as int]);
        }
        let ghost before = paragraphs@;
        if para.elems.len() > 0 {
            proof {
                assert(para@.elems.len() > 0);
            }
            paragraphs.push(para);
            proof {
                assert(paras_view(paragraphs@) =~= paras_view(before) + seq![
                    ParagraphView { elems: extract_elems(cvs) },
                ]);
                assert(paras_view(paragraphs@) =~= paragraphs_spec(pviews.take(i + 1)));
            }
        } else {
            proof {
                assert(para@.elems.len() == 0);
                assert(paras_view(paragraphs@) =~= paragraphs_spec(pviews.take(i + 1)));
            }
        }
        i += 1;
    }
    proof {
        assert(pviews.take(n as int) =~= pviews);
    }
    let t_name: Vec<char> = vec!['t', 'i', 't', 'l', 'e'];
    proof {
        reveal_strlit("title");
        assert(t_name@ =~= "title"@);
    }
    let ts = select(root, &t_name);
    let ghost tviews = select_node(MarkupNodeView::Elem(elem_view(*root)), "title"@);
    let title: String;
    if ts.len() == 0 {
        title = "-".to_owned();
    } else {
        let te: &MarkupElem = ts[0];
        proof {
            assert(tviews[0] == elem_view(*ts@[0]));
            assert(tviews[0].children == nodes_view(te.children@));
        }
        let ft = flat_text(&te.children);
        let p1: Vec<char> = vec!['<', 'i', '>'];
        let p2: Vec<char> = vec!['<', '/', 'i', '>'];
        proof {
            reveal_strlit("<i>");
            reveal_strlit("</i>");
            assert(p1@ =~= "<i>"@);
            assert(p2@ =~= "</i>"@);
        }
        let r1 = chars_remove_all(&ft, &p1);
        let r2 = chars_remove_all(&r1, &p2);
        title = chars_to_string(r2);
    }
    let page = Page { title, paragraphs };
    proof {
        assert(page@.paragraphs == page_spec(elem_view(*root)).paragraphs);
        assert(page@.title == page_spec(elem_view(*root)).title);
    }
    page
}

/// The markup parser's public face.
pub struct HtmlParser {}

impl HtmlParser {
    /// Parses article markup and extracts the document model. Never fails:
    /// it degrades to a placeholder title and drops malformed elements.
    pub fn parse_page(html: &str) -> (p: Page)
        ensures
            p@ == page_spec(markup_tree_of(html@)),
    {
        let root = parse_markup(html);
        extract_page(&root)
    }
}

/// A link rendered as text: the label in brackets, the target in parentheses.
pub open spec fn link_display(l: LinkView) -> Seq<char> {
    "["@ + l.text + "]("@ + l.link + ")"@
}

pub open spec fn elem_display(e: ParagraphElementView) -> Seq<char> {
    match e {
        ParagraphElementView::Text { content, .. } => content,
        ParagraphElementView::Link(l) => link_display(l),
    }
}

pub open spec fn para_display(es: Seq<ParagraphElementView>) -> Seq<char>
    decreases es.len(),
{
    if es.len() == 0 {
        Seq::empty()
    } else {
        para_display(es.drop_last()) + elem_display(es.last())
    }
}

impl Link {
    /// The link as markdown-style text.
    pub fn display_string(&self) -> (r: String)
        ensures
            r@ == link_display(self@),
    {
        let mut s = "[".to_owned();
        s.append(self.text.as_str());
        s.append("](");
        s.append(self.link.as_str());
        s.append(")");
        proof {
            assert(s@ =~= link_display(self@));
        }
        s
    }
}

impl ParagraphElement {
    /// The run as plain text: prose verbatim, links in markdown style.
    pub fn display_string(&self) -> (r: String)
        ensures
            r@ == elem_display(self@),
    {
        match self {
            ParagraphElement::Text(content, _) => content.clone(),
            ParagraphElement::Link(l) => l.display_string(),
        }
    }
}

impl Paragraph {
    /// The paragraph as plain text: its runs, concatenated in order.
    pub fn display_string(&self) -> (r: String)
        ensures
            r@ == para_display(self@.elems),
    {
        let mut s = "".to_owned();
        let mut i: usize = 0;
        let n = self.elems.len();
        proof {
            assert(para_display(self@.elems.take(0)) == Seq::<char>::empty()) by {
                assert(self@.elems.take(0) =~= Seq::<ParagraphElementView>::empty());
            }
            reveal_strlit("");
            assert(s@ =~= Seq::<char>::empty());
        }
        while i < n
            invariant
                0 <= i <= n,
                n == self.elems@.len(),
                n == self@.elems.len(),
                s@ == para_display(self@.elems.take(i as int)),
            decreases n - i,
        {
            proof {
                assert(self@.elems.take(i + 1).drop_last() =~= self@.elems.take(i as int));
                assert(self@.elems.take(i + 1).last() == self@.elems[i as int]);
                assert(self@.elems[i as int] == self.elems@[i as int]@);
            }
            let es = self.elems[i].display_string();
            s.append(es.as_str());
            i += 1;
        }
        proof {
            assert(self@.elems.take(n as int) =~= self@.elems);
        }
        s
    }
}

} // verus!
