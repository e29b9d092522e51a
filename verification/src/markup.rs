//! Model of a parsed markup document: a tree of elements (with name and
//! attributes) and text nodes, together with the traversals the extractor
//! needs — selecting elements by name in document order, flattening the text
//! under a node, and looking up an attribute. The tree is produced by an
//! outside markup parser behind a trusted boundary; every traversal here is
//! verified.
use vstd::prelude::*;

verus! {

pub struct MarkupAttr {
    pub name: Vec<char>,
    pub value: Vec<char>,
}

pub enum MarkupNode {
    Elem(MarkupElem),
    Text(Vec<char>),
}

pub struct MarkupElem {
    pub name: Vec<char>,
    pub attrs: Vec<MarkupAttr>,
    pub children: Vec<MarkupNode>,
}

pub struct MarkupAttrView {
    pub name: Seq<char>,
    pub value: Seq<char>,
}

pub enum MarkupNodeView {
    Elem(MarkupElemView),
    Text(Seq<char>),
}

pub struct MarkupElemView {
    pub name: Seq<char>,
    pub attrs: Seq<MarkupAttrView>,
    pub children: Seq<MarkupNodeView>,
}

impl View for MarkupAttr {
    type V = MarkupAttrView;

    open spec fn view(&self) -> MarkupAttrView {
        MarkupAttrView { name: self.name@, value: self.value@ }
    }
}

pub open spec fn elem_view(e: MarkupElem) -> MarkupElemView
    decreases e,
{
    MarkupElemView {
        name: e.name@,
        attrs: Seq::new(e.attrs@.len(), |i: int| e.attrs@[i]@),
        children: nodes_view(e.children@),
    }
}

pub open spec fn node_view(n: MarkupNode) -> MarkupNodeView
    decreases n,
{
    match n {
        MarkupNode::Elem(e) => MarkupNodeView::Elem(elem_view(e)),
        MarkupNode::Text(t) => MarkupNodeView::Text(t@),
    }
}

pub open spec fn nodes_view(v: Seq<MarkupNode>) -> Seq<MarkupNodeView>
    decreases v,
{
    if v.len() == 0 {
        Seq::empty()
    } else {
        nodes_view(v.drop_last()).push(node_view(v.last()))
    }
}

pub proof fn lemma_nodes_view(v: Seq<MarkupNode>)
    ensures
        nodes_view(v).len() == v.len(),
        forall|i: int| 0 <= i < v.len() ==> nodes_view(v)[i] == node_view(v[i]),
    decreases v,
{
    if v.len() > 0 {
        lemma_nodes_view(v.drop_last());
        assert(forall|i: int|
            0 <= i < v.len() - 1 ==> #[trigger] v.drop_last()[i] == v[i]);
    }
}

impl View for MarkupElem {
    type V = MarkupElemView;

    open spec fn view(&self) -> MarkupElemView {
        elem_view(*self)
    }
}

impl View for MarkupNode {
    type V = MarkupNodeView;

    open spec fn view(&self) -> MarkupNodeView {
        node_view(*self)
    }
}

/// All text under a node, in document order.
pub open spec fn flat_text_node(n: MarkupNodeView) -> Seq<char>
    decreases n,
{
    match n {
        MarkupNodeView::Text(t) => t,
        MarkupNodeView::Elem(e) => flat_text_of(e.children),
    }
}

pub open spec fn flat_text_of(cs: Seq<MarkupNodeView>) -> Seq<char>
    decreases cs,
{
    if cs.len() == 0 {
        Seq::empty()
    } else {
        flat_text_of(cs.drop_last()) + flat_text_node(cs.last())
    }
}

/// The elements named `name` in the subtree rooted at `n`, in document
/// (pre-)order, the root included when it matches.
pub open spec fn select_node(n: MarkupNodeView, name: Seq<char>) -> Seq<MarkupElemView>
    decreases n,
{
    match n {
        MarkupNodeView::Text(_) => Seq::empty(),
        MarkupNodeView::Elem(e) => (if e.name == name {
            seq![e]
        } else {
            Seq::empty()
        }) + select_children(e.children, name),
    }
}

pub open spec fn select_children(cs: Seq<MarkupNodeView>, name: Seq<char>) -> Seq<MarkupElemView>
    decreases cs,
{
    if cs.len() == 0 {
        Seq::empty()
    } else {
        select_node(cs.first(), name) + select_children(cs.drop_first(), name)
    }
}

/// The value of the first attribute named `name`, if any.
pub open spec fn attr_of(attrs: Seq<MarkupAttrView>, name: Seq<char>) -> Option<Seq<char>>
    decreases attrs.len(),
{
    if attrs.len() == 0 {
        None
    } else if attrs.first().name == name {
        Some(attrs.first().value)
    } else {
        attr_of(attrs.drop_first(), name)
    }
}

pub open spec fn elem_refs_view(v: Seq<&MarkupElem>) -> Seq<MarkupElemView> {
    Seq::new(v.len(), |i: int| elem_view(*v[i]))
}

impl MarkupElem {
    /// The value of this element's first attribute named `name`, if any.
    pub fn attr<'a>(&'a self, name: &Vec<char>) -> (r: Option<&'a Vec<char>>)
        ensures
            match r {
                Some(v) => attr_of(elem_view(*self).attrs, name@) == Some(v@),
                None => attr_of(elem_view(*self).attrs, name@) is None,
            },
    {
        let mut i: usize = 0;
        let n = self.attrs.len();
        proof {
            assert(elem_view(*self).attrs.skip(0) =~= elem_view(*self).attrs);
        }
        while i < n
            invariant
                0 <= i <= n,
                n == self.attrs@.len(),
                n == elem_view(*self).attrs.len(),
                attr_of(elem_view(*self).attrs, name@) == attr_of(
                    elem_view(*self).attrs.skip(i as int),
                    name@,
                ),
            decreases n - i,
        {
            let ghost rest = elem_view(*self).attrs.skip(i as int);
            proof {
                assert(rest.first() == elem_view(*self).attrs[i as int]);
                assert(elem_view(*self).attrs[i as int] == self.attrs@[i as int]@);
                assert(rest.drop_first() =~= elem_view(*self).attrs.skip(i + 1));
            }
            if crate::text::chars_eq(&self.attrs[i].name, name) {
                return Some(&self.attrs[i].value);
            }
            i += 1;
        }
        proof {
            assert(elem_view(*self).attrs.skip(n as int) =~= Seq::<MarkupAttrView>::empty());
        }
        None
    }
}

/// All text under the given children, in document order.
pub fn flat_text(children: &Vec<MarkupNode>) -> (r: Vec<char>)
    ensures
        r@ == flat_text_of(nodes_view(children@)),
    decreases children,
{
    let mut out: Vec<char> = Vec::new();
    let mut i: usize = 0;
    let n = children.len();
    let ghost vs = nodes_view(children@);
    proof {
        lemma_nodes_view(children@);
        assert(flat_text_of(vs.take(0)) == Seq::<char>::empty()) by {
            assert(vs.take(0) =~= Seq::<MarkupNodeView>::empty());
        }
    }
    while i < n
        invariant
            0 <= i <= n,
            n == children@.len(),
            vs == nodes_view(children@),
            vs.len() == n,
            forall|j: int| 0 <= j < n ==> vs[j] == node_view(children@[j]),
            out@ == flat_text_of(vs.take(i as int)),
        decreases n - i,
    {
        proof {
            assert(vs.take(i + 1).drop_last() =~= vs.take(i as int));
            assert(vs.take(i + 1).last() == vs[i as int]);
        }
        match &children[i] {
            MarkupNode::Text(t) => {
                crate::text::append_chars(&mut out, t);
                proof {
                    assert(flat_text_node(vs[i as int]) == t@);
                }
            },
            MarkupNode::Elem(e) => {
                let sub = flat_text(&e.children);
                crate::text::append_chars(&mut out, &sub);
                proof {
                    assert(flat_text_node(vs[i as int]) == flat_text_of(nodes_view(e.children@)));
                }
            },
        }
        proof {
            assert(out@ == flat_text_of(vs.take(i + 1)));
        }
        i += 1;
    }
    proof {
        assert(vs.take(n as int) =~= vs);
    }
    out
}

fn select_into<'a>(out: &mut Vec<&'a MarkupElem>, children: &'a Vec<MarkupNode>, name: &Vec<char>)
    ensures
        elem_refs_view(final(out)@) == elem_refs_view(old(out)@) + select_children(
            nodes_view(children@),
            name@,
        ),
    decreases children,
{
    let mut i: usize = 0;
    let n = children.len();
    let ghost vs = nodes_view(children@);
    proof {
        lemma_nodes_view(children@);
        assert(vs.skip(0) =~= vs);
    }
    while i < n
        invariant
            0 <= i <= n,
            n == children@.len(),
            vs == nodes_view(children@),
            vs.len() == n,
            forall|j: int| 0 <= j < n ==> vs[j] == node_view(children@[j]),
            elem_refs_view(out@) + select_children(vs.skip(i as int), name@) == elem_refs_view(
                old(out)@,
            ) + select_children(vs, name@),
        decreases n - i,
    {
        let ghost rest = vs.skip(i as int);
        proof {
            assert(rest.first() == vs[i as int]);
            assert(rest.drop_first() =~= vs.skip(i + 1));
            assert(select_children(rest, name@) == select_node(vs[i as int], name@)
                + select_children(vs.skip(i + 1), name@));
        }
        match &children[i] {
            MarkupNode::Text(_t) => {
                proof {
                    assert(select_node(vs[i as int], name@) =~= Seq::<MarkupElemView>::empty());
                    assert(elem_refs_view(out@) + select_children(vs.skip(i + 1), name@)
                        =~= elem_refs_view(out@) + select_children(rest, name@));
                }
            },
            MarkupNode::Elem(e) => {
                let ghost before = out@;
                let ghost head = if elem_view(*e).name == name@ {
                    seq![elem_view(*e)]
                } else {
                    Seq::<MarkupElemView>::empty()
                };
                proof {
                    assert(select_node(vs[i as int], name@) == head + select_children(
                        nodes_view(e.children@),
                        name@,
                    ));
                }
                if crate::text::chars_eq(&e.name, name) {
                    out.push(e);
                    proof {
                        assert(elem_refs_view(out@) =~= elem_refs_view(before) + head);
                    }
                } else {
                    proof {
                        assert(elem_refs_view(out@) =~= elem_refs_view(before) + head);
                    }
                }
                let ghost mid = out@;
                select_into(out, &e.children, name);
                proof {
                    assert(elem_refs_view(out@) == elem_refs_view(mid) + select_children(
                        nodes_view(e.children@),
                        name@,
                    ));
                    assert(elem_refs_view(out@) + select_children(vs.skip(i + 1), name@)
                        =~= elem_refs_view(before) + (head + select_children(
                        nodes_view(e.children@),
                        name@,
                    ) + select_children(vs.skip(i + 1), name@)));
                    assert(head + select_children(nodes_view(e.children@), name@)
                        + select_children(vs.skip(i + 1), name@) =~= select_node(
                        vs[i as int],
                        name@,
                    ) + select_children(vs.skip(i + 1), name@));
                    assert(elem_refs_view(before) + (select_node(vs[i as int], name@)
                        + select_children(vs.skip(i + 1), name@)) =~= elem_refs_view(before)
                        + select_children(rest, name@));
                    assert(elem_refs_view(out@) + select_children(vs.skip(i + 1), name@)
                        =~= elem_refs_view(before) + select_children(rest, name@));
                }
            },
        }
        i += 1;
    }
    proof {
        assert(select_children(vs.skip(n as int), name@) == Seq::<MarkupElemView>::empty()) by {
            assert(vs.skip(n as int) =~= Seq::<MarkupNodeView>::empty());
        }
        assert(elem_refs_view(out@) =~= elem_refs_view(out@) + Seq::<MarkupElemView>::empty());
    }
}

/// The elements named `name` in the subtree rooted at `root`, in document
/// order, `root` itself included when it matches.
pub fn select<'a>(root: &'a MarkupElem, name: &Vec<char>) -> (r: Vec<&'a MarkupElem>)
    ensures
        elem_refs_view(r@) == select_node(MarkupNodeView::Elem(elem_view(*root)), name@),
{
    let mut out: Vec<&'a MarkupElem> = Vec::new();
    proof {
        assert(elem_refs_view(out@) =~= Seq::<MarkupElemView>::empty());
    }
    let ghost head = if elem_view(*root).name == name@ {
        seq![elem_view(*root)]
    } else {
        Seq::<MarkupElemView>::empty()
    };
    if crate::text::chars_eq(&root.name, name) {
        out.push(root);
        proof {
            assert(elem_refs_view(out@) =~= head);
        }
    } else {
        proof {
            assert(elem_refs_view(out@) =~= head);
        }
    }
    select_into(&mut out, &root.children, name);
    proof {
        assert(elem_refs_view(out@) =~= head + select_children(
            nodes_view(root.children@),
            name@,
        ));
    }
    out
}

/// What the outside markup parser returns for a given input: a function of
/// the markup text alone.
pub uninterp spec fn markup_tree_of(s: Seq<char>) -> MarkupElemView;

/// Relies on `scraper::Html::parse_document`: parses an HTML document into a
/// fixed tree of element and text nodes determined by the input text alone.
/// The returned root is a synthetic element (empty name) holding the
/// document's top-level nodes.
#[verifier::external_body]
pub fn parse_markup(html: &str) -> (r: MarkupElem)
    ensures
        elem_view(r) == markup_tree_of(html@),
{
    let doc = scraper::Html::parse_document(html);
    MarkupElem { name: Vec::new(), attrs: Vec::new(), children: convert_children(doc.tree.root()) }
}

#[verifier::external_type_specification]
#[verifier::external_body]
#[verifier::reject_recursive_types(T)]
pub struct ExNodeRef<'a, T: 'a>(ego_tree::NodeRef<'a, T>);

#[verifier::external_type_specification]
#[verifier::external_body]
pub struct ExNode(scraper::Node);

/// Relies on `ego_tree::NodeRef::children` and the `scraper` node accessors
/// (`Element::name`, `Element::attrs`, the text of a text node) to copy the
/// parsed tree, child by child in order; nodes that are neither elements nor
/// text (comments, doctypes) are left out.
#[verifier::external_body]
fn convert_children(node: ego_tree::NodeRef<'_, scraper::Node>) -> Vec<MarkupNode> {
    node.children().filter_map(|c| match c.value() {
        scraper::Node::Text(t) => Some(MarkupNode::Text(t.text.chars().collect())),
        scraper::Node::Element(e) => Some(MarkupNode::Elem(MarkupElem {
            name: e.name().chars().collect(),
            attrs: e.attrs().map(
                |(k, v)| MarkupAttr { name: k.chars().collect(), value: v.chars().collect() },
            ).collect(),
            children: convert_children(c),
        })),
        _ => None,
    }).collect()
}

} // verus!
