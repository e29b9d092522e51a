//! The link index: every link of a page, in document order, addressable by
//! its bijective base-26 code — link 0 by "a", link 25 by "z", link 26 by
//! "aa", and so on. Rebuilt wholesale from each new page, never updated in
//! place.
use vstd::prelude::*;

verus! {

use crate::parser::{Link, LinkView, Page, ParagraphElement, ParagraphElementView, ParagraphView};
use crate::util::{
    all_lower,
    base26_code_index,
    decode26,
    encode26,
    lemma_base26_canonical,
    lemma_base26_round_trip,
    lemma_encode26_wf,
};

/// The links of one paragraph's runs, in reading order.
pub open spec fn links_of_elems(es: Seq<ParagraphElementView>) -> Seq<LinkView>
    decreases es.len(),
{
    if es.len() == 0 {
        Seq::empty()
    } else {
        links_of_elems(es.drop_last()) + match es.last() {
            ParagraphElementView::Link(l) => seq![l],
            ParagraphElementView::Text { .. } => Seq::<LinkView>::empty(),
        }
    }
}

/// All links of a page, paragraph by paragraph in document order.
pub open spec fn links_of_paragraphs(ps: Seq<ParagraphView>) -> Seq<LinkView>
    decreases ps.len(),
{
    if ps.len() == 0 {
        Seq::empty()
    } else {
        links_of_paragraphs(ps.drop_last()) + links_of_elems(ps.last().elems)
    }
}

/// Maps each link of a page, in document order, to a base-26 code: the
/// i-th link found is reachable under the code of i.
pub struct LinkIndex {
    pub links: Vec<Link>,
}

impl View for LinkIndex {
    type V = Seq<LinkView>;

    open spec fn view(&self) -> Seq<LinkView> {
        Seq::new(self.links@.len(), |i: int| self.links@[i]@)
    }
}

impl LinkIndex {
    /// Whether `code` addresses a link: it must be a well-formed base-26
    /// code and decode to a position below the number of links.
    pub open spec fn spec_contains(self, code: Seq<char>) -> bool {
        code.len() > 0 && all_lower(code) && 0 <= decode26(code) < self@.len()
    }

    /// An index with no links at all.
    pub fn new() -> (r: LinkIndex)
        ensures
            r@ == Seq::<LinkView>::empty(),
    {
        let r = LinkIndex { links: Vec::new() };
        proof {
            assert(r@ =~= Seq::<LinkView>::empty());
        }
        r
    }

    /// Collects every link of the page, in document order.
    pub fn build(page: &Page) -> (r: LinkIndex)
        ensures
            r@ == links_of_paragraphs(page@.paragraphs),
    {
        let mut links: Vec<Link> = Vec::new();
        let mut i: usize = 0;
        let n = page.paragraphs.len();
        let ghost pvs = page@.paragraphs;
        proof {
            assert(links_of_paragraphs(pvs.take(0)) == Seq::<LinkView>::empty()) by {
                assert(pvs.take(0) =~= Seq::<ParagraphView>::empty());
            }
            assert(Seq::new(links@.len(), |k: int| links@[k]@) =~= Seq::<LinkView>::empty());
        }
        while i < n
            invariant
                0 <= i <= n,
                n == page.paragraphs@.len(),
                pvs == page@.paragraphs,
                pvs.len() == n,
                Seq::new(links@.len(), |k: int| links@[k]@) == links_of_paragraphs(
                    pvs.take(i as int),
                ),
            decreases n - i,
        {
            let para = &page.paragraphs[i];
            let ghost evs = pvs[i as int].elems;
            proof {
                assert(pvs[i as int] == page.paragraphs@[i as int]@);
                assert(links_of_elems(evs.take(0)) == Seq::<LinkView>::empty()) by {
                    assert(evs.take(0) =~= Seq::<ParagraphElementView>::empty());
                }
            }
            let mut j: usize = 0;
            let m = para.elems.len();
            let ghost base = Seq::new(links@.len(), |k: int| links@[k]@);
            while j < m
                invariant
                    0 <= j <= m,
                    m == para.elems@.len(),
                    evs == pvs[i as int].elems,
                    evs.len() == m,
                    forall|k: int| 0 <= k < m ==> evs[k] == para.elems@[k]@,
                    Seq::new(links@.len(), |k: int| links@[k]@) == base + links_of_elems(
                        evs.take(j as int),
                    ),
                decreases m - j,
            {
                proof {
                    assert(evs.take(j + 1).drop_last() =~= evs.take(j as int));
                    assert(evs.take(j + 1).last() == evs[j as int]);
                }
                let ghost before = Seq::new(links@.len(), |k: int| links@[k]@);
                match &para.elems[j] {
                    ParagraphElement::Link(l) => {
                        links.push(Link { link: l.link.clone(), text: l.text.clone() });
                        proof {
                            assert(Seq::new(links@.len(), |k: int| links@[k]@) =~= before.push(
                                evs[j as int]->Link_0,
                            ));
                            assert(Seq::new(links@.len(), |k: int| links@[k]@) =~= base
                                + links_of_elems(evs.take(j + 1)));
                        }
                    },
                    ParagraphElement::Text(_c, _e) => {
                        proof {
                            assert(Seq::new(links@.len(), |k: int| links@[k]@) =~= base
                                + links_of_elems(evs.take(j + 1)));
                        }
                    },
                }
                j += 1;
            }
            proof {
                assert(evs.take(m as int) =~= evs);
                assert(pvs.take(i + 1).drop_last() =~= pvs.take(i as int));
                assert(pvs.take(i + 1).last() == pvs[i as int]);
            }
            i += 1;
        }
        proof {
            assert(pvs.take(n as int) =~= pvs);
        }
        let r = LinkIndex { links };
        proof {
            assert(r@ =~= links_of_paragraphs(page@.paragraphs));
        }
        r
    }

    /// How many links the index holds.
    pub fn len(&self) -> (r: usize)
        ensures
            r == self@.len(),
    {
        self.links.len()
    }

    /// Whether a typed code addresses a link of this page.
    pub fn contains(&self, code: &str) -> (r: bool)
        ensures
            r == self.spec_contains(code@),
    {
        let n = self.links.len();
        match base26_code_index(code) {
            Some(i) => i < n,
            None => false,
        }
    }

    /// The link a typed code addresses, if any.
    pub fn get(&self, code: &str) -> (r: Option<&Link>)
        ensures
            match r {
                Some(l) => self.spec_contains(code@) && l@ == self@[decode26(code@)],
                None => !self.spec_contains(code@),
            },
    {
        let n = self.links.len();
        match base26_code_index(code) {
            Some(i) => if i < n {
                Some(&self.links[i])
            } else {
                None
            },
            None => None,
        }
    }
}

/// A prefix of a paragraph's runs holds at most as many links as the whole.
pub proof fn lemma_links_elems_prefix_le(es: Seq<ParagraphElementView>, j: int)
    requires
        0 <= j <= es.len(),
    ensures
        links_of_elems(es.take(j)).len() <= links_of_elems(es).len(),
    decreases es.len() - j,
{
    if j < es.len() {
        lemma_links_elems_prefix_le(es, j + 1);
        assert(es.take(j + 1).drop_last() =~= es.take(j));
        assert(es.take(j + 1).last() == es[j]);
    } else {
        assert(es.take(j) =~= es);
    }
}

/// A prefix of a page's paragraphs holds at most as many links as the whole.
pub proof fn lemma_links_paras_prefix_le(ps: Seq<ParagraphView>, i: int)
    requires
        0 <= i <= ps.len(),
    ensures
        links_of_paragraphs(ps.take(i)).len() <= links_of_paragraphs(ps).len(),
    decreases ps.len() - i,
{
    if i < ps.len() {
        lemma_links_paras_prefix_le(ps, i + 1);
        assert(ps.take(i + 1).drop_last() =~= ps.take(i));
        assert(ps.take(i + 1).last() == ps[i]);
    } else {
        assert(ps.take(i) =~= ps);
    }
}

/// The law of the code assignment: a code addresses a link exactly when it
/// is the canonical code of some link position on the page — position 0
/// under "a", position 25 under "z", position 26 under "aa", and so on.
pub proof fn lemma_link_index_codes(index: LinkIndex, code: Seq<char>)
    ensures
        index.spec_contains(code) <==> exists|i: int|
            0 <= i < index@.len() && #[trigger] encode26(i as nat) == code,
{
    if index.spec_contains(code) {
        lemma_base26_canonical(code);
        let i = decode26(code);
        assert(encode26(i as nat) == code);
        assert(0 <= i < index@.len() && encode26(i as nat) == code);
    }
    if exists|i: int| 0 <= i < index@.len() && #[trigger] encode26(i as nat) == code {
        let i = choose|i: int| 0 <= i < index@.len() && #[trigger] encode26(i as nat) == code;
        lemma_encode26_wf(i as nat);
        lemma_base26_round_trip(i as nat);
        assert(decode26(code) == i);
    }
}

} // verus!
