//! A plain model of parsed markup: the element/text tree the feed parser
//! walks, with the search for the delay container and its entry texts.

use vstd::prelude::*;
use crate::chars::check_match_at;

verus! {

/// A node of parsed markup, holding exactly what the feed logic reads:
/// class lists, child lists, and text content.
#[derive(Debug)]
pub enum HtmlNode {
    Element(HtmlElement),
    Text(String),
    Comment(String),
}

#[derive(Debug)]
pub struct HtmlElement {
    pub classes: Vec<String>,
    pub children: Vec<HtmlNode>,
}

/// Mathematical image of a node tree.
pub enum HtmlNodeView {
    Element { classes: Seq<Seq<char>>, children: Seq<HtmlNodeView> },
    Text(Seq<char>),
    Comment(Seq<char>),
}

/// The tree a node denotes.
pub open spec fn node_view(n: HtmlNode) -> HtmlNodeView
    decreases n,
{
    match n {
        HtmlNode::Element(e) => HtmlNodeView::Element {
            classes: e.classes.deep_view(),
            children: nodes_view(e.children@),
        },
        HtmlNode::Text(t) => HtmlNodeView::Text(t@),
        HtmlNode::Comment(t) => HtmlNodeView::Comment(t@),
    }
}

/// The trees a node list denotes.
pub open spec fn nodes_view(ns: Seq<HtmlNode>) -> Seq<HtmlNodeView>
    decreases ns,
{
    if ns.len() == 0 {
        Seq::empty()
    } else {
        seq![node_view(ns[0])] + nodes_view(ns.drop_first())
    }
}

pub proof fn lemma_nodes_view(ns: Seq<HtmlNode>)
    ensures
        nodes_view(ns).len() == ns.len(),
        forall|i: int| 0 <= i < ns.len() ==> nodes_view(ns)[i] == node_view(ns[i]),
    decreases ns,
{
    if ns.len() > 0 {
        lemma_nodes_view(ns.drop_first());
    }
}

impl View for HtmlNode {
    type V = HtmlNodeView;

    open spec fn view(&self) -> HtmlNodeView {
        node_view(*self)
    }
}

impl DeepView for HtmlNode {
    type V = HtmlNodeView;

    open spec fn deep_view(&self) -> HtmlNodeView {
        node_view(*self)
    }
}

/// The class that marks the container of delay entries in the feed page.
pub open spec fn container_class() -> Seq<char> {
    "delayform-list"@
}

/// First element, in document order, among these trees whose class list
/// holds the container class.
pub open spec fn spec_find_container_in_nodes(ns: Seq<HtmlNodeView>) -> Option<HtmlNodeView>
    decreases ns,
{
    if ns.len() == 0 {
        None
    } else {
        match spec_find_container_in_node(ns[0]) {
            Some(e) => Some(e),
            None => spec_find_container_in_nodes(ns.drop_first()),
        }
    }
}

pub open spec fn spec_find_container_in_node(n: HtmlNodeView) -> Option<HtmlNodeView>
    decreases n,
{
    match n {
        HtmlNodeView::Element { classes, children } => {
            if classes.contains(container_class()) {
                Some(n)
            } else {
                spec_find_container_in_nodes(children)
            }
        },
        _ => None,
    }
}

/// The delay entries of a container: the text of the first child of each
/// direct element child that begins with a text node.
pub open spec fn spec_entry_texts(children: Seq<HtmlNodeView>) -> Seq<Seq<char>>
    decreases children,
{
    if children.len() == 0 {
        Seq::empty()
    } else {
        let rest = spec_entry_texts(children.drop_first());
        match children[0] {
            HtmlNodeView::Element { classes, children: ch } => {
                if ch.len() > 0 {
                    match ch[0] {
                        HtmlNodeView::Text(t) => seq![t] + rest,
                        _ => rest,
                    }
                } else {
                    rest
                }
            },
            _ => rest,
        }
    }
}

/// Two strings hold the same characters.
pub fn str_eq_str(a: &str, b: &str) -> (r: bool)
    ensures
        r == (a@ == b@),
{
    if a.unicode_len() != b.unicode_len() {
        return false;
    }
    let r = check_match_at(a, b, 0);
    proof {
        assert(a@.subrange(0, a@.len() as int) =~= a@);
    }
    r
}

fn contains_class(classes: &Vec<String>, target: &str) -> (r: bool)
    ensures
        r == classes.deep_view().contains(target@),
{
    let mut j: usize = 0;
    while j < classes.len()
        invariant
            0 <= j <= classes@.len(),
            forall|k: int| 0 <= k < j ==> classes.deep_view()[k] != target@,
        decreases classes@.len() - j,
    {
        if str_eq_str(classes[j].as_str(), target) {
            assert(classes.deep_view()[j as int] == target@);
            return true;
        }
        j = j + 1;
    }
    assert(!classes.deep_view().contains(target@));
    false
}

/// Search these nodes and their descendants, in document order, for the
/// first element carrying the container class.
pub fn find_container_in_nodes(ns: &Vec<HtmlNode>) -> (r: Option<&HtmlElement>)
    ensures
        match r {
            Some(el) => spec_find_container_in_nodes(nodes_view(ns@)) == Some(
                (HtmlNodeView::Element {
                    classes: el.classes.deep_view(),
                    children: nodes_view(el.children@),
                }),
            ),
            None => spec_find_container_in_nodes(nodes_view(ns@)) is None,
        },
    decreases ns@,
{
    let ghost dv = nodes_view(ns@);
    proof {
        lemma_nodes_view(ns@);
        assert(dv.skip(0) =~= dv);
    }
    let mut i: usize = 0;
    while i < ns.len()
        invariant
            0 <= i <= ns@.len(),
            dv == nodes_view(ns@),
            dv.len() == ns@.len(),
            forall|k: int| 0 <= k < ns@.len() ==> dv[k] == node_view(ns@[k]),
            spec_find_container_in_nodes(dv) == spec_find_container_in_nodes(dv.skip(i as int)),
        decreases ns@.len() - i,
    {
        proof {
            assert(dv.skip(i as int)[0] == dv[i as int]);
            assert(dv.skip(i as int).drop_first() =~= dv.skip(i + 1));
        }
        match &ns[i] {
            HtmlNode::Element(e) => {
                proof {
                    assert(dv[i as int] == (HtmlNodeView::Element {
                        classes: e.classes.deep_view(),
                        children: nodes_view(e.children@),
                    }));
                }
                if contains_class(&e.classes, "delayform-list") {
                    proof {
                        assert(spec_find_container_in_node(dv[i as int]) == Some(dv[i as int]));
                        assert(spec_find_container_in_nodes(dv.skip(i as int)) == Some(
                            dv[i as int],
                        ));
                    }
                    return Some(e);
                }
                proof {
                    let ghost n_i = ns@[i as int];
                    assert(decreases_to!(ns@ => n_i));
                    assert(decreases_to!(n_i => n_i->Element_0));
                    assert(decreases_to!(e.children => e.children@));
                }
                let sub = find_container_in_nodes(&e.children);
                match sub {
                    Some(el) => {
                        proof {
                            assert(spec_find_container_in_node(dv[i as int])
                                == spec_find_container_in_nodes(nodes_view(e.children@)));
                            assert(spec_find_container_in_nodes(dv.skip(i as int))
                                == spec_find_container_in_node(dv[i as int]));
                        }
                        return Some(el);
                    },
                    None => {},
                }
            },
            HtmlNode::Text(_) => {},
            HtmlNode::Comment(_) => {},
        }
        i = i + 1;
    }
    proof {
        assert(dv.skip(i as int) =~= Seq::<HtmlNodeView>::empty());
    }
    None
}

/// Collect the delay entry texts below a container element.
pub fn collect_entry_texts(children: &Vec<HtmlNode>) -> (r: Vec<String>)
    ensures
        r.deep_view() == spec_entry_texts(nodes_view(children@)),
{
    let ghost dv = nodes_view(children@);
    proof {
        lemma_nodes_view(children@);
        assert(dv.skip(0) =~= dv);
        assert(Seq::<Seq<char>>::empty() + spec_entry_texts(dv) =~= spec_entry_texts(dv));
    }
    let mut out: Vec<String> = Vec::new();
    let mut i: usize = 0;
    while i < children.len()
        invariant
            0 <= i <= children@.len(),
            dv == nodes_view(children@),
            dv.len() == children@.len(),
            forall|k: int| 0 <= k < children@.len() ==> dv[k] == node_view(children@[k]),
            spec_entry_texts(dv) == out.deep_view() + spec_entry_texts(dv.skip(i as int)),
        decreases children@.len() - i,
    {
        proof {
            assert(dv.skip(i as int)[0] == dv[i as int]);
            assert(dv.skip(i as int).drop_first() =~= dv.skip(i + 1));
        }
        let ghost out0 = out.deep_view();
        match &children[i] {
            HtmlNode::Element(e) => {
                proof {
                    assert(dv[i as int] == (HtmlNodeView::Element {
                        classes: e.classes.deep_view(),
                        children: nodes_view(e.children@),
                    }));
                    lemma_nodes_view(e.children@);
                }
                if e.children.len() > 0 {
                    match &e.children[0] {
                        HtmlNode::Text(t) => {
                            out.push(t.clone());
                            proof {
                                assert(out.deep_view() =~= out0.push(t@));
                                assert(nodes_view(e.children@)[0] == HtmlNodeView::Text(t@));
                                assert(out.deep_view() + spec_entry_texts(dv.skip(i + 1)) =~= out0
                                    + (seq![t@] + spec_entry_texts(dv.skip(i + 1))));
                            }
                        },
                        HtmlNode::Element(_) => {
                            proof {
                                assert(nodes_view(e.children@)[0] == node_view(e.children@[0]));
                            }
                        },
                        HtmlNode::Comment(_) => {
                            proof {
                                assert(nodes_view(e.children@)[0] == node_view(e.children@[0]));
                            }
                        },
                    }
                }
            },
            HtmlNode::Text(_) => {},
            HtmlNode::Comment(_) => {},
        }
        i = i + 1;
    }
    proof {
        assert(dv.skip(i as int) =~= Seq::<HtmlNodeView>::empty());
        assert(out.deep_view() + Seq::<Seq<char>>::empty() =~= out.deep_view());
    }
    out
}

} // verus!
