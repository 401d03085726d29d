//! The document tree produced by the tree builder.
use vstd::prelude::*;

verus! {

broadcast use vstd::std_specs::vec::group_vec_axioms;

/// A whole parsed document: one owned root element.
pub struct Document {
    pub root: Node,
}

pub enum Node {
    Element(ElementData),
    Text(String),
}

pub struct Attribute {
    pub name: String,
    pub value: String,
}

pub struct ElementData {
    pub tag_name: String,
    pub attributes: Vec<Attribute>,
    pub children: Vec<Node>,
}

/// The mathematical form of an element: tag, attributes in source order
/// (name, value) and children.
pub ghost struct ElementV {
    pub tag: Seq<char>,
    pub attrs: Seq<(Seq<char>, Seq<char>)>,
    pub children: Seq<NodeV>,
}

pub ghost enum NodeV {
    Element(ElementV),
    Text(Seq<char>),
}

impl Attribute {
    pub open spec fn view(&self) -> (Seq<char>, Seq<char>) {
        (self.name@, self.value@)
    }
}

pub open spec fn attrs_view(a: Seq<Attribute>) -> Seq<(Seq<char>, Seq<char>)> {
    Seq::new(a.len(), |i: int| a[i]@)
}

impl ElementData {
    pub open spec fn view(&self) -> ElementV
        decreases self,
    {
        ElementV {
            tag: self.tag_name@,
            attrs: attrs_view(self.attributes@),
            children: Seq::new(
                self.children@.len(),
                |i: int|
                    if 0 <= i < self.children@.len() {
                        self.children@[i].view()
                    } else {
                        NodeV::Text(Seq::empty())
                    },
            ),
        }
    }
}

impl Node {
    pub open spec fn view(&self) -> NodeV
        decreases self,
    {
        match self {
            Node::Element(e) => NodeV::Element(e.view()),
            Node::Text(t) => NodeV::Text(t@),
        }
    }
}

impl Document {
    pub open spec fn view(&self) -> NodeV {
        self.root@
    }
}

/// The views of a sequence of nodes.
pub open spec fn nodes_view(s: Seq<Node>) -> Seq<NodeV> {
    Seq::new(s.len(), |i: int| s[i]@)
}

pub proof fn lemma_children_view(e: ElementData)
    ensures
        e@.children == nodes_view(e.children@),
{
    assert(e@.children =~= nodes_view(e.children@));
}

/// How many element levels a node spans: a text node spans none.
pub open spec fn node_depth(n: NodeV) -> nat
    decreases n,
{
    match n {
        NodeV::Element(e) => 1 + children_depth(e.children),
        NodeV::Text(_) => 0,
    }
}

/// The greatest depth among a sequence of sibling nodes (0 when empty).
pub open spec fn children_depth(cs: Seq<NodeV>) -> nat
    decreases cs,
{
    if cs.len() == 0 {
        0
    } else {
        let a = children_depth(cs.drop_last());
        let b = node_depth(cs.last());
        if a >= b { a } else { b }
    }
}

/// The nesting depth of a document: the element levels below its root.
pub open spec fn document_depth(d: NodeV) -> nat {
    match d {
        NodeV::Element(e) => children_depth(e.children),
        NodeV::Text(_) => 0,
    }
}

} // verus!
