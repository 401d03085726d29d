//! The style pass on its own: one computed style per document node, in a
//! single top-down traversal (a parent's style is ready before its
//! children's).
use vstd::prelude::*;
use crate::dom::{Document, Node, ElementData, NodeV, lemma_children_view};
use crate::error::RenderError;
use crate::layout::{StyleFn, style_of, style_fn, no_style, lemma_same_fn, lemma_computed, MAX_DEPTH};
use crate::style::{ComputedStyle, compute_style, inherited_values, inheritable, lookup};
use crate::stylesheet::{Stylesheet, RuleV, declarations_view};

verus! {

broadcast use vstd::std_specs::vec::group_vec_axioms;

/// A document node's computed style, with its children's.
pub struct StyledNode {
    pub style: ComputedStyle,
    pub children: Vec<StyledNode>,
}

pub ghost struct StyledV {
    pub style: StyleFn,
    pub children: Seq<StyledV>,
}

impl StyledNode {
    pub open spec fn view(&self) -> StyledV
        decreases self,
    {
        StyledV {
            style: style_fn(self.style),
            children: Seq::new(
                self.children@.len(),
                |i: int|
                    if 0 <= i < self.children@.len() {
                        self.children@[i].view()
                    } else {
                        StyledV { style: no_style(), children: Seq::empty() }
                    },
            ),
        }
    }
}

/// What a text node inherits from its parent element.
pub open spec fn text_style(parent: StyleFn) -> StyleFn {
    |p: Seq<char>|
        if inheritable(p) {
            parent(p)
        } else {
            None
        }
}

/// The styles of an element's subtree, given its own style; elements may
/// nest `depth` levels more below it.
pub open spec fn styled_element(children: Seq<NodeV>, rules: Seq<RuleV>, st: StyleFn, depth: int) -> Result<StyledV, ()> {
    match styled_children(children, rules, st, depth) {
        Ok(kids) => Ok(StyledV { style: st, children: kids }),
        Err(_) => Err(()),
    }
}

pub open spec fn styled_children(cs: Seq<NodeV>, rules: Seq<RuleV>, st: StyleFn, depth: int) -> Result<Seq<StyledV>, ()>
    decreases cs,
{
    if cs.len() == 0 {
        Ok(Seq::empty())
    } else {
        match styled_children(cs.drop_last(), rules, st, depth) {
            Err(_) => Err(()),
            Ok(prev) => match cs.last() {
                NodeV::Text(_) => Ok(prev.push(StyledV { style: text_style(st), children: Seq::empty() })),
                NodeV::Element(ce) => if depth <= 0 {
                    Err(())
                } else {
                    let cst = style_of(ce, rules, st);
                    match styled_children(ce.children, rules, cst, depth - 1) {
                        Err(_) => Err(()),
                        Ok(kids) => Ok(prev.push(StyledV { style: cst, children: kids })),
                    }
                },
            },
        }
    }
}

/// The styled tree of a document: the root element styled against no
/// parent.
pub open spec fn styled_document(root: NodeV, rules: Seq<RuleV>) -> Result<StyledV, ()> {
    match root {
        NodeV::Element(e) => styled_element(e.children, rules, style_of(e, rules, no_style()), MAX_DEPTH as int),
        NodeV::Text(_) => Ok(StyledV { style: text_style(no_style()), children: Seq::empty() }),
    }
}

proof fn lemma_styled_err(cs: Seq<NodeV>, k: int, rules: Seq<RuleV>, st: StyleFn, depth: int)
    requires
        0 <= k <= cs.len(),
        styled_children(cs.take(k), rules, st, depth) is Err,
    ensures
        styled_children(cs, rules, st, depth) is Err,
    decreases cs.len() - k,
{
    if k < cs.len() {
        assert(cs.take(k + 1).drop_last() =~= cs.take(k));
        lemma_styled_err(cs, k + 1, rules, st, depth);
    } else {
        assert(cs.take(k) =~= cs);
    }
}

/// The inheritable entries of a style.
fn inherited_only(parent: &ComputedStyle) -> (r: ComputedStyle)
    ensures
        style_fn(r) == text_style(style_fn(*parent)),
{
    let r = ComputedStyle { values: inherited_values(parent) };
    proof {
        assert forall|p: Seq<char>| #[trigger] style_fn(r)(p) == text_style(style_fn(*parent))(p) by {
            assert(lookup(declarations_view(r.values@), p) == if inheritable(p) {
                lookup(parent@, p)
            } else {
                None
            });
        }
        lemma_same_fn(style_fn(r), text_style(style_fn(*parent)));
    }
    r
}

fn style_element(
    e: &ElementData,
    sheet: &Stylesheet,
    style: ComputedStyle,
    Ghost(st): Ghost<StyleFn>,
    depth: usize,
) -> (r: Result<StyledNode, RenderError>)
    requires
        style_fn(style) == st,
    ensures
        match styled_element(e@.children, sheet@, st, depth as int) {
            Ok(s) => r is Ok && r->Ok_0@ == s,
            Err(_) => r == Err::<StyledNode, RenderError>(RenderError::StructureError),
        },
    decreases e,
{
    let ghost rules = sheet@;
    let ghost cs = e@.children;
    proof {
        lemma_children_view(*e);
    }
    let n = e.children.len();
    let mut kids: Vec<StyledNode> = Vec::new();
    let mut i: usize = 0;
    assert(cs.take(0) =~= Seq::<NodeV>::empty());
    assert(Seq::new(kids@.len(), |j: int| kids@[j]@) =~= Seq::<StyledV>::empty());
    while i < n
        invariant
            n == e.children@.len() == cs.len(),
            cs == e@.children,
            rules == sheet@,
            style_fn(style) == st,
            i <= n,
            styled_children(cs.take(i as int), rules, st, depth as int) == Ok::<Seq<StyledV>, ()>(
                Seq::new(kids@.len(), |j: int| kids@[j]@),
            ),
        decreases n - i,
    {
        assert(cs.take(i + 1).drop_last() =~= cs.take(i as int));
        assert(cs.take(i + 1).last() == cs[i as int]);
        assert(cs[i as int] == e.children@[i as int]@);
        let ghost before = Seq::new(kids@.len(), |j: int| kids@[j]@);
        match &e.children[i] {
            Node::Text(_) => {
                let s = inherited_only(&style);
                let k = StyledNode { style: s, children: Vec::new() };
                assert(k@.children =~= Seq::<StyledV>::empty());
                let ghost kv = k@;
                kids.push(k);
                assert(Seq::new(kids@.len(), |j: int| kids@[j]@) =~= before.push(kv));
            },
            Node::Element(ce) => {
                if depth == 0 {
                    proof {
                        lemma_styled_err(cs, i + 1, rules, st, depth as int);
                    }
                    return Err(RenderError::StructureError);
                }
                let cstyle = compute_style(ce, sheet, &style);
                proof {
                    lemma_computed(ce@, rules, style, st, cstyle);
                }
                match style_element(ce, sheet, cstyle, Ghost(style_of(ce@, rules, st)), depth - 1) {
                    Err(x) => {
                        proof {
                            lemma_styled_err(cs, i + 1, rules, st, depth as int);
                        }
                        return Err(x);
                    },
                    Ok(k) => {
                        let ghost kv = k@;
                        kids.push(k);
                        assert(Seq::new(kids@.len(), |j: int| kids@[j]@) =~= before.push(kv));
                    },
                }
            },
        }
        i = i + 1;
    }
    assert(cs.take(n as int) =~= cs);
    let r = StyledNode { style, children: kids };
    assert(r@.children =~= Seq::new(kids@.len(), |j: int| kids@[j]@));
    Ok(r)
}

/// Resolves the style of every node of a document, parents before
/// children. Fails with a structure error when elements nest deeper than
/// `MAX_DEPTH`.
pub fn resolve_styles(doc: &Document, sheet: &Stylesheet) -> (r: Result<StyledNode, RenderError>)
    ensures
        match styled_document(doc@, sheet@) {
            Ok(s) => r is Ok && r->Ok_0@ == s,
            Err(_) => r == Err::<StyledNode, RenderError>(RenderError::StructureError),
        },
{
    let empty = ComputedStyle::new();
    proof {
        assert forall|p: Seq<char>| #[trigger] style_fn(empty)(p) == no_style()(p) by {}
        lemma_same_fn(style_fn(empty), no_style());
    }
    match &doc.root {
        Node::Element(e) => {
            let style = compute_style(e, sheet, &empty);
            proof {
                lemma_computed(e@, sheet@, empty, no_style(), style);
            }
            style_element(e, sheet, style, Ghost(style_of(e@, sheet@, no_style())), MAX_DEPTH)
        },
        Node::Text(_) => {
            let s = inherited_only(&empty);
            let r = StyledNode { style: s, children: Vec::new() };
            assert(r@.children =~= Seq::<StyledV>::empty());
            Ok(r)
        },
    }
}

} // verus!
