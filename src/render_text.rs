//! Plain-text renderings of the pipeline's trees, for logs and debugging.
use vstd::prelude::*;
use crate::canvas::{decimal, push_decimal};
use crate::dom::{Document, Node, ElementData, NodeV, lemma_children_view};
use crate::layout::{LayoutBox, BoxV, lemma_box_children_view};
use crate::stylesheet::{Stylesheet, Rule, Selector, SimpleSelector, SelectorV, RuleV, DeclarationV};
use crate::text::push_text;

verus! {

broadcast use vstd::std_specs::vec::group_vec_axioms;

/// A node and its subtree: an element as `<tag>` on its own line followed
/// by each child indented by two spaces, a text as its quoted content.
pub open spec fn node_text(n: NodeV) -> Seq<char>
    decreases n,
{
    match n {
        NodeV::Element(e) => seq!['<'] + e.tag + seq!['>', '\n'] + children_text(e.children),
        NodeV::Text(t) => seq!['"'] + t + seq!['"', '\n'],
    }
}

pub open spec fn children_text(cs: Seq<NodeV>) -> Seq<char>
    decreases cs,
{
    if cs.len() == 0 {
        Seq::empty()
    } else {
        children_text(cs.drop_last()) + seq![' ', ' '] + node_text(cs.last())
    }
}

fn push_element(out: &mut String, e: &ElementData)
    ensures
        final(out)@ == old(out)@ + node_text(NodeV::Element(e@)),
    decreases e,
{
    out.push('<');
    push_text(out, e.tag_name.as_str());
    out.push('>');
    out.push('\n');
    proof {
        lemma_children_view(*e);
    }
    let ghost start = out@;
    let ghost cs = e@.children;
    let k = e.children.len();
    let mut i: usize = 0;
    assert(cs.take(0) =~= Seq::<NodeV>::empty());
    assert(out@ =~= start + children_text(cs.take(0)));
    while i < k
        invariant
            k == e.children@.len() == cs.len(),
            cs == e@.children,
            i <= k,
            out@ == start + children_text(cs.take(i as int)),
        decreases k - i,
    {
        out.push(' ');
        out.push(' ');
        match &e.children[i] {
            Node::Element(ce) => {
                push_element(out, ce);
            },
            Node::Text(t) => {
                push_text_node(out, t);
            },
        }
        assert(cs.take(i + 1).drop_last() =~= cs.take(i as int));
        assert(cs.take(i + 1).last() == e.children@[i as int]@);
        assert(out@ =~= start + children_text(cs.take(i + 1)));
        i = i + 1;
    }
    assert(cs.take(k as int) =~= cs);
    assert(out@ =~= old(out)@ + node_text(NodeV::Element(e@)));
}

fn push_text_node(out: &mut String, t: &String)
    ensures
        final(out)@ == old(out)@ + node_text(NodeV::Text(t@)),
{
    out.push('"');
    push_text(out, t.as_str());
    out.push('"');
    out.push('\n');
    assert(out@ =~= old(out)@ + node_text(NodeV::Text(t@)));
}

fn push_node(out: &mut String, n: &Node)
    ensures
        final(out)@ == old(out)@ + node_text(n@),
{
    match n {
        Node::Element(e) => push_element(out, e),
        Node::Text(t) => push_text_node(out, t),
    }
}

impl Node {
    /// The node and its subtree as text (see `node_text`).
    pub fn to_text(&self) -> (r: String)
        ensures
            r@ == node_text(self@),
    {
        let mut s = String::new();
        push_node(&mut s, self);
        assert(s@ =~= node_text(self@));
        s
    }
}

impl Document {
    /// `Document` on a line of its own, then the root's text.
    pub fn to_text(&self) -> (r: String)
        ensures
            r@ == seq!['D', 'o', 'c', 'u', 'm', 'e', 'n', 't', '\n'] + node_text(self@),
    {
        let mut s = String::new();
        push_text(&mut s, "Document\n");
        push_node(&mut s, &self.root);
        proof {
            reveal_strlit("Document\n");
        }
        assert(s@ =~= seq!['D', 'o', 'c', 'u', 'm', 'e', 'n', 't', '\n'] + node_text(self@));
        s
    }
}

/// A box as `BlockBox (WxH at X,Y)` with its content size (one decimal
/// place) and position, each child on a following line indented by two
/// spaces.
pub open spec fn box_text(b: BoxV) -> Seq<char>
    decreases b,
{
    "BlockBox ("@ + decimal(b.dims.content.width as nat) + ".0x"@ + decimal(
        b.dims.content.height as nat,
    ) + ".0 at "@ + decimal(b.dims.content.x as nat) + ","@ + decimal(b.dims.content.y as nat)
        + ")"@ + boxes_text(b.children)
}

pub open spec fn boxes_text(cs: Seq<BoxV>) -> Seq<char>
    decreases cs,
{
    if cs.len() == 0 {
        Seq::empty()
    } else {
        boxes_text(cs.drop_last()) + "\n  "@ + box_text(cs.last())
    }
}

fn push_box(out: &mut String, b: &LayoutBox)
    ensures
        final(out)@ == old(out)@ + box_text(b@),
    decreases b,
{
    let c = b.dimensions.content;
    push_text(out, "BlockBox (");
    push_decimal(out, c.width);
    push_text(out, ".0x");
    push_decimal(out, c.height);
    push_text(out, ".0 at ");
    push_decimal(out, c.x);
    push_text(out, ",");
    push_decimal(out, c.y);
    push_text(out, ")");
    proof {
        lemma_box_children_view(*b);
    }
    let ghost start = out@;
    let ghost cs = b@.children;
    let k = b.children.len();
    let mut i: usize = 0;
    assert(cs.take(0) =~= Seq::<BoxV>::empty());
    assert(out@ =~= start + boxes_text(cs.take(0)));
    while i < k
        invariant
            k == b.children@.len() == cs.len(),
            cs == b@.children,
            i <= k,
            out@ == start + boxes_text(cs.take(i as int)),
        decreases k - i,
    {
        push_text(out, "\n  ");
        push_box(out, &b.children[i]);
        assert(cs.take(i + 1).drop_last() =~= cs.take(i as int));
        assert(cs.take(i + 1).last() == b.children@[i as int]@);
        assert(out@ =~= start + boxes_text(cs.take(i + 1)));
        i = i + 1;
    }
    assert(cs.take(k as int) =~= cs);
    assert(out@ =~= old(out)@ + box_text(b@));
}

impl LayoutBox {
    /// The box tree as text (see `box_text`).
    pub fn to_text(&self) -> (r: String)
        ensures
            r@ == box_text(self@),
    {
        let mut s = String::new();
        push_box(&mut s, self);
        assert(s@ =~= box_text(self@));
        s
    }
}


pub open spec fn opt_text(o: Option<Seq<char>>) -> Seq<char> {
    match o {
        Some(t) => "Some(\""@ + t + "\")"@,
        None => "None"@,
    }
}

/// Quoted names separated by `, `.
pub open spec fn quoted_list(cs: Seq<Seq<char>>) -> Seq<char>
    decreases cs.len(),
{
    if cs.len() == 0 {
        Seq::empty()
    } else if cs.len() == 1 {
        "\""@ + cs[0] + "\""@
    } else {
        quoted_list(cs.drop_last()) + ", \""@ + cs.last() + "\""@
    }
}

pub open spec fn selector_text(s: SelectorV) -> Seq<char> {
    "Simple(SimpleSelector { tag_name: "@ + opt_text(s.tag) + ", id: "@ + opt_text(s.id)
        + ", class: ["@ + quoted_list(s.classes) + "] })"@
}

pub open spec fn selector_list_text(ss: Seq<SelectorV>) -> Seq<char>
    decreases ss.len(),
{
    if ss.len() == 0 {
        Seq::empty()
    } else if ss.len() == 1 {
        selector_text(ss[0])
    } else {
        selector_list_text(ss.drop_last()) + ", "@ + selector_text(ss.last())
    }
}

pub open spec fn declarations_text(ds: Seq<DeclarationV>) -> Seq<char>
    decreases ds.len(),
{
    if ds.len() == 0 {
        Seq::empty()
    } else {
        declarations_text(ds.drop_last()) + "  "@ + ds.last().name + ": "@ + ds.last().value
            + ";\n"@
    }
}

/// A rule as its selector list in brackets, then `{`, a line per
/// declaration and `}`.
pub open spec fn rule_text(r: RuleV) -> Seq<char> {
    "["@ + selector_list_text(r.selectors) + "] {\n"@ + declarations_text(r.declarations) + "}\n"@
}

pub open spec fn sheet_text(rs: Seq<RuleV>) -> Seq<char>
    decreases rs.len(),
{
    if rs.len() == 0 {
        Seq::empty()
    } else {
        sheet_text(rs.drop_last()) + rule_text(rs.last())
    }
}

fn push_opt(out: &mut String, o: &Option<String>)
    ensures
        final(out)@ == old(out)@ + opt_text(crate::stylesheet::opt_view(*o)),
{
    match o {
        Some(t) => {
            push_text(out, "Some(\"");
            push_text(out, t.as_str());
            push_text(out, "\")");
        },
        None => {
            push_text(out, "None");
        },
    }
    assert(out@ =~= old(out)@ + opt_text(crate::stylesheet::opt_view(*o)));
}

fn push_selector(out: &mut String, s: &SimpleSelector)
    ensures
        final(out)@ == old(out)@ + selector_text(s@),
{
    push_text(out, "Simple(SimpleSelector { tag_name: ");
    push_opt(out, &s.tag_name);
    push_text(out, ", id: ");
    push_opt(out, &s.id);
    push_text(out, ", class: [");
    let ghost start = out@;
    let ghost cs = s@.classes;
    let n = s.class.len();
    let mut i: usize = 0;
    assert(cs.take(0) =~= Seq::<Seq<char>>::empty());
    assert(out@ =~= start + quoted_list(cs.take(0)));
    while i < n
        invariant
            n == s.class@.len() == cs.len(),
            cs == s@.classes,
            i <= n,
            out@ == start + quoted_list(cs.take(i as int)),
        decreases n - i,
    {
        if i > 0 {
            push_text(out, ", \"");
        } else {
            push_text(out, "\"");
        }
        push_text(out, s.class[i].as_str());
        push_text(out, "\"");
        assert(cs.take(i + 1).drop_last() =~= cs.take(i as int));
        assert(cs.take(i + 1).last() == s.class@[i as int]@);
        proof {
            if i == 0 {
                assert(cs.take(1)[0] == s.class@[0]@);
            }
        }
        assert(out@ =~= start + quoted_list(cs.take(i + 1)));
        i = i + 1;
    }
    assert(cs.take(n as int) =~= cs);
    push_text(out, "] })");
    assert(out@ =~= old(out)@ + selector_text(s@));
}

fn push_rule(out: &mut String, r: &Rule)
    ensures
        final(out)@ == old(out)@ + rule_text(r@),
{
    push_text(out, "[");
    let ghost start = out@;
    let ghost ss = r@.selectors;
    let n = r.selectors.len();
    let mut i: usize = 0;
    assert(ss.take(0) =~= Seq::<SelectorV>::empty());
    assert(out@ =~= start + selector_list_text(ss.take(0)));
    while i < n
        invariant
            n == r.selectors@.len() == ss.len(),
            ss == r@.selectors,
            i <= n,
            out@ == start + selector_list_text(ss.take(i as int)),
        decreases n - i,
    {
        if i > 0 {
            push_text(out, ", ");
        }
        match &r.selectors[i] {
            Selector::Simple(s) => push_selector(out, s),
        }
        assert(ss.take(i + 1).drop_last() =~= ss.take(i as int));
        assert(ss.take(i + 1).last() == r.selectors@[i as int]@);
        proof {
            if i == 0 {
                assert(ss.take(1)[0] == r.selectors@[0]@);
            }
        }
        assert(out@ =~= start + selector_list_text(ss.take(i + 1)));
        i = i + 1;
    }
    assert(ss.take(n as int) =~= ss);
    push_text(out, "] {\n");
    let ghost mid = out@;
    let ghost ds = r@.declarations;
    let m = r.declarations.len();
    let mut j: usize = 0;
    assert(ds.take(0) =~= Seq::<DeclarationV>::empty());
    assert(out@ =~= mid + declarations_text(ds.take(0)));
    while j < m
        invariant
            m == r.declarations@.len() == ds.len(),
            ds == r@.declarations,
            j <= m,
            out@ == mid + declarations_text(ds.take(j as int)),
        decreases m - j,
    {
        let d = &r.declarations[j];
        push_text(out, "  ");
        push_text(out, d.name.as_str());
        push_text(out, ": ");
        push_text(out, d.value.as_str());
        push_text(out, ";\n");
        assert(ds.take(j + 1).drop_last() =~= ds.take(j as int));
        assert(ds.take(j + 1).last() == d@);
        assert(out@ =~= mid + declarations_text(ds.take(j + 1)));
        j = j + 1;
    }
    assert(ds.take(m as int) =~= ds);
    push_text(out, "}\n");
    assert(out@ =~= old(out)@ + rule_text(r@));
}

impl Stylesheet {
    /// Every rule as text (see `rule_text`), in order.
    pub fn to_text(&self) -> (r: String)
        ensures
            r@ == sheet_text(self@),
    {
        let mut out = String::new();
        let ghost rs = self@;
        let n = self.rules.len();
        let mut i: usize = 0;
        assert(rs.take(0) =~= Seq::<RuleV>::empty());
        assert(out@ =~= sheet_text(rs.take(0)));
        while i < n
            invariant
                n == self.rules@.len() == rs.len(),
                rs == self@,
                i <= n,
                out@ == sheet_text(rs.take(i as int)),
            decreases n - i,
        {
            push_rule(&mut out, &self.rules[i]);
            assert(rs.take(i + 1).drop_last() =~= rs.take(i as int));
            assert(rs.take(i + 1).last() == self.rules@[i as int]@);
            i = i + 1;
        }
        assert(rs.take(n as int) =~= rs);
        out
    }
}

} // verus!
