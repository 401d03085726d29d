//! The tree builder: a state machine over HTML tokens with a stack of open
//! elements, producing a well-formed document for every input.
use vstd::prelude::*;
use crate::dom::{Document, Node, ElementData, ElementV, NodeV, nodes_view, lemma_children_view};
use crate::html_tokenizer::{Token, TokenV};
use crate::text::same_text;

verus! {

broadcast use vstd::std_specs::vec::group_vec_axioms;

/// Whether a tag names a void element, which never holds children.
pub open spec fn is_void(name: Seq<char>) -> bool {
    name == "area"@ || name == "base"@ || name == "br"@ || name == "col"@ || name == "embed"@
        || name == "hr"@ || name == "img"@ || name == "input"@ || name == "link"@ || name
        == "meta"@ || name == "source"@ || name == "track"@ || name == "wbr"@
}

/// The stack with `n` appended as the last child of its top element.
pub open spec fn with_child(st: Seq<ElementV>, n: NodeV) -> Seq<ElementV> {
    let top = st.last();
    st.update(
        st.len() - 1,
        ElementV { tag: top.tag, attrs: top.attrs, children: top.children.push(n) },
    )
}

/// Closes the top element: it becomes the last child of the element below.
pub open spec fn pop_into(st: Seq<ElementV>) -> Seq<ElementV> {
    with_child(st.drop_last(), NodeV::Element(st.last()))
}

/// Closes every open element; the bottom of the stack is the result.
pub open spec fn close_all(st: Seq<ElementV>) -> ElementV
    decreases st.len(),
{
    if st.len() <= 1 {
        st[0]
    } else {
        close_all(pop_into(st))
    }
}

/// Closes elements until the stack holds `j` of them (never the bottom one).
pub open spec fn pop_to(st: Seq<ElementV>, j: int) -> Seq<ElementV>
    decreases st.len(),
{
    if st.len() <= j || st.len() <= 1 {
        st
    } else {
        pop_to(pop_into(st), j)
    }
}

/// The highest index `1 <= i <= k` whose element has the tag, or 0.
pub open spec fn find_open(st: Seq<ElementV>, name: Seq<char>, k: int) -> int
    decreases k,
{
    if k < 1 {
        0
    } else if st[k].tag == name {
        k
    } else {
        find_open(st, name, k - 1)
    }
}

/// Appends a character to the text child at the end of the top element,
/// starting a new text child when the last child is not text.
pub open spec fn add_char(st: Seq<ElementV>, c: char) -> Seq<ElementV> {
    let top = st.last();
    let cs = top.children;
    if cs.len() > 0 && cs.last() is Text {
        st.update(
            st.len() - 1,
            ElementV {
                tag: top.tag,
                attrs: top.attrs,
                children: cs.update(cs.len() - 1, NodeV::Text(cs.last()->Text_0.push(c))),
            },
        )
    } else {
        with_child(st, NodeV::Text(seq![c]))
    }
}

/// One transition of the tree builder.
pub open spec fn step(st: Seq<ElementV>, t: TokenV) -> Seq<ElementV> {
    match t {
        TokenV::StartTag(n, a) => {
            let e = ElementV { tag: n, attrs: a, children: Seq::empty() };
            if is_void(n) {
                with_child(st, NodeV::Element(e))
            } else {
                st.push(e)
            }
        },
        TokenV::EndTag(n) => {
            let j = find_open(st, n, st.len() - 1);
            if j >= 1 {
                pop_to(st, j)
            } else {
                st
            }
        },
        TokenV::Character(c) => add_char(st, c),
        TokenV::Eof => st,
    }
}

/// The stack after processing the tokens in order.
pub open spec fn run(st: Seq<ElementV>, toks: Seq<TokenV>) -> Seq<ElementV>
    decreases toks.len(),
{
    if toks.len() == 0 {
        st
    } else {
        step(run(st, toks.drop_last()), toks.last())
    }
}

/// The stack a builder starts with: the synthetic root element alone.
pub open spec fn initial_stack() -> Seq<ElementV> {
    seq![ElementV { tag: "html"@, attrs: Seq::empty(), children: Seq::empty() }]
}

/// The document that a sequence of tokens builds.
pub open spec fn build(toks: Seq<TokenV>) -> NodeV {
    NodeV::Element(close_all(run(initial_stack(), toks)))
}

pub proof fn lemma_run_len(toks: Seq<TokenV>)
    ensures
        run(initial_stack(), toks).len() >= 1,
    decreases toks.len(),
{
    if toks.len() > 0 {
        lemma_run_len(toks.drop_last());
        lemma_step_len(run(initial_stack(), toks.drop_last()), toks.last());
    }
}

pub proof fn lemma_pop_to_len(st: Seq<ElementV>, j: int)
    requires
        st.len() >= 1,
    ensures
        pop_to(st, j).len() >= 1,
    decreases st.len(),
{
    if !(st.len() <= j || st.len() <= 1) {
        lemma_pop_to_len(pop_into(st), j);
    }
}

pub proof fn lemma_step_len(st: Seq<ElementV>, t: TokenV)
    requires
        st.len() >= 1,
    ensures
        step(st, t).len() >= 1,
{
    if let TokenV::EndTag(n) = t {
        lemma_pop_to_len(st, find_open(st, n, st.len() - 1));
    }
}

pub struct TreeBuilder {
    stack: Vec<ElementData>,
}

pub open spec fn stack_view(s: Seq<ElementData>) -> Seq<ElementV> {
    Seq::new(s.len(), |i: int| s[i]@)
}

impl TreeBuilder {
    /// The open elements, bottom first.
    pub closed spec fn view(&self) -> Seq<ElementV> {
        stack_view(self.stack@)
    }

    pub closed spec fn wf(&self) -> bool {
        self.stack@.len() >= 1
    }

    pub fn new() -> (r: Self)
        ensures
            r.wf(),
            r@ == initial_stack(),
    {
        let root = ElementData {
            tag_name: "html".to_string(),
            attributes: Vec::new(),
            children: Vec::new(),
        };
        let mut stack = Vec::new();
        stack.push(root);
        let r = TreeBuilder { stack };
        assert(root@.children =~= Seq::empty());
        assert(root@.attrs =~= Seq::empty());
        assert(r@ =~= initial_stack());
        r
    }

    fn append(&mut self, n: Node)
        requires
            old(self).wf(),
        ensures
            final(self).wf(),
            final(self)@ == with_child(old(self)@, n@),
            final(self).stack@.len() == old(self).stack@.len(),
    {
        let ghost st = self@;
        let mut top = self.stack.pop().unwrap();
        let ghost old_top = top;
        top.children.push(n);
        assert(top@.children =~= old_top@.children.push(n@));
        assert(top@.attrs =~= old_top@.attrs);
        self.stack.push(top);
        assert(self@ =~= with_child(st, n@));
    }

    fn close_top(&mut self)
        requires
            old(self).wf(),
            old(self)@.len() >= 2,
        ensures
            final(self).wf(),
            final(self)@ == pop_into(old(self)@),
            final(self).stack@.len() == old(self).stack@.len() - 1,
    {
        let ghost st = self@;
        let top = self.stack.pop().unwrap();
        assert(self@ =~= st.drop_last());
        self.append(Node::Element(top));
    }

    fn add_char(&mut self, c: char)
        requires
            old(self).wf(),
        ensures
            final(self).wf(),
            final(self)@ == add_char(old(self)@, c),
    {
        let ghost st = self@;
        let mut top = self.stack.pop().unwrap();
        let ghost old_top = top;
        proof {
            lemma_children_view(old_top);
        }
        match top.children.pop() {
            Some(Node::Text(t)) => {
                let mut t = t;
                t.push(c);
                top.children.push(Node::Text(t));
                assert(top@.children =~= old_top@.children.update(
                    old_top@.children.len() - 1,
                    NodeV::Text(old_top@.children.last()->Text_0.push(c)),
                ));
                assert(top@.attrs =~= old_top@.attrs);
                self.stack.push(top);
                assert(self@ =~= add_char(st, c));
            },
            Some(other) => {
                top.children.push(other);
                assert(top@.children =~= old_top@.children);
                assert(top@.attrs =~= old_top@.attrs);
                self.stack.push(top);
                assert(self@ =~= st);
                let mut t = String::new();
                t.push(c);
                assert(t@ =~= seq![c]);
                self.append(Node::Text(t));
            },
            None => {
                self.stack.push(top);
                assert(top@.children =~= old_top@.children);
                assert(top@.attrs =~= old_top@.attrs);
                assert(self@ =~= st);
                let mut t = String::new();
                t.push(c);
                assert(t@ =~= seq![c]);
                self.append(Node::Text(t));
            },
        }
    }

    fn is_void_tag(name: &String) -> (r: bool)
        ensures
            r == is_void(name@),
    {
        let n = name.as_str();
        same_text(n, "area") || same_text(n, "base") || same_text(n, "br") || same_text(n, "col")
            || same_text(n, "embed") || same_text(n, "hr") || same_text(n, "img") || same_text(
            n,
            "input",
        ) || same_text(n, "link") || same_text(n, "meta") || same_text(n, "source") || same_text(
            n,
            "track",
        ) || same_text(n, "wbr")
    }

    /// Feeds one token to the state machine.
    pub fn process(&mut self, token: Token)
        requires
            old(self).wf(),
        ensures
            final(self).wf(),
            final(self)@ == step(old(self)@, token@),
    {
        let ghost tv = token@;
        match token {
            Token::StartTag(name, attributes) => {
                let void = Self::is_void_tag(&name);
                let e = ElementData { tag_name: name, attributes, children: Vec::new() };
                assert(e@.children =~= Seq::empty());
                if void {
                    self.append(Node::Element(e));
                } else {
                    let ghost st = self@;
                    self.stack.push(e);
                    assert(self@ =~= st.push(e@));
                }
            },
            Token::EndTag(name) => {
                let ghost st = self@;
                let mut k = self.stack.len() - 1;
                while k >= 1 && self.stack[k].tag_name != name
                    invariant
                        self@ == st,
                        self.wf(),
                        k < self.stack@.len(),
                        find_open(st, name@, k as int) == find_open(st, name@, st.len() - 1),
                    decreases k,
                {
                    k = k - 1;
                }
                assert(find_open(st, name@, k as int) == k as int);
                if k >= 1 {
                    while self.stack.len() > k && self.stack.len() > 1
                        invariant
                            self.wf(),
                            k >= 1,
                            pop_to(self@, k as int) == pop_to(st, k as int),
                        decreases self.stack@.len(),
                    {
                        self.close_top();
                    }
                }
            },
            Token::Character(c) => {
                self.add_char(c);
            },
            Token::Eof => {},
        }
    }

    /// Closes every open element and hands out the document.
    pub fn finish(self) -> (r: Document)
        requires
            self.wf(),
        ensures
            r@ == NodeV::Element(close_all(self@)),
    {
        let mut b = self;
        let ghost st = b@;
        while b.stack.len() > 1
            invariant
                b.wf(),
                close_all(b@) == close_all(st),
            decreases b.stack@.len(),
        {
            b.close_top();
        }
        let root = b.stack.pop().unwrap();
        Document { root: Node::Element(root) }
    }
}

} // verus!
