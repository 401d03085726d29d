//! HTML parsing: the tokenizer feeds the tree builder until the input ends.
use vstd::prelude::*;
use crate::dom::{Document, ElementV, NodeV, node_depth, children_depth, document_depth};
use crate::error::RenderError;
use crate::html_tokenizer::{Tokenizer, TokenV, tokenize, tokens_from, lex, lemma_lex_progress};
use crate::tree_builder::{
    TreeBuilder,
    build,
    run,
    step,
    initial_stack,
    with_child,
    pop_into,
    pop_to,
    close_all,
    find_open,
    add_char,
    is_void,
};

verus! {

/// The document that an HTML text yields.
pub open spec fn parse_model(html: Seq<char>) -> NodeV {
    build(tokenize(html))
}

/// Parses HTML text into a document. Never fails: any text, however
/// malformed, gives a well-formed tree with its text coalesced.
pub fn parse(html: &str) -> (r: Document)
    ensures
        r@ == parse_model(html@),
        coalesced(r@),
{
    let mut tokenizer = Tokenizer::new(html);
    let mut builder = TreeBuilder::new();
    let ghost s = html@;
    let ghost mut emitted: Seq<TokenV> = Seq::empty();
    loop
        invariant
            tokenizer.wf(),
            builder.wf(),
            s == html@,
            tokenizer.text() == s,
            0 <= tokenizer.position() <= s.len(),
            tokens_from(s, 0) == emitted + tokens_from(s, tokenizer.position()),
            builder@ == run(initial_stack(), emitted),
        decreases s.len() - tokenizer.position(),
    {
        let ghost p = tokenizer.position();
        match tokenizer.next_token() {
            Some(token) => {
                proof {
                    lemma_lex_progress(s, p);
                    assert(tokens_from(s, p) == seq![lex(s, p).0] + tokens_from(s, lex(s, p).1));
                    assert(emitted + tokens_from(s, p) =~= emitted.push(token@) + tokens_from(
                        s,
                        lex(s, p).1,
                    ));
                    assert(emitted.push(token@).drop_last() =~= emitted);
                    emitted = emitted.push(token@);
                }
                builder.process(token);
            },
            None => {
                assert(tokens_from(s, p) == Seq::<TokenV>::empty());
                assert(emitted + tokens_from(s, p) =~= emitted);
                assert(tokenize(s) == emitted);
                let doc = builder.finish();
                proof {
                    lemma_text_coalesced(html@);
                }
                return doc;
            },
        }
    }
}

/// Relies on `std::str::from_utf8`: it accepts exactly the well-formed
/// UTF-8 byte sequences, and the text is what they encode.
#[verifier::external_body]
fn utf8_text(b: &[u8]) -> (r: Option<String>)
    ensures
        r is Some <==> vstd::utf8::valid_utf8(b@),
        r is Some ==> r->0@ == vstd::utf8::decode_utf8(b@),
{
    match std::str::from_utf8(b) {
        Ok(s) => Some(s.to_string()),
        Err(_) => None,
    }
}

/// Decodes the raw bytes of a document; bytes that are not UTF-8 are an
/// encoding error rather than silently changed text.
pub fn decode(bytes: &[u8]) -> (r: Result<String, RenderError>)
    ensures
        vstd::utf8::valid_utf8(bytes@) ==> r is Ok && r->Ok_0@ == vstd::utf8::decode_utf8(bytes@),
        !vstd::utf8::valid_utf8(bytes@) ==> r == Err::<String, RenderError>(
            RenderError::EncodingError,
        ),
{
    match utf8_text(bytes) {
        Some(s) => Ok(s),
        None => Err(RenderError::EncodingError),
    }
}

/// What a scan of the source tags records: the names of the elements open
/// at this point, the deepest nesting reached, and whether every end tag so
/// far closed the innermost open element.
pub ghost struct SourceNesting {
    pub open: Seq<Seq<char>>,
    pub deepest: nat,
    pub balanced: bool,
}

pub open spec fn nat_max(a: nat, b: nat) -> nat {
    if a >= b { a } else { b }
}

pub open spec fn source_nesting(toks: Seq<TokenV>) -> SourceNesting
    decreases toks.len(),
{
    if toks.len() == 0 {
        SourceNesting { open: Seq::empty(), deepest: 0, balanced: true }
    } else {
        let s = source_nesting(toks.drop_last());
        match toks.last() {
            TokenV::StartTag(n, _) => SourceNesting {
                open: if is_void(n) { s.open } else { s.open.push(n) },
                deepest: nat_max(s.deepest, s.open.len() + 1),
                balanced: s.balanced,
            },
            TokenV::EndTag(n) => if s.open.len() > 0 && s.open.last() == n {
                SourceNesting { open: s.open.drop_last(), deepest: s.deepest, balanced: s.balanced }
            } else {
                SourceNesting { open: s.open, deepest: s.deepest, balanced: false }
            },
            _ => s,
        }
    }
}

/// Every end tag closes the innermost open element, and none is left open.
pub open spec fn tag_balanced(toks: Seq<TokenV>) -> bool {
    source_nesting(toks).balanced && source_nesting(toks).open.len() == 0
}

/// The deepest nesting of elements in the source.
pub open spec fn source_depth(toks: Seq<TokenV>) -> nat {
    source_nesting(toks).deepest
}

/// The depth below the root of the tree that closing every element gives.
pub open spec fn closed_depth(st: Seq<ElementV>) -> nat {
    children_depth(close_all(st).children)
}

proof fn lemma_children_depth_push(cs: Seq<NodeV>, x: NodeV)
    ensures
        children_depth(cs.push(x)) == nat_max(children_depth(cs), node_depth(x)),
{
    assert(cs.push(x).drop_last() =~= cs);
}

/// Adding a child to the top element deepens the closed tree by at most the
/// child's depth below the top's level.
proof fn lemma_with_child_depth(st: Seq<ElementV>, x: NodeV)
    requires
        st.len() >= 1,
    ensures
        closed_depth(with_child(st, x)) == nat_max(
            closed_depth(st),
            ((st.len() - 1) + node_depth(x)) as nat,
        ),
    decreases st.len(),
{
    let top = st.last();
    lemma_children_depth_push(top.children, x);
    if st.len() >= 2 {
        let st2 = with_child(st, x);
        let y = ElementV { tag: top.tag, attrs: top.attrs, children: top.children.push(x) };
        assert(st2.drop_last() =~= st.drop_last());
        assert(st2.last() == y);
        assert(pop_into(st2) == with_child(st.drop_last(), NodeV::Element(y)));
        lemma_with_child_depth(st.drop_last(), NodeV::Element(y));
        lemma_with_child_depth(st.drop_last(), NodeV::Element(top));
    }
}

proof fn lemma_step_nesting(toks: Seq<TokenV>)
    requires
        source_nesting(toks).balanced,
    ensures
        ({
            let st = run(initial_stack(), toks);
            let sc = source_nesting(toks);
            &&& st.len() == sc.open.len() + 1
            &&& forall|i: int| 0 <= i < sc.open.len() ==> #[trigger] st[i + 1].tag == sc.open[i]
            &&& closed_depth(st) == sc.deepest
            &&& sc.deepest >= sc.open.len()
        }),
    decreases toks.len(),
{
    if toks.len() == 0 {
        let st = initial_stack();
        assert(close_all(st) == st[0]);
    } else {
        let prev = toks.drop_last();
        let t = toks.last();
        let st = run(initial_stack(), prev);
        let sc = source_nesting(prev);
        let st2 = run(initial_stack(), toks);
        let sc2 = source_nesting(toks);
        assert(sc.balanced) by {
            match t {
                TokenV::StartTag(..) => {},
                TokenV::EndTag(n) => {},
                _ => {},
            }
        }
        lemma_step_nesting(prev);
        assert(st2 == step(st, t));
        match t {
            TokenV::StartTag(n, a) => {
                let e = ElementV { tag: n, attrs: a, children: Seq::empty() };
                lemma_with_child_depth(st, NodeV::Element(e));
                assert(children_depth(e.children) == 0);
                if !is_void(n) {
                    let pushed = st.push(e);
                    assert(pushed.drop_last() =~= st);
                    assert(close_all(pushed) == close_all(pop_into(pushed)));
                    assert forall|i: int| 0 <= i < sc2.open.len() implies #[trigger] st2[i + 1].tag
                        == sc2.open[i] by {
                        if i < sc.open.len() {
                            assert(st2[i + 1] == st[i + 1]);
                        }
                    }
                }
            },
            TokenV::EndTag(n) => {
                let j = st.len() - 1;
                assert(sc.open.len() > 0 && sc.open.last() == n);
                assert(st[(j - 1) + 1].tag == sc.open[j - 1]);
                assert(find_open(st, n, j) == j);
                let popped = pop_into(st);
                assert(pop_to(popped, j) == popped);
                assert(st2 == popped);
                assert(close_all(st) == close_all(popped));
                assert forall|i: int| 0 <= i < sc2.open.len() implies #[trigger] st2[i + 1].tag
                    == sc2.open[i] by {
                    assert(st2[i + 1].tag == st[i + 1].tag);
                }
            },
            TokenV::Character(c) => {
                let top = st.last();
                let cs = top.children;
                if cs.len() > 0 && cs.last() is Text {
                    let st0 = st.update(
                        st.len() - 1,
                        ElementV { tag: top.tag, attrs: top.attrs, children: cs.drop_last() },
                    );
                    assert(cs.drop_last().push(cs.last()) =~= cs);
                    assert(with_child(st0, cs.last()) =~= st);
                    let tx = NodeV::Text(cs.last()->Text_0.push(c));
                    assert(cs.drop_last().push(tx) =~= cs.update(cs.len() - 1, tx));
                    assert(with_child(st0, tx) =~= st2);
                    lemma_with_child_depth(st0, cs.last());
                    lemma_with_child_depth(st0, tx);
                } else {
                    lemma_with_child_depth(st, NodeV::Text(seq![c]));
                }
                assert forall|i: int| 0 <= i < sc2.open.len() implies #[trigger] st2[i + 1].tag
                    == sc2.open[i] by {
                    assert(st2[i + 1].tag == st[i + 1].tag);
                }
            },
            TokenV::Eof => {},
        }
    }
}

/// For every tag-balanced HTML text, the nesting depth of the document
/// equals the nesting depth of the elements in the source.
pub proof fn lemma_depth_preserved(html: Seq<char>)
    requires
        tag_balanced(tokenize(html)),
    ensures
        document_depth(parse_model(html)) == source_depth(tokenize(html)),
{
    lemma_step_nesting(tokenize(html));
}


/// No text child is empty, and no two text children are next to each
/// other.
pub open spec fn siblings_coalesced(cs: Seq<NodeV>) -> bool {
    forall|i: int|
        0 <= i < cs.len() && (#[trigger] cs[i]) is Text ==> cs[i]->Text_0.len() > 0 && (i + 1
            < cs.len() ==> !(cs[i + 1] is Text))
}

/// Text is coalesced everywhere in a node's subtree.
pub open spec fn coalesced(n: NodeV) -> bool
    decreases n,
{
    match n {
        NodeV::Element(e) => siblings_coalesced(e.children) && all_coalesced(e.children),
        NodeV::Text(_) => true,
    }
}

pub open spec fn all_coalesced(cs: Seq<NodeV>) -> bool
    decreases cs,
{
    if cs.len() == 0 {
        true
    } else {
        all_coalesced(cs.drop_last()) && coalesced(cs.last())
    }
}

pub open spec fn frame_ok(e: ElementV) -> bool {
    coalesced(NodeV::Element(e))
}

pub open spec fn stack_ok(st: Seq<ElementV>) -> bool {
    forall|k: int| 0 <= k < st.len() ==> frame_ok(#[trigger] st[k])
}

proof fn lemma_push_child(e: ElementV, x: NodeV)
    requires
        frame_ok(e),
        coalesced(x),
        !(x is Text) || (x->Text_0.len() > 0 && (e.children.len() == 0 || !(e.children.last() is Text))),
    ensures
        frame_ok(ElementV { tag: e.tag, attrs: e.attrs, children: e.children.push(x) }),
{
    let cs = e.children.push(x);
    assert(cs.drop_last() =~= e.children);
    assert forall|i: int| 0 <= i < cs.len() && (#[trigger] cs[i]) is Text implies cs[i]->Text_0.len()
        > 0 && (i + 1 < cs.len() ==> !(cs[i + 1] is Text)) by {
        if i < e.children.len() {
            assert(cs[i] == e.children[i]);
            if i + 1 == e.children.len() {
                assert(e.children.last() == e.children[i]);
            } else if i + 1 < e.children.len() {
                assert(cs[i + 1] == e.children[i + 1]);
            }
        }
    }
}

proof fn lemma_with_child_ok(st: Seq<ElementV>, x: NodeV)
    requires
        st.len() >= 1,
        stack_ok(st),
        coalesced(x),
        !(x is Text) || (x->Text_0.len() > 0 && (st.last().children.len() == 0
            || !(st.last().children.last() is Text))),
    ensures
        stack_ok(with_child(st, x)),
{
    lemma_push_child(st.last(), x);
    let st2 = with_child(st, x);
    assert forall|k: int| 0 <= k < st2.len() implies frame_ok(#[trigger] st2[k]) by {
        if k < st.len() - 1 {
            assert(st2[k] == st[k]);
        }
    }
}

proof fn lemma_pop_into_ok(st: Seq<ElementV>)
    requires
        st.len() >= 2,
        stack_ok(st),
    ensures
        stack_ok(pop_into(st)),
{
    let d = st.drop_last();
    assert forall|k: int| 0 <= k < d.len() implies frame_ok(#[trigger] d[k]) by {
        assert(d[k] == st[k]);
    }
    assert(frame_ok(st[st.len() - 1]));
    lemma_with_child_ok(d, NodeV::Element(st.last()));
}

proof fn lemma_pop_to_ok(st: Seq<ElementV>, j: int)
    requires
        st.len() >= 1,
        stack_ok(st),
    ensures
        stack_ok(pop_to(st, j)),
    decreases st.len(),
{
    if !(st.len() <= j || st.len() <= 1) {
        lemma_pop_into_ok(st);
        lemma_pop_to_ok(pop_into(st), j);
    }
}

proof fn lemma_close_all_ok(st: Seq<ElementV>)
    requires
        st.len() >= 1,
        stack_ok(st),
    ensures
        frame_ok(close_all(st)),
    decreases st.len(),
{
    if st.len() >= 2 {
        lemma_pop_into_ok(st);
        lemma_close_all_ok(pop_into(st));
    }
}

proof fn lemma_step_ok(st: Seq<ElementV>, t: TokenV)
    requires
        st.len() >= 1,
        stack_ok(st),
    ensures
        stack_ok(step(st, t)),
{
    match t {
        TokenV::StartTag(n, a) => {
            let e = ElementV { tag: n, attrs: a, children: Seq::empty() };
            assert(all_coalesced(e.children));
            assert(frame_ok(e));
            if is_void(n) {
                lemma_with_child_ok(st, NodeV::Element(e));
            } else {
                let st2 = st.push(e);
                assert forall|k: int| 0 <= k < st2.len() implies frame_ok(#[trigger] st2[k]) by {
                    if k < st.len() {
                        assert(st2[k] == st[k]);
                    }
                }
            }
        },
        TokenV::EndTag(n) => {
            lemma_pop_to_ok(st, find_open(st, n, st.len() - 1));
        },
        TokenV::Character(c) => {
            let top = st.last();
            let cs = top.children;
            if cs.len() > 0 && cs.last() is Text {
                let tx = NodeV::Text(cs.last()->Text_0.push(c));
                let top0 = ElementV { tag: top.tag, attrs: top.attrs, children: cs.drop_last() };
                assert(cs.drop_last().push(cs.last()) =~= cs);
                assert(frame_ok(st[st.len() - 1]));
                assert(frame_ok(top0)) by {
                    assert forall|i: int|
                        0 <= i < top0.children.len() && (#[trigger] top0.children[i]) is Text implies top0.children[i]->Text_0.len()
                        > 0 && (i + 1 < top0.children.len() ==> !(top0.children[i + 1] is Text)) by {
                        assert(top0.children[i] == cs[i]);
                        if i + 1 < top0.children.len() {
                            assert(top0.children[i + 1] == cs[i + 1]);
                        }
                    }
                }
                if cs.len() >= 2 {
                    assert(cs.drop_last().last() == cs[cs.len() - 2]);
                    assert(!(cs[cs.len() - 2] is Text));
                }
                lemma_push_child(top0, tx);
                assert(cs.drop_last().push(tx) =~= cs.update(cs.len() - 1, tx));
                let st2 = add_char(st, c);
                assert forall|k: int| 0 <= k < st2.len() implies frame_ok(#[trigger] st2[k]) by {
                    if k < st.len() - 1 {
                        assert(st2[k] == st[k]);
                    }
                }
            } else {
                lemma_with_child_ok(st, NodeV::Text(seq![c]));
            }
        },
        TokenV::Eof => {},
    }
}

proof fn lemma_run_ok(toks: Seq<TokenV>)
    ensures
        stack_ok(run(initial_stack(), toks)),
    decreases toks.len(),
{
    if toks.len() == 0 {
        let st = initial_stack();
        assert(all_coalesced(st[0].children));
        assert forall|k: int| 0 <= k < st.len() implies frame_ok(#[trigger] st[k]) by {}
    } else {
        lemma_run_ok(toks.drop_last());
        crate::tree_builder::lemma_run_len(toks.drop_last());
        lemma_step_ok(run(initial_stack(), toks.drop_last()), toks.last());
    }
}

/// For every HTML text, the document has its character data coalesced: no
/// text node is empty and no two text nodes are siblings side by side.
pub proof fn lemma_text_coalesced(html: Seq<char>)
    ensures
        coalesced(parse_model(html)),
{
    lemma_run_ok(tokenize(html));
    crate::tree_builder::lemma_run_len(tokenize(html));
    lemma_close_all_ok(run(initial_stack(), tokenize(html)));
}

} // verus!
