//! The layout engine: box generation from the styled document, then block
//! layout that computes each box's position and size.
use vstd::prelude::*;
use crate::box_model::{Dimensions, EdgeSizes, Rect, zero_dimensions, zero_edges, margin_box_height};
use crate::canvas::Color;
use crate::dom::{Document, Node, ElementData, ElementV, NodeV};
use crate::error::RenderError;
use crate::style::{
    ComputedStyle,
    compute_style,
    computed_value,
    winner,
    candidates,
    inheritable,
    lookup,
};
use crate::stylesheet::{Stylesheet, RuleV};
use crate::text::same_text;
use crate::units::{number_prefix, parse_color, leading_number, color_from};

verus! {

broadcast use vstd::std_specs::vec::group_vec_axioms;

/// How deep elements may nest before layout gives up with a structure error.
pub const MAX_DEPTH: usize = 512;

#[derive(Clone, Copy, PartialEq, Eq, Structural, Debug)]
pub enum BoxType {
    BlockNode,
    InlineNode,
    AnonymousBlock,
}

/// What layout and painting read from a box's computed style.
#[derive(Clone, Copy, PartialEq, Eq, Structural, Debug)]
pub struct BoxStyle {
    pub margin: EdgeSizes,
    pub border: EdgeSizes,
    pub padding: EdgeSizes,
    /// A specified content width; none means it fills the containing block.
    pub width: Option<u64>,
    /// A specified content height; none means the sum of the children.
    pub height: Option<u64>,
    pub background: Option<Color>,
}

pub open spec fn plain_style() -> BoxStyle {
    BoxStyle {
        margin: zero_edges(),
        border: zero_edges(),
        padding: zero_edges(),
        width: None,
        height: None,
        background: None,
    }
}

pub struct LayoutBox {
    pub dimensions: Dimensions,
    pub box_type: BoxType,
    pub style: BoxStyle,
    pub children: Vec<LayoutBox>,
}

pub ghost struct BoxV {
    pub dims: Dimensions,
    pub kind: BoxType,
    pub style: BoxStyle,
    pub children: Seq<BoxV>,
}

impl LayoutBox {
    pub open spec fn view(&self) -> BoxV
        decreases self,
    {
        BoxV {
            dims: self.dimensions,
            kind: self.box_type,
            style: self.style,
            children: Seq::new(
                self.children@.len(),
                |i: int|
                    if 0 <= i < self.children@.len() {
                        self.children@[i].view()
                    } else {
                        empty_box(BoxType::AnonymousBlock)
                    },
            ),
        }
    }
}

pub open spec fn boxes_view(s: Seq<LayoutBox>) -> Seq<BoxV> {
    Seq::new(s.len(), |i: int| s[i]@)
}

pub proof fn lemma_box_children_view(b: LayoutBox)
    ensures
        b@.children == boxes_view(b.children@),
{
    assert(b@.children =~= boxes_view(b.children@));
}

pub open spec fn empty_box(kind: BoxType) -> BoxV {
    BoxV { dims: zero_dimensions(), kind, style: plain_style(), children: Seq::empty() }
}

/// A style as a function from property to value.
pub type StyleFn = spec_fn(Seq<char>) -> Option<Seq<char>>;

/// The computed value of a property, given the parent's style as a function.
pub open spec fn computed_in(e: ElementV, rules: Seq<RuleV>, parent: StyleFn, p: Seq<char>) -> Option<
    Seq<char>,
> {
    match winner(candidates(rules, e), p) {
        Some(c) => Some(c.decl.value),
        None => if inheritable(p) {
            parent(p)
        } else {
            None
        },
    }
}

pub open spec fn style_of(e: ElementV, rules: Seq<RuleV>, parent: StyleFn) -> StyleFn {
    |p: Seq<char>| computed_in(e, rules, parent, p)
}

pub open spec fn length_of(st: StyleFn, p: Seq<char>) -> u64 {
    match st(p) {
        Some(v) => match number_prefix(v) {
            Some(n) => n,
            None => 0,
        },
        None => 0,
    }
}

/// One side of an edge: its own property, else the shorthand for all four.
pub open spec fn side_of(st: StyleFn, side: Seq<char>, all: Seq<char>) -> u64 {
    if st(side) is Some {
        length_of(st, side)
    } else {
        length_of(st, all)
    }
}

pub open spec fn size_of(st: StyleFn, p: Seq<char>) -> Option<u64> {
    match st(p) {
        Some(v) => number_prefix(v),
        None => None,
    }
}

pub open spec fn background_of(st: StyleFn) -> Option<Color> {
    match st("background-color"@) {
        Some(v) => parse_color(v),
        None => match st("background"@) {
            Some(v) => parse_color(v),
            None => None,
        },
    }
}

pub open spec fn box_style(st: StyleFn) -> BoxStyle {
    BoxStyle {
        margin: EdgeSizes {
            left: side_of(st, "margin-left"@, "margin"@),
            right: side_of(st, "margin-right"@, "margin"@),
            top: side_of(st, "margin-top"@, "margin"@),
            bottom: side_of(st, "margin-bottom"@, "margin"@),
        },
        border: EdgeSizes {
            left: side_of(st, "border-left-width"@, "border-width"@),
            right: side_of(st, "border-right-width"@, "border-width"@),
            top: side_of(st, "border-top-width"@, "border-width"@),
            bottom: side_of(st, "border-bottom-width"@, "border-width"@),
        },
        padding: EdgeSizes {
            left: side_of(st, "padding-left"@, "padding"@),
            right: side_of(st, "padding-right"@, "padding"@),
            top: side_of(st, "padding-top"@, "padding"@),
            bottom: side_of(st, "padding-bottom"@, "padding"@),
        },
        width: size_of(st, "width"@),
        height: size_of(st, "height"@),
        background: background_of(st),
    }
}

/// The box an element generates: an inline box for `display: inline`,
/// else a block box.
pub open spec fn display_of(st: StyleFn) -> BoxType {
    if st("display"@) == Some("inline"@) {
        BoxType::InlineNode
    } else {
        BoxType::BlockNode
    }
}

/// Puts inline-level content into the anonymous block that ends the list,
/// opening one when the list does not end in an open run.
pub open spec fn inline_slot(boxes: Seq<BoxV>, open: bool, item: Option<BoxV>) -> (Seq<BoxV>, bool) {
    let extra = match item {
        Some(b) => seq![b],
        None => Seq::empty(),
    };
    if open && boxes.len() > 0 {
        let a = boxes.last();
        (
            boxes.update(
                boxes.len() - 1,
                BoxV { dims: a.dims, kind: a.kind, style: a.style, children: a.children + extra },
            ),
            true,
        )
    } else {
        (boxes.push(BoxV { children: extra, ..empty_box(BoxType::AnonymousBlock) }), true)
    }
}

/// The box of an element of the given kind with its own style, whose
/// elements may nest `depth` levels more.
pub open spec fn gen_box(e: ElementV, kind: BoxType, rules: Seq<RuleV>, st: StyleFn, depth: int) -> Result<
    BoxV,
    (),
>
    decreases e,
{
    if depth <= 0 {
        Err(())
    } else {
        match gen_children(e.children, rules, st, depth - 1) {
            Err(_) => Err(()),
            Ok((kids, _)) => Ok(
                BoxV { dims: zero_dimensions(), kind, style: box_style(st), children: kids },
            ),
        }
    }
}

/// The boxes of a sequence of children, and whether the last is an open
/// run of inline-level content.
pub open spec fn gen_children(cs: Seq<NodeV>, rules: Seq<RuleV>, st: StyleFn, depth: int) -> Result<
    (Seq<BoxV>, bool),
    (),
>
    decreases cs,
{
    if cs.len() == 0 {
        Ok((Seq::empty(), false))
    } else {
        match gen_children(cs.drop_last(), rules, st, depth) {
            Err(_) => Err(()),
            Ok((boxes, open)) => match cs.last() {
                NodeV::Text(_) => Ok(inline_slot(boxes, open, None)),
                NodeV::Element(ce) => {
                    let cst = style_of(ce, rules, st);
                    let kind = display_of(cst);
                    match gen_box(ce, kind, rules, cst, depth) {
                        Err(_) => Err(()),
                        Ok(b) => if kind == BoxType::InlineNode {
                            Ok(inline_slot(boxes, open, Some(b)))
                        } else {
                            Ok((boxes.push(b), false))
                        },
                    }
                },
            },
        }
    }
}

/// The style nothing has set.
pub open spec fn no_style() -> StyleFn {
    |p: Seq<char>| None
}

/// The layout tree of a document before geometry: its root is a block box.
pub open spec fn gen_tree(root: NodeV, rules: Seq<RuleV>) -> Result<BoxV, ()> {
    match root {
        NodeV::Element(e) => gen_box(
            e,
            BoxType::BlockNode,
            rules,
            style_of(e, rules, no_style()),
            MAX_DEPTH as int,
        ),
        NodeV::Text(_) => Ok(empty_box(BoxType::BlockNode)),
    }
}


/// Where a box goes in its containing block, before its children are laid
/// out: its width fills the containing block's content width less its own
/// margins, borders and padding unless it is specified; it sits below what
/// the containing block holds so far.
pub open spec fn place(b: BoxV, cb: Dimensions) -> Dimensions {
    let s = b.style;
    let horizontal = s.margin.left.saturating_add(s.margin.right).saturating_add(
        s.border.left,
    ).saturating_add(s.border.right).saturating_add(s.padding.left).saturating_add(
        s.padding.right,
    );
    let width = match s.width {
        Some(w) => w,
        None => cb.content.width.saturating_sub(horizontal),
    };
    let x = cb.content.x.saturating_add(s.margin.left).saturating_add(s.border.left).saturating_add(
        s.padding.left,
    );
    let y = cb.content.y.saturating_add(cb.content.height).saturating_add(
        s.margin.top,
    ).saturating_add(s.border.top).saturating_add(s.padding.top);
    Dimensions {
        content: Rect { x, y, width, height: 0 },
        padding: s.padding,
        border: s.border,
        margin: s.margin,
    }
}

pub open spec fn with_height(d: Dimensions, h: u64) -> Dimensions {
    Dimensions { content: Rect { height: h, ..d.content }, ..d }
}

/// A box after layout in the given containing block: placed, its children
/// laid out one below the other, and its height the sum of theirs unless
/// it is specified.
pub open spec fn layout_box(b: BoxV, cb: Dimensions) -> BoxV
    decreases b,
{
    let d0 = place(b, cb);
    let (kids, d1) = layout_children(b.children, d0);
    let h = match b.style.height {
        Some(h) => h,
        None => d1.content.height,
    };
    BoxV { dims: with_height(d1, h), kind: b.kind, style: b.style, children: kids }
}

/// Lays out children in order inside `d`, whose content height grows by
/// each child's margin-box height.
pub open spec fn layout_children(cs: Seq<BoxV>, d: Dimensions) -> (Seq<BoxV>, Dimensions)
    decreases cs,
{
    if cs.len() == 0 {
        (Seq::empty(), d)
    } else {
        let (ks, d1) = layout_children(cs.drop_last(), d);
        let k = layout_box(cs.last(), d1);
        (ks.push(k), with_height(d1, d1.content.height.saturating_add(margin_box_height(k.dims))))
    }
}

/// The laid-out tree of a document in a viewport of the given width.
pub open spec fn layout_model(dom: NodeV, rules: Seq<RuleV>, width: u64) -> Result<BoxV, ()> {
    match gen_tree(dom, rules) {
        Ok(b) => Ok(
            layout_box(
                b,
                Dimensions { content: Rect { x: 0, y: 0, width, height: 0 }, ..zero_dimensions() },
            ),
        ),
        Err(_) => Err(()),
    }
}

impl BoxStyle {
    pub fn plain() -> (r: Self)
        ensures
            r == plain_style(),
    {
        BoxStyle {
            margin: EdgeSizes::zero(),
            border: EdgeSizes::zero(),
            padding: EdgeSizes::zero(),
            width: None,
            height: None,
            background: None,
        }
    }
}

pub open spec fn style_fn(cs: ComputedStyle) -> StyleFn {
    |p: Seq<char>| lookup(cs@, p)
}

fn length(style: &ComputedStyle, p: &str) -> (r: u64)
    ensures
        r == length_of(style_fn(*style), p@),
{
    match style.value(p) {
        Some(v) => match leading_number(v.as_str()) {
            Some(n) => n,
            None => 0,
        },
        None => 0,
    }
}

fn side(style: &ComputedStyle, p: &str, all: &str) -> (r: u64)
    ensures
        r == side_of(style_fn(*style), p@, all@),
{
    if style.value(p).is_some() {
        length(style, p)
    } else {
        length(style, all)
    }
}

fn size(style: &ComputedStyle, p: &str) -> (r: Option<u64>)
    ensures
        r == size_of(style_fn(*style), p@),
{
    match style.value(p) {
        Some(v) => leading_number(v.as_str()),
        None => None,
    }
}

fn background(style: &ComputedStyle) -> (r: Option<Color>)
    ensures
        r == background_of(style_fn(*style)),
{
    match style.value("background-color") {
        Some(v) => color_from(v.as_str()),
        None => match style.value("background") {
            Some(v) => color_from(v.as_str()),
            None => None,
        },
    }
}

/// What layout and painting need from a computed style.
pub fn box_style_from(style: &ComputedStyle) -> (r: BoxStyle)
    ensures
        r == box_style(style_fn(*style)),
{
    BoxStyle {
        margin: EdgeSizes {
            left: side(style, "margin-left", "margin"),
            right: side(style, "margin-right", "margin"),
            top: side(style, "margin-top", "margin"),
            bottom: side(style, "margin-bottom", "margin"),
        },
        border: EdgeSizes {
            left: side(style, "border-left-width", "border-width"),
            right: side(style, "border-right-width", "border-width"),
            top: side(style, "border-top-width", "border-width"),
            bottom: side(style, "border-bottom-width", "border-width"),
        },
        padding: EdgeSizes {
            left: side(style, "padding-left", "padding"),
            right: side(style, "padding-right", "padding"),
            top: side(style, "padding-top", "padding"),
            bottom: side(style, "padding-bottom", "padding"),
        },
        width: size(style, "width"),
        height: size(style, "height"),
        background: background(style),
    }
}

/// The kind of box a computed style asks for.
pub fn display_from(style: &ComputedStyle) -> (r: BoxType)
    ensures
        r == display_of(style_fn(*style)),
{
    match style.value("display") {
        Some(v) => {
            if same_text(v.as_str(), "inline") {
                BoxType::InlineNode
            } else {
                BoxType::BlockNode
            }
        },
        None => BoxType::BlockNode,
    }
}

pub proof fn lemma_same_fn(f: StyleFn, g: StyleFn)
    requires
        forall|p: Seq<char>| #[trigger] f(p) == g(p),
    ensures
        f == g,
{
    assert(f =~= g);
}

pub proof fn lemma_computed(e: ElementV, rules: Seq<RuleV>, ps: ComputedStyle, st: StyleFn, cs: ComputedStyle)
    requires
        style_fn(ps) == st,
        forall|p: Seq<char>| #[trigger] lookup(cs@, p) == computed_value(e, rules, ps@, p),
    ensures
        style_fn(cs) == style_of(e, rules, st),
{
    assert forall|p: Seq<char>| #[trigger] style_fn(cs)(p) == style_of(e, rules, st)(p) by {
        assert(lookup(cs@, p) == computed_value(e, rules, ps@, p));
        assert(st(p) == lookup(ps@, p));
    }
    lemma_same_fn(style_fn(cs), style_of(e, rules, st));
}

proof fn lemma_gen_err(cs: Seq<NodeV>, k: int, rules: Seq<RuleV>, st: StyleFn, depth: int)
    requires
        0 <= k <= cs.len(),
        gen_children(cs.take(k), rules, st, depth) is Err,
    ensures
        gen_children(cs, rules, st, depth) is Err,
    decreases cs.len() - k,
{
    if k < cs.len() {
        assert(cs.take(k + 1).drop_last() =~= cs.take(k));
        lemma_gen_err(cs, k + 1, rules, st, depth);
    } else {
        assert(cs.take(k) =~= cs);
    }
}

pub open spec fn extra_of(item: Option<BoxV>) -> Seq<BoxV> {
    match item {
        Some(b) => seq![b],
        None => Seq::empty(),
    }
}

pub open spec fn opt_box(o: Option<LayoutBox>) -> Option<BoxV> {
    match o {
        Some(b) => Some(b@),
        None => None,
    }
}

impl LayoutBox {
    /// A box of the given kind with no children, no size and a plain style.
    pub fn new(box_type: BoxType) -> (r: Self)
        ensures
            r@ == empty_box(box_type),
    {
        let r = LayoutBox {
            dimensions: Dimensions::zero(),
            box_type,
            style: BoxStyle::plain(),
            children: Vec::new(),
        };
        assert(r@.children =~= Seq::<BoxV>::empty());
        r
    }
}

fn put_inline(boxes: &mut Vec<LayoutBox>, open: bool, item: Option<LayoutBox>)
    ensures
        (boxes_view(final(boxes)@), true) == inline_slot(
            boxes_view(old(boxes)@),
            open,
            opt_box(item),
        ),
{
    let ghost old_view = boxes_view(boxes@);
    let ghost extra = extra_of(opt_box(item));
    if open && boxes.len() > 0 {
        let mut a = boxes.pop().unwrap();
        let ghost a0 = a@;
        proof {
            lemma_box_children_view(a);
        }
        match item {
            Some(b) => {
                a.children.push(b);
            },
            None => {},
        }
        assert(a@.children =~= a0.children + extra);
        boxes.push(a);
        assert(boxes_view(boxes@) =~= old_view.update(
            old_view.len() - 1,
            BoxV { dims: a0.dims, kind: a0.kind, style: a0.style, children: a0.children + extra },
        ));
    } else {
        let mut a = LayoutBox::new(BoxType::AnonymousBlock);
        match item {
            Some(b) => {
                a.children.push(b);
            },
            None => {},
        }
        assert(a@.children =~= extra);
        boxes.push(a);
        assert(boxes_view(boxes@) =~= old_view.push(
            BoxV { children: extra, ..empty_box(BoxType::AnonymousBlock) },
        ));
    }
}

/// The box of an element and of everything inside it.
fn build_box(
    e: &ElementData,
    kind: BoxType,
    sheet: &Stylesheet,
    style: &ComputedStyle,
    Ghost(st): Ghost<StyleFn>,
    depth: usize,
) -> (r: Result<LayoutBox, RenderError>)
    requires
        style_fn(*style) == st,
    ensures
        match gen_box(e@, kind, sheet@, st, depth as int) {
            Ok(b) => r is Ok && r->Ok_0@ == b,
            Err(_) => r == Err::<LayoutBox, RenderError>(RenderError::StructureError),
        },
    decreases e,
{
    if depth == 0 {
        return Err(RenderError::StructureError);
    }
    let ghost rules = sheet@;
    let ghost cs = e@.children;
    proof {
        crate::dom::lemma_children_view(*e);
    }
    let n = e.children.len();
    let mut boxes: Vec<LayoutBox> = Vec::new();
    let mut open = false;
    let mut i: usize = 0;
    assert(cs.take(0) =~= Seq::<NodeV>::empty());
    assert(boxes_view(boxes@) =~= Seq::<BoxV>::empty());
    while i < n
        invariant
            n == e.children@.len() == cs.len(),
            cs == e@.children,
            rules == sheet@,
            style_fn(*style) == st,
            depth > 0,
            i <= n,
            gen_children(cs.take(i as int), rules, st, depth - 1) == Ok::<(Seq<BoxV>, bool), ()>(
                (boxes_view(boxes@), open),
            ),
        decreases n - i,
    {
        assert(cs.take(i + 1).drop_last() =~= cs.take(i as int));
        assert(cs.take(i + 1).last() == cs[i as int]);
        assert(cs[i as int] == e.children@[i as int]@);
        match &e.children[i] {
            Node::Text(_) => {
                put_inline(&mut boxes, open, None);
                open = true;
            },
            Node::Element(ce) => {
                let cstyle = compute_style(ce, sheet, style);
                proof {
                    lemma_computed(ce@, rules, *style, st, cstyle);
                }
                let k = display_from(&cstyle);
                let ghost cst = style_of(ce@, rules, st);
                match build_box(ce, k, sheet, &cstyle, Ghost(cst), depth - 1) {
                    Err(x) => {
                        proof {
                            lemma_gen_err(cs, i + 1, rules, st, depth - 1);
                        }
                        return Err(x);
                    },
                    Ok(b) => {
                        if k == BoxType::InlineNode {
                            put_inline(&mut boxes, open, Some(b));
                            open = true;
                        } else {
                            let ghost before = boxes_view(boxes@);
                            let ghost bv = b@;
                            boxes.push(b);
                            assert(boxes_view(boxes@) =~= before.push(bv));
                            open = false;
                        }
                    },
                }
            },
        }
        i = i + 1;
    }
    assert(cs.take(n as int) =~= cs);
    let r = LayoutBox {
        dimensions: Dimensions::zero(),
        box_type: kind,
        style: box_style_from(style),
        children: boxes,
    };
    assert(r@.children =~= boxes_view(boxes@));
    Ok(r)
}

/// Generates the layout tree of a document: one block box per block-level
/// element, anonymous blocks around runs of inline-level content. Fails with
/// a structure error when elements nest deeper than `MAX_DEPTH`.
pub fn build_layout_tree(node: &Node, sheet: &Stylesheet) -> (r: Result<LayoutBox, RenderError>)
    ensures
        match gen_tree(node@, sheet@) {
            Ok(b) => r is Ok && r->Ok_0@ == b,
            Err(_) => r == Err::<LayoutBox, RenderError>(RenderError::StructureError),
        },
{
    match node {
        Node::Element(e) => {
            let empty = ComputedStyle::new();
            proof {
                assert forall|p: Seq<char>| #[trigger] style_fn(empty)(p) == no_style()(p) by {}
                lemma_same_fn(style_fn(empty), no_style());
            }
            let style = compute_style(e, sheet, &empty);
            proof {
                lemma_computed(e@, sheet@, empty, no_style(), style);
            }
            build_box(
                e,
                BoxType::BlockNode,
                sheet,
                &style,
                Ghost(style_of(e@, sheet@, no_style())),
                MAX_DEPTH,
            )
        },
        Node::Text(_) => Ok(LayoutBox::new(BoxType::BlockNode)),
    }
}


/// Where a box goes in its containing block (see `place`).
fn place_box(style: &BoxStyle, cb: &Dimensions) -> (r: Dimensions)
    ensures
        forall|b: BoxV| b.style == *style ==> place(b, *cb) == r,
{
    let s = style;
    let horizontal = s.margin.left.saturating_add(s.margin.right).saturating_add(
        s.border.left,
    ).saturating_add(s.border.right).saturating_add(s.padding.left).saturating_add(
        s.padding.right,
    );
    let width = match s.width {
        Some(w) => w,
        None => cb.content.width.saturating_sub(horizontal),
    };
    let x = cb.content.x.saturating_add(s.margin.left).saturating_add(s.border.left).saturating_add(
        s.padding.left,
    );
    let y = cb.content.y.saturating_add(cb.content.height).saturating_add(
        s.margin.top,
    ).saturating_add(s.border.top).saturating_add(s.padding.top);
    Dimensions {
        content: Rect { x, y, width, height: 0 },
        padding: s.padding,
        border: s.border,
        margin: s.margin,
    }
}

impl LayoutBox {
    /// Lays out this box and everything inside it in the containing block.
    pub fn layout(&mut self, containing_block: Dimensions)
        ensures
            final(self)@ == layout_box(old(self)@, containing_block),
        decreases old(self)@,
    {
        let ghost b0 = self@;
        proof {
            lemma_box_children_view(*self);
        }
        let d0 = place_box(&self.style, &containing_block);
        self.dimensions = d0;
        let n = self.children.len();
        let mut i: usize = 0;
        assert(b0.children.take(0) =~= Seq::<BoxV>::empty());
        assert(boxes_view(self.children@).take(0) =~= Seq::<BoxV>::empty());
        while i < n
            invariant
                n == self.children@.len() == b0.children.len(),
                b0 == old(self)@,
                self.style == b0.style,
                self.box_type == b0.kind,
                i <= n,
                forall|k: int| i <= k < n ==> (#[trigger] self.children@[k])@ == b0.children[k],
                (boxes_view(self.children@).take(i as int), self.dimensions) == layout_children(
                    b0.children.take(i as int),
                    d0,
                ),
            decreases n - i,
        {
            let d = self.dimensions;
            let ghost before = self.children@;
            assert(b0.children.take(i + 1).drop_last() =~= b0.children.take(i as int));
            assert(b0.children.take(i + 1).last() == b0.children[i as int]);
            assert(decreases_to!(b0 => b0.children[i as int]));
            self.children[i].layout(d);
            let h = self.children[i].dimensions.margin_box_height();
            self.dimensions.content.height = self.dimensions.content.height.saturating_add(h);
            assert(boxes_view(self.children@).take(i + 1) =~= boxes_view(before).take(
                i as int,
            ).push(self.children@[i as int]@));
            i = i + 1;
        }
        assert(b0.children.take(n as int) =~= b0.children);
        assert(boxes_view(self.children@).take(n as int) =~= boxes_view(self.children@));
        match self.style.height {
            Some(h) => {
                self.dimensions.content.height = h;
            },
            None => {},
        }
        proof {
            lemma_box_children_view(*self);
        }
    }
}

/// Lays out a document in a viewport of the given width. The same inputs
/// always give the same geometry.
pub fn layout(dom: &Document, style: &Stylesheet, width: u64) -> (r: Result<LayoutBox, RenderError>)
    ensures
        match layout_model(dom@, style@, width) {
            Ok(b) => r is Ok && r->Ok_0@ == b,
            Err(_) => r == Err::<LayoutBox, RenderError>(RenderError::StructureError),
        },
{
    let mut root_box = build_layout_tree(&dom.root, style)?;
    root_box.layout(Dimensions::viewport(width));
    Ok(root_box)
}


/// Layout depends on nothing but its inputs: for every two equal documents,
/// equal stylesheets and one width, the laid-out geometry is the same.
pub proof fn lemma_layout_deterministic(
    dom1: NodeV,
    dom2: NodeV,
    rules1: Seq<RuleV>,
    rules2: Seq<RuleV>,
    width: u64,
)
    requires
        dom1 == dom2,
        rules1 == rules2,
    ensures
        layout_model(dom1, rules1, width) == layout_model(dom2, rules2, width),
{
}

proof fn lemma_text_children(cs: Seq<NodeV>, rules: Seq<RuleV>, st: StyleFn, depth: int)
    requires
        forall|i: int| 0 <= i < cs.len() ==> (#[trigger] cs[i]) is Text,
    ensures
        gen_children(cs, rules, st, depth) == Ok::<(Seq<BoxV>, bool), ()>(
            if cs.len() == 0 {
                (Seq::empty(), false)
            } else {
                (seq![empty_box(BoxType::AnonymousBlock)], true)
            },
        ),
    decreases cs.len(),
{
    if cs.len() > 0 {
        let prev = cs.drop_last();
        assert forall|i: int| 0 <= i < prev.len() implies (#[trigger] prev[i]) is Text by {
            assert(prev[i] == cs[i]);
        }
        lemma_text_children(prev, rules, st, depth);
        assert(cs.last() == cs[cs.len() - 1]);
        let anon = empty_box(BoxType::AnonymousBlock);
        assert(anon.children + Seq::<BoxV>::empty() =~= anon.children);
        if prev.len() > 0 {
            assert(seq![anon].update(0, anon) =~= seq![anon]);
        } else {
            assert(Seq::<BoxV>::empty().push(anon) =~= seq![anon]);
        }
    }
}

/// For every document that holds no element below its root (its root is a
/// text, or an element whose children are all text), the root lays out as a
/// block box with content height 0, unless a rule gives the root element a
/// height.
pub proof fn lemma_no_elements_zero_height(dom: NodeV, rules: Seq<RuleV>, width: u64)
    requires
        dom is Element ==> forall|i: int|
            0 <= i < dom->Element_0.children.len() ==> (#[trigger] dom->Element_0.children[i]) is Text,
        dom is Element ==> box_style(style_of(dom->Element_0, rules, no_style())).height is None,
    ensures
        layout_model(dom, rules, width) is Ok,
        layout_model(dom, rules, width)->Ok_0.kind == BoxType::BlockNode,
        layout_model(dom, rules, width)->Ok_0.dims.content.height == 0,
{
    if dom is Text {
        let b = empty_box(BoxType::BlockNode);
        let cb = Dimensions { content: Rect { x: 0, y: 0, width, height: 0 }, ..zero_dimensions() };
        assert(layout_children(b.children, place(b, cb)) == (Seq::<BoxV>::empty(), place(b, cb)));
    } else {
        let e = dom->Element_0;
        let st = style_of(e, rules, no_style());
        lemma_text_children(e.children, rules, st, MAX_DEPTH - 1);
        let b = gen_tree(dom, rules)->Ok_0;
        let cb = Dimensions { content: Rect { x: 0, y: 0, width, height: 0 }, ..zero_dimensions() };
        let d0 = place(b, cb);
        let anon = empty_box(BoxType::AnonymousBlock);
        if e.children.len() > 0 {
            assert(b.children == seq![anon]);
            assert(seq![anon].drop_last() =~= Seq::<BoxV>::empty());
            assert(seq![anon].last() == anon);
            let k = layout_box(anon, d0);
            let da = place(anon, d0);
            assert(layout_children(anon.children, da) == (Seq::<BoxV>::empty(), da));
            assert(k.dims.content.height == 0);
            assert(margin_box_height(k.dims) == 0);
            assert(layout_children(Seq::<BoxV>::empty(), d0) == (Seq::<BoxV>::empty(), d0));
            assert(layout_children(b.children, d0).1.content.height == 0);
        } else {
            assert(b.children =~= Seq::<BoxV>::empty());
            assert(layout_children(b.children, d0) == (Seq::<BoxV>::empty(), d0));
        }
        assert(b.style.height is None);
        assert(layout_box(b, cb).dims.content.height == 0);
    }
}

} // verus!
