//! Box geometry: rectangles, edge sizes and the box model around content.
use vstd::prelude::*;

verus! {

#[derive(Clone, Copy, PartialEq, Eq, Structural, Debug)]
pub struct Rect {
    pub x: u64,
    pub y: u64,
    pub width: u64,
    pub height: u64,
}

#[derive(Clone, Copy, PartialEq, Eq, Structural, Debug)]
pub struct EdgeSizes {
    pub left: u64,
    pub right: u64,
    pub top: u64,
    pub bottom: u64,
}

/// Content rectangle plus the padding, border and margin around it.
#[derive(Clone, Copy, PartialEq, Eq, Structural, Debug)]
pub struct Dimensions {
    pub content: Rect,
    pub padding: EdgeSizes,
    pub border: EdgeSizes,
    pub margin: EdgeSizes,
}

pub open spec fn zero_edges() -> EdgeSizes {
    EdgeSizes { left: 0, right: 0, top: 0, bottom: 0 }
}

pub open spec fn zero_dimensions() -> Dimensions {
    Dimensions {
        content: Rect { x: 0, y: 0, width: 0, height: 0 },
        padding: zero_edges(),
        border: zero_edges(),
        margin: zero_edges(),
    }
}

/// Height of the box including padding, border and margin (saturating).
pub open spec fn margin_box_height(d: Dimensions) -> u64 {
    d.content.height.saturating_add(d.padding.top).saturating_add(d.padding.bottom).saturating_add(
        d.border.top,
    ).saturating_add(d.border.bottom).saturating_add(d.margin.top).saturating_add(d.margin.bottom)
}

impl EdgeSizes {
    pub fn zero() -> (r: Self)
        ensures
            r == zero_edges(),
    {
        EdgeSizes { left: 0, right: 0, top: 0, bottom: 0 }
    }
}

impl Dimensions {
    pub fn zero() -> (r: Self)
        ensures
            r == zero_dimensions(),
    {
        Dimensions {
            content: Rect { x: 0, y: 0, width: 0, height: 0 },
            padding: EdgeSizes::zero(),
            border: EdgeSizes::zero(),
            margin: EdgeSizes::zero(),
        }
    }

    /// The initial containing block: the given width, at the origin.
    pub fn viewport(width: u64) -> (r: Self)
        ensures
            r == (Dimensions {
                content: Rect { x: 0, y: 0, width, height: 0 },
                ..zero_dimensions()
            }),
    {
        let mut d = Dimensions::zero();
        d.content.width = width;
        d
    }

    /// Height of the margin box.
    pub fn margin_box_height(&self) -> (r: u64)
        ensures
            r == margin_box_height(*self),
    {
        self.content.height.saturating_add(self.padding.top).saturating_add(
            self.padding.bottom,
        ).saturating_add(self.border.top).saturating_add(self.border.bottom).saturating_add(
            self.margin.top,
        ).saturating_add(self.margin.bottom)
    }
}

} // verus!
