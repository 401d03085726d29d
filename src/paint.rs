//! The rasterizer: paints each box's background and outline, then its
//! children over it, clipped to the canvas.
use vstd::prelude::*;
use crate::box_model::Rect;
use crate::canvas::{Canvas, Color, white};
use crate::layout::{LayoutBox, BoxV, lemma_box_children_view, boxes_view};

verus! {

broadcast use vstd::std_specs::vec::group_vec_axioms;

/// The color of every box outline.
pub open spec fn outline_color() -> Color {
    Color { r: 52, g: 152, b: 219 }
}

pub open spec fn in_rect(r: Rect, x: int, y: int) -> bool {
    r.x <= x < r.x + r.width && r.y <= y < r.y + r.height
}

/// The color at a point after filling the rectangle with `c` over `under`.
pub open spec fn fill_at(r: Rect, c: Color, x: int, y: int, under: Color) -> Color {
    if in_rect(r, x, y) {
        c
    } else {
        under
    }
}

/// The four one-pixel edges of a rectangle: top, bottom, left, right.
pub open spec fn edges(r: Rect) -> (Rect, Rect, Rect, Rect) {
    (
        Rect { x: r.x, y: r.y, width: r.width, height: 1 },
        Rect { x: r.x, y: (r.y.saturating_add(r.height) - 1) as u64, width: r.width, height: 1 },
        Rect { x: r.x, y: r.y, width: 1, height: r.height },
        Rect { x: (r.x.saturating_add(r.width) - 1) as u64, y: r.y, width: 1, height: r.height },
    )
}

/// The color at a point after drawing the outline of `r` over `under`.
pub open spec fn outline_at(r: Rect, x: int, y: int, under: Color) -> Color {
    if r.width > 0 && r.height > 0 {
        let (t, b, l, rt) = edges(r);
        let c = outline_color();
        fill_at(rt, c, x, y, fill_at(l, c, x, y, fill_at(b, c, x, y, fill_at(t, c, x, y, under))))
    } else {
        under
    }
}

/// The color at a point after painting a box and its children over `under`.
pub open spec fn paint_box(b: BoxV, x: int, y: int, under: Color) -> Color
    decreases b,
{
    let r = b.dims.content;
    let c1 = match b.style.background {
        Some(bg) => fill_at(r, bg, x, y, under),
        None => under,
    };
    paint_children(b.children, x, y, outline_at(r, x, y, c1))
}

pub open spec fn paint_children(cs: Seq<BoxV>, x: int, y: int, under: Color) -> Color
    decreases cs,
{
    if cs.len() == 0 {
        under
    } else {
        paint_box(cs.last(), x, y, paint_children(cs.drop_last(), x, y, under))
    }
}

/// Fills a rectangle, clipped to the canvas.
fn fill_rect(canvas: &mut Canvas, r: Rect, color: Color)
    requires
        old(canvas).wf(),
    ensures
        final(canvas).wf(),
        final(canvas).width == old(canvas).width,
        final(canvas).height == old(canvas).height,
        forall|x: int, y: int|
            0 <= x < old(canvas).width && 0 <= y < old(canvas).height ==> #[trigger] final(canvas).at(x, y)
                == fill_at(r, color, x, y, old(canvas).at(x, y)),
{
    let ghost c0 = *canvas;
    let w = canvas.width() as u64;
    let h = canvas.height() as u64;
    let x_end = if r.x.saturating_add(r.width) < w {
        r.x.saturating_add(r.width)
    } else {
        w
    };
    let y_end = if r.y.saturating_add(r.height) < h {
        r.y.saturating_add(r.height)
    } else {
        h
    };
    let mut y = r.y;
    while y < y_end
        invariant
            canvas.wf(),
            canvas.width == c0.width,
            canvas.height == c0.height,
            w == c0.width,
            h == c0.height,
            x_end <= w,
            y_end <= h,
            x_end == if r.x + r.width < w { r.x + r.width } else { w as int },
            y_end == if r.y + r.height < h { r.y + r.height } else { h as int },
            r.y <= y,
            forall|px: int, py: int|
                0 <= px < w && 0 <= py < h ==> #[trigger] canvas.at(px, py) == if in_rect(r, px, py)
                    && py < y {
                    color
                } else {
                    c0.at(px, py)
                },
        decreases y_end - y,
    {
        let mut x = r.x;
        while x < x_end
            invariant
                canvas.wf(),
                canvas.width == c0.width,
                canvas.height == c0.height,
                w == c0.width,
                h == c0.height,
                x_end <= w,
                y < y_end <= h,
                x_end == if r.x + r.width < w { r.x + r.width } else { w as int },
                y_end == if r.y + r.height < h { r.y + r.height } else { h as int },
                r.x <= x,
                r.y <= y,
                forall|px: int, py: int|
                    0 <= px < w && 0 <= py < h ==> #[trigger] canvas.at(px, py) == if in_rect(
                        r,
                        px,
                        py,
                    ) && (py < y || (py == y && px < x)) {
                        color
                    } else {
                        c0.at(px, py)
                    },
            decreases x_end - x,
        {
            canvas.set_pixel(x as usize, y as usize, color);
            x = x + 1;
        }
        y = y + 1;
    }
}

/// Paints a box, then its children over it.
fn render_box(canvas: &mut Canvas, layout_box: &LayoutBox)
    requires
        old(canvas).wf(),
    ensures
        final(canvas).wf(),
        final(canvas).width == old(canvas).width,
        final(canvas).height == old(canvas).height,
        forall|x: int, y: int|
            0 <= x < old(canvas).width && 0 <= y < old(canvas).height ==> #[trigger] final(canvas).at(x, y)
                == paint_box(layout_box@, x, y, old(canvas).at(x, y)),
    decreases layout_box,
{
    let ghost c0 = *canvas;
    let rect = layout_box.dimensions.content;
    match layout_box.style.background {
        Some(bg) => fill_rect(canvas, rect, bg),
        None => {},
    }
    let ghost c1 = *canvas;
    if rect.width > 0 && rect.height > 0 {
        let color = Color::new(52, 152, 219);
        fill_rect(canvas, Rect { x: rect.x, y: rect.y, width: rect.width, height: 1 }, color);
        fill_rect(
            canvas,
            Rect {
                x: rect.x,
                y: rect.y.saturating_add(rect.height) - 1,
                width: rect.width,
                height: 1,
            },
            color,
        );
        fill_rect(canvas, Rect { x: rect.x, y: rect.y, width: 1, height: rect.height }, color);
        fill_rect(
            canvas,
            Rect {
                x: rect.x.saturating_add(rect.width) - 1,
                y: rect.y,
                width: 1,
                height: rect.height,
            },
            color,
        );
    }
    let ghost c2 = *canvas;
    assert forall|x: int, y: int| 0 <= x < c0.width && 0 <= y < c0.height implies #[trigger] c2.at(
        x,
        y,
    ) == outline_at(rect, x, y, c1.at(x, y)) by {}
    proof {
        lemma_box_children_view(*layout_box);
    }
    let n = layout_box.children.len();
    let mut i: usize = 0;
    while i < n
        invariant
            n == layout_box.children@.len(),
            i <= n,
            canvas.wf(),
            canvas.width == c0.width,
            canvas.height == c0.height,
            layout_box@.children == boxes_view(layout_box.children@),
            forall|x: int, y: int|
                0 <= x < c0.width && 0 <= y < c0.height ==> #[trigger] canvas.at(x, y)
                    == paint_children(layout_box@.children.take(i as int), x, y, c2.at(x, y)),
        decreases n - i,
    {
        let ghost ci = *canvas;
        let ghost cs = layout_box@.children;
        assert(cs.take(i + 1).drop_last() =~= cs.take(i as int));
        assert(cs.take(i + 1).last() == layout_box.children@[i as int]@);
        render_box(canvas, &layout_box.children[i]);
        assert forall|x: int, y: int| 0 <= x < c0.width && 0 <= y < c0.height implies #[trigger] canvas.at(
            x,
            y,
        ) == paint_children(cs.take(i + 1), x, y, c2.at(x, y)) by {
            assert(ci.at(x, y) == paint_children(cs.take(i as int), x, y, c2.at(x, y)));
        }
        i = i + 1;
    }
    assert(layout_box@.children.take(n as int) =~= layout_box@.children);
    assert forall|x: int, y: int| 0 <= x < c0.width && 0 <= y < c0.height implies #[trigger] canvas.at(
        x,
        y,
    ) == paint_box(layout_box@, x, y, c0.at(x, y)) by {
        assert(c1.at(x, y) == match layout_box.style.background {
            Some(bg) => fill_at(rect, bg, x, y, c0.at(x, y)),
            None => c0.at(x, y),
        });
        assert(c2.at(x, y) == outline_at(rect, x, y, c1.at(x, y)));
    }
}

/// Paints a layout tree onto a fresh white canvas of the given size: a
/// pixel shows the last box, in pre-order, whose background or outline
/// covers it. Pixels outside the canvas are dropped.
pub fn paint(layout_root: &LayoutBox, width: usize, height: usize) -> (r: Canvas)
    requires
        width * height <= usize::MAX,
    ensures
        r.wf(),
        r.width == width,
        r.height == height,
        r@.len() == width * height,
        forall|x: int, y: int|
            0 <= x < width && 0 <= y < height ==> #[trigger] r.at(x, y) == paint_box(
                layout_root@,
                x,
                y,
                white(),
            ),
{
    let mut canvas = Canvas::new(width, height);
    canvas.fill(Color::new(255, 255, 255));
    render_box(&mut canvas, layout_root);
    canvas
}

} // verus!
