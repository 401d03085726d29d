use yolofi::box_model::Dimensions;
use yolofi::canvas::{Canvas, Color};
use yolofi::css;
use yolofi::error::RenderError;
use yolofi::html;
use yolofi::layout::{layout, BoxType, LayoutBox};
use yolofi::paint::paint;

fn lay(html_text: &str, css_text: &str, width: u64) -> LayoutBox {
    let dom = html::parse(html_text);
    let sheet = css::parse(css_text);
    layout(&dom, &sheet, width).expect("layout succeeds")
}

#[test]
fn nested_blocks_stack_vertically() {
    let root = lay("<div><p>A</p><p>B</p></div>", "div{} p{}", 800);
    assert_eq!(root.box_type, BoxType::BlockNode);
    assert_eq!(root.dimensions.content.width, 800);
    let div = &root.children[0];
    assert_eq!(div.box_type, BoxType::BlockNode);
    let c1 = &div.children[0];
    let c2 = &div.children[1];
    assert_eq!(c1.box_type, BoxType::BlockNode);
    assert_eq!(c2.box_type, BoxType::BlockNode);
    assert_eq!(c2.dimensions.content.y, c1.dimensions.content.y + c1.dimensions.content.height);
}

#[test]
fn stacked_boxes_serialize_to_full_image() {
    let root = lay("<div></div><div></div>", "div { height: 50px; }", 800);
    assert_eq!(root.children.len(), 2);
    assert_eq!(root.children[0].dimensions.content.width, 800);
    assert_eq!(root.children[0].dimensions.content.height, 50);
    assert_eq!(root.children[1].dimensions.content.y, 50);
    let canvas = paint(&root, 800, 600);
    let text = canvas.to_ppm();
    assert!(text.starts_with("P3\n800 600\n255\n"));
    assert_eq!(canvas.pixels.len(), 480000);
    let body = &text["P3\n800 600\n255\n".len()..];
    assert_eq!(body.lines().count(), 480000);
    assert!(body.lines().all(|l| l.split(' ').count() == 3));
}

#[test]
fn layout_is_deterministic() {
    let a = lay("<div><p>x</p></div><section></section>", "p { height: 7px; margin: 3px }", 640);
    let b = lay("<div><p>x</p></div><section></section>", "p { height: 7px; margin: 3px }", 640);
    fn dims(b: &LayoutBox, out: &mut Vec<Dimensions>) {
        out.push(b.dimensions);
        for c in &b.children {
            dims(c, out);
        }
    }
    let (mut da, mut db) = (Vec::new(), Vec::new());
    dims(&a, &mut da);
    dims(&b, &mut db);
    assert_eq!(da, db);
}

#[test]
fn text_only_document_has_zero_height() {
    let root = lay("just some text", "", 800);
    assert_eq!(root.box_type, BoxType::BlockNode);
    assert_eq!(root.dimensions.content.height, 0);
    assert_eq!(root.children.len(), 1);
    assert_eq!(root.children[0].box_type, BoxType::AnonymousBlock);
    let empty = lay("", "", 800);
    assert_eq!(empty.dimensions.content.height, 0);
}

#[test]
fn box_model_edges_shape_geometry() {
    let root = lay("<div></div>", "div { margin: 10px; padding: 5px; border-width: 2px; height: 20px }", 300);
    let d = root.children[0].dimensions;
    assert_eq!(d.content.x, 17);
    assert_eq!(d.content.y, 17);
    assert_eq!(d.content.width, 300 - 34);
    assert_eq!(d.content.height, 20);
    assert_eq!(root.dimensions.content.height, 20 + 34);
}

#[test]
fn specified_width_is_kept() {
    let root = lay("<div></div>", "div { width: 120px }", 300);
    assert_eq!(root.children[0].dimensions.content.width, 120);
}

#[test]
fn inline_content_goes_into_anonymous_blocks() {
    let root = lay("a<span>b</span><div></div>c", "span { display: inline }", 100);
    let kinds: Vec<BoxType> = root.children.iter().map(|b| b.box_type).collect();
    assert_eq!(kinds, vec![BoxType::AnonymousBlock, BoxType::BlockNode, BoxType::AnonymousBlock]);
    assert_eq!(root.children[0].children.len(), 1);
    assert_eq!(root.children[0].children[0].box_type, BoxType::InlineNode);
}

#[test]
fn every_non_inline_element_gets_a_block_box() {
    let root = lay("<div></div><p></p>", "p { display: none }", 100);
    assert_eq!(root.children.len(), 2);
    assert_eq!(root.children[1].box_type, BoxType::BlockNode);
}

#[test]
fn text_root_lays_out_as_empty_block() {
    let doc = yolofi::dom::Document { root: yolofi::dom::Node::Text("x".to_string()) };
    let root = layout(&doc, &css::parse(""), 800).unwrap();
    assert_eq!(root.box_type, BoxType::BlockNode);
    assert_eq!(root.dimensions.content.height, 0);
}

#[test]
fn too_deep_nesting_is_a_structure_error() {
    let mut text = String::new();
    for _ in 0..600 {
        text.push_str("<div>");
    }
    let dom = html::parse(&text);
    let sheet = css::parse("");
    assert_eq!(layout(&dom, &sheet, 800).err(), Some(RenderError::StructureError));
}

#[test]
fn painting_draws_background_and_outline() {
    let root = lay("<div></div>", "div { height: 10px; width: 10px; background-color: #ff0000 }", 100);
    let canvas = paint(&root, 20, 20);
    let blue = Color::new(52, 152, 219);
    assert_eq!(canvas.pixel(0, 0), blue);
    assert_eq!(canvas.pixel(5, 5), Color::new(255, 0, 0));
    assert_eq!(canvas.pixel(9, 5), blue);
    assert_eq!(canvas.pixel(15, 15), Color::new(255, 255, 255));
}

#[test]
fn canvas_clips_and_fills() {
    let mut c = Canvas::new(3, 2);
    c.set_pixel(5, 5, Color::new(1, 2, 3));
    assert_eq!(c.pixel(2, 1), Color::new(255, 255, 255));
    c.set_pixel(2, 1, Color::new(1, 2, 3));
    assert_eq!(c.pixel(2, 1), Color::new(1, 2, 3));
    c.fill(Color::new(0, 0, 0));
    assert_eq!(c.to_ppm(), "P3\n3 2\n255\n0 0 0\n0 0 0\n0 0 0\n0 0 0\n0 0 0\n0 0 0\n");
}
