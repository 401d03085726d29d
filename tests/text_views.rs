use yolofi::browser_state::BrowserState;
use yolofi::css;
use yolofi::error::RenderError;
use yolofi::html;
use yolofi::layout::layout;

#[test]
fn document_text() {
    let doc = html::parse("<p>hi</p>");
    assert_eq!(doc.to_text(), "Document\n<html>\n  <p>\n  \"hi\"\n");
}

#[test]
fn stylesheet_text() {
    let sheet = css::parse("h1.a, #b { color: red }");
    assert_eq!(
        sheet.to_text(),
        "[Simple(SimpleSelector { tag_name: Some(\"h1\"), id: None, class: [\"a\"] }), Simple(SimpleSelector { tag_name: None, id: Some(\"b\"), class: [] })] {\n  color: red;\n}\n"
    );
}

#[test]
fn layout_text() {
    let dom = html::parse("<div></div>");
    let sheet = css::parse("div { height: 5px }");
    let tree = layout(&dom, &sheet, 800).unwrap();
    assert_eq!(tree.to_text(), "BlockBox (800.0x5.0 at 0,0)\n  BlockBox (800.0x5.0 at 0,0)");
}

#[test]
fn decoding_rejects_invalid_utf8() {
    assert_eq!(html::decode(b"<p>ok</p>"), Ok("<p>ok</p>".to_string()));
    assert_eq!(html::decode(&[0x3c, 0xff, 0x3e]), Err(RenderError::EncodingError));
}

#[test]
fn browser_state_defaults_to_deterministic() {
    assert!(BrowserState::default().determinism_checked);
}
