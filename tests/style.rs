use yolofi::css;
use yolofi::dom::{Attribute, ElementData};
use yolofi::style::{compute_style, has_word, specificity, ComputedStyle};
use yolofi::stylesheet::{Selector, SimpleSelector};
use yolofi::units::{color_from, leading_number};
use yolofi::canvas::Color;

fn element(tag: &str, attrs: &[(&str, &str)]) -> ElementData {
    ElementData {
        tag_name: tag.to_string(),
        attributes: attrs
            .iter()
            .map(|(n, v)| Attribute { name: n.to_string(), value: v.to_string() })
            .collect(),
        children: vec![],
    }
}

#[test]
fn id_rule_overrides_class_rule_in_either_order() {
    let e = element("p", &[("id", "main"), ("class", "note big")]);
    let parent = ComputedStyle::new();
    for text in ["#main{color:red} .note{color:blue}", ".note{color:blue} #main{color:red}"] {
        let sheet = css::parse(text);
        let st = compute_style(&e, &sheet, &parent);
        assert_eq!(st.value("color").as_deref(), Some("red"));
    }
}

#[test]
fn later_rule_wins_on_equal_weight() {
    let e = element("p", &[]);
    let sheet = css::parse("p{color:red} p{color:green}");
    let st = compute_style(&e, &sheet, &ComputedStyle::new());
    assert_eq!(st.value("color").as_deref(), Some("green"));
}

#[test]
fn inheritable_properties_pass_down() {
    let sheet = css::parse("div{color:red; margin: 4px}");
    let parent = compute_style(&element("div", &[]), &sheet, &ComputedStyle::new());
    let child = compute_style(&element("span", &[]), &sheet, &parent);
    assert_eq!(child.value("color").as_deref(), Some("red"));
    assert_eq!(child.value("margin"), None);
}

#[test]
fn selector_matching_and_weight() {
    let sel = SimpleSelector {
        tag_name: Some("p".to_string()),
        id: None,
        class: vec!["big".to_string()],
    };
    assert!(yolofi::style::matches(&sel, &element("p", &[("class", "note big")])));
    assert!(!yolofi::style::matches(&sel, &element("p", &[("class", "bigger")])));
    assert!(!yolofi::style::matches(&sel, &element("div", &[("class", "big")])));
    assert_eq!(specificity(&sel), (0, 1, 1));
    let sheet = css::parse("#x.y.z{}");
    match &sheet.rules[0].selectors[0] {
        Selector::Simple(s) => assert_eq!(specificity(s), (1, 2, 0)),
    }
}

#[test]
fn words_and_units() {
    assert!(has_word("  a  bb c", "bb"));
    assert!(!has_word("abb", "bb"));
    assert_eq!(leading_number("12px"), Some(12));
    assert_eq!(leading_number("0.5em"), Some(0));
    assert_eq!(leading_number("auto"), None);
    assert_eq!(leading_number("99999999999999"), Some(4294967295));
    assert_eq!(color_from("#3498db"), Some(Color::new(0x34, 0x98, 0xdb)));
    assert_eq!(color_from("#fff"), Some(Color::new(255, 255, 255)));
    assert_eq!(color_from("red"), None);
}

#[test]
fn every_node_gets_a_style_top_down() {
    let doc = yolofi::html::parse("<div class=\"k\">t<p>u</p></div>");
    let sheet = css::parse(".k{color:red; margin:2px} p{font-size:9px}");
    let root = yolofi::style_tree::resolve_styles(&doc, &sheet).unwrap();
    let div = &root.children[0];
    assert_eq!(div.style.value("color").as_deref(), Some("red"));
    assert_eq!(div.children.len(), 2);
    let text = &div.children[0];
    assert_eq!(text.style.value("color").as_deref(), Some("red"));
    assert_eq!(text.style.value("margin"), None);
    let p = &div.children[1];
    assert_eq!(p.style.value("color").as_deref(), Some("red"));
    assert_eq!(p.style.value("font-size").as_deref(), Some("9px"));
    assert_eq!(p.children[0].style.value("font-size").as_deref(), Some("9px"));
}
