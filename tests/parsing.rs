use yolofi::css;
use yolofi::css_tokenizer::{self, Token as CssToken};
use yolofi::dom::Node;
use yolofi::html;
use yolofi::html_tokenizer::{Token, Tokenizer};
use yolofi::stylesheet::Selector;
use yolofi::tree_builder::TreeBuilder;

fn depth(n: &Node) -> usize {
    match n {
        Node::Element(e) => 1 + e.children.iter().map(depth).max().unwrap_or(0),
        Node::Text(_) => 0,
    }
}

fn tags(n: &Node) -> Vec<String> {
    match n {
        Node::Element(e) => e
            .children
            .iter()
            .filter_map(|c| match c {
                Node::Element(x) => Some(x.tag_name.clone()),
                Node::Text(_) => None,
            })
            .collect(),
        Node::Text(_) => vec![],
    }
}

#[test]
fn balanced_html_keeps_its_depth() {
    let doc = html::parse("<a><b><c></c></b><d></d></a><e></e>");
    assert_eq!(depth(&doc.root) - 1, 3);
    let flat = html::parse("<a></a><b></b>");
    assert_eq!(depth(&flat.root) - 1, 1);
}

#[test]
fn text_is_coalesced() {
    let doc = html::parse("<p>Hello world</p>");
    match &doc.root {
        Node::Element(root) => match &root.children[0] {
            Node::Element(p) => {
                assert_eq!(p.tag_name, "p");
                assert_eq!(p.children.len(), 1);
                match &p.children[0] {
                    Node::Text(t) => assert_eq!(t, "Hello world"),
                    _ => panic!("text expected"),
                }
            }
            _ => panic!("element expected"),
        },
        _ => panic!("root is an element"),
    }
}

#[test]
fn end_tags_close_intervening_elements_and_stray_ones_are_ignored() {
    let doc = html::parse("<div><p><b>x</div><i></i></q>");
    assert_eq!(tags(&doc.root), vec!["div".to_string(), "i".to_string()]);
}

#[test]
fn void_elements_take_no_children() {
    let doc = html::parse("<br><img src=\"a.png\"><p></p>");
    assert_eq!(tags(&doc.root), vec!["br".to_string(), "img".to_string(), "p".to_string()]);
}

#[test]
fn tokenizer_reads_tags_attributes_and_literal_angle() {
    let mut t = Tokenizer::new("<a href='x' id=y>1 < 2</a>");
    match t.next_token() {
        Some(Token::StartTag(name, attrs)) => {
            assert_eq!(name, "a");
            assert_eq!(attrs.len(), 2);
            assert_eq!(attrs[0].name, "href");
            assert_eq!(attrs[0].value, "x");
            assert_eq!(attrs[1].name, "id");
            assert_eq!(attrs[1].value, "y");
        }
        _ => panic!("start tag expected"),
    }
    let mut chars = String::new();
    loop {
        match t.next_token() {
            Some(Token::Character(c)) => chars.push(c),
            Some(Token::EndTag(name)) => {
                assert_eq!(name, "a");
                break;
            }
            _ => panic!("unexpected token"),
        }
    }
    assert_eq!(chars, "1 < 2");
    assert!(t.next_token().is_none());
}

#[test]
fn tree_builder_closes_everything_at_the_end() {
    let mut b = TreeBuilder::new();
    b.process(Token::StartTag("div".to_string(), vec![]));
    b.process(Token::Character('x'));
    b.process(Token::Character('y'));
    let doc = b.finish();
    assert_eq!(depth(&doc.root), 2);
}

#[test]
fn css_tokens() {
    let toks = css_tokenizer::tokenize("a#b .c{w:10px} /* note */ 'q'");
    assert!(matches!(&toks[0], CssToken::Ident(s) if s == "a"));
    assert!(matches!(&toks[1], CssToken::Hash(s) if s == "b"));
    assert!(matches!(toks[2], CssToken::Delim('.')));
    assert!(matches!(&toks[5], CssToken::Ident(s) if s == "w"));
    assert!(matches!(&toks[7], CssToken::Number(s) if s == "10"));
    assert!(matches!(&toks[8], CssToken::Ident(s) if s == "px"));
    assert!(matches!(&toks[10], CssToken::String(s) if s == "q"));
    assert_eq!(toks.len(), 11);
}

#[test]
fn valid_rules_are_counted_and_malformed_ones_skipped() {
    let sheet = css::parse("a { color: red; } b { color: ; } c, d.e { margin: 3px } f { x: #fff }");
    assert_eq!(sheet.rules.len(), 3);
    let r = &sheet.rules[1];
    assert_eq!(r.selectors.len(), 2);
    match &r.selectors[1] {
        Selector::Simple(s) => {
            assert_eq!(s.tag_name.as_deref(), Some("d"));
            assert_eq!(s.class, vec!["e".to_string()]);
        }
    }
    assert_eq!(r.declarations[0].name, "margin");
    assert_eq!(r.declarations[0].value, "3px");
    assert_eq!(sheet.rules[2].declarations[0].value, "#fff");
}

#[test]
fn user_agent_style_parses() {
    let ua = css::get_user_agent_style();
    assert!(ua.contains("YoloFi Base Theme"));
    let sheet = css::parse(&ua);
    assert!(!sheet.rules.is_empty());
}
