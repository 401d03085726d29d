//! CSS parsing entry points and the built-in default stylesheet.
use vstd::prelude::*;
use crate::css_parser::{Parser, parse_model, valid_rule_blocks, lemma_rule_count};
use crate::css_tokenizer::css_tokenize;
use crate::stylesheet::Stylesheet;

verus! {

/// The default stylesheet that gives unstyled HTML its look.
pub const USER_AGENT_CSS: &'static str = r#"
/* YoloFi Base Theme */
html {
    background-color: #f8f9fa; /* Soft White */
    color: #1a1a1a; /* Almost Black */
    font-family: 'Inter', system-ui, sans-serif;
    line-height: 1.6;
}

h1, h2, h3, h4, h5, h6 {
    color: #2c3e50; /* Navy */
    font-weight: 700;
    margin-bottom: 0.5em;
}

h1 {
    font-size: 2.5em;
    border-bottom: 2px solid #3498db; /* YoloFi Sky Blue */
    padding-bottom: 0.2em;
}

a {
    color: #3498db; /* YoloFi Sky Blue */
    text-decoration: none;
    transition: color 0.2s;
}

a:hover {
    color: #2980b9; /* Darker Blue */
    text-decoration: underline;
}

button {
    background-color: #3498db;
    color: white;
    border: none;
    padding: 0.5em 1em;
    border-radius: 4px;
    font-weight: 600;
    cursor: pointer;
}

/* Debug/Internal styles */
yolofi-internal-status {
    display: block;
    background: #2c3e50;
    color: #ecf0f1;
    padding: 10px;
    font-family: monospace;
}
"#;

/// Parses CSS text into a stylesheet; malformed rules are skipped.
pub fn parse(css: &str) -> (r: Stylesheet)
    ensures
        r@ == parse_model(css@),
{
    let mut parser = Parser::new(css);
    parser.parse_stylesheet()
}

/// The text of the default stylesheet.
pub fn get_user_agent_style() -> (r: String)
    ensures
        r@ == USER_AGENT_CSS@,
{
    USER_AGENT_CSS.to_string()
}

/// For every CSS text, cut into top-level blocks after each `}`, the
/// stylesheet holds exactly as many rules as there are blocks that the rule
/// grammar accepts; malformed blocks are left out and do not stop the rest.
pub proof fn lemma_rules_match_valid_blocks(css: Seq<char>)
    ensures
        parse_model(css).len() == valid_rule_blocks(css_tokenize(css), 0),
{
    lemma_rule_count(css_tokenize(css), 0);
}

} // verus!
