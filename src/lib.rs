//! A small rendering pipeline: HTML is tokenized and built into a document
//! tree, CSS is tokenized and parsed into a stylesheet, styles are cascaded
//! onto elements, a block layout is computed and the boxes are rasterized
//! onto a pixel canvas.
use vstd::prelude::*;

pub mod text;
pub mod dom;
pub mod html_tokenizer;
pub mod tree_builder;
pub mod html;
pub mod css_tokenizer;
pub mod stylesheet;
pub mod css_parser;
pub mod css;
pub mod style;
pub mod style_tree;
pub mod box_model;
pub mod canvas;
pub mod units;
pub mod error;
pub mod layout;
pub mod paint;
pub mod intents;
pub mod browser_state;
pub mod http;
pub mod dns;
pub mod router;
pub mod render_text;
