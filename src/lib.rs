//! A small HTML reader: a tokenizer, a pass that completes omitted closing
//! tags, and a builder that turns the tokens into a tree of elements.
//!
//! The stages compose as
//! `ElementContent::parse(tag_optimize(HtmlTag::parse(text)))`; each can be
//! used on its own.
pub mod attributes;
pub mod complete;
pub mod mapping;
pub mod pipeline;
pub mod text;
pub mod token;
pub mod tokenizer;
pub mod tree;

pub use complete::tag_optimize;
pub use mapping::HtmlTagMapped;
pub use token::{Attribute, HtmlTag};
pub use tree::{ElementContent, ElementTagState, HtmlElement};
