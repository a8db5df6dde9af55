//! A parser and HTML renderer for the Textile markup language.
//!
//! The parser is total: every input string yields a document tree that
//! covers the input exactly, and parsing never fails and never panics.
//! Every function carries a contract relating its result to a
//! mathematical model of the grammar, and the whole pipeline from text
//! to HTML is specified as a pure function of the input characters.

mod ast;
mod into_string;
mod text;

pub mod attributes;
pub mod block;
pub mod inline;
pub mod link;
pub mod list;
pub mod parser;
pub mod renderer;

pub use ast::Attribute;
pub use ast::Attributes;
pub use ast::AttrV;
pub use ast::Block;
pub use ast::BlockV;
pub use ast::BoldTagType;
pub use ast::Inline;
pub use ast::InlineV;
pub use ast::ItalicTagType;
pub use ast::ListElement;
pub use ast::ListElementV;
pub use into_string::IntoString;
pub use parser::parse;
pub use parser::spec_parse;
pub use renderer::render;
pub use renderer::render_with;
pub use renderer::spec_render;
pub use renderer::RenderOptions;
