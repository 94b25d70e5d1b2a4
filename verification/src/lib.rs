//! Rustache: a Mustache template engine.
//!
//! A template is split into tokens (`compiler`), the tokens are parsed into
//! nodes (`parser`), and the nodes are rendered with a hash of data
//! (`template`), built with the builders of `builder` or from JSON (`json`).

pub mod text;
pub mod compiler;
pub mod parser;
pub mod data;
pub mod builder;
pub mod template;
pub mod json;
pub mod render;
pub mod memstream;
pub mod properties;

pub use builder::{HashBuilder, VecBuilder};
pub use compiler::{create_tokens, Token};
pub use data::{Data, LambdaFn};
pub use memstream::MemStream;
pub use parser::{parse_nodes, Node};
pub use render::{render_text, render_text_with_partials};
pub use template::{Template, TemplateError};
