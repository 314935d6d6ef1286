//! A small template engine: compile a pattern of literal text and `{path}` placeholders
//! once, then render it against JSON values.
//!
//! A pattern is literal text with placeholders in braces. A placeholder holds a path of
//! keys separated by dots; a key is a position in a list or a name in a mapping. `{{` and
//! `}}` stand for a single brace. Rendering writes each literal as it stands and, for each
//! placeholder, the JSON text of what its path names in the value.
//!
//! What compiling and rendering give is stated over mathematical functions, and proved:
//! the pattern language in [`grammar`], its inverse in [`canonical`], the positions at
//! which patterns are rejected in [`rejected`], rendering in [`render`], and what holds of
//! the two together in [`laws`].

pub mod canonical;
pub mod generator;
pub mod grammar;
pub mod json;
pub mod laws;
pub mod parser;
pub mod rejected;
pub mod render;
pub mod text;
pub mod token;

pub use generator::Generator;
pub use parser::ParseError;
pub use render::RenderError;
pub use serde_json::Value;
pub use token::{Key, Token};
