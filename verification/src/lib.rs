//! Extraction of a typed node tree from TeX/LaTeX source text.
//!
//! The library classifies and recursively decomposes a span of source
//! bytes into a tree of typed nodes, each carrying the exact half-open
//! byte range it was derived from.

mod arg;
mod command;
mod comment;
mod environment;
mod error;
mod group;
mod inline_math;
mod node;
mod scan;
mod span;
mod square_group;
mod text;

pub use arg::Arg;
pub use command::{extract_command, Command};
pub use comment::{extract_comment, Comment};
pub use environment::{
    environment_symbol_at, extract_environment, find_environment_and_inner_nodes_spans,
    Environment,
};
pub use error::ParseError;
pub use group::{extract_group, find_group_span, Group};
pub use inline_math::{extract_inline_math, InlineMath};
pub use node::{extract_node, extract_nodes, TexNode};
pub use span::Span;
pub use square_group::{extract_square_group, SquareGroup};
pub use text::{extract_text, Text};
