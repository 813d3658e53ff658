//! Markdown text as a sequence of nodes, each a stretch of the bytes of the
//! text. Drawing the nodes is left to the caller.

pub mod nodes;
pub mod parser;
pub mod scan;

pub use nodes::Node;
pub use parser::MarkdownParser;
