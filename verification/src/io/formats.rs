//! The file formats of import and export.

pub mod json;
pub mod markdown;

pub use json::JsonHandler;
pub use markdown::MarkdownHandler;
