//! The decisions of the import.

use vstd::prelude::*;
use crate::text::same_text;

verus! {

/// A file format that can be imported.
#[derive(Debug, Clone, Copy, PartialEq, Eq, Structural)]
pub enum ImportFormat {
    Markdown,
    Json,
}

/// The format of a file with the given extension: Markdown for `md` and
/// `markdown`, JSON for `json`, none for anything else.
pub open spec fn format_for(extension: Option<Seq<char>>) -> Option<ImportFormat> {
    match extension {
        Some(e) => if e == "md"@ || e == "markdown"@ {
            Some(ImportFormat::Markdown)
        } else if e == "json"@ {
            Some(ImportFormat::Json)
        } else {
            None
        },
        None => None,
    }
}

/// Reads notes in the import formats.
#[derive(Debug)]
pub struct Importer;

impl Importer {
    /// The format of a file with the given extension; `None` for a file
    /// that cannot be imported.
    pub fn format_of(extension: Option<&str>) -> (r: Option<ImportFormat>)
        ensures
            r == format_for(
                match extension {
                    Some(e) => Some(e@),
                    None => None,
                },
            ),
    {
        match extension {
            Some(e) => {
                if same_text(e, "md") || same_text(e, "markdown") {
                    Some(ImportFormat::Markdown)
                } else if same_text(e, "json") {
                    Some(ImportFormat::Json)
                } else {
                    None
                }
            },
            None => None,
        }
    }
}

} // verus!
