//! Import and export: the settings, the records and the texts of the file
//! formats. Reading and writing the files is left to the caller.

pub mod exporter;
pub mod formats;
pub mod importer;

pub use exporter::Exporter;
pub use importer::Importer;

use vstd::prelude::*;
use crate::data::export_note::ExportNote;
use crate::data::export_note::ExportNoteView;
use crate::text::texts;

verus! {

/// What to do with an imported note whose identifier is taken.
#[derive(Debug, Clone, Copy, PartialEq, Eq, Structural)]
pub enum MergeStrategy {
    /// Leave the imported note out.
    Skip,
    /// Put the imported note in the place of the present one.
    Overwrite,
    /// Give the imported note a new identifier.
    Rename,
}

/// How notes are imported.
#[derive(Debug, Clone, Copy, PartialEq, Eq, Structural)]
pub struct ImportConfig {
    /// What to do with a note whose identifier is taken.
    pub merge_strategy: MergeStrategy,
    /// Whether the instants found in or on the file are kept.
    pub preserve_timestamps: bool,
}

impl Default for ImportConfig {
    fn default() -> (r: ImportConfig)
        ensures
            r == (ImportConfig {
                merge_strategy: MergeStrategy::Rename,
                preserve_timestamps: true,
            }),
    {
        ImportConfig { merge_strategy: MergeStrategy::Rename, preserve_timestamps: true }
    }
}

/// A file format of the export.
#[derive(Debug, Clone, Copy, PartialEq, Eq, Structural)]
pub enum ExportFormat {
    /// One Markdown file per note; with the note's metadata in front if the
    /// flag is set.
    Markdown(bool),
    /// One JSON file.
    Json,
    /// HTML.
    Html,
}

/// How notes are exported.
#[derive(Debug, Clone, Copy, PartialEq, Eq, Structural)]
pub struct ExportConfig {
    /// The file format.
    pub format: ExportFormat,
}

impl Default for ExportConfig {
    fn default() -> (r: ExportConfig)
        ensures
            r == (ExportConfig { format: ExportFormat::Markdown(true) }),
    {
        ExportConfig { format: ExportFormat::Markdown(true) }
    }
}

/// A note read from a file, with what was found amiss while reading.
#[derive(Debug)]
pub struct ImportResult {
    note: ExportNote,
    warnings: Vec<String>,
}

impl ImportResult {
    /// The note read, as a mathematical value.
    pub closed spec fn note_view(&self) -> ExportNoteView {
        self.note@
    }

    /// The warnings, as sequences of characters.
    pub closed spec fn warning_texts(&self) -> Seq<Seq<char>> {
        texts(self.warnings@)
    }

    /// The result of reading `note` with `warnings`.
    pub fn new(note: ExportNote, warnings: Vec<String>) -> (r: ImportResult)
        ensures
            r.note_view() == note@,
            r.warning_texts() == texts(warnings@),
    {
        ImportResult { note, warnings }
    }

    /// The note read.
    pub fn note(&self) -> (r: &ExportNote)
        ensures
            r@ == self.note_view(),
    {
        &self.note
    }

    /// What was found amiss while reading.
    pub fn warnings(&self) -> (r: &Vec<String>)
        ensures
            texts(r@) == self.warning_texts(),
    {
        &self.warnings
    }
}

} // verus!
