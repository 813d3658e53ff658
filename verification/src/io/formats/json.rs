//! Notes in JSON files.

use vstd::prelude::*;
use crate::data::export_note::ExportNote;
use crate::data::export_note::ExportNoteView;
use crate::io::ImportConfig;
use crate::io::ImportResult;
use crate::text::texts;
use crate::time::Timestamp;

verus! {

/// Reads and writes notes as JSON.
#[derive(Debug)]
pub struct JsonHandler;

impl JsonHandler {
    /// The instants of a note read from a JSON file. With
    /// `preserve_timestamps` the note keeps its instants, and a note
    /// without a last change gets `modified`, the instant at which the file
    /// was last written; without it the note loses both.
    pub open spec fn settled(
        note: ExportNoteView,
        preserve_timestamps: bool,
        modified: Option<Timestamp>,
    ) -> ExportNoteView {
        if preserve_timestamps {
            ExportNoteView {
                updated: if note.updated is None {
                    modified
                } else {
                    note.updated
                },
                ..note
            }
        } else {
            ExportNoteView { created: None, updated: None, ..note }
        }
    }

    /// The result of importing `note`, read from a JSON file that was last
    /// written at `modified`: the note with its instants settled, and the
    /// given warnings.
    pub fn import_note(
        &self,
        note: ExportNote,
        config: &ImportConfig,
        modified: Option<Timestamp>,
        warnings: Vec<String>,
    ) -> (r: ImportResult)
        ensures
            r.note_view() == JsonHandler::settled(note@, config.preserve_timestamps, modified),
            r.warning_texts() == texts(warnings@),
    {
        let mut note = note;
        if config.preserve_timestamps {
            if note.updated_instant().is_none() {
                note.set_updated(modified);
            }
        } else {
            note.set_created(None);
            note.set_updated(None);
        }
        ImportResult::new(note, warnings)
    }
}

} // verus!
