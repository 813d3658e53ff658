//! The notes and the records derived from them.

pub mod db;
pub mod delete_note;
pub mod export_note;
pub mod note;
pub mod note_version;
pub mod notebook;

pub use delete_note::DeleteNote;
pub use export_note::ExportNote;
pub use note::Note;
pub use note_version::NoteVersion;
pub use notebook::Notebook;
