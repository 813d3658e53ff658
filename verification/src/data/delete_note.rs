//! A note as the trash lists it.

use vstd::prelude::*;
use crate::time::Timestamp;

verus! {

/// What a trash entry holds, as mathematical values.
pub struct DeleteNoteView {
    pub id: Seq<char>,
    pub title: Seq<char>,
    pub deleted_at: Timestamp,
}

/// A note in the trash: its identifier, its title and the instant at which
/// it was moved there.
#[derive(Debug)]
pub struct DeleteNote {
    id: String,
    title: String,
    deleted_at: Timestamp,
}

impl View for DeleteNote {
    type V = DeleteNoteView;

    closed spec fn view(&self) -> DeleteNoteView {
        DeleteNoteView { id: self.id@, title: self.title@, deleted_at: self.deleted_at }
    }
}

impl DeleteNote {
    /// The trash entry of the note `id`, titled `title`, deleted at
    /// `deleted_at`.
    pub fn new(id: String, title: String, deleted_at: Timestamp) -> (r: DeleteNote)
        ensures
            r@ == (DeleteNoteView { id: id@, title: title@, deleted_at }),
    {
        DeleteNote { id, title, deleted_at }
    }

    /// The note's identifier.
    pub fn id(&self) -> (r: &str)
        ensures
            r@ == self@.id,
    {
        self.id.as_str()
    }

    /// The note's title.
    pub fn title(&self) -> (r: &str)
        ensures
            r@ == self@.title,
    {
        self.title.as_str()
    }

    /// The instant of deletion.
    pub fn deleted_instant(&self) -> (r: Timestamp)
        ensures
            r == self@.deleted_at,
    {
        self.deleted_at
    }

    /// The instant of deletion as `YYYY-MM-DD HH:MM` in local time: the
    /// text of the instant at the offset of the machine's time zone, or the
    /// empty text for an instant that cannot be represented.
    pub fn deleted_at(&self) -> (r: String)
        ensures
            self@.deleted_at.is_local_text(r@),
    {
        self.deleted_at.local_text()
    }
}

} // verus!
