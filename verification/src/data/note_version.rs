//! A saved version of a note.

use vstd::prelude::*;
use crate::data::note::Note;
use crate::ident::fresh_id;
use crate::text::copy_texts;
use crate::text::texts;
use crate::text::unique;
use crate::text::unique_texts;
use crate::time::utc_now;
use crate::time::Timestamp;

verus! {

/// What a version holds, as mathematical values.
pub struct NoteVersionView {
    pub id: Seq<char>,
    pub note_id: Seq<char>,
    pub title: Seq<char>,
    pub content: Seq<char>,
    pub tags: Seq<Seq<char>>,
    pub comment: Seq<char>,
    pub saved_at: Timestamp,
}

/// A copy of a note's title, content and tags, taken at one instant and
/// never changed afterwards.
#[derive(Debug)]
pub struct NoteVersion {
    id: String,
    note_id: String,
    title: String,
    content: String,
    tags: Vec<String>,
    comment: String,
    saved_at: Timestamp,
}

impl View for NoteVersion {
    type V = NoteVersionView;

    closed spec fn view(&self) -> NoteVersionView {
        NoteVersionView {
            id: self.id@,
            note_id: self.note_id@,
            title: self.title@,
            content: self.content@,
            tags: texts(self.tags@),
            comment: self.comment@,
            saved_at: self.saved_at,
        }
    }
}

impl NoteVersion {
    /// The version's invariant: no tag occurs twice.
    pub open spec fn wf(&self) -> bool {
        self@.tags.no_duplicates()
    }

    /// A version of `note` with a fresh identifier, saved now.
    pub fn new(comment: &str, note: &Note) -> (r: NoteVersion)
        requires
            note.wf(),
        ensures
            r.wf(),
            r@.id.len() == 36,
            r@.note_id == note@.id,
            r@.title == note@.title,
            r@.content == note@.content,
            r@.tags == note@.tags,
            r@.comment == comment@,
    {
        NoteVersion::snapshot(fresh_id(), comment, note, utc_now())
    }

    /// The version of `note` with the given identifier, saved at `now`.
    pub fn snapshot(id: String, comment: &str, note: &Note, now: Timestamp) -> (r: NoteVersion)
        requires
            note.wf(),
        ensures
            r.wf(),
            r@ == (NoteVersionView {
                id: id@,
                note_id: note@.id,
                title: note@.title,
                content: note@.content,
                tags: note@.tags,
                comment: comment@,
                saved_at: now,
            }),
    {
        NoteVersion {
            id,
            note_id: note.id().to_owned(),
            title: note.title().to_owned(),
            content: note.content().to_owned(),
            tags: copy_texts(note.tags()),
            comment: comment.to_owned(),
            saved_at: now,
        }
    }

    /// A version made of stored parts. Repeated tags are dropped.
    pub fn from_parts(
        id: String,
        note_id: String,
        title: String,
        content: String,
        tags: Vec<String>,
        comment: String,
        saved_at: Timestamp,
    ) -> (r: NoteVersion)
        ensures
            r.wf(),
            r@ == (NoteVersionView {
                id: id@,
                note_id: note_id@,
                title: title@,
                content: content@,
                tags: unique(texts(tags@)),
                comment: comment@,
                saved_at,
            }),
    {
        NoteVersion { id, note_id, title, content, tags: unique_texts(&tags), comment, saved_at }
    }

    /// The version's identifier.
    pub fn id(&self) -> (r: &str)
        ensures
            r@ == self@.id,
    {
        self.id.as_str()
    }

    /// The identifier of the note that the version was taken of.
    pub fn note_id(&self) -> (r: &str)
        ensures
            r@ == self@.note_id,
    {
        self.note_id.as_str()
    }

    /// The title at the time of saving.
    pub fn title(&self) -> (r: &str)
        ensures
            r@ == self@.title,
    {
        self.title.as_str()
    }

    /// The content at the time of saving.
    pub fn content(&self) -> (r: &str)
        ensures
            r@ == self@.content,
    {
        self.content.as_str()
    }

    /// The tags at the time of saving.
    pub fn tags(&self) -> (r: &Vec<String>)
        ensures
            texts(r@) == self@.tags,
    {
        &self.tags
    }

    /// The comment given when saving.
    pub fn comment(&self) -> (r: &str)
        ensures
            r@ == self@.comment,
    {
        self.comment.as_str()
    }

    /// The instant of saving.
    pub fn saved_instant(&self) -> (r: Timestamp)
        ensures
            r == self@.saved_at,
    {
        self.saved_at
    }

    /// The instant of saving as `YYYY-MM-DD HH:MM` in local time: the text
    /// of the instant at the offset of the machine's time zone, or the
    /// empty text for an instant that cannot be represented.
    pub fn saved_at(&self) -> (r: String)
        ensures
            self@.saved_at.is_local_text(r@),
    {
        self.saved_at.local_text()
    }
}

} // verus!
