//! A note as it is written to and read from files.

use vstd::prelude::*;
use crate::data::note::Note;
use crate::data::note::NoteView;
use crate::ident::fresh_id;
use crate::text::copy_texts;
use crate::text::texts;
use crate::text::unique;
use crate::text::unique_texts;
use crate::time::utc_now;
use crate::time::Timestamp;

verus! {

/// What an exported note holds, as mathematical values.
pub struct ExportNoteView {
    pub id: Option<Seq<char>>,
    pub title: Seq<char>,
    pub tags: Seq<Seq<char>>,
    pub content: Seq<char>,
    pub created: Option<Timestamp>,
    pub updated: Option<Timestamp>,
}

impl ExportNoteView {
    /// The note that this record stands for, with `fresh` as the identifier
    /// where the record has none and `now` where it lacks an instant.
    pub open spec fn as_note(self, fresh: Seq<char>, now: Timestamp) -> NoteView {
        let created_at = match self.created {
            Some(t) => t,
            None => now,
        };
        let updated_at = match self.updated {
            Some(t) => t,
            None => now,
        };
        NoteView {
            id: match self.id {
                Some(id) => id,
                None => fresh,
            },
            title: self.title,
            content: self.content,
            tags: self.tags,
            created_at,
            updated_at: Timestamp::latest(created_at, updated_at),
            is_pinned: false,
        }
    }
}

/// Turning a note into a record and the record back into a note gives the
/// note again, but for the pinned flag, which the record does not hold.
pub proof fn lemma_record_round_trip(note: NoteView, fresh: Seq<char>, now: Timestamp)
    requires
        note.wf(),
    ensures
        record_of(note).as_note(fresh, now) == (NoteView { is_pinned: false, ..note }),
{
}

/// The record of a note: all its fields but the pinned flag.
pub open spec fn record_of(note: NoteView) -> ExportNoteView {
    ExportNoteView {
        id: Some(note.id),
        title: note.title,
        tags: note.tags,
        content: note.content,
        created: Some(note.created_at),
        updated: Some(note.updated_at),
    }
}

/// A note in the shape of the export formats: identifier and instants are
/// optional.
#[derive(Debug)]
pub struct ExportNote {
    id: Option<String>,
    title: String,
    tags: Vec<String>,
    content: String,
    created: Option<Timestamp>,
    updated: Option<Timestamp>,
}

impl View for ExportNote {
    type V = ExportNoteView;

    closed spec fn view(&self) -> ExportNoteView {
        ExportNoteView {
            id: match self.id {
                Some(id) => Some(id@),
                None => None,
            },
            title: self.title@,
            tags: texts(self.tags@),
            content: self.content@,
            created: self.created,
            updated: self.updated,
        }
    }
}

impl ExportNote {
    /// The record's invariant: no tag occurs twice.
    pub open spec fn wf(&self) -> bool {
        self@.tags.no_duplicates()
    }

    /// A record of the given parts. Repeated tags are dropped.
    pub fn new(
        id: Option<String>,
        title: String,
        tags: Vec<String>,
        content: String,
        created: Option<Timestamp>,
        updated: Option<Timestamp>,
    ) -> (r: ExportNote)
        ensures
            r.wf(),
            r@ == (ExportNoteView {
                id: match id {
                    Some(id) => Some(id@),
                    None => None,
                },
                title: title@,
                tags: unique(texts(tags@)),
                content: content@,
                created,
                updated,
            }),
    {
        ExportNote { id, title, tags: unique_texts(&tags), content, created, updated }
    }

    /// The identifier, where the record has one.
    pub fn id(&self) -> (r: Option<&str>)
        ensures
            match r {
                Some(id) => self@.id == Some(id@),
                None => self@.id is None,
            },
    {
        match &self.id {
            Some(id) => Some(id.as_str()),
            None => None,
        }
    }

    /// The title.
    pub fn title(&self) -> (r: &str)
        ensures
            r@ == self@.title,
    {
        self.title.as_str()
    }

    /// The tags.
    pub fn tags(&self) -> (r: &Vec<String>)
        ensures
            texts(r@) == self@.tags,
    {
        &self.tags
    }

    /// The content.
    pub fn content(&self) -> (r: &str)
        ensures
            r@ == self@.content,
    {
        self.content.as_str()
    }

    /// The instant of creation, where the record has one.
    pub fn created_instant(&self) -> (r: Option<Timestamp>)
        ensures
            r == self@.created,
    {
        self.created
    }

    /// The instant of the last change, where the record has one.
    pub fn updated_instant(&self) -> (r: Option<Timestamp>)
        ensures
            r == self@.updated,
    {
        self.updated
    }

    /// Sets or clears the instant of creation.
    pub fn set_created(&mut self, created: Option<Timestamp>)
        ensures
            final(self)@ == (ExportNoteView { created, ..old(self)@ }),
    {
        self.created = created;
    }

    /// Sets or clears the instant of the last change.
    pub fn set_updated(&mut self, updated: Option<Timestamp>)
        ensures
            final(self)@ == (ExportNoteView { updated, ..old(self)@ }),
    {
        self.updated = updated;
    }

    /// The instant of creation as `YYYY-MM-DD HH:MM` in local time, where the
    /// record has one.
    pub fn created(&self) -> (r: Option<String>)
        ensures
            r is Some <==> self@.created is Some,
    {
        match self.created {
            Some(time) => Some(time.local_text()),
            None => None,
        }
    }

    /// The note that the record stands for. A record without identifier
    /// gets a fresh one; a missing instant is the present time.
    pub fn to_note(&self) -> (r: Note)
        requires
            self.wf(),
        ensures
            r.wf(),
            exists|fresh: Seq<char>, now: Timestamp|
                fresh.len() == 36 && r@ == #[trigger] self@.as_note(fresh, now),
    {
        let fresh = fresh_id();
        let now = utc_now();
        let r = self.to_note_with(fresh, now);
        assert(r@ == self@.as_note(fresh@, now));
        r
    }

    /// The note that the record stands for, with `fresh` as the identifier
    /// where the record has none and `now` where it lacks an instant. A last
    /// change before the creation counts as made at the creation.
    pub fn to_note_with(&self, fresh: String, now: Timestamp) -> (r: Note)
        requires
            self.wf(),
        ensures
            r.wf(),
            r@ == self@.as_note(fresh@, now),
    {
        let id = match &self.id {
            Some(id) => id.clone(),
            None => fresh,
        };
        let created_at = match self.created {
            Some(t) => t,
            None => now,
        };
        let updated_at = match self.updated {
            Some(t) => t,
            None => now,
        };
        proof {
            crate::text::lemma_unique(self@.tags);
        }
        Note::from_parts(
            id,
            self.title.clone(),
            self.content.clone(),
            copy_texts(&self.tags),
            created_at,
            updated_at,
            false,
        )
    }

    /// The record of `note`, with its identifier and instants.
    pub fn from_note(note: &Note) -> (r: ExportNote)
        requires
            note.wf(),
        ensures
            r.wf(),
            r@ == record_of(note@),
    {
        ExportNote {
            id: Some(note.id().to_owned()),
            title: note.title().to_owned(),
            content: note.content().to_owned(),
            tags: copy_texts(note.tags()),
            created: Some(note.created_instant()),
            updated: Some(note.updated_instant()),
        }
    }
}

} // verus!
