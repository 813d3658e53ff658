//! A note: the atomic unit of content.

use vstd::prelude::*;
use crate::data::note_version::NoteVersion;
use crate::ident::fresh_id;
use crate::text::copy_texts;
use crate::text::find_text;
use crate::text::holds_text;
use crate::text::is_substring;
use crate::text::lowercase;
use crate::text::str_to_lowercase;
use crate::text::texts;
use crate::text::unique;
use crate::text::unique_texts;
use crate::time::utc_now;
use crate::time::Timestamp;

verus! {

/// What a note holds, as mathematical values.
pub struct NoteView {
    pub id: Seq<char>,
    pub title: Seq<char>,
    pub content: Seq<char>,
    /// The tags in the order in which they were added.
    pub tags: Seq<Seq<char>>,
    pub created_at: Timestamp,
    pub updated_at: Timestamp,
    pub is_pinned: bool,
}

impl NoteView {
    /// No tag occurs twice, and the note was not changed before it was
    /// created.
    pub open spec fn wf(self) -> bool {
        &&& self.tags.no_duplicates()
        &&& self.created_at.is_not_after(self.updated_at)
    }

    /// The note carries `tag`.
    pub open spec fn has_tag(self, tag: Seq<char>) -> bool {
        self.tags.contains(tag)
    }

    /// `key` is part of the title or of the content; without
    /// `case_sensitive`, the lowercase forms are compared.
    pub open spec fn holds(self, key: Seq<char>, case_sensitive: bool) -> bool {
        if case_sensitive {
            is_substring(key, self.title) || is_substring(key, self.content)
        } else {
            is_substring(lowercase(key), lowercase(self.title)) || is_substring(
                lowercase(key),
                lowercase(self.content),
            )
        }
    }
}

/// A note: identifier, title, content, tags, the instants of creation and of
/// the last change, and the pinned flag.
#[derive(Debug)]
pub struct Note {
    id: String,
    title: String,
    content: String,
    tags: Vec<String>,
    created_at: Timestamp,
    updated_at: Timestamp,
    is_pinned: bool,
}

impl View for Note {
    type V = NoteView;

    closed spec fn view(&self) -> NoteView {
        NoteView {
            id: self.id@,
            title: self.title@,
            content: self.content@,
            tags: texts(self.tags@),
            created_at: self.created_at,
            updated_at: self.updated_at,
            is_pinned: self.is_pinned,
        }
    }
}

impl Clone for Note {
    fn clone(&self) -> (r: Self)
        ensures
            r@ == self@,
    {
        Note {
            id: self.id.clone(),
            title: self.title.clone(),
            content: self.content.clone(),
            tags: copy_texts(&self.tags),
            created_at: self.created_at,
            updated_at: self.updated_at,
            is_pinned: self.is_pinned,
        }
    }
}

impl Note {
    /// The note's invariant.
    pub open spec fn wf(&self) -> bool {
        self@.wf()
    }

    /// A new, empty note titled `title`, with a fresh identifier, created
    /// now.
    pub fn new(title: String) -> (r: Note)
        ensures
            r.wf(),
            r@.id.len() == 36,
            r@.title == title@,
            r@.content == Seq::<char>::empty(),
            r@.tags == Seq::<Seq<char>>::empty(),
            r@.updated_at == r@.created_at,
            !r@.is_pinned,
    {
        Note::with_identity(fresh_id(), title, utc_now())
    }

    /// A new, empty note with the given identifier and title, created at
    /// `now`.
    pub fn with_identity(id: String, title: String, now: Timestamp) -> (r: Note)
        ensures
            r.wf(),
            r@ == (NoteView {
                id: id@,
                title: title@,
                content: Seq::<char>::empty(),
                tags: Seq::<Seq<char>>::empty(),
                created_at: now,
                updated_at: now,
                is_pinned: false,
            }),
    {
        let r = Note {
            id,
            title,
            content: String::new(),
            tags: Vec::new(),
            created_at: now,
            updated_at: now,
            is_pinned: false,
        };
        assert(r@.tags =~= Seq::<Seq<char>>::empty());
        r
    }

    /// A note made of stored parts. Repeated tags are dropped, and a last
    /// change recorded before the creation counts as made at the creation.
    pub fn from_parts(
        id: String,
        title: String,
        content: String,
        tags: Vec<String>,
        created_at: Timestamp,
        updated_at: Timestamp,
        is_pinned: bool,
    ) -> (r: Note)
        ensures
            r.wf(),
            r@ == (NoteView {
                id: id@,
                title: title@,
                content: content@,
                tags: unique(texts(tags@)),
                created_at,
                updated_at: Timestamp::latest(created_at, updated_at),
                is_pinned,
            }),
    {
        Note {
            id,
            title,
            content,
            tags: unique_texts(&tags),
            created_at,
            updated_at: Timestamp::later_of(created_at, updated_at),
            is_pinned,
        }
    }

    /// Takes title, content and tags from a saved version. The last change
    /// becomes the instant at which the version was saved, or the note's
    /// creation if the version claims to be older than the note.
    pub fn updated_by_note_version(&mut self, note_version: &NoteVersion)
        requires
            old(self).wf(),
            note_version.wf(),
        ensures
            final(self).wf(),
            final(self)@ == (NoteView {
                title: note_version@.title,
                content: note_version@.content,
                tags: note_version@.tags,
                updated_at: Timestamp::latest(old(self)@.created_at, note_version@.saved_at),
                ..old(self)@
            }),
    {
        self.title = note_version.title().to_owned();
        self.content = note_version.content().to_owned();
        self.tags = copy_texts(note_version.tags());
        self.updated_at = Timestamp::later_of(self.created_at, note_version.saved_instant());
    }

    /// The identifier.
    pub fn id(&self) -> (r: &str)
        ensures
            r@ == self@.id,
    {
        self.id.as_str()
    }

    /// Gives the note another identifier.
    pub fn set_id(&mut self, id: String)
        ensures
            final(self)@ == (NoteView { id: id@, ..old(self)@ }),
    {
        self.id = id;
    }

    /// The title.
    pub fn title(&self) -> (r: &str)
        ensures
            r@ == self@.title,
    {
        self.title.as_str()
    }

    /// The content.
    pub fn content(&self) -> (r: &str)
        ensures
            r@ == self@.content,
    {
        self.content.as_str()
    }

    /// The tags, in the order in which they were added.
    pub fn tags(&self) -> (r: &Vec<String>)
        ensures
            texts(r@) == self@.tags,
    {
        &self.tags
    }

    /// The instant of creation.
    pub fn created_instant(&self) -> (r: Timestamp)
        ensures
            r == self@.created_at,
    {
        self.created_at
    }

    /// The instant of the last change.
    pub fn updated_instant(&self) -> (r: Timestamp)
        ensures
            r == self@.updated_at,
    {
        self.updated_at
    }

    /// Whether the note is pinned.
    pub fn is_pinned(&self) -> (r: bool)
        ensures
            r == self@.is_pinned,
    {
        self.is_pinned
    }

    /// The instant of the last change as `YYYY-MM-DD HH:MM` in local time:
    /// the text of the instant at the offset of the machine's time zone,
    /// or the empty text for an instant that cannot be represented.
    pub fn updated_at(&self) -> (r: String)
        ensures
            self@.updated_at.is_local_text(r@),
    {
        self.updated_at.local_text()
    }

    /// Gives the note another title. A title that differs from the present
    /// one is taken over, the last change is set to the present time, and
    /// `true` is returned; an equal title changes nothing.
    pub fn update_title(&mut self, title: String) -> (r: bool)
        requires
            old(self).wf(),
        ensures
            final(self).wf(),
            r == (title@ != old(self)@.title),
            !r ==> final(self)@ == old(self)@,
            r ==> exists|now: Timestamp|
                final(self)@ == #[trigger] old(self)@.retitled(title@, now),
    {
        let now = utc_now();
        let ghost before = self@;
        let r = self.update_title_at(title, now);
        proof {
            if r {
                assert(self@ == before.retitled(title@, now));
            }
        }
        r
    }

    /// Gives the note another title at the instant `now`: see
    /// [`Note::update_title`]. A clock that runs behind the note's creation
    /// leaves the last change at the creation.
    pub fn update_title_at(&mut self, title: String, now: Timestamp) -> (r: bool)
        requires
            old(self).wf(),
        ensures
            final(self).wf(),
            r == (title@ != old(self)@.title),
            final(self)@ == (if r {
                old(self)@.retitled(title@, now)
            } else {
                old(self)@
            }),
    {
        if self.title == title {
            false
        } else {
            self.title = title;
            self.updated_at = Timestamp::later_of(self.created_at, now);
            true
        }
    }

    /// Gives the note another content. A content that differs from the
    /// present one is taken over, the last change is set to the present time,
    /// and `true` is returned; an equal content changes nothing.
    pub fn update_content(&mut self, content: String) -> (r: bool)
        requires
            old(self).wf(),
        ensures
            final(self).wf(),
            r == (content@ != old(self)@.content),
            !r ==> final(self)@ == old(self)@,
            r ==> exists|now: Timestamp|
                final(self)@ == #[trigger] old(self)@.rewritten(content@, now),
    {
        let now = utc_now();
        let ghost before = self@;
        let r = self.update_content_at(content, now);
        proof {
            if r {
                assert(self@ == before.rewritten(content@, now));
            }
        }
        r
    }

    /// Gives the note another content at the instant `now`: see
    /// [`Note::update_content`].
    pub fn update_content_at(&mut self, content: String, now: Timestamp) -> (r: bool)
        requires
            old(self).wf(),
        ensures
            final(self).wf(),
            r == (content@ != old(self)@.content),
            final(self)@ == (if r {
                old(self)@.rewritten(content@, now)
            } else {
                old(self)@
            }),
    {
        if self.content == content {
            false
        } else {
            self.content = content;
            self.updated_at = Timestamp::later_of(self.created_at, now);
            true
        }
    }

    /// Whether `key` is part of the title or of the content. Letter case is
    /// ignored unless `case_sensitive` is `Some(true)`.
    pub fn contains(&self, key: &str, case_sensitive: Option<bool>) -> (r: bool)
        ensures
            r == self@.holds(key@, case_sensitive == Some(true)),
    {
        let case_sensitive = match case_sensitive {
            Some(b) => b,
            None => false,
        };
        if case_sensitive {
            holds_text(self.title.as_str(), self.content.as_str(), key)
        } else {
            let title = str_to_lowercase(self.title.as_str());
            let content = str_to_lowercase(self.content.as_str());
            let key = str_to_lowercase(key);
            holds_text(title.as_str(), content.as_str(), key.as_str())
        }
    }

    /// Adds a tag. Returns whether the tag is new; a tag that the note
    /// carries already changes nothing. The last change stays as it is.
    pub fn add_tag(&mut self, tag: String) -> (r: bool)
        requires
            old(self).wf(),
        ensures
            final(self).wf(),
            r == !old(self)@.has_tag(tag@),
            final(self)@ == (if r {
                NoteView { tags: old(self)@.tags.push(tag@), ..old(self)@ }
            } else {
                old(self)@
            }),
    {
        match find_text(&self.tags, tag.as_str()) {
            Some(k) => {
                proof {
                    assert(texts(self.tags@)[k as int] == tag@);
                }
                false
            },
            None => {
                let ghost before = texts(self.tags@);
                self.tags.push(tag);
                proof {
                    assert(texts(self.tags@) =~= before.push(tag@));
                }
                true
            },
        }
    }

    /// Removes a tag. Returns whether the note carried it. The last change
    /// stays as it is.
    pub fn remove_tag(&mut self, tag: &str) -> (r: bool)
        requires
            old(self).wf(),
        ensures
            final(self).wf(),
            r == old(self)@.has_tag(tag@),
            final(self)@ == (if r {
                NoteView {
                    tags: old(self)@.tags.remove(old(self)@.tags.index_of(tag@)),
                    ..old(self)@
                }
            } else {
                old(self)@
            }),
    {
        match find_text(&self.tags, tag) {
            Some(i) => {
                let ghost before = texts(self.tags@);
                proof {
                    assert(before[i as int] == tag@);
                    let k = before.index_of(tag@);
                    assert(before[k] == tag@);
                }
                self.tags.remove(i);
                proof {
                    assert(texts(self.tags@) =~= before.remove(i as int));
                }
                true
            },
            None => false,
        }
    }
}

impl NoteView {
    /// The note after its title became `title` at `now`.
    pub open spec fn retitled(self, title: Seq<char>, now: Timestamp) -> NoteView {
        NoteView { title, updated_at: Timestamp::latest(self.created_at, now), ..self }
    }

    /// The note after its content became `content` at `now`.
    pub open spec fn rewritten(self, content: Seq<char>, now: Timestamp) -> NoteView {
        NoteView { content, updated_at: Timestamp::latest(self.created_at, now), ..self }
    }
}

} // verus!
