//! Notes and versions in the shape of stored rows: every field a text or a
//! flag. The tags are stored as a JSON list, the instants as RFC 3339 texts.
//!
//! Running the statements against the database is left to the caller.

use vstd::prelude::*;
use crate::data::delete_note::DeleteNote;
use crate::data::delete_note::DeleteNoteView;
use crate::data::note::Note;
use crate::data::note::NoteView;
use crate::data::note_version::NoteVersion;
use crate::data::note_version::NoteVersionView;
use crate::data::notebook::put;
use crate::data::notebook::Notebook;
use crate::text::opt_text;
use crate::text::texts;
use crate::text::unique;
use crate::time::Timestamp;

verus! {

/// The JSON text of a list of strings, as `serde_json::to_string` gives it.
pub uninterp spec fn json_of_list(list: Seq<Seq<char>>) -> Seq<char>;

/// The list of strings that a JSON text holds, as `serde_json::from_str`
/// reads it; `None` for a text that is no JSON list of strings.
pub uninterp spec fn list_of_json(text: Seq<char>) -> Option<Seq<Seq<char>>>;

/// The RFC 3339 text of an instant, as `chrono::DateTime::to_rfc3339` gives
/// it; `None` for an instant outside the range of `chrono`.
pub uninterp spec fn rfc3339_of(secs: i64, nanos: u32) -> Option<Seq<char>>;

/// The instant that an RFC 3339 text names, as
/// `chrono::DateTime::parse_from_rfc3339` reads it, in seconds and
/// nanoseconds; `None` for a text that names none.
pub uninterp spec fn instant_of_rfc3339(text: Seq<char>) -> Option<(i64, u32)>;

/// The texts held by an optional list of strings.
pub open spec fn opt_texts(list: Option<Vec<String>>) -> Option<Seq<Seq<char>>> {
    match list {
        Some(list) => Some(texts(list@)),
        None => None,
    }
}

/// The instant that an RFC 3339 text names.
pub open spec fn instant_named(text: Seq<char>) -> Option<Timestamp> {
    match instant_of_rfc3339(text) {
        Some((secs, nanos)) => Some(Timestamp { secs, nanos }),
        None => None,
    }
}

/// The tags that a stored text holds; none for a text that is no JSON list
/// of strings.
pub open spec fn tags_stored(text: Seq<char>) -> Seq<Seq<char>> {
    match list_of_json(text) {
        Some(list) => list,
        None => Seq::empty(),
    }
}

/// Writes a list of strings as JSON, through `serde_json::to_string`.
///
/// The contract names the text and says no more about it. For a list of
/// strings the call does not fail.
#[verifier::external_body]
fn list_to_json(list: &Vec<String>) -> (r: String)
    ensures
        r@ == json_of_list(texts(list@)),
{
    serde_json::to_string(list).unwrap_or_default()
}

/// Reads a JSON list of strings, through `serde_json::from_str`.
///
/// The contract names the list and says no more about it.
#[verifier::external_body]
fn list_from_json(text: &str) -> (r: Option<Vec<String>>)
    ensures
        opt_texts(r) == list_of_json(text@),
{
    serde_json::from_str::<Vec<String>>(text).ok()
}

/// Writes an instant as RFC 3339, through `chrono::DateTime::from_timestamp`
/// and `DateTime::to_rfc3339`.
///
/// The contract names the text and says no more about it.
#[verifier::external_body]
fn instant_to_rfc3339(t: Timestamp) -> (r: Option<String>)
    ensures
        opt_text(r) == rfc3339_of(t.secs, t.nanos),
{
    match chrono::DateTime::from_timestamp(t.secs, t.nanos) {
        Some(instant) => Some(instant.to_rfc3339()),
        None => None,
    }
}

/// Reads an RFC 3339 text, through `chrono::DateTime::parse_from_rfc3339`,
/// `DateTime::timestamp` and `DateTime::timestamp_subsec_nanos`.
///
/// The contract names the instant and says no more about it.
#[verifier::external_body]
fn instant_from_rfc3339(text: &str) -> (r: Option<Timestamp>)
    ensures
        match r {
            Some(t) => instant_of_rfc3339(text@) == Some((t.secs, t.nanos)),
            None => instant_of_rfc3339(text@) is None,
        },
{
    match chrono::DateTime::parse_from_rfc3339(text) {
        Ok(instant) => Some(
            Timestamp { secs: instant.timestamp(), nanos: instant.timestamp_subsec_nanos() },
        ),
        Err(_) => None,
    }
}

/// The tags held by a stored text; none where the text cannot be read.
pub fn read_tags(text: &str) -> (r: Vec<String>)
    ensures
        texts(r@) == tags_stored(text@),
{
    match list_from_json(text) {
        Some(list) => list,
        None => {
            let none: Vec<String> = Vec::new();
            assert(texts(none@) =~= Seq::<Seq<char>>::empty());
            none
        },
    }
}

/// What a row of the table of notes holds, as mathematical values.
pub struct NoteRowView {
    pub id: Seq<char>,
    pub title: Seq<char>,
    pub content: Seq<char>,
    pub tags: Seq<char>,
    pub created_at: Seq<char>,
    pub updated_at: Seq<char>,
    pub is_pinned: bool,
}

/// The row that stores a note; `None` if one of its instants cannot be
/// written.
pub open spec fn stored(note: NoteView) -> Option<NoteRowView> {
    match (
        rfc3339_of(note.created_at.secs, note.created_at.nanos),
        rfc3339_of(note.updated_at.secs, note.updated_at.nanos),
    ) {
        (Some(created_at), Some(updated_at)) => Some(
            NoteRowView {
                id: note.id,
                title: note.title,
                content: note.content,
                tags: json_of_list(note.tags),
                created_at,
                updated_at,
                is_pinned: note.is_pinned,
            },
        ),
        _ => None,
    }
}

/// The note that a row stores; `None` if one of its instants cannot be
/// read. Tags that cannot be read count as no tags, repeated tags count
/// once, and a last change before the creation counts as made at the
/// creation.
pub open spec fn loaded(row: NoteRowView) -> Option<NoteView> {
    match (instant_named(row.created_at), instant_named(row.updated_at)) {
        (Some(created_at), Some(updated_at)) => Some(
            NoteView {
                id: row.id,
                title: row.title,
                content: row.content,
                tags: unique(tags_stored(row.tags)),
                created_at,
                updated_at: Timestamp::latest(created_at, updated_at),
                is_pinned: row.is_pinned,
            },
        ),
        _ => None,
    }
}

/// A note survives the way through a row if its tags survive the way
/// through JSON and its instants the way through RFC 3339.
pub proof fn lemma_row_round_trip(note: NoteView)
    requires
        note.wf(),
    ensures
        ({
            &&& list_of_json(json_of_list(note.tags)) == Some(note.tags)
            &&& stored(note) matches Some(row) && instant_named(row.created_at) == Some(
                note.created_at,
            ) && instant_named(row.updated_at) == Some(note.updated_at)
        }) ==> stored(note) is Some && loaded(stored(note).unwrap()) == Some(note),
{
    crate::text::lemma_unique(note.tags);
}

/// A note as a row of the table of notes.
#[derive(Debug)]
pub struct NoteRow {
    pub id: String,
    pub title: String,
    pub content: String,
    /// The tags as a JSON list.
    pub tags: String,
    /// The instant of creation as an RFC 3339 text.
    pub created_at: String,
    /// The instant of the last change as an RFC 3339 text.
    pub updated_at: String,
    pub is_pinned: bool,
}

impl View for NoteRow {
    type V = NoteRowView;

    open spec fn view(&self) -> NoteRowView {
        NoteRowView {
            id: self.id@,
            title: self.title@,
            content: self.content@,
            tags: self.tags@,
            created_at: self.created_at@,
            updated_at: self.updated_at@,
            is_pinned: self.is_pinned,
        }
    }
}

impl NoteRow {
    /// The row that stores `note`: see [`stored`].
    pub fn of(note: &Note) -> (r: Option<NoteRow>)
        ensures
            match r {
                Some(row) => stored(note@) == Some(row@),
                None => stored(note@) is None,
            },
    {
        let created_at = match instant_to_rfc3339(note.created_instant()) {
            Some(text) => text,
            None => {
                return None;
            },
        };
        let updated_at = match instant_to_rfc3339(note.updated_instant()) {
            Some(text) => text,
            None => {
                return None;
            },
        };
        Some(
            NoteRow {
                id: note.id().to_owned(),
                title: note.title().to_owned(),
                content: note.content().to_owned(),
                tags: list_to_json(note.tags()),
                created_at,
                updated_at,
                is_pinned: note.is_pinned(),
            },
        )
    }

    /// The note that the row stores: see [`loaded`].
    pub fn note(&self) -> (r: Option<Note>)
        ensures
            match r {
                Some(note) => note.wf() && loaded(self@) == Some(note@),
                None => loaded(self@) is None,
            },
    {
        let created_at = match instant_from_rfc3339(self.created_at.as_str()) {
            Some(t) => t,
            None => {
                return None;
            },
        };
        let updated_at = match instant_from_rfc3339(self.updated_at.as_str()) {
            Some(t) => t,
            None => {
                return None;
            },
        };
        Some(
            Note::from_parts(
                self.id.clone(),
                self.title.clone(),
                self.content.clone(),
                read_tags(self.tags.as_str()),
                created_at,
                updated_at,
                self.is_pinned,
            ),
        )
    }
}

/// What a row of the table of versions holds, as mathematical values.
pub struct VersionRowView {
    pub id: Seq<char>,
    pub note_id: Seq<char>,
    pub title: Seq<char>,
    pub content: Seq<char>,
    pub tags: Seq<char>,
    pub comment: Seq<char>,
    pub saved_at: Seq<char>,
}

/// The row that stores a version; `None` if its instant cannot be written.
pub open spec fn stored_version(version: NoteVersionView) -> Option<VersionRowView> {
    match rfc3339_of(version.saved_at.secs, version.saved_at.nanos) {
        Some(saved_at) => Some(
            VersionRowView {
                id: version.id,
                note_id: version.note_id,
                title: version.title,
                content: version.content,
                tags: json_of_list(version.tags),
                comment: version.comment,
                saved_at,
            },
        ),
        None => None,
    }
}

/// The version that a row stores; `None` if its instant cannot be read.
/// Tags that cannot be read count as no tags, and repeated tags count once.
pub open spec fn loaded_version(row: VersionRowView) -> Option<NoteVersionView> {
    match instant_named(row.saved_at) {
        Some(saved_at) => Some(
            NoteVersionView {
                id: row.id,
                note_id: row.note_id,
                title: row.title,
                content: row.content,
                tags: unique(tags_stored(row.tags)),
                comment: row.comment,
                saved_at,
            },
        ),
        None => None,
    }
}

/// A version as a row of the table of versions.
#[derive(Debug)]
pub struct VersionRow {
    pub id: String,
    pub note_id: String,
    pub title: String,
    pub content: String,
    /// The tags as a JSON list.
    pub tags: String,
    pub comment: String,
    /// The instant of saving as an RFC 3339 text.
    pub saved_at: String,
}

impl View for VersionRow {
    type V = VersionRowView;

    open spec fn view(&self) -> VersionRowView {
        VersionRowView {
            id: self.id@,
            note_id: self.note_id@,
            title: self.title@,
            content: self.content@,
            tags: self.tags@,
            comment: self.comment@,
            saved_at: self.saved_at@,
        }
    }
}

impl VersionRow {
    /// The row that stores `version`: see [`stored_version`].
    pub fn of(version: &NoteVersion) -> (r: Option<VersionRow>)
        ensures
            match r {
                Some(row) => stored_version(version@) == Some(row@),
                None => stored_version(version@) is None,
            },
    {
        let saved_at = match instant_to_rfc3339(version.saved_instant()) {
            Some(text) => text,
            None => {
                return None;
            },
        };
        Some(
            VersionRow {
                id: version.id().to_owned(),
                note_id: version.note_id().to_owned(),
                title: version.title().to_owned(),
                content: version.content().to_owned(),
                tags: list_to_json(version.tags()),
                comment: version.comment().to_owned(),
                saved_at,
            },
        )
    }

    /// The version that the row stores: see [`loaded_version`].
    pub fn version(&self) -> (r: Option<NoteVersion>)
        ensures
            match r {
                Some(version) => version.wf() && loaded_version(self@) == Some(version@),
                None => loaded_version(self@) is None,
            },
    {
        let saved_at = match instant_from_rfc3339(self.saved_at.as_str()) {
            Some(t) => t,
            None => {
                return None;
            },
        };
        Some(
            NoteVersion::from_parts(
                self.id.clone(),
                self.note_id.clone(),
                self.title.clone(),
                self.content.clone(),
                read_tags(self.tags.as_str()),
                self.comment.clone(),
                saved_at,
            ),
        )
    }
}

/// The entry of the trash that a row with the given texts stores; `None`
/// if its instant cannot be read.
pub open spec fn trash_entry(id: Seq<char>, title: Seq<char>, updated_at: Seq<char>) -> Option<
    DeleteNoteView,
> {
    match instant_named(updated_at) {
        Some(deleted_at) => Some(DeleteNoteView { id, title, deleted_at }),
        None => None,
    }
}

/// A note in the trash as the listing of the trash reads it.
#[derive(Debug)]
pub struct TrashRow {
    pub id: String,
    pub title: String,
    /// The instant of deletion as an RFC 3339 text.
    pub updated_at: String,
}

impl TrashRow {
    /// The trash entry that the row stores: see [`trash_entry`].
    pub fn entry(&self) -> (r: Option<DeleteNote>)
        ensures
            match r {
                Some(entry) => trash_entry(self.id@, self.title@, self.updated_at@) == Some(
                    entry@,
                ),
                None => trash_entry(self.id@, self.title@, self.updated_at@) is None,
            },
    {
        match instant_from_rfc3339(self.updated_at.as_str()) {
            Some(t) => Some(DeleteNote::new(self.id.clone(), self.title.clone(), t)),
            None => None,
        }
    }
}

/// The entries run from the newest to the oldest.
pub open spec fn newest_first(entries: Seq<DeleteNoteView>) -> bool {
    forall|i: int, j: int|
        0 <= i < j < entries.len() ==> (#[trigger] entries[j]).deleted_at.is_not_after(
            (#[trigger] entries[i]).deleted_at,
        )
}

/// The number of entries at the front of `entries` that are not older than
/// `instant`.
pub open spec fn not_older(entries: Seq<DeleteNoteView>, instant: Timestamp) -> nat
    decreases entries.len(),
{
    if entries.len() > 0 && instant.is_not_after(entries[0].deleted_at) {
        1 + not_older(entries.drop_first(), instant)
    } else {
        0
    }
}

/// `entries` in the order of the trash listing: the newest first, and of
/// entries deleted at the same instant the one that came first.
pub open spec fn listed_newest_first(entries: Seq<DeleteNoteView>) -> Seq<DeleteNoteView>
    decreases entries.len(),
{
    if entries.len() == 0 {
        entries
    } else {
        let front = listed_newest_first(entries.drop_last());
        front.insert(not_older(front, entries.last().deleted_at) as int, entries.last())
    }
}

/// The entries of the trash that the rows store; `None` if the instant of
/// one of the rows cannot be read.
pub open spec fn trash_entries(rows: Seq<TrashRow>) -> Option<Seq<DeleteNoteView>>
    decreases rows.len(),
{
    if rows.len() == 0 {
        Some(Seq::empty())
    } else {
        match (
            trash_entries(rows.drop_last()),
            trash_entry(rows.last().id@, rows.last().title@, rows.last().updated_at@),
        ) {
            (Some(front), Some(entry)) => Some(front.push(entry)),
            _ => None,
        }
    }
}

/// The entries before the place at which an entry is put are not older
/// than it, and the entry at that place is.
proof fn lemma_not_older(entries: Seq<DeleteNoteView>, instant: Timestamp)
    ensures
        not_older(entries, instant) <= entries.len(),
        forall|i: int|
            0 <= i < not_older(entries, instant) ==> instant.is_not_after(
                (#[trigger] entries[i]).deleted_at,
            ),
        not_older(entries, instant) < entries.len() ==> !instant.is_not_after(
            entries[not_older(entries, instant) as int].deleted_at,
        ),
    decreases entries.len(),
{
    if entries.len() > 0 && instant.is_not_after(entries[0].deleted_at) {
        let rest = entries.drop_first();
        lemma_not_older(rest, instant);
        assert forall|i: int| 0 <= i < not_older(entries, instant) implies instant.is_not_after(
            (#[trigger] entries[i]).deleted_at,
        ) by {
            if i > 0 {
                assert(entries[i] == rest[i - 1]);
            }
        }
        if not_older(entries, instant) < entries.len() {
            assert(entries[not_older(entries, instant) as int] == rest[not_older(rest, instant) as int]);
        }
    }
}

/// The trash listing runs from the newest entry to the oldest and holds
/// each entry as often as it was given.
pub proof fn lemma_listed_newest_first(entries: Seq<DeleteNoteView>)
    ensures
        newest_first(listed_newest_first(entries)),
        listed_newest_first(entries).to_multiset() == entries.to_multiset(),
        listed_newest_first(entries).len() == entries.len(),
    decreases entries.len(),
{
    broadcast use vstd::seq_lib::group_to_multiset_ensures;

    if entries.len() == 0 {
    } else {
        let rest = entries.drop_last();
        let last = entries.last();
        lemma_listed_newest_first(rest);
        let front = listed_newest_first(rest);
        let at = not_older(front, last.deleted_at) as int;
        lemma_not_older(front, last.deleted_at);
        let out = front.insert(at, last);
        assert forall|i: int, j: int| 0 <= i < j < out.len() implies (
        #[trigger] out[j]).deleted_at.is_not_after((#[trigger] out[i]).deleted_at) by {
            let oi = if i < at {
                i
            } else {
                i - 1
            };
            let oj = if j < at {
                j
            } else {
                j - 1
            };
            if i != at {
                assert(out[i] == front[oi]);
            }
            if j != at {
                assert(out[j] == front[oj]);
            }
            if i == at {
                assert(front[at].deleted_at.is_not_after(last.deleted_at));
                if oj > at {
                    assert(front[oj].deleted_at.is_not_after(front[at].deleted_at));
                }
            } else if j == at {
                assert(last.deleted_at.is_not_after(front[oi].deleted_at));
            } else {
                assert(front[oj].deleted_at.is_not_after(front[oi].deleted_at));
            }
        }
        assert(entries =~= rest.push(last));
        assert(out.to_multiset() =~= front.to_multiset().insert(last));
        assert(entries.to_multiset() =~= rest.to_multiset().insert(last));
    }
}

/// What a list of trash entries holds.
pub open spec fn entry_views(list: Seq<DeleteNote>) -> Seq<DeleteNoteView> {
    list.map_values(|e: DeleteNote| e@)
}

/// The listing of the trash for the given rows: the entries that the rows
/// store, the newest first; `None` if the instant of one of the rows cannot
/// be read.
pub fn trash_listing(rows: &Vec<TrashRow>) -> (r: Option<Vec<DeleteNote>>)
    ensures
        match r {
            Some(list) => {
                &&& trash_entries(rows@) matches Some(entries)
                &&& entry_views(list@) == listed_newest_first(entries)
                &&& newest_first(entry_views(list@))
            },
            None => trash_entries(rows@) is None,
        },
{
    let mut out: Vec<DeleteNote> = Vec::new();
    let mut i: usize = 0;
    proof {
        assert(rows@.take(0) =~= Seq::<TrashRow>::empty());
        assert(entry_views(out@) =~= Seq::<DeleteNoteView>::empty());
    }
    while i < rows.len()
        invariant
            i <= rows@.len(),
            trash_entries(rows@.take(i as int)) matches Some(entries) && entry_views(out@)
                == listed_newest_first(entries),
        decreases rows@.len() - i,
    {
        let ghost seen = trash_entries(rows@.take(i as int)).unwrap();
        let ghost front = entry_views(out@);
        proof {
            let longer = rows@.take(i + 1);
            assert(longer.drop_last() =~= rows@.take(i as int));
            assert(longer.last() == rows@[i as int]);
        }
        let entry = match rows[i].entry() {
            Some(entry) => entry,
            None => {
                proof {
                    lemma_trash_entries_fail(rows@, i + 1);
                }
                return None;
            },
        };
        let instant = entry.deleted_instant();
        let mut at: usize = 0;
        proof {
            assert(front.skip(0) =~= front);
        }
        while at < out.len() && instant.not_after(&out[at].deleted_instant())
            invariant
                at <= out@.len(),
                front == entry_views(out@),
                not_older(front, instant) == at + not_older(front.skip(at as int), instant),
            decreases out@.len() - at,
        {
            proof {
                let rest = front.skip(at as int);
                assert(rest[0] == front[at as int]);
                assert(rest.drop_first() =~= front.skip(at + 1));
            }
            at += 1;
        }
        proof {
            let rest = front.skip(at as int);
            if at < out@.len() {
                assert(rest[0] == front[at as int]);
            }
            assert(seen.push(entry@).drop_last() =~= seen);
        }
        out.insert(at, entry);
        proof {
            assert(entry_views(out@) =~= front.insert(at as int, entry@));
        }
        i += 1;
    }
    proof {
        assert(rows@.take(rows@.len() as int) =~= rows@);
        lemma_listed_newest_first(trash_entries(rows@).unwrap());
    }
    Some(out)
}

/// Rows of which a front part cannot be read cannot be read.
proof fn lemma_trash_entries_fail(rows: Seq<TrashRow>, k: int)
    requires
        0 <= k <= rows.len(),
        trash_entries(rows.take(k)) is None,
    ensures
        trash_entries(rows) is None,
    decreases rows.len() - k,
{
    if k < rows.len() {
        let longer = rows.take(k + 1);
        assert(longer.drop_last() =~= rows.take(k));
        lemma_trash_entries_fail(rows, k + 1);
    } else {
        assert(rows.take(k) =~= rows);
    }
}

/// The notes of a notebook that took in `notes` one after the other: a note
/// takes the place of an earlier one with its identifier.
pub open spec fn gathered(notes: Seq<NoteView>) -> Seq<NoteView>
    decreases notes.len(),
{
    if notes.len() == 0 {
        Seq::empty()
    } else {
        put(gathered(notes.drop_last()), notes.last())
    }
}

/// The notebook of the given live notes. The number of notes per tag is
/// counted anew from the notes.
pub fn notebook_of(notes: &Vec<Note>) -> (r: Notebook)
    requires
        forall|i: int| 0 <= i < notes@.len() ==> (#[trigger] notes@[i]).wf(),
    ensures
        r.wf(),
        r.notes() == gathered(notes@.map_values(|n: Note| n@)),
{
    let ghost all = notes@.map_values(|n: Note| n@);
    let mut notebook = Notebook::new();
    let mut i: usize = 0;
    assert(all.take(0) =~= Seq::<NoteView>::empty());
    while i < notes.len()
        invariant
            i <= notes@.len(),
            all == notes@.map_values(|n: Note| n@),
            forall|i: int| 0 <= i < notes@.len() ==> (#[trigger] notes@[i]).wf(),
            notebook.wf(),
            notebook.notes() == gathered(all.take(i as int)),
        decreases notes@.len() - i,
    {
        proof {
            let longer = all.take(i + 1);
            assert(longer.drop_last() =~= all.take(i as int));
            assert(longer.last() == notes@[i as int]@);
        }
        notebook.insert_or_replace_note(notes[i].clone());
        i += 1;
    }
    assert(all.take(notes@.len() as int) =~= all);
    notebook
}

} // verus!
