//! The service layer: the notebook, the open tabs and the settings behind
//! the operations of the application.
//!
//! The state here is the part that lives in memory. Every operation that
//! also writes to the durable store comes in steps: the step before the
//! write says what is to be written, and the step after it takes the
//! outcome of the write.

use vstd::prelude::*;
use crate::data::note::Note;
use crate::data::note::NoteView;
use crate::data::note_version::NoteVersion;
use crate::data::notebook::distinct_ids;
use crate::data::notebook::holds_id;
use crate::data::notebook::index_of_id;
use crate::data::notebook::note_views;
use crate::data::notebook::put;
use crate::data::notebook::without;
use crate::data::notebook::Notebook;
use crate::io::ExportConfig;
use crate::io::ImportConfig;
use crate::io::MergeStrategy;
use crate::time::Timestamp;
use crate::utils::i18n::Language;
use crate::utils::i18n::shown;
use crate::utils::i18n::Locales;
use crate::utils::i18n::Translate;
use crate::utils::tab_manager::at_most;
use crate::utils::tab_manager::close_slot;
use crate::utils::tab_manager::distinct_keys;
use crate::utils::tab_manager::insert_slot;
use crate::utils::tab_manager::is_recency_order;
use crate::utils::tab_manager::lawful_eq;
use crate::utils::tab_manager::most_recent;
use crate::utils::tab_manager::open_slot;
use crate::utils::tab_manager::promote;
use crate::utils::tab_manager::slot_of;
use crate::utils::tab_manager::tracks;
use crate::utils::tab_manager::window_positions;
use crate::utils::tab_manager::TabManager;
use vstd::std_specs::cmp::PartialEqSpec;

verus! {

/// The colours of the user interface.
#[derive(Debug, Clone, Copy, PartialEq, Eq, Structural)]
pub enum Theme {
    Dark,
    Light,
}

/// Why an operation of the service layer failed.
#[derive(Debug, Clone, Copy, PartialEq, Eq, Structural)]
pub enum ServiceError {
    /// The operation named a note that the store does not hold.
    NotFound,
    /// The durable store could not apply a write.
    DurableWriteFailure,
}

/// The identifier of a note as the key of an open tab. Two keys are equal
/// when they read the same.
#[derive(Debug, Hash)]
pub struct NoteKey(String);

impl Clone for NoteKey {
    fn clone(&self) -> (r: Self)
        ensures
            r@ == self@,
    {
        NoteKey(self.0.clone())
    }
}

impl View for NoteKey {
    type V = Seq<char>;

    closed spec fn view(&self) -> Seq<char> {
        self.0@
    }
}

impl PartialEq for NoteKey {
    fn eq(&self, other: &Self) -> (r: bool) {
        self.0 == other.0
    }
}

impl Eq for NoteKey {

}

impl vstd::std_specs::cmp::PartialEqSpecImpl for NoteKey {
    open spec fn obeys_eq_spec() -> bool {
        true
    }

    open spec fn eq_spec(&self, other: &Self) -> bool {
        self@ == other@
    }
}

impl NoteKey {
    /// The key that reads `id`.
    pub fn new(id: String) -> (r: NoteKey)
        ensures
            r@ == id@,
    {
        NoteKey(id)
    }

    /// The identifier.
    pub fn as_str(&self) -> (r: &str)
        ensures
            r@ == self@,
    {
        self.0.as_str()
    }
}

/// Equality of keys is lawful.
pub proof fn lemma_note_key_eq()
    ensures
        lawful_eq::<NoteKey>(),
{
}

/// The identifiers that a sequence of keys reads.
pub open spec fn key_texts(keys: Seq<NoteKey>) -> Seq<Seq<char>> {
    keys.map_values(|k: NoteKey| k@)
}

/// Distinct keys read distinct identifiers.
proof fn lemma_distinct_texts(keys: Seq<NoteKey>)
    requires
        distinct_keys(keys),
    ensures
        key_texts(keys).no_duplicates(),
{
    let list = key_texts(keys);
    assert forall|i: int, j: int| 0 <= i < list.len() && 0 <= j < list.len() && i != j implies list[i]
        != list[j] by {
        assert(!keys[i].eq_spec(&keys[j]));
    }
}

/// A key is tracked where its identifier is listed.
proof fn lemma_key_texts(keys: Seq<NoteKey>, key: NoteKey)
    requires
        distinct_keys(keys),
    ensures
        key_texts(keys).no_duplicates(),
        tracks(keys, key) == key_texts(keys).contains(key@),
        tracks(keys, key) ==> slot_of(keys, key) == key_texts(keys).index_of(key@),
{
    let list = key_texts(keys);
    lemma_distinct_texts(keys);
    if tracks(keys, key) {
        let s = slot_of(keys, key);
        assert(keys[s].eq_spec(&key));
        assert(list[s] == key@);
        let k = list.index_of(key@);
        assert(list[k] == key@);
    }
    if list.contains(key@) {
        let k = list.index_of(key@);
        assert(list[k] == key@);
        assert(keys[k].eq_spec(&key));
    }
}

/// What the state holds, as mathematical values.
pub struct AppStateView {
    /// The live notes.
    pub notes: Seq<NoteView>,
    /// The identifiers of the open notes, in the order of their tabs.
    pub open: Seq<Seq<char>>,
    /// The positions of the open notes, most recently used first.
    pub recency: Seq<int>,
    /// The position of the current note among the open ones.
    pub current: Option<int>,
    /// The largest number of tabs shown.
    pub window: nat,
    /// The identifier of the note that was changed and not written yet.
    pub modified: Option<Seq<char>>,
    pub export_config: ExportConfig,
    pub import_config: ImportConfig,
    pub theme: Theme,
    pub language: Language,
}

impl AppStateView {
    /// Notes have distinct identifiers and are well formed; open notes are
    /// distinct, each has its place in the recency order, and the current
    /// note is the one used last.
    pub open spec fn wf(self) -> bool {
        &&& distinct_ids(self.notes)
        &&& forall|i: int| 0 <= i < self.notes.len() ==> (#[trigger] self.notes[i]).wf()
        &&& self.open.no_duplicates()
        &&& is_recency_order(self.recency, self.open.len())
        &&& self.current == most_recent(self.recency)
    }

    /// The identifier of the current note.
    pub open spec fn current_id(self) -> Option<Seq<char>> {
        match self.current {
            Some(c) => Some(self.open[c]),
            None => None,
        }
    }

    /// The current note, if it is a live one.
    pub open spec fn current_note(self) -> Option<NoteView> {
        match self.current_id() {
            Some(id) => self.note(id),
            None => None,
        }
    }

    /// The live note with the identifier `id`.
    pub open spec fn note(self, id: Seq<char>) -> Option<NoteView> {
        if holds_id(self.notes, id) {
            Some(self.notes[index_of_id(self.notes, id)])
        } else {
            None
        }
    }

    /// The positions of the tabs shown, in the order of the tabs.
    pub open spec fn visible_positions(self) -> Seq<int> {
        window_positions(
            self.recency,
            at_most(self.window as int, self.open.len() as int),
            self.open.len() as int,
        )
    }

    /// The state after the note `id` was opened or, if it was open, made
    /// current.
    pub open spec fn with_opened(self, id: Seq<char>) -> AppStateView {
        if self.open.contains(id) {
            let i = self.open.index_of(id);
            AppStateView { recency: promote(self.recency, i), current: Some(i), ..self }
        } else {
            let p = insert_slot(self.current);
            AppStateView {
                open: self.open.insert(p, id),
                recency: open_slot(self.recency, p),
                current: Some(p),
                ..self
            }
        }
    }

    /// The state after the tab of the note `id` was closed.
    pub open spec fn with_closed(self, id: Seq<char>) -> AppStateView {
        if self.open.contains(id) {
            let i = self.open.index_of(id);
            let recency = close_slot(self.recency, i);
            AppStateView {
                open: self.open.remove(i),
                recency,
                current: most_recent(recency),
                ..self
            }
        } else {
            self
        }
    }

    /// The state after `note` was put into the notebook; the mark of the
    /// unwritten note is taken off.
    pub open spec fn with_updated(self, note: NoteView) -> AppStateView {
        AppStateView { notes: put(self.notes, note), modified: None, ..self }
    }

    /// The note that is to be written when the mark of the unwritten note
    /// is taken off: the marked note, if it is still a live one.
    pub open spec fn to_flush(self) -> Option<NoteView> {
        match self.modified {
            Some(id) => self.note(id),
            None => None,
        }
    }

    /// The note that an import stores for `note`: none if the identifier is
    /// taken and such notes are skipped; the note under the identifier
    /// `fresh` if the identifier is taken and such notes are renamed; else
    /// the note as it is.
    pub open spec fn import_plan(self, note: NoteView, fresh: Seq<char>) -> Option<NoteView> {
        if holds_id(self.notes, note.id) {
            match self.import_config.merge_strategy {
                MergeStrategy::Skip => None,
                MergeStrategy::Rename => Some(NoteView { id: fresh, ..note }),
                MergeStrategy::Overwrite => Some(note),
            }
        } else {
            Some(note)
        }
    }

    /// The state after the saved version `version` was restored: the note
    /// that the version belongs to takes its title, content and tags. A
    /// version of a note that is not live changes nothing.
    pub open spec fn with_restored(
        self,
        note_id: Seq<char>,
        title: Seq<char>,
        content: Seq<char>,
        tags: Seq<Seq<char>>,
        saved_at: Timestamp,
    ) -> AppStateView {
        match self.note(note_id) {
            Some(note) => AppStateView {
                notes: put(
                    self.notes,
                    NoteView {
                        title,
                        content,
                        tags,
                        updated_at: Timestamp::latest(note.created_at, saved_at),
                        ..note
                    },
                ),
                ..self
            },
            None => self,
        }
    }
}

/// A note that was taken out of the live notes is not found any more, and
/// a note that was put back is found again as it was put.
pub proof fn lemma_trash_and_restore(state: AppStateView, note: NoteView)
    requires
        state.wf(),
    ensures
        (AppStateView { notes: without(state.notes, note.id), ..state }).note(note.id) is None,
        (AppStateView {
            notes: put(without(state.notes, note.id), note),
            ..state
        }).note(note.id) == Some(note),
{
    crate::data::notebook::lemma_without_loses(state.notes, note.id);
    crate::data::notebook::lemma_put_finds(without(state.notes, note.id), note);
}

/// The part of the application state that lives in memory: the notebook,
/// the open tabs, the mark of the unwritten note and the settings.
pub struct AppState {
    notebook: Notebook,
    recent_notes: TabManager<NoteKey>,
    modified_note: Option<String>,
    export_config: ExportConfig,
    import_config: ImportConfig,
    theme: Theme,
    language: Language,
    locales: Locales,
}

impl View for AppState {
    type V = AppStateView;

    closed spec fn view(&self) -> AppStateView {
        AppStateView {
            notes: self.notebook.notes(),
            open: key_texts(self.recent_notes.tabs()),
            recency: self.recent_notes.recency(),
            current: self.recent_notes.current(),
            window: self.recent_notes.window(),
            modified: crate::text::opt_text(self.modified_note),
            export_config: self.export_config,
            import_config: self.import_config,
            theme: self.theme,
            language: self.language,
        }
    }
}

impl AppState {
    /// The invariants of the parts.
    pub closed spec fn parts_wf(&self) -> bool {
        &&& self.notebook.wf()
        &&& self.recent_notes.wf()
    }

    /// The texts of the user interface: the codes of the languages with
    /// their sets of texts.
    pub closed spec fn locales(&self) -> Seq<(Seq<char>, Seq<(Seq<char>, Seq<char>)>)> {
        self.locales.tables()
    }

    /// The number of live notes per tag.
    pub closed spec fn tag_counts(&self) -> Map<Seq<char>, nat> {
        self.notebook.tag_counts()
    }

    /// The state's invariant.
    pub open spec fn wf(&self) -> bool {
        &&& self.parts_wf()
        &&& self@.wf()
        &&& self.tag_counts() == crate::data::notebook::usage(self@.notes)
    }

    /// The parts' invariants give the state's.
    proof fn lemma_wf(&self)
        requires
            self.parts_wf(),
        ensures
            self.wf(),
    {
        lemma_distinct_texts(self.recent_notes.tabs());
    }

    /// The state over the live notes of `notebook`: no note open, nothing
    /// to write, seven tabs shown at most, the default settings, the dark
    /// theme and English texts.
    pub fn new(notebook: Notebook, locales: Locales) -> (r: AppState)
        requires
            notebook.wf(),
        ensures
            r.wf(),
            r.locales() == locales.tables(),
            r@ == (AppStateView {
                notes: notebook.notes(),
                open: Seq::<Seq<char>>::empty(),
                recency: Seq::<int>::empty(),
                current: None,
                window: 7,
                modified: None,
                export_config: ExportConfig { format: crate::io::ExportFormat::Markdown(true) },
                import_config: ImportConfig {
                    merge_strategy: MergeStrategy::Rename,
                    preserve_timestamps: true,
                },
                theme: Theme::Dark,
                language: Language::English,
            }),
    {
        proof {
            lemma_note_key_eq();
        }
        let r = AppState {
            notebook,
            recent_notes: TabManager::new(7),
            modified_note: None,
            export_config: ExportConfig::default(),
            import_config: ImportConfig::default(),
            theme: Theme::Dark,
            language: Language::English,
            locales,
        };
        proof {
            assert(r@.open =~= Seq::<Seq<char>>::empty());
            r.lemma_wf();
        }
        r
    }

    /// The identifiers of the notes whose tabs are shown, in the order of
    /// the tabs.
    pub fn recent_notes(&self) -> (r: Vec<&str>)
        requires
            self.wf(),
        ensures
            r@.len() == at_most(self@.window as int, self@.open.len() as int),
            r@.len() == self@.visible_positions().len(),
            forall|k: int|
                0 <= k < r@.len() ==> (#[trigger] r@[k])@ == self@.open[self@.visible_positions()[k]],
    {
        let keys = self.recent_notes.get_visible_tabs();
        let mut out: Vec<&str> = Vec::new();
        let mut i: usize = 0;
        while i < keys.len()
            invariant
                i <= keys@.len(),
                out@.len() == i,
                forall|k: int| 0 <= k < i ==> (#[trigger] out@[k])@ == keys@[k]@,
            decreases keys@.len() - i,
        {
            out.push(keys[i].as_str());
            i += 1;
        }
        out
    }

    /// The identifier of the current note.
    pub fn current_note_id(&self) -> (r: Option<&str>)
        requires
            self.wf(),
        ensures
            match r {
                Some(id) => self@.current_id() == Some(id@),
                None => self@.current_id() is None,
            },
    {
        match self.recent_notes.current_tab() {
            Some(key) => Some(key.as_str()),
            None => None,
        }
    }

    /// A copy of the current note; `None` if no note is current or the
    /// current note is not a live one.
    pub fn current_note(&self) -> (r: Option<Note>)
        requires
            self.wf(),
        ensures
            match r {
                Some(note) => self@.current_note() == Some(note@) && note.wf(),
                None => self@.current_note() is None,
            },
    {
        match self.current_note_id() {
            Some(id) => self.notebook.find_note(id),
            None => None,
        }
    }

    /// Whether the note `id` is the current one.
    pub fn current_note_id_equals(&self, id: &str) -> (r: bool)
        requires
            self.wf(),
        ensures
            r == (self@.current_id() == Some(id@)),
    {
        match self.current_note_id() {
            Some(current) => crate::text::same_text(current, id),
            None => false,
        }
    }

    /// Opens the tab of the note `note_id`, or makes the note current if
    /// its tab is open.
    pub fn load_note(&mut self, note_id: &str)
        requires
            old(self).wf(),
        ensures
            final(self).wf(),
            final(self).locales() == old(self).locales(),
            final(self)@ == old(self)@.with_opened(note_id@),
    {
        let key = NoteKey::new(note_id.to_owned());
        let ghost before = self.recent_notes.tabs();
        proof {
            lemma_key_texts(before, key);
        }
        self.recent_notes.add_or_activate(key);
        proof {
            if !tracks(before, key) {
                assert(key_texts(self.recent_notes.tabs()) =~= key_texts(before).insert(
                    insert_slot(old(self)@.current),
                    note_id@,
                ));
            }
            self.lemma_wf();
        }
    }

    /// Closes the tab of the note `note_id`. If the note was current, the
    /// open note used last becomes current.
    pub fn close_note(&mut self, note_id: &str)
        requires
            old(self).wf(),
        ensures
            final(self).wf(),
            final(self).locales() == old(self).locales(),
            final(self)@ == old(self)@.with_closed(note_id@),
    {
        let key = NoteKey::new(note_id.to_owned());
        let ghost before = self.recent_notes.tabs();
        proof {
            lemma_key_texts(before, key);
        }
        let _ = self.recent_notes.remove(&key);
        proof {
            if tracks(before, key) {
                assert(key_texts(self.recent_notes.tabs()) =~= key_texts(before).remove(
                    slot_of(before, key),
                ));
            }
            self.lemma_wf();
        }
    }

    /// A copy of the live note `note_id`.
    pub fn get_note(&self, note_id: &str) -> (r: Option<Note>)
        requires
            self.wf(),
        ensures
            match r {
                Some(note) => self@.note(note_id@) == Some(note@) && note.wf(),
                None => self@.note(note_id@) is None,
            },
    {
        self.notebook.find_note(note_id)
    }

    /// Copies of the live notes whose title or content holds `key`, letter
    /// case ignored; of all live notes for the empty key.
    pub fn filter_notes(&self, key: &str) -> (r: Vec<Note>)
        requires
            self.wf(),
        ensures
            r@.map_values(|n: Note| n@) == self@.notes.filter(
                |n: NoteView| key@.len() == 0 || n.holds(key@, false),
            ),
    {
        let found = self.notebook.filter_notes(key);
        let mut out: Vec<Note> = Vec::new();
        let mut i: usize = 0;
        while i < found.len()
            invariant
                i <= found@.len(),
                out@.len() == i,
                forall|k: int| 0 <= k < i ==> (#[trigger] out@[k])@ == found@[k]@,
            decreases found@.len() - i,
        {
            out.push(found[i].clone());
            i += 1;
        }
        assert(out@.map_values(|n: Note| n@) =~= note_views(found@));
        out
    }

    /// Copies of the live notes that carry `tag`; of all live notes when no
    /// tag is given.
    pub fn filter_notes_by_tag(&self, tag: Option<String>) -> (r: Vec<Note>)
        requires
            self.wf(),
        ensures
            r@.map_values(|n: Note| n@) == (match tag {
                Some(t) => self@.notes.filter(|n: NoteView| n.has_tag(t@)),
                None => self@.notes,
            }),
    {
        let found = self.notebook.filter_notes_by_tag(tag);
        let mut out: Vec<Note> = Vec::new();
        let mut i: usize = 0;
        while i < found.len()
            invariant
                i <= found@.len(),
                out@.len() == i,
                forall|k: int| 0 <= k < i ==> (#[trigger] out@[k])@ == found@[k]@,
            decreases found@.len() - i,
        {
            out.push(found[i].clone());
            i += 1;
        }
        assert(out@.map_values(|n: Note| n@) =~= note_views(found@));
        out
    }

    /// Takes the mark off the unwritten note and hands out the note that is
    /// to be written now: the marked note, if it is still a live one.
    pub fn take_modified(&mut self) -> (r: Option<Note>)
        requires
            old(self).wf(),
        ensures
            final(self).wf(),
            final(self).locales() == old(self).locales(),
            final(self)@ == (AppStateView { modified: None, ..old(self)@ }),
            match r {
                Some(note) => old(self)@.to_flush() == Some(note@) && note.wf(),
                None => old(self)@.to_flush() is None,
            },
    {
        let marked = self.modified_note.take();
        match marked {
            Some(id) => self.notebook.find_note(id.as_str()),
            None => None,
        }
    }

    /// Marks the note `note_id` as changed and not written yet, or no note
    /// with `None`.
    pub fn set_modified(&mut self, note_id: Option<String>)
        ensures
            final(self).parts_wf() == old(self).parts_wf(),
            final(self).locales() == old(self).locales(),
            final(self).tag_counts() == old(self).tag_counts(),
            final(self)@ == (AppStateView {
                modified: crate::text::opt_text(note_id),
                ..old(self)@
            }),
    {
        self.modified_note = note_id;
    }

    /// Puts `note` into the notebook and hands out the note that is to be
    /// written before `note` is marked as unwritten: the note marked so
    /// far, if it is still a live one. The mark is taken off; the caller
    /// sets it to `note` when the write has succeeded.
    pub fn update_note(&mut self, note: Note) -> (r: Option<Note>)
        requires
            old(self).wf(),
            note.wf(),
        ensures
            final(self).wf(),
            final(self).locales() == old(self).locales(),
            final(self)@ == old(self)@.with_updated(note@),
            match r {
                Some(flush) => (AppStateView {
                    notes: put(old(self)@.notes, note@),
                    ..old(self)@
                }).to_flush() == Some(flush@) && flush.wf(),
                None => (AppStateView {
                    notes: put(old(self)@.notes, note@),
                    ..old(self)@
                }).to_flush() is None,
            },
    {
        self.notebook.insert_or_replace_note(note);
        proof {
            self.lemma_wf();
        }
        self.take_modified()
    }

    /// Opens a tab for the new note `note`, puts the note into the
    /// notebook, and hands out the note that is to be written first: see
    /// [`AppState::update_note`].
    pub fn adopt_new(&mut self, note: Note) -> (r: Option<Note>)
        requires
            old(self).wf(),
            note.wf(),
        ensures
            final(self).wf(),
            final(self).locales() == old(self).locales(),
            final(self)@ == old(self)@.with_opened(note@.id).with_updated(note@),
            match r {
                Some(flush) => (AppStateView {
                    notes: put(old(self)@.notes, note@),
                    ..old(self)@
                }).to_flush() == Some(flush@) && flush.wf(),
                None => (AppStateView {
                    notes: put(old(self)@.notes, note@),
                    ..old(self)@
                }).to_flush() is None,
            },
    {
        self.load_note(note.id());
        self.update_note(note)
    }

    /// Makes a new note titled `untitled`, opens its tab and puts it into
    /// the notebook. Hands out the identifier of the new note and the note
    /// that is to be written first.
    pub fn create_note(&mut self) -> (r: (String, Option<Note>))
        requires
            old(self).wf(),
        ensures
            final(self).wf(),
            final(self).locales() == old(self).locales(),
            r.0@.len() == 36,
            exists|note: NoteView|
                {
                    &&& note.id == r.0@
                    &&& note.title == "untitled"@
                    &&& note.content.len() == 0
                    &&& note.tags.len() == 0
                    &&& note.updated_at == note.created_at
                    &&& !note.is_pinned
                    &&& final(self)@ == #[trigger] old(self)@.with_opened(note.id).with_updated(
                        note,
                    )
                },
    {
        let note = Note::new("untitled".to_owned());
        let id = note.id().to_owned();
        let ghost made = note@;
        let flush = self.adopt_new(note);
        proof {
            assert(self@ == old(self)@.with_opened(made.id).with_updated(made));
        }
        (id, flush)
    }

    /// Takes the note `note_id` out of the notebook: the step of moving a
    /// note to the trash that comes before the write.
    pub fn forget_note(&mut self, note_id: &str)
        requires
            old(self).wf(),
        ensures
            final(self).wf(),
            final(self).locales() == old(self).locales(),
            final(self)@ == (AppStateView {
                notes: without(old(self)@.notes, note_id@),
                ..old(self)@
            }),
    {
        self.notebook.delete_note(note_id);
        proof {
            self.lemma_wf();
        }
    }

    /// The step of moving the note `note_id` to the trash that comes after
    /// the write. After a write that succeeded the note's tab is closed; a
    /// write that failed is reported, and the tab stays.
    pub fn settle_trashed(&mut self, note_id: &str, stored: bool) -> (r: Result<(), ServiceError>)
        requires
            old(self).wf(),
        ensures
            final(self).wf(),
            final(self).locales() == old(self).locales(),
            stored ==> r is Ok && final(self)@ == old(self)@.with_closed(note_id@),
            !stored ==> r == Err::<(), ServiceError>(ServiceError::DurableWriteFailure),
            !stored ==> final(self)@ == old(self)@,
    {
        if stored {
            self.close_note(note_id);
            Ok(())
        } else {
            Err(ServiceError::DurableWriteFailure)
        }
    }

    /// The step of restoring a note from the trash that comes after the
    /// store was asked: the note that the store found live again is put
    /// into the notebook; that the store holds no such note is reported.
    pub fn settle_restored(&mut self, found: Option<Note>) -> (r: Result<(), ServiceError>)
        requires
            old(self).wf(),
            found is Some ==> found.unwrap().wf(),
        ensures
            final(self).wf(),
            final(self).locales() == old(self).locales(),
            match found {
                Some(note) => r is Ok && final(self)@ == (AppStateView {
                    notes: put(old(self)@.notes, note@),
                    ..old(self)@
                }),
                None => r == Err::<(), ServiceError>(ServiceError::NotFound) && final(self)@
                    == old(self)@,
            },
    {
        match found {
            Some(note) => {
                self.notebook.insert_or_replace_note(note);
                proof {
                    self.lemma_wf();
                }
                Ok(())
            },
            None => Err(ServiceError::NotFound),
        }
    }

    /// Restores a saved version: the live note that the version belongs to
    /// takes the version's title, content and tags, and counts as changed
    /// when the version was saved. No version is made of the state that is
    /// replaced. A version of a note that is not live changes nothing.
    pub fn restore_version(&mut self, note_version: &NoteVersion)
        requires
            old(self).wf(),
            note_version.wf(),
        ensures
            final(self).wf(),
            final(self).locales() == old(self).locales(),
            final(self)@ == old(self)@.with_restored(
                note_version@.note_id,
                note_version@.title,
                note_version@.content,
                note_version@.tags,
                note_version@.saved_at,
            ),
    {
        match self.notebook.find_note(note_version.note_id()) {
            Some(mut note) => {
                note.updated_by_note_version(note_version);
                self.notebook.insert_or_replace_note(note);
                proof {
                    self.lemma_wf();
                }
            },
            None => {},
        }
    }

    /// The note that an import stores for `note`: see
    /// [`AppStateView::import_plan`]. `fresh` is the identifier for a note
    /// that is renamed.
    pub fn plan_import(&self, note: &Note, fresh: String) -> (r: Option<Note>)
        requires
            self.wf(),
            note.wf(),
        ensures
            match r {
                Some(stored) => self@.import_plan(note@, fresh@) == Some(stored@) && stored.wf(),
                None => self@.import_plan(note@, fresh@) is None,
            },
    {
        let mut note = note.clone();
        match self.notebook.find_note(note.id()) {
            Some(_) => match self.import_config.merge_strategy {
                MergeStrategy::Skip => None,
                MergeStrategy::Rename => {
                    note.set_id(fresh);
                    Some(note)
                },
                MergeStrategy::Overwrite => Some(note),
            },
            None => Some(note),
        }
    }

    /// Puts a note that was written to the store into the notebook.
    pub fn adopt_note(&mut self, note: Note)
        requires
            old(self).wf(),
            note.wf(),
        ensures
            final(self).wf(),
            final(self).locales() == old(self).locales(),
            final(self)@ == (AppStateView {
                notes: put(old(self)@.notes, note@),
                ..old(self)@
            }),
    {
        self.notebook.insert_or_replace_note(note);
        proof {
            self.lemma_wf();
        }
    }

    /// The tags of the live notes, each once, with the number of notes
    /// that carry it.
    pub fn get_tags_with_count(&self) -> (r: Vec<(String, usize)>)
        requires
            self.wf(),
        ensures
            crate::data::notebook::distinct_tags(r@),
            crate::data::notebook::counted(r@) == crate::data::notebook::usage(self@.notes),
    {
        self.notebook.get_tags_with_count()
    }

    /// The language of the user interface.
    pub fn language(&self) -> (r: Language)
        ensures
            r == self@.language,
    {
        self.language
    }

    /// Sets the language of the user interface.
    pub fn set_language(&mut self, language: Language)
        ensures
            final(self).parts_wf() == old(self).parts_wf(),
            final(self).locales() == old(self).locales(),
            final(self).tag_counts() == old(self).tag_counts(),
            final(self)@ == (AppStateView { language, ..old(self)@ }),
    {
        self.language = language;
    }

    /// The theme of the user interface.
    pub fn theme(&self) -> (r: Theme)
        ensures
            r == self@.theme,
    {
        self.theme
    }

    /// Sets the theme of the user interface.
    pub fn set_theme(&mut self, theme: Theme)
        ensures
            final(self).parts_wf() == old(self).parts_wf(),
            final(self).locales() == old(self).locales(),
            final(self).tag_counts() == old(self).tag_counts(),
            final(self)@ == (AppStateView { theme, ..old(self)@ }),
    {
        self.theme = theme;
    }

    /// How notes are exported.
    pub fn export_config(&self) -> (r: &ExportConfig)
        ensures
            *r == self@.export_config,
    {
        &self.export_config
    }

    /// Sets how notes are exported.
    pub fn set_export_config(&mut self, config: ExportConfig)
        ensures
            final(self).parts_wf() == old(self).parts_wf(),
            final(self).locales() == old(self).locales(),
            final(self).tag_counts() == old(self).tag_counts(),
            final(self)@ == (AppStateView { export_config: config, ..old(self)@ }),
    {
        self.export_config = config;
    }

    /// How notes are imported.
    pub fn import_config(&self) -> (r: &ImportConfig)
        ensures
            *r == self@.import_config,
    {
        &self.import_config
    }

    /// Sets how notes are imported.
    pub fn set_import_config(&mut self, config: ImportConfig)
        ensures
            final(self).parts_wf() == old(self).parts_wf(),
            final(self).locales() == old(self).locales(),
            final(self).tag_counts() == old(self).tag_counts(),
            final(self)@ == (AppStateView { import_config: config, ..old(self)@ }),
    {
        self.import_config = config;
    }

    /// The text shown for `key` in the language of the user interface: the
    /// filed text, or the key itself where none is filed.
    pub fn translate(&self, key: &str) -> (r: String)
        ensures
            r@ == shown(self.locales(), self@.language.code_text(), key@),
    {
        self.locales.translate(key, self.language)
    }
}

impl Translate for AppState {
    fn t(&self, key: &str) -> (r: String)
        ensures
            r@ == shown(self.locales(), self@.language.code_text(), key@),
    {
        self.translate(key)
    }
}

} // verus!
