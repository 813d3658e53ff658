use cloud_notepad::data::Note;
use cloud_notepad::data::NoteVersion;
use cloud_notepad::data::Notebook;
use cloud_notepad::i18n::Language;
use cloud_notepad::i18n::LocaleText;
use cloud_notepad::i18n::Locales;
use cloud_notepad::i18n::Translate;
use cloud_notepad::io::ExportConfig;
use cloud_notepad::io::ExportFormat;
use cloud_notepad::io::ImportConfig;
use cloud_notepad::io::MergeStrategy;
use cloud_notepad::services::ServiceError;
use cloud_notepad::services::Theme;
use cloud_notepad::time::Timestamp;
use cloud_notepad::AppState;

fn note(id: &str, title: &str, tags: &[&str]) -> Note {
    Note::from_parts(
        id.to_string(),
        title.to_string(),
        String::new(),
        tags.iter().map(|t| t.to_string()).collect(),
        Timestamp::new(100, 0),
        Timestamp::new(200, 0),
        false,
    )
}

fn state_with(notes: Vec<Note>) -> AppState {
    let mut notebook = Notebook::new();
    for n in notes {
        notebook.insert_or_replace_note(n);
    }
    AppState::new(notebook, Locales::new())
}

fn titles(state: &AppState) -> Vec<String> {
    state.filter_notes("").iter().map(|n| n.title().to_string()).collect()
}

#[test]
fn new_state_has_nothing_open() {
    let state = state_with(vec![note("a", "A", &[])]);
    assert!(state.recent_notes().is_empty());
    assert_eq!(state.current_note_id(), None);
    assert!(state.current_note().is_none());
    assert!(!state.current_note_id_equals("a"));
    assert_eq!(state.theme(), Theme::Dark);
    assert_eq!(state.language(), Language::English);
    assert_eq!(state.export_config().format, ExportFormat::Markdown(true));
    assert_eq!(state.import_config().merge_strategy, MergeStrategy::Rename);
    assert!(state.import_config().preserve_timestamps);
}

#[test]
fn seven_tabs_are_shown_at_most() {
    let mut state = state_with(Vec::new());
    for i in 0..9 {
        state.load_note(&format!("n{}", i));
    }
    assert_eq!(state.recent_notes(), vec!["n2", "n3", "n4", "n5", "n6", "n7", "n8"]);
    assert_eq!(state.current_note_id(), Some("n8"));
    state.load_note("n0");
    assert_eq!(state.recent_notes(), vec!["n0", "n3", "n4", "n5", "n6", "n7", "n8"]);
    assert!(state.current_note_id_equals("n0"));
}

#[test]
fn closing_the_current_tab_falls_back_to_the_last_used() {
    let mut state = state_with(vec![note("a", "A", &[]), note("b", "B", &[])]);
    state.load_note("a");
    state.load_note("b");
    state.load_note("c");
    assert!(state.current_note().is_none());
    state.close_note("c");
    assert_eq!(state.current_note_id(), Some("b"));
    assert_eq!(state.current_note().unwrap().title(), "B");
    state.close_note("missing");
    assert_eq!(state.recent_notes(), vec!["a", "b"]);
    state.close_note("b");
    state.close_note("a");
    assert_eq!(state.current_note_id(), None);
}

#[test]
fn update_hands_out_the_note_marked_before() {
    let mut state = state_with(vec![note("a", "A", &[])]);
    assert!(state.update_note(note("a", "A2", &[])).is_none());
    state.set_modified(Some("a".to_string()));

    let flush = state.update_note(note("b", "B", &[])).unwrap();
    assert_eq!(flush.id(), "a");
    assert_eq!(flush.title(), "A2");
    assert!(state.take_modified().is_none());

    state.set_modified(Some("b".to_string()));
    let flush = state.update_note(note("b", "B2", &[])).unwrap();
    assert_eq!(flush.title(), "B2");

    state.set_modified(Some("gone".to_string()));
    assert!(state.update_note(note("b", "B3", &[])).is_none());
    assert_eq!(titles(&state), vec!["A2", "B3"]);
}

#[test]
fn created_note_is_open_and_current() {
    let mut state = state_with(vec![note("a", "A", &[])]);
    state.set_modified(Some("a".to_string()));
    let (id, flush) = state.create_note();
    assert_eq!(id.len(), 36);
    assert_eq!(flush.unwrap().id(), "a");
    assert_eq!(state.current_note_id(), Some(id.as_str()));
    let made = state.current_note().unwrap();
    assert_eq!(made.title(), "untitled");
    assert_eq!(made.content(), "");
    assert_eq!(state.filter_notes("").len(), 2);
}

#[test]
fn adopting_a_new_note_opens_its_tab() {
    let mut state = state_with(Vec::new());
    assert!(state.adopt_new(note("n", "N", &["x"])).is_none());
    assert_eq!(state.recent_notes(), vec!["n"]);
    assert_eq!(state.get_note("n").unwrap().title(), "N");
    assert_eq!(state.get_tags_with_count(), vec![("x".to_string(), 1)]);
}

#[test]
fn trashing_closes_the_tab_only_after_the_write() {
    let mut state = state_with(vec![note("a", "A", &["x"]), note("b", "B", &[])]);
    state.load_note("a");
    state.load_note("b");

    state.forget_note("a");
    assert!(state.get_note("a").is_none());
    assert!(state.get_tags_with_count().is_empty());
    assert_eq!(state.settle_trashed("a", false), Err(ServiceError::DurableWriteFailure));
    assert_eq!(state.recent_notes(), vec!["a", "b"]);

    assert_eq!(state.settle_trashed("a", true), Ok(()));
    assert_eq!(state.recent_notes(), vec!["b"]);
    assert_eq!(state.current_note_id(), Some("b"));
}

#[test]
fn restoring_needs_a_note_in_the_store() {
    let mut state = state_with(Vec::new());
    assert_eq!(state.settle_restored(None), Err(ServiceError::NotFound));
    assert!(state.filter_notes("").is_empty());

    assert_eq!(state.settle_restored(Some(note("a", "A", &["x"]))), Ok(()));
    assert_eq!(state.get_note("a").unwrap().title(), "A");
    assert_eq!(state.get_tags_with_count(), vec![("x".to_string(), 1)]);
}

#[test]
fn restoring_a_version_rewrites_the_live_note() {
    let mut state = state_with(vec![note("a", "A", &["x"])]);
    let old = NoteVersion::from_parts(
        "v1".to_string(),
        "a".to_string(),
        "old".to_string(),
        "old text".to_string(),
        vec!["y".to_string()],
        "first".to_string(),
        Timestamp::new(150, 0),
    );
    let other = NoteVersion::from_parts(
        "v2".to_string(),
        "a".to_string(),
        "other".to_string(),
        "other text".to_string(),
        Vec::new(),
        "second".to_string(),
        Timestamp::new(160, 0),
    );
    state.restore_version(&old);
    let live = state.get_note("a").unwrap();
    assert_eq!(live.title(), "old");
    assert_eq!(live.content(), "old text");
    assert_eq!(live.tags(), &vec!["y".to_string()]);
    assert_eq!(live.updated_instant(), Timestamp::new(150, 0));
    assert_eq!(state.get_tags_with_count(), vec![("y".to_string(), 1)]);
    assert_eq!(other.title(), "other");
    assert_eq!(other.content(), "other text");
    assert_eq!(old.id(), "v1");
    assert_eq!(other.id(), "v2");

    let stray = NoteVersion::from_parts(
        "v3".to_string(),
        "gone".to_string(),
        "t".to_string(),
        "c".to_string(),
        Vec::new(),
        String::new(),
        Timestamp::new(1, 0),
    );
    state.restore_version(&stray);
    assert_eq!(titles(&state), vec!["old"]);
}

#[test]
fn import_follows_the_merge_strategy() {
    let mut state = state_with(vec![note("a", "A", &[])]);
    let incoming = note("a", "A from file", &[]);
    let unknown = note("z", "Z", &[]);

    let renamed = state.plan_import(&incoming, "fresh".to_string()).unwrap();
    assert_eq!(renamed.id(), "fresh");
    assert_eq!(renamed.title(), "A from file");
    assert_eq!(state.plan_import(&unknown, "fresh".to_string()).unwrap().id(), "z");

    state.set_import_config(ImportConfig {
        merge_strategy: MergeStrategy::Skip,
        preserve_timestamps: false,
    });
    assert!(state.plan_import(&incoming, "fresh".to_string()).is_none());
    assert_eq!(state.plan_import(&unknown, "fresh".to_string()).unwrap().id(), "z");

    state.set_import_config(ImportConfig {
        merge_strategy: MergeStrategy::Overwrite,
        preserve_timestamps: false,
    });
    let kept = state.plan_import(&incoming, "fresh".to_string()).unwrap();
    assert_eq!(kept.id(), "a");
    state.adopt_note(kept);
    assert_eq!(titles(&state), vec!["A from file"]);
}

#[test]
fn notes_are_found_by_tag_and_text() {
    let state = state_with(vec![note("a", "Alpha", &["x"]), note("b", "Beta", &["x", "y"])]);
    let by_tag: Vec<String> = state
        .filter_notes_by_tag(Some("y".to_string()))
        .iter()
        .map(|n| n.id().to_string())
        .collect();
    assert_eq!(by_tag, vec!["b"]);
    assert_eq!(state.filter_notes_by_tag(None).len(), 2);
    assert!(state.filter_notes_by_tag(Some("z".to_string())).is_empty());
    let by_text: Vec<String> =
        state.filter_notes("ALP").iter().map(|n| n.id().to_string()).collect();
    assert_eq!(by_text, vec!["a"]);
    let mut counts = state.get_tags_with_count();
    counts.sort();
    assert_eq!(counts, vec![("x".to_string(), 2), ("y".to_string(), 1)]);
}

#[test]
fn settings_can_be_changed() {
    let mut state = state_with(Vec::new());
    state.set_theme(Theme::Light);
    state.set_language(Language::Japanese);
    state.set_export_config(ExportConfig { format: ExportFormat::Json });
    assert_eq!(state.theme(), Theme::Light);
    assert_eq!(state.language(), Language::Japanese);
    assert_eq!(state.export_config().format, ExportFormat::Json);
    assert_eq!(ExportConfig::default().format, ExportFormat::Markdown(true));
    assert_eq!(ImportConfig::default().merge_strategy, MergeStrategy::Rename);
}

#[test]
fn texts_fall_back_to_the_key() {
    let mut english = LocaleText::new();
    english.insert("save".to_string(), "Save".to_string());
    english.insert("save".to_string(), "Store".to_string());
    let mut chinese = LocaleText::new();
    chinese.insert("save".to_string(), "保存".to_string());
    assert_eq!(english.get("save"), Some("Save"));
    assert_eq!(english.get("open"), None);

    let mut locales = Locales::new();
    locales.insert("en".to_string(), english);
    locales.insert("zh".to_string(), chinese);
    assert_eq!(locales.translate("save", Language::English), "Save");
    assert_eq!(locales.translate("save", Language::Chinese), "保存");
    assert_eq!(locales.translate("save", Language::Japanese), "save");
    assert_eq!(locales.translate("open", Language::English), "open");

    let mut state = AppState::new(Notebook::new(), locales);
    assert_eq!(state.t("save"), "Save");
    state.set_language(Language::Chinese);
    assert_eq!(state.t("save"), "保存");
    assert_eq!(state.translate("cancel"), "cancel");
}

#[test]
fn language_codes() {
    assert_eq!(Language::English.code(), "en");
    assert_eq!(Language::Chinese.code(), "zh");
    assert_eq!(Language::Japanese.code(), "jp");
}
