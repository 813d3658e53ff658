use cloud_notepad::data::DeleteNote;
use cloud_notepad::data::ExportNote;
use cloud_notepad::data::Note;
use cloud_notepad::data::NoteVersion;
use cloud_notepad::time::Timestamp;

fn strings(items: &[&str]) -> Vec<String> {
    items.iter().map(|t| t.to_string()).collect()
}

fn looks_like_a_minute(text: &str) -> bool {
    let bytes = text.as_bytes();
    bytes.len() == 16
        && bytes[4] == b'-'
        && bytes[7] == b'-'
        && bytes[10] == b' '
        && bytes[13] == b':'
        && bytes
            .iter()
            .enumerate()
            .all(|(i, b)| matches!(i, 4 | 7 | 10 | 13) || b.is_ascii_digit())
}

#[test]
fn timestamps_are_ordered_by_seconds_then_nanoseconds() {
    let a = Timestamp::new(5, 900);
    let b = Timestamp::new(6, 0);
    let c = Timestamp::new(6, 1);
    assert!(a.not_after(&b));
    assert!(b.not_after(&c));
    assert!(!c.not_after(&b));
    assert!(b.not_after(&b));
    assert!(Timestamp::new(-1, 999_999_999).not_after(&Timestamp::new(0, 0)));
    assert_eq!(Timestamp::later_of(a, c), c);
    assert_eq!(Timestamp::later_of(c, a), c);
}

#[test]
fn new_note_is_empty_and_fresh() {
    let note = Note::new("untitled".to_string());
    assert_eq!(note.title(), "untitled");
    assert_eq!(note.content(), "");
    assert!(note.tags().is_empty());
    assert!(!note.is_pinned());
    assert_eq!(note.created_instant(), note.updated_instant());
    assert_eq!(note.id().len(), 36);
    assert!(note.created_instant().secs > 1_600_000_000);

    let other = Note::new("untitled".to_string());
    assert_ne!(note.id(), other.id());
}

#[test]
fn note_with_identity_holds_what_it_was_given() {
    let note = Note::with_identity("id-1".to_string(), "Title".to_string(), Timestamp::new(7, 8));
    assert_eq!(note.id(), "id-1");
    assert_eq!(note.title(), "Title");
    assert_eq!(note.created_instant(), Timestamp::new(7, 8));
    assert_eq!(note.updated_instant(), Timestamp::new(7, 8));
}

#[test]
fn note_from_parts_drops_repeated_tags_and_orders_instants() {
    let note = Note::from_parts(
        "n".to_string(),
        "t".to_string(),
        "c".to_string(),
        strings(&["a", "b", "a", "c", "b"]),
        Timestamp::new(50, 0),
        Timestamp::new(40, 0),
        true,
    );
    assert_eq!(note.tags(), &strings(&["a", "b", "c"]));
    assert_eq!(note.created_instant(), Timestamp::new(50, 0));
    assert_eq!(note.updated_instant(), Timestamp::new(50, 0));
    assert!(note.is_pinned());
}

#[test]
fn title_change_refreshes_the_last_change() {
    let mut note = Note::with_identity("n".to_string(), "old".to_string(), Timestamp::new(10, 0));
    assert!(!note.update_title_at("old".to_string(), Timestamp::new(20, 0)));
    assert_eq!(note.updated_instant(), Timestamp::new(10, 0));

    assert!(note.update_title_at("new".to_string(), Timestamp::new(20, 0)));
    assert_eq!(note.title(), "new");
    assert_eq!(note.updated_instant(), Timestamp::new(20, 0));
    assert_eq!(note.created_instant(), Timestamp::new(10, 0));

    assert!(note.update_title_at("newer".to_string(), Timestamp::new(5, 0)));
    assert_eq!(note.updated_instant(), Timestamp::new(10, 0));
}

#[test]
fn content_change_refreshes_the_last_change() {
    let mut note = Note::with_identity("n".to_string(), "t".to_string(), Timestamp::new(10, 0));
    assert!(!note.update_content_at(String::new(), Timestamp::new(20, 0)));
    assert!(note.update_content_at("body".to_string(), Timestamp::new(30, 5)));
    assert_eq!(note.content(), "body");
    assert_eq!(note.updated_instant(), Timestamp::new(30, 5));
}

#[test]
fn clock_driven_changes_report_whether_anything_changed() {
    let mut note = Note::new("t".to_string());
    let created = note.created_instant();
    assert!(!note.update_title("t".to_string()));
    assert!(note.update_title("u".to_string()));
    assert!(note.update_content("body".to_string()));
    assert!(!note.update_content("body".to_string()));
    assert!(created.not_after(&note.updated_instant()));
    assert!(looks_like_a_minute(&note.updated_at()));
}

#[test]
fn tags_do_not_touch_the_last_change() {
    let mut note = Note::with_identity("n".to_string(), "t".to_string(), Timestamp::new(10, 0));
    assert!(note.add_tag("a".to_string()));
    assert!(note.add_tag("b".to_string()));
    assert!(!note.add_tag("a".to_string()));
    assert_eq!(note.tags(), &strings(&["a", "b"]));
    assert!(note.remove_tag("a"));
    assert!(!note.remove_tag("a"));
    assert_eq!(note.tags(), &strings(&["b"]));
    assert_eq!(note.updated_instant(), Timestamp::new(10, 0));
}

#[test]
fn contains_looks_at_title_and_content() {
    let note = Note::from_parts(
        "n".to_string(),
        "Trip Plan".to_string(),
        "Pack the BAGS".to_string(),
        Vec::new(),
        Timestamp::new(1, 0),
        Timestamp::new(1, 0),
        false,
    );
    assert!(note.contains("trip", None));
    assert!(note.contains("bags", Some(false)));
    assert!(note.contains("TRIP", None));
    assert!(!note.contains("trip", Some(true)));
    assert!(note.contains("Trip", Some(true)));
    assert!(note.contains("BAGS", Some(true)));
    assert!(!note.contains("lan Pa", None));
    assert!(note.contains("", Some(true)));
    assert!(!note.contains("x", None));
}

#[test]
fn clone_keeps_every_field() {
    let note = Note::from_parts(
        "n".to_string(),
        "t".to_string(),
        "c".to_string(),
        strings(&["a", "b"]),
        Timestamp::new(1, 2),
        Timestamp::new(3, 4),
        true,
    );
    let copy = note.clone();
    assert_eq!(copy.id(), "n");
    assert_eq!(copy.title(), "t");
    assert_eq!(copy.content(), "c");
    assert_eq!(copy.tags(), &strings(&["a", "b"]));
    assert_eq!(copy.created_instant(), Timestamp::new(1, 2));
    assert_eq!(copy.updated_instant(), Timestamp::new(3, 4));
    assert!(copy.is_pinned());
}

#[test]
fn version_is_a_copy_of_the_note() {
    let mut note = Note::from_parts(
        "n".to_string(),
        "t".to_string(),
        "c".to_string(),
        strings(&["a"]),
        Timestamp::new(1, 0),
        Timestamp::new(2, 0),
        false,
    );
    let version = NoteVersion::snapshot("v".to_string(), "first", &note, Timestamp::new(9, 0));
    note.update_content_at("later".to_string(), Timestamp::new(10, 0));
    note.add_tag("b".to_string());

    assert_eq!(version.id(), "v");
    assert_eq!(version.note_id(), "n");
    assert_eq!(version.title(), "t");
    assert_eq!(version.content(), "c");
    assert_eq!(version.tags(), &strings(&["a"]));
    assert_eq!(version.comment(), "first");
    assert_eq!(version.saved_instant(), Timestamp::new(9, 0));
    assert!(looks_like_a_minute(&version.saved_at()));
}

#[test]
fn two_versions_of_a_note_have_distinct_identifiers() {
    let note = Note::new("t".to_string());
    let first = NoteVersion::new("one", &note);
    let second = NoteVersion::new("two", &note);
    assert_eq!(first.id().len(), 36);
    assert_ne!(first.id(), second.id());
    assert_eq!(first.note_id(), note.id());
    assert_eq!(second.note_id(), note.id());
    assert_eq!(first.comment(), "one");
    assert_eq!(second.comment(), "two");
}

#[test]
fn note_takes_over_a_version() {
    let mut note = Note::from_parts(
        "n".to_string(),
        "t".to_string(),
        "c".to_string(),
        strings(&["a"]),
        Timestamp::new(10, 0),
        Timestamp::new(20, 0),
        true,
    );
    let version = NoteVersion::from_parts(
        "v".to_string(),
        "n".to_string(),
        "old title".to_string(),
        "old content".to_string(),
        strings(&["x", "y", "x"]),
        "why".to_string(),
        Timestamp::new(15, 0),
    );
    note.updated_by_note_version(&version);
    assert_eq!(note.id(), "n");
    assert_eq!(note.title(), "old title");
    assert_eq!(note.content(), "old content");
    assert_eq!(note.tags(), &strings(&["x", "y"]));
    assert_eq!(note.created_instant(), Timestamp::new(10, 0));
    assert_eq!(note.updated_instant(), Timestamp::new(15, 0));
    assert!(note.is_pinned());
    assert_eq!(version.title(), "old title");

    let ancient = NoteVersion::from_parts(
        "w".to_string(),
        "n".to_string(),
        "t".to_string(),
        "c".to_string(),
        Vec::new(),
        String::new(),
        Timestamp::new(3, 0),
    );
    note.updated_by_note_version(&ancient);
    assert_eq!(note.updated_instant(), Timestamp::new(10, 0));
}

#[test]
fn trash_entry_holds_what_it_was_given() {
    let entry = DeleteNote::new("n".to_string(), "t".to_string(), Timestamp::new(86_400, 0));
    assert_eq!(entry.id(), "n");
    assert_eq!(entry.title(), "t");
    assert_eq!(entry.deleted_instant(), Timestamp::new(86_400, 0));
    assert!(looks_like_a_minute(&entry.deleted_at()));
}

#[test]
fn instant_out_of_range_has_no_text() {
    let entry = DeleteNote::new("n".to_string(), "t".to_string(), Timestamp::new(i64::MAX, 0));
    assert_eq!(entry.deleted_at(), "");
}

#[test]
fn export_record_fills_in_what_is_missing() {
    let record = ExportNote::new(
        None,
        "t".to_string(),
        strings(&["a", "a", "b"]),
        "c".to_string(),
        None,
        None,
    );
    assert_eq!(record.tags(), &strings(&["a", "b"]));
    assert_eq!(record.created(), None);

    let note = record.to_note_with("fresh".to_string(), Timestamp::new(99, 0));
    assert_eq!(note.id(), "fresh");
    assert_eq!(note.title(), "t");
    assert_eq!(note.content(), "c");
    assert_eq!(note.tags(), &strings(&["a", "b"]));
    assert_eq!(note.created_instant(), Timestamp::new(99, 0));
    assert_eq!(note.updated_instant(), Timestamp::new(99, 0));
    assert!(!note.is_pinned());

    let made = record.to_note();
    assert_eq!(made.id().len(), 36);
    assert_eq!(made.title(), "t");
}

#[test]
fn export_record_keeps_what_it_has() {
    let record = ExportNote::new(
        Some("own".to_string()),
        "t".to_string(),
        Vec::new(),
        "c".to_string(),
        Some(Timestamp::new(50, 0)),
        Some(Timestamp::new(40, 0)),
    );
    let note = record.to_note_with("fresh".to_string(), Timestamp::new(99, 0));
    assert_eq!(note.id(), "own");
    assert_eq!(note.created_instant(), Timestamp::new(50, 0));
    assert_eq!(note.updated_instant(), Timestamp::new(50, 0));
    assert!(looks_like_a_minute(&record.created().unwrap()));

    let partly = ExportNote::new(
        None,
        "t".to_string(),
        Vec::new(),
        "c".to_string(),
        None,
        Some(Timestamp::new(40, 0)),
    );
    let note = partly.to_note_with("fresh".to_string(), Timestamp::new(30, 0));
    assert_eq!(note.created_instant(), Timestamp::new(30, 0));
    assert_eq!(note.updated_instant(), Timestamp::new(40, 0));
}

#[test]
fn export_record_of_a_note_round_trips() {
    let note = Note::from_parts(
        "n".to_string(),
        "t".to_string(),
        "c".to_string(),
        strings(&["a"]),
        Timestamp::new(1, 2),
        Timestamp::new(3, 4),
        true,
    );
    let record = ExportNote::from_note(&note);
    assert_eq!(record.id(), Some("n"));
    assert_eq!(record.created_instant(), Some(Timestamp::new(1, 2)));
    assert_eq!(record.updated_instant(), Some(Timestamp::new(3, 4)));
    let back = record.to_note_with("fresh".to_string(), Timestamp::new(0, 0));
    assert_eq!(back.id(), "n");
    assert_eq!(back.title(), "t");
    assert_eq!(back.content(), "c");
    assert_eq!(back.tags(), &strings(&["a"]));
    assert_eq!(back.created_instant(), Timestamp::new(1, 2));
    assert_eq!(back.updated_instant(), Timestamp::new(3, 4));
    assert!(!back.is_pinned());
}

#[test]
fn instants_at_the_ends_of_the_calendar_have_a_text() {
    let last = DeleteNote::new("n".to_string(), "t".to_string(), Timestamp::new(8_210_266_876_799, 999_999_999));
    assert!(!last.deleted_at().is_empty());
    let first = DeleteNote::new("n".to_string(), "t".to_string(), Timestamp::new(-8_334_601_228_800, 0));
    assert!(!first.deleted_at().is_empty());
    let beyond = DeleteNote::new("n".to_string(), "t".to_string(), Timestamp::new(8_210_266_876_800, 0));
    assert_eq!(beyond.deleted_at(), "");
    let odd = DeleteNote::new("n".to_string(), "t".to_string(), Timestamp::new(0, u32::MAX));
    assert_eq!(odd.deleted_at(), "");
    let leap = DeleteNote::new("n".to_string(), "t".to_string(), Timestamp::new(59, 1_500_000_000));
    assert!(looks_like_a_minute(&leap.deleted_at()));
}

#[test]
fn instant_has_a_text_at_every_offset_of_less_than_a_day() {
    let epoch = Timestamp::new(0, 0);
    assert_eq!(epoch.text_at(0), Some("1970-01-01 00:00".to_string()));
    assert_eq!(epoch.text_at(3600), Some("1970-01-01 01:00".to_string()));
    assert_eq!(epoch.text_at(-60), Some("1969-12-31 23:59".to_string()));
    assert_eq!(epoch.text_at(86_399), Some("1970-01-01 23:59".to_string()));
    assert_eq!(epoch.text_at(-86_399), Some("1969-12-31 00:00".to_string()));
    assert_eq!(epoch.text_at(86_400), None);
    assert_eq!(epoch.text_at(-86_400), None);
    assert_eq!(epoch.text_at(i32::MAX), None);

    let later = Timestamp::new(1_431_648_059, 999_999_999);
    assert_eq!(later.text_at(0), Some("2015-05-15 00:00".to_string()));
    assert_eq!(later.text_at(19_800), Some("2015-05-15 05:30".to_string()));

    assert_eq!(Timestamp::new(i64::MAX, 0).text_at(0), None);
    assert_eq!(Timestamp::new(0, 2_000_000_000).text_at(0), None);
    assert_eq!(Timestamp::new(0, 1_000_000_000).text_at(0), None);
    assert!(Timestamp::new(59, 1_000_000_000).text_at(0).is_some());
    for secs in [8_210_266_876_799i64, -8_334_601_228_800] {
        for offset in [-86_399, 0, 86_399] {
            assert!(Timestamp::new(secs, 0).text_at(offset).is_some());
        }
    }
    assert_eq!(Timestamp::new(8_210_266_876_800, 0).text_at(0), None);
    assert_eq!(Timestamp::new(-8_334_601_228_801, 0).text_at(0), None);
}

#[test]
fn local_text_is_the_text_at_the_offset_of_the_time_zone() {
    for secs in [0i64, 1_431_648_000, 1_700_000_000, -86_400, 8_210_266_876_799] {
        let instant = Timestamp::new(secs, 0);
        let local = instant.local_text();
        assert!((-95..=95).any(|quarter| instant.text_at(quarter * 900) == Some(local.clone())));

        let note = Note::with_identity("n".to_string(), "t".to_string(), instant);
        assert_eq!(note.updated_at(), local);
        let version = NoteVersion::snapshot("v".to_string(), "c", &note, instant);
        assert_eq!(version.saved_at(), local);
        let entry = DeleteNote::new("n".to_string(), "t".to_string(), instant);
        assert_eq!(entry.deleted_at(), local);
    }
    assert_eq!(Timestamp::new(i64::MIN, 0).local_text(), "");
}
