use cloud_notepad::data::db::notebook_of;
use cloud_notepad::data::db::read_tags;
use cloud_notepad::data::db::NoteRow;
use cloud_notepad::data::db::TrashRow;
use cloud_notepad::data::db::VersionRow;
use cloud_notepad::data::Note;
use cloud_notepad::data::NoteVersion;
use cloud_notepad::time::Timestamp;

fn strings(items: &[&str]) -> Vec<String> {
    items.iter().map(|t| t.to_string()).collect()
}

fn sample() -> Note {
    Note::from_parts(
        "n".to_string(),
        "Title".to_string(),
        "Content".to_string(),
        strings(&["a", "b \"c\""]),
        Timestamp::new(1_431_648_000, 0),
        Timestamp::new(1_431_648_001, 500_000_000),
        true,
    )
}

#[test]
fn note_row_holds_json_and_rfc3339() {
    let row = NoteRow::of(&sample()).unwrap();
    assert_eq!(row.id, "n");
    assert_eq!(row.title, "Title");
    assert_eq!(row.content, "Content");
    assert_eq!(row.tags, "[\"a\",\"b \\\"c\\\"\"]");
    assert_eq!(row.created_at, "2015-05-15T00:00:00+00:00");
    assert_eq!(row.updated_at, "2015-05-15T00:00:01.500+00:00");
    assert!(row.is_pinned);
}

#[test]
fn note_survives_the_way_through_a_row() {
    let note = sample();
    let back = NoteRow::of(&note).unwrap().note().unwrap();
    assert_eq!(back.id(), note.id());
    assert_eq!(back.title(), note.title());
    assert_eq!(back.content(), note.content());
    assert_eq!(back.tags(), note.tags());
    assert_eq!(back.created_instant(), note.created_instant());
    assert_eq!(back.updated_instant(), note.updated_instant());
    assert_eq!(back.is_pinned(), note.is_pinned());
}

#[test]
fn note_row_reads_other_offsets() {
    let row = NoteRow {
        id: "n".to_string(),
        title: "t".to_string(),
        content: "c".to_string(),
        tags: "[\"x\", \"y\", \"x\"]".to_string(),
        created_at: "1970-01-01T01:00:00+01:00".to_string(),
        updated_at: "1970-01-01T00:00:10Z".to_string(),
        is_pinned: false,
    };
    let note = row.note().unwrap();
    assert_eq!(note.created_instant(), Timestamp::new(0, 0));
    assert_eq!(note.updated_instant(), Timestamp::new(10, 0));
    assert_eq!(note.tags(), &strings(&["x", "y"]));
}

#[test]
fn note_row_with_unreadable_instant_gives_no_note() {
    let mut row = NoteRow::of(&sample()).unwrap();
    row.updated_at = "yesterday".to_string();
    assert!(row.note().is_none());
    let mut row = NoteRow::of(&sample()).unwrap();
    row.created_at = String::new();
    assert!(row.note().is_none());
}

#[test]
fn note_with_instant_out_of_range_has_no_row() {
    let note = Note::with_identity("n".to_string(), "t".to_string(), Timestamp::new(i64::MAX, 0));
    assert!(NoteRow::of(&note).is_none());
}

#[test]
fn unreadable_tags_count_as_none() {
    assert!(read_tags("not json").is_empty());
    assert!(read_tags("").is_empty());
    assert!(read_tags("{\"a\": 1}").is_empty());
    assert!(read_tags("[1, 2]").is_empty());
    assert!(read_tags("[]").is_empty());
    assert_eq!(read_tags("[\"a\",\"b\"]"), strings(&["a", "b"]));
}

#[test]
fn version_survives_the_way_through_a_row() {
    let version = NoteVersion::snapshot("v".to_string(), "why", &sample(), Timestamp::new(60, 0));
    let row = VersionRow::of(&version).unwrap();
    assert_eq!(row.id, "v");
    assert_eq!(row.note_id, "n");
    assert_eq!(row.tags, "[\"a\",\"b \\\"c\\\"\"]");
    assert_eq!(row.comment, "why");
    assert_eq!(row.saved_at, "1970-01-01T00:01:00+00:00");

    let back = row.version().unwrap();
    assert_eq!(back.id(), "v");
    assert_eq!(back.note_id(), "n");
    assert_eq!(back.title(), "Title");
    assert_eq!(back.content(), "Content");
    assert_eq!(back.tags(), version.tags());
    assert_eq!(back.comment(), "why");
    assert_eq!(back.saved_instant(), Timestamp::new(60, 0));

    let mut broken = VersionRow::of(&version).unwrap();
    broken.saved_at = "?".to_string();
    assert!(broken.version().is_none());
}

#[test]
fn trash_row_gives_the_trash_entry() {
    let row = TrashRow {
        id: "n".to_string(),
        title: "t".to_string(),
        updated_at: "2015-05-15T00:00:00+00:00".to_string(),
    };
    let entry = row.entry().unwrap();
    assert_eq!(entry.id(), "n");
    assert_eq!(entry.title(), "t");
    assert_eq!(entry.deleted_instant(), Timestamp::new(1_431_648_000, 0));

    let broken = TrashRow { id: "n".to_string(), title: "t".to_string(), updated_at: "x".to_string() };
    assert!(broken.entry().is_none());
}

#[test]
fn notebook_of_rows_counts_tags_anew() {
    let notes = vec![
        Note::from_parts(
            "A".to_string(),
            "one".to_string(),
            String::new(),
            strings(&["x"]),
            Timestamp::new(1, 0),
            Timestamp::new(1, 0),
            false,
        ),
        Note::from_parts(
            "B".to_string(),
            "two".to_string(),
            String::new(),
            strings(&["x", "y"]),
            Timestamp::new(1, 0),
            Timestamp::new(1, 0),
            false,
        ),
        Note::from_parts(
            "A".to_string(),
            "one, later".to_string(),
            String::new(),
            strings(&["z"]),
            Timestamp::new(1, 0),
            Timestamp::new(1, 0),
            false,
        ),
    ];
    let notebook = notebook_of(&notes);
    let mut counts = notebook.get_tags_with_count();
    counts.sort();
    assert_eq!(
        counts,
        vec![("x".to_string(), 1), ("y".to_string(), 1), ("z".to_string(), 1)]
    );
    assert_eq!(notebook.find_note("A").unwrap().title(), "one, later");
    assert_eq!(notebook.filter_notes("").len(), 2);
}

#[test]
fn instants_at_the_ends_of_the_calendar_have_a_row() {
    for secs in [253_402_300_799i64, -62_167_219_200, 0, -1, 59] {
        let note = Note::with_identity("n".to_string(), "t".to_string(), Timestamp::new(secs, 0));
        let row = NoteRow::of(&note).unwrap();
        let back = row.note().unwrap();
        assert_eq!(back.created_instant(), Timestamp::new(secs, 0));
    }
    for secs in [8_210_266_876_799i64, -8_334_601_228_800] {
        let note = Note::with_identity("n".to_string(), "t".to_string(), Timestamp::new(secs, 0));
        assert!(NoteRow::of(&note).is_some());
    }
    let leap = Note::with_identity("n".to_string(), "t".to_string(), Timestamp::new(59, 1_500_000_000));
    assert!(NoteRow::of(&leap).is_some());
    let odd = Note::with_identity("n".to_string(), "t".to_string(), Timestamp::new(0, 2_000_000_000));
    assert!(NoteRow::of(&odd).is_none());
}

#[test]
fn trash_is_listed_newest_first() {
    let row = |id: &str, at: &str| TrashRow {
        id: id.to_string(),
        title: format!("note {}", id),
        updated_at: at.to_string(),
    };
    let rows = vec![
        row("a", "2024-01-01T10:00:00+00:00"),
        row("b", "2024-03-01T10:00:00+00:00"),
        row("c", "2024-02-01T10:00:00+00:00"),
        row("d", "2024-03-01T11:00:00+01:00"),
        row("e", "2024-03-01T10:00:00.5+00:00"),
    ];
    let listing = cloud_notepad::data::db::trash_listing(&rows).unwrap();
    let ids: Vec<&str> = listing.iter().map(|e| e.id()).collect();
    assert_eq!(ids, vec!["e", "b", "d", "c", "a"]);
    assert_eq!(listing[4].title(), "note a");

    assert!(cloud_notepad::data::db::trash_listing(&Vec::new()).unwrap().is_empty());

    let mut broken = rows;
    broken.push(row("f", "never"));
    assert!(cloud_notepad::data::db::trash_listing(&broken).is_none());
}
