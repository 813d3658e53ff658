use cloud_notepad::data::Note;
use cloud_notepad::data::Notebook;
use cloud_notepad::time::Timestamp;

fn note(id: &str, title: &str, content: &str, tags: &[&str]) -> Note {
    Note::from_parts(
        id.to_string(),
        title.to_string(),
        content.to_string(),
        tags.iter().map(|t| t.to_string()).collect(),
        Timestamp::new(100, 0),
        Timestamp::new(200, 0),
        false,
    )
}

fn counts(notebook: &Notebook) -> Vec<(String, usize)> {
    let mut counts = notebook.get_tags_with_count();
    counts.sort();
    counts
}

fn ids(notes: Vec<&Note>) -> Vec<String> {
    notes.iter().map(|n| n.id().to_string()).collect()
}

#[test]
fn tag_counts_follow_the_notes() {
    let mut notebook = Notebook::new();
    assert!(counts(&notebook).is_empty());

    notebook.insert_or_replace_note(note("A", "Trip plan", "", &["travel"]));
    notebook.insert_or_replace_note(note("B", "Budget", "", &["travel", "finance"]));
    assert_eq!(
        counts(&notebook),
        vec![("finance".to_string(), 1), ("travel".to_string(), 2)]
    );

    notebook.delete_note("A");
    assert_eq!(
        counts(&notebook),
        vec![("finance".to_string(), 1), ("travel".to_string(), 1)]
    );
    assert_eq!(ids(notebook.filter_notes_by_tag(Some("travel".to_string()))), vec!["B"]);

    notebook.delete_note("B");
    assert!(counts(&notebook).is_empty());
    assert!(notebook.filter_notes_by_tag(Some("travel".to_string())).is_empty());
}

#[test]
fn deleting_the_only_carrier_drops_the_tag() {
    let mut notebook = Notebook::new();
    notebook.insert_or_replace_note(note("A", "Trip plan", "", &["travel"]));
    notebook.insert_or_replace_note(note("B", "Budget", "", &["finance"]));
    assert_eq!(
        counts(&notebook),
        vec![("finance".to_string(), 1), ("travel".to_string(), 1)]
    );
    notebook.delete_note("A");
    assert_eq!(counts(&notebook), vec![("finance".to_string(), 1)]);
    assert!(notebook.filter_notes_by_tag(Some("travel".to_string())).is_empty());
}

#[test]
fn replacing_a_note_exchanges_its_tags() {
    let mut notebook = Notebook::new();
    notebook.insert_or_replace_note(note("A", "one", "", &["x", "y"]));
    notebook.insert_or_replace_note(note("B", "two", "", &["y"]));
    notebook.insert_or_replace_note(note("A", "one again", "", &["y", "z"]));

    assert_eq!(counts(&notebook), vec![("y".to_string(), 2), ("z".to_string(), 1)]);
    assert_eq!(ids(notebook.filter_notes("")), vec!["A", "B"]);
    assert_eq!(notebook.find_note("A").unwrap().title(), "one again");
}

#[test]
fn find_note_hands_out_a_copy() {
    let mut notebook = Notebook::new();
    notebook.insert_or_replace_note(note("A", "one", "text", &["x"]));
    let mut copy = notebook.find_note("A").unwrap();
    copy.update_content_at("changed".to_string(), Timestamp::new(300, 0));
    assert_eq!(notebook.find_note("A").unwrap().content(), "text");
    assert!(notebook.find_note("B").is_none());
}

#[test]
fn delete_of_an_absent_note_changes_nothing() {
    let mut notebook = Notebook::new();
    notebook.insert_or_replace_note(note("A", "one", "", &["x"]));
    notebook.delete_note("missing");
    assert_eq!(ids(notebook.filter_notes("")), vec!["A"]);
    assert_eq!(counts(&notebook), vec![("x".to_string(), 1)]);
}

#[test]
fn filter_by_text_ignores_letter_case() {
    let mut notebook = Notebook::new();
    notebook.insert_or_replace_note(note("A", "Trip Plan", "pack bags", &[]));
    notebook.insert_or_replace_note(note("B", "Budget", "for the TRIP", &[]));
    notebook.insert_or_replace_note(note("C", "Recipes", "soup", &[]));

    assert_eq!(ids(notebook.filter_notes("trip")), vec!["A", "B"]);
    assert_eq!(ids(notebook.filter_notes("SOUP")), vec!["C"]);
    assert_eq!(ids(notebook.filter_notes("rip p")), vec!["A"]);
    assert!(notebook.filter_notes("tripplan").is_empty());
    assert_eq!(ids(notebook.filter_notes("")), vec!["A", "B", "C"]);
}

#[test]
fn filter_by_tag_without_tag_gives_all() {
    let mut notebook = Notebook::new();
    notebook.insert_or_replace_note(note("A", "one", "", &["x"]));
    notebook.insert_or_replace_note(note("B", "two", "", &[]));
    assert_eq!(ids(notebook.filter_notes_by_tag(None)), vec!["A", "B"]);
    assert_eq!(ids(notebook.filter_notes_by_tag(Some("x".to_string()))), vec!["A"]);
    assert!(notebook.filter_notes_by_tag(Some("X".to_string())).is_empty());
}

#[test]
fn default_notebook_is_empty() {
    let notebook = Notebook::default();
    assert!(notebook.filter_notes("").is_empty());
    assert!(notebook.get_tags_with_count().is_empty());
}
