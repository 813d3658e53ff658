use cloud_notepad::data::ExportNote;
use cloud_notepad::io::exporter::sanitize_filename;
use cloud_notepad::io::formats::JsonHandler;
use cloud_notepad::io::formats::MarkdownHandler;
use cloud_notepad::io::importer::ImportFormat;
use cloud_notepad::io::Exporter;
use cloud_notepad::io::ImportConfig;
use cloud_notepad::io::ImportResult;
use cloud_notepad::io::Importer;
use cloud_notepad::io::MergeStrategy;
use cloud_notepad::text::blank;
use cloud_notepad::text::holds_text;
use cloud_notepad::text::join_texts;
use cloud_notepad::text::same_text;
use cloud_notepad::text::scan::count_chars;
use cloud_notepad::text::scan::count_words;
use cloud_notepad::text::scan::split_lines;
use cloud_notepad::text::scan::split_words;
use cloud_notepad::text::scan::trim;
use cloud_notepad::text::scan::Span;
use cloud_notepad::text::unique_texts;
use cloud_notepad::time::Timestamp;

fn strings(items: &[&str]) -> Vec<String> {
    items.iter().map(|t| t.to_string()).collect()
}

fn texts_of(text: &str, spans: &[Span]) -> Vec<String> {
    let chars: Vec<char> = text.chars().collect();
    spans.iter().map(|s| chars[s.start..s.end].iter().collect()).collect()
}

fn keep() -> ImportConfig {
    ImportConfig { merge_strategy: MergeStrategy::Rename, preserve_timestamps: true }
}

fn forget() -> ImportConfig {
    ImportConfig { merge_strategy: MergeStrategy::Rename, preserve_timestamps: false }
}

#[test]
fn file_names_hold_letters_and_digits_only() {
    assert_eq!(sanitize_filename("My note: v1.md"), "My_note__v1_md");
    assert_eq!(sanitize_filename("abcXYZ019"), "abcXYZ019");
    assert_eq!(sanitize_filename(""), "");
    assert_eq!(sanitize_filename("日本語 ok"), "____ok");
    assert_eq!(sanitize_filename("a/b\\c"), "a_b_c");
}

#[test]
fn taken_file_names_get_the_identifier() {
    assert_eq!(Exporter::file_name("Trip plan", false, "id-1"), "Trip_plan.md");
    assert_eq!(Exporter::file_name("Trip plan", true, "id-1"), "Trip_plan-{id-1}.md");
}

#[test]
fn formats_go_by_the_file_ending() {
    assert_eq!(Importer::format_of(Some("md")), Some(ImportFormat::Markdown));
    assert_eq!(Importer::format_of(Some("markdown")), Some(ImportFormat::Markdown));
    assert_eq!(Importer::format_of(Some("json")), Some(ImportFormat::Json));
    assert_eq!(Importer::format_of(Some("MD")), None);
    assert_eq!(Importer::format_of(Some("txt")), None);
    assert_eq!(Importer::format_of(Some("")), None);
    assert_eq!(Importer::format_of(None), None);
}

#[test]
fn markdown_text_with_front_matter() {
    let text = MarkdownHandler::compose(
        "Trip",
        &Some("2024-01-02 03:04".to_string()),
        &strings(&["travel", "plan"]),
        "Pack.\nGo.",
        true,
    );
    assert_eq!(
        text,
        "---\ntitle: Trip\ncreated: 2024-01-02 03:04\ntags: [travel plan]\n---\n\nPack.\nGo."
    );
}

#[test]
fn markdown_text_leaves_out_what_is_missing() {
    let text = MarkdownHandler::compose("Trip", &None, &Vec::new(), "Pack.", true);
    assert_eq!(text, "---\ntitle: Trip\n---\n\nPack.");
    let text = MarkdownHandler::compose("Trip", &None, &strings(&["one"]), "", true);
    assert_eq!(text, "---\ntitle: Trip\ntags: [one]\n---\n\n");
    let text = MarkdownHandler::compose(
        "Trip",
        &Some("x".to_string()),
        &strings(&["travel"]),
        "Pack.",
        false,
    );
    assert_eq!(text, "Pack.");
}

#[test]
fn exported_note_can_be_imported_again() {
    let note = ExportNote::new(
        Some("id".to_string()),
        "Trip".to_string(),
        strings(&["travel", "plan"]),
        "Pack.\nGo.".to_string(),
        Some(Timestamp::new(1_700_000_000, 0)),
        None,
    );
    let handler = MarkdownHandler;
    let text = handler.export_note(&note, true);
    assert!(text.starts_with("---\ntitle: Trip\ncreated: "));
    assert!(text.ends_with("\ntags: [travel plan]\n---\n\nPack.\nGo."));

    let result = handler.import_note(&text, Some("file"), &forget(), None, Vec::new());
    assert!(result.warnings().is_empty());
    assert_eq!(result.note().title(), "Trip");
    assert_eq!(result.note().tags(), &strings(&["travel", "plan"]));
    assert_eq!(result.note().content(), "\nPack.\nGo.");
    assert_eq!(result.note().created_instant(), Some(Timestamp::new(1_700_000_000 / 60 * 60, 0)));
    assert_eq!(result.note().updated_instant(), None);
    assert_eq!(result.note().id(), None);
}

#[test]
fn joined_texts() {
    assert_eq!(join_texts(&Vec::new(), ", "), "");
    assert_eq!(join_texts(&strings(&["a"]), ", "), "a");
    assert_eq!(join_texts(&strings(&["a", "", "c"]), ", "), "a, , c");
}

#[test]
fn lines_end_at_line_feeds() {
    let split = |text: &str| {
        let chars: Vec<char> = text.chars().collect();
        texts_of(text, &split_lines(&chars))
    };
    assert!(split("").is_empty());
    assert_eq!(split("a"), strings(&["a"]));
    assert_eq!(split("a\n"), strings(&["a"]));
    assert_eq!(split("a\nb"), strings(&["a", "b"]));
    assert_eq!(split("a\r\nb\r\n"), strings(&["a", "b"]));
    assert_eq!(split("\n\nx"), strings(&["", "", "x"]));
    assert_eq!(split("a\rb\n"), strings(&["a\rb"]));
    assert_eq!(split("a\r"), strings(&["a\r"]));
    assert_eq!(split("é\nü"), strings(&["é", "ü"]));
    for text in ["", "a", "a\n", "a\r\nb", "\r\n", "\n\n", "x\r", "a\n\r\nb\r"] {
        let expected: Vec<String> = text.lines().map(|l| l.to_string()).collect();
        assert_eq!(split(text), expected);
    }
}

#[test]
fn white_space_is_cut_off_and_parts_words() {
    let cut = |text: &str| {
        let chars: Vec<char> = text.chars().collect();
        let span = trim(&chars, Span { start: 0, end: chars.len() });
        texts_of(text, &[span]).remove(0)
    };
    assert_eq!(cut("  a b \t\n"), "a b");
    assert_eq!(cut("\u{3000}x\u{a0}"), "x");
    assert_eq!(cut("   "), "");
    assert_eq!(cut(""), "");
    assert_eq!(cut("x"), "x");

    let words = |text: &str| {
        let chars: Vec<char> = text.chars().collect();
        texts_of(text, &split_words(&chars, Span { start: 0, end: chars.len() }))
    };
    assert_eq!(words("  one two\tthree\n"), strings(&["one", "two", "three"]));
    assert!(words(" \t ").is_empty());
    assert_eq!(words("one"), strings(&["one"]));
    for text in ["", " a", "a  b ", "\u{2003}x\u{2003}y", "tab\tnew\nline"] {
        let expected: Vec<String> = text.split_whitespace().map(|w| w.to_string()).collect();
        assert_eq!(words(text), expected);
        assert_eq!(cut(text), text.trim());
    }
}

#[test]
fn words_and_characters_are_counted() {
    assert_eq!(count_words(""), 0);
    assert_eq!(count_words("  one two\tthree\n"), 3);
    assert_eq!(count_words("日本語 テキスト"), 2);
    assert_eq!(count_chars(""), 0);
    assert_eq!(count_chars("héllo"), 5);
    assert_eq!(count_chars("日本語"), 3);
}

#[test]
fn blank_and_equal_texts() {
    assert!(blank(""));
    assert!(blank(" \t\n\u{3000}"));
    assert!(!blank(" x "));
    assert!(same_text("a", "a"));
    assert!(!same_text("a", "A"));
    assert!(holds_text("Title", "body", "it"));
    assert!(holds_text("Title", "body", "od"));
    assert!(!holds_text("Title", "body", "IT"));
    assert_eq!(unique_texts(&strings(&["b", "a", "b", "b", "c", "a"])), strings(&["b", "a", "c"]));
}

#[test]
fn front_matter_is_parted_from_the_text() {
    let handler = MarkdownHandler;
    let (front, body) = handler.parse_front_matter(
        "---\ntitle: My note \ncreated: 2024-01-02 03:04\ntags: [a b  a]\n---\n\nLine one\r\nLine two\n",
    );
    let front = front.unwrap();
    assert_eq!(front.title(), "My note");
    assert_eq!(front.created(), Some("2024-01-02 03:04"));
    assert_eq!(front.tags(), &strings(&["a", "b"]));
    assert_eq!(body, "\nLine one\nLine two");
}

#[test]
fn front_matter_needs_a_title() {
    let handler = MarkdownHandler;
    let text = "---\ncreated: 2024-01-02 03:04\n---\nbody";
    let (front, body) = handler.parse_front_matter(text);
    assert!(front.is_none());
    assert_eq!(body, text);

    let (front, body) = handler.parse_front_matter("just text\nmore");
    assert!(front.is_none());
    assert_eq!(body, "just text\nmore");

    let (front, body) = handler.parse_front_matter("");
    assert!(front.is_none());
    assert_eq!(body, "");
}

#[test]
fn front_matter_quirks() {
    let handler = MarkdownHandler;
    let (front, body) = handler.parse_front_matter("intro\n  ---  \ntitle:first\n title: second\ntags: [x]\ntags: [y x]\ntags: z\ntags: [\n");
    let front = front.unwrap();
    assert_eq!(front.title(), "second");
    assert_eq!(front.created(), None);
    assert_eq!(front.tags(), &strings(&["x", "y"]));
    assert_eq!(body, "");

    let (front, body) = handler.parse_front_matter("---\ntitle:\ntags: []\n---\nrest\n---\nmore");
    let front = front.unwrap();
    assert_eq!(front.title(), "");
    assert!(front.tags().is_empty());
    assert_eq!(body, "rest\n---\nmore");

    let (front, _) = handler.parse_front_matter("---\n---\ntitle: late\n");
    assert!(front.is_none());
}

#[test]
fn markdown_import_picks_the_title() {
    let handler = MarkdownHandler;
    let result = handler.import_note("---\ntitle: T\n---\nbody", Some("file"), &keep(), None, Vec::new());
    assert_eq!(result.note().title(), "T");
    assert_eq!(result.note().content(), "body");

    let result = handler.import_note("---\ntitle:\n---\nbody", Some("file"), &keep(), None, Vec::new());
    assert_eq!(result.note().title(), "file");

    let result = handler.import_note("body only", Some("file"), &keep(), None, Vec::new());
    assert_eq!(result.note().title(), "file");
    assert_eq!(result.note().content(), "body only");
    assert!(result.note().tags().is_empty());

    let result = handler.import_note("body only", None, &keep(), None, Vec::new());
    assert_eq!(result.note().title(), "Untitled");
}

#[test]
fn markdown_import_settles_the_instants() {
    let handler = MarkdownHandler;
    let modified = Some(Timestamp::new(500, 0));
    let text = "---\ntitle: T\ncreated: not a time\n---\nbody";

    let result = handler.import_note(text, None, &keep(), modified, strings(&["from the file system"]));
    assert_eq!(result.note().created_instant(), None);
    assert_eq!(result.note().updated_instant(), modified);
    assert_eq!(result.warnings().len(), 2);
    assert!(result.warnings()[0].starts_with("parse created time failed: "));
    assert!(result.warnings()[0].len() > "parse created time failed: ".len());
    assert_eq!(result.warnings()[1], "from the file system");

    let result = handler.import_note("---\ntitle: T\n---\n", None, &forget(), modified, Vec::new());
    assert_eq!(result.note().updated_instant(), None);
    assert!(result.warnings().is_empty());

    let result = handler.import_note(
        "---\ntitle: T\ncreated: 2024-06-01 12:30\n---\n",
        None,
        &keep(),
        None,
        Vec::new(),
    );
    let created = result.note().created_instant().unwrap();
    assert!(result.warnings().is_empty());
    assert!((created.secs - 1_717_245_000).abs() <= 15 * 3600);
    assert_eq!(created.secs.rem_euclid(60), 0);
}

#[test]
fn json_import_settles_the_instants() {
    let handler = JsonHandler;
    let record = |created, updated| {
        ExportNote::new(None, "t".to_string(), Vec::new(), "c".to_string(), created, updated)
    };
    let a = Some(Timestamp::new(1, 0));
    let b = Some(Timestamp::new(2, 0));
    let m = Some(Timestamp::new(9, 0));

    let result = handler.import_note(record(a, None), &keep(), m, strings(&["w"]));
    assert_eq!(result.note().created_instant(), a);
    assert_eq!(result.note().updated_instant(), m);
    assert_eq!(result.warnings(), &strings(&["w"]));

    let result = handler.import_note(record(a, b), &keep(), m, Vec::new());
    assert_eq!(result.note().updated_instant(), b);

    let result = handler.import_note(record(None, None), &keep(), None, Vec::new());
    assert_eq!(result.note().created_instant(), None);
    assert_eq!(result.note().updated_instant(), None);

    let result = handler.import_note(record(a, b), &forget(), m, Vec::new());
    assert_eq!(result.note().created_instant(), None);
    assert_eq!(result.note().updated_instant(), None);
    assert_eq!(result.note().title(), "t");
}

#[test]
fn import_result_holds_note_and_warnings() {
    let note = ExportNote::new(None, "t".to_string(), Vec::new(), "c".to_string(), None, None);
    let result = ImportResult::new(note, strings(&["a", "b"]));
    assert_eq!(result.note().title(), "t");
    assert_eq!(result.warnings(), &strings(&["a", "b"]));
}

#[test]
fn markdown_import_survives_odd_instants() {
    let handler = MarkdownHandler;
    for created in [
        "+262142-12-31 23:59",
        "-262143-01-01 00:00",
        "0000-01-01 00:00",
        "9999-12-31 23:59",
        "2024-02-30 10:00",
        "2024-01-01 24:00",
        "",
        "2024-01-01",
    ] {
        let text = format!("---\ntitle: T\ncreated: {}\n---\n", created);
        let result = handler.import_note(&text, None, &keep(), None, Vec::new());
        assert_eq!(result.note().title(), "T");
        assert_eq!(result.warnings().len() == 1, result.note().created_instant().is_none());
    }
}
