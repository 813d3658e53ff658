//! Notes in Markdown files, with the metadata in a front matter block.

use vstd::prelude::*;
use vstd::string::StringExecFns;
use crate::data::export_note::ExportNote;
use crate::data::export_note::ExportNoteView;
use crate::io::ImportConfig;
use crate::io::ImportResult;
use crate::text::chars_of;
use crate::text::join_texts;
use crate::text::joined;
use crate::text::opt_text;
use crate::text::scan::begins_with;
use crate::text::scan::lines_of;
use crate::text::scan::span_string;
use crate::text::scan::span_texts;
use crate::text::scan::split_lines;
use crate::text::scan::split_words;
use crate::text::scan::starts_with;
use crate::text::scan::trim;
use crate::text::scan::trimmed;
use crate::text::scan::words_of;
use crate::text::scan::Span;
use crate::text::string_of;
use crate::text::texts;
use crate::text::unique;
use crate::text::unique_texts;
use crate::time::Timestamp;

verus! {

/// The front matter of a Markdown file: the title, the instant of creation
/// where there is one, and the tags where there are any, between two lines
/// of three dashes and followed by an empty line.
pub open spec fn front_matter_text(
    title: Seq<char>,
    created: Option<Seq<char>>,
    tags: Seq<Seq<char>>,
) -> Seq<char> {
    "---\n"@ + "title: "@ + title + "\n"@ + (match created {
        Some(c) => "created: "@ + c + "\n"@,
        None => Seq::empty(),
    }) + (if tags.len() > 0 {
        "tags: ["@ + joined(tags, " "@) + "]\n"@
    } else {
        Seq::empty()
    }) + "---\n\n"@
}

/// The text of the Markdown file of a note.
pub open spec fn markdown_text(
    title: Seq<char>,
    created: Option<Seq<char>>,
    tags: Seq<Seq<char>>,
    content: Seq<char>,
    include_metadata: bool,
) -> Seq<char> {
    (if include_metadata {
        front_matter_text(title, created, tags)
    } else {
        Seq::empty()
    }) + content
}

/// The line is a fence of the front matter: three dashes, with or without
/// white space around them.
pub open spec fn is_fence(line: Seq<char>) -> bool {
    trimmed(line) == "---"@
}

/// The position of the first fence at or behind `from`; the number of
/// lines if there is none.
pub open spec fn fence_from(lines: Seq<Seq<char>>, from: int) -> int
    decreases lines.len() - from,
{
    if from < 0 || from >= lines.len() {
        lines.len() as int
    } else if is_fence(lines[from]) {
        from
    } else {
        fence_from(lines, from + 1)
    }
}

/// The lines of the front matter: those between the first fence and the
/// next one, or the end of the text where no fence follows.
pub open spec fn front_lines(lines: Seq<Seq<char>>) -> Seq<Seq<char>> {
    let open = fence_from(lines, 0);
    if open >= lines.len() {
        Seq::empty()
    } else {
        lines.subrange(open + 1, fence_from(lines, open + 1))
    }
}

/// The lines behind the front matter: those behind the second fence.
pub open spec fn body_lines(lines: Seq<Seq<char>>) -> Seq<Seq<char>> {
    let open = fence_from(lines, 0);
    if open >= lines.len() {
        Seq::empty()
    } else {
        let close = fence_from(lines, open + 1);
        if close >= lines.len() {
            Seq::empty()
        } else {
            lines.skip(close + 1)
        }
    }
}

/// The value of a line of the front matter that begins with `prefix`.
pub open spec fn line_value(line: Seq<char>, prefix: Seq<char>) -> Option<Seq<char>> {
    if begins_with(trimmed(line), prefix) {
        Some(trimmed(trimmed(line).skip(prefix.len() as int)))
    } else {
        None
    }
}

/// The value that the front matter gives under `prefix`: that of the last
/// line that begins with it.
pub open spec fn field(front: Seq<Seq<char>>, prefix: Seq<char>) -> Option<Seq<char>>
    decreases front.len(),
{
    if front.len() == 0 {
        None
    } else {
        match line_value(front.last(), prefix) {
            Some(value) => Some(value),
            None => field(front.drop_last(), prefix),
        }
    }
}

/// The tags that a value of the front matter lists: the words between its
/// square brackets; none for a value that is not in square brackets.
pub open spec fn listed_tags(value: Seq<char>) -> Seq<Seq<char>> {
    if value.len() >= 2 && value[0] == '[' && value.last() == ']' {
        words_of(value.subrange(1, value.len() - 1))
    } else {
        Seq::empty()
    }
}

/// The tags that the front matter lists, those of all its lines of tags
/// one after the other.
pub open spec fn tags_in(front: Seq<Seq<char>>) -> Seq<Seq<char>>
    decreases front.len(),
{
    if front.len() == 0 {
        Seq::empty()
    } else {
        tags_in(front.drop_last()) + (match line_value(front.last(), "tags:"@) {
            Some(value) => listed_tags(value),
            None => Seq::empty(),
        })
    }
}

/// What a front matter holds, as mathematical values.
pub struct FrontMatterView {
    pub title: Seq<char>,
    pub created: Option<Seq<char>>,
    pub tags: Seq<Seq<char>>,
}

/// The front matter of a text; `None` for a text without a front matter
/// that gives a title.
pub open spec fn front_matter_of(content: Seq<char>) -> Option<FrontMatterView> {
    let front = front_lines(lines_of(content));
    match field(front, "title:"@) {
        Some(title) => Some(
            FrontMatterView {
                title,
                created: field(front, "created:"@),
                tags: unique(tags_in(front)),
            },
        ),
        None => None,
    }
}

/// The text behind the front matter; the whole text where there is no
/// front matter that gives a title.
pub open spec fn body_of(content: Seq<char>) -> Seq<char> {
    if front_matter_of(content) is Some {
        joined(body_lines(lines_of(content)), seq!['\n'])
    } else {
        content
    }
}

/// The metadata in front of a Markdown file.
#[derive(Debug)]
pub struct FrontMatter {
    title: String,
    created: Option<String>,
    tags: Vec<String>,
}

impl View for FrontMatter {
    type V = FrontMatterView;

    closed spec fn view(&self) -> FrontMatterView {
        FrontMatterView {
            title: self.title@,
            created: opt_text(self.created),
            tags: texts(self.tags@),
        }
    }
}

impl FrontMatter {
    /// The title.
    pub fn title(&self) -> (r: &str)
        ensures
            r@ == self@.title,
    {
        self.title.as_str()
    }

    /// The instant of creation as the file gives it.
    pub fn created(&self) -> (r: Option<&str>)
        ensures
            match r {
                Some(c) => self@.created == Some(c@),
                None => self@.created is None,
            },
    {
        match &self.created {
            Some(c) => Some(c.as_str()),
            None => None,
        }
    }

    /// The tags.
    pub fn tags(&self) -> (r: &Vec<String>)
        ensures
            texts(r@) == self@.tags,
    {
        &self.tags
    }
}

/// The position of the first fence at or behind `from`: see
/// [`fence_from`].
fn find_fence(chars: &Vec<char>, lines: &Vec<Span>, from: usize, mark: &Vec<char>) -> (r: usize)
    requires
        forall|i: int| 0 <= i < lines@.len() ==> (#[trigger] lines@[i]).fits(chars@.len()),
        mark@ == "---"@,
    ensures
        r == fence_from(span_texts(lines@, chars@), from as int),
        r <= lines@.len(),
        from <= lines@.len() ==> from <= r,
{
    let ghost all = span_texts(lines@, chars@);
    let mut i: usize = from;
    while i < lines.len()
        invariant
            forall|i: int| 0 <= i < lines@.len() ==> (#[trigger] lines@[i]).fits(chars@.len()),
            mark@ == "---"@,
            all == span_texts(lines@, chars@),
            from <= i,
            fence_from(all, from as int) == fence_from(all, i as int),
        decreases lines@.len() - i,
    {
        let core = trim(chars, lines[i]);
        if core.end - core.start == mark.len() && starts_with(chars, core, mark) {
            proof {
                assert(core.of(chars@).take(mark@.len() as int) =~= core.of(chars@));
            }
            return i;
        }
        proof {
            let line = trimmed(all[i as int]);
            if line == mark@ {
                assert(line.take(mark@.len() as int) =~= line);
            }
        }
        i += 1;
    }
    lines.len()
}

/// The value of the line if it begins with `prefix`: see [`line_value`].
fn value_of(chars: &Vec<char>, line: Span, prefix: &Vec<char>) -> (r: Option<Span>)
    requires
        line.fits(chars@.len()),
    ensures
        match r {
            Some(value) => value.fits(chars@.len()) && line_value(line.of(chars@), prefix@) == Some(
                value.of(chars@),
            ),
            None => line_value(line.of(chars@), prefix@) is None,
        },
{
    let core = trim(chars, line);
    if starts_with(chars, core, prefix) {
        let rest = Span { start: core.start + prefix.len(), end: core.end };
        proof {
            assert(rest.of(chars@) =~= core.of(chars@).skip(prefix@.len() as int));
        }
        Some(trim(chars, rest))
    } else {
        None
    }
}

/// Reads and writes notes as Markdown.
#[derive(Debug, Default)]
pub struct MarkdownHandler;

impl MarkdownHandler {
    /// The text of the Markdown file of `note`; the instant of creation is
    /// given in local time.
    pub fn export_note(&self, note: &ExportNote, include_metadata: bool) -> (r: String)
        ensures
            exists|created: Option<Seq<char>>|
                (created is Some <==> note@.created is Some) && r@ == #[trigger] markdown_text(
                    note@.title,
                    created,
                    note@.tags,
                    note@.content,
                    include_metadata,
                ),
    {
        let created = note.created();
        let ghost shown = opt_text(created);
        let r = MarkdownHandler::compose(
            note.title(),
            &created,
            note.tags(),
            note.content(),
            include_metadata,
        );
        assert(r@ == markdown_text(
            note@.title,
            shown,
            note@.tags,
            note@.content,
            include_metadata,
        ));
        r
    }

    /// The text of a Markdown file made of the given parts.
    pub fn compose(
        title: &str,
        created: &Option<String>,
        tags: &Vec<String>,
        content: &str,
        include_metadata: bool,
    ) -> (r: String)
        ensures
            r@ == markdown_text(
                title@,
                opt_text(*created),
                texts(tags@),
                content@,
                include_metadata,
            ),
    {
        let mut text = String::new();
        if include_metadata {
            text.append("---\n");
            text.append("title: ");
            text.append(title);
            text.append("\n");
            match created {
                Some(c) => {
                    text.append("created: ");
                    text.append(c.as_str());
                    text.append("\n");
                },
                None => {
                    assert(text@ + Seq::<char>::empty() =~= text@);
                },
            }
            if tags.len() > 0 {
                let all = join_texts(tags, " ");
                text.append("tags: [");
                text.append(all.as_str());
                text.append("]\n");
            } else {
                assert(text@ + Seq::<char>::empty() =~= text@);
            }
            text.append("---\n\n");
        } else {
            assert(Seq::<char>::empty() + content@ =~= content@);
        }
        text.append(content);
        proof {
            assert(text@ =~= markdown_text(
                title@,
                opt_text(*created),
                texts(tags@),
                content@,
                include_metadata,
            ));
        }
        text
    }

    /// Parts the front matter from the text behind it.
    ///
    /// The front matter are the lines between the first line of three
    /// dashes and the next such line. It counts only if one of its lines
    /// gives a title. Of several lines for the title or the instant of
    /// creation the last one counts; the tags of all lines of tags are
    /// taken together, each once. Without a front matter that counts, the
    /// whole text is handed back.
    pub fn parse_front_matter(&self, content: &str) -> (r: (Option<FrontMatter>, String))
        ensures
            match r.0 {
                Some(front) => front_matter_of(content@) == Some(front@),
                None => front_matter_of(content@) is None,
            },
            r.1@ == body_of(content@),
    {
        let chars = chars_of(content);
        let lines = split_lines(&chars);
        let mark = chars_of("---");
        let title_mark = chars_of("title:");
        let created_mark = chars_of("created:");
        let tags_mark = chars_of("tags:");
        let ghost all = span_texts(lines@, chars@);
        let open = find_fence(&chars, &lines, 0, &mark);
        if open >= lines.len() {
            return (None, content.to_owned());
        }
        let close = find_fence(&chars, &lines, open + 1, &mark);
        let ghost front = all.subrange(open + 1, close as int);

        let mut title: Option<Span> = None;
        let mut created: Option<Span> = None;
        let mut tags: Vec<String> = Vec::new();
        let mut i: usize = open + 1;
        proof {
            assert(front.take(0) =~= Seq::<Seq<char>>::empty());
            assert(texts(tags@) =~= Seq::<Seq<char>>::empty());
        }
        while i < close
            invariant
                open + 1 <= i <= close <= lines@.len(),
                forall|i: int| 0 <= i < lines@.len() ==> (#[trigger] lines@[i]).fits(chars@.len()),
                all == span_texts(lines@, chars@),
                front == all.subrange(open + 1, close as int),
                title_mark@ == "title:"@,
                created_mark@ == "created:"@,
                tags_mark@ == "tags:"@,
                title is Some ==> title.unwrap().fits(chars@.len()),
                created is Some ==> created.unwrap().fits(chars@.len()),
                field(front.take(i - open - 1), "title:"@) == (match title {
                    Some(span) => Some(span.of(chars@)),
                    None => None,
                }),
                field(front.take(i - open - 1), "created:"@) == (match created {
                    Some(span) => Some(span.of(chars@)),
                    None => None,
                }),
                texts(tags@) == tags_in(front.take(i - open - 1)),
            decreases close - i,
        {
            let line = lines[i];
            proof {
                let shorter = front.take(i - open - 1);
                let longer = front.take(i - open);
                assert(longer.drop_last() =~= shorter);
                assert(longer.last() == line.of(chars@));
            }
            match value_of(&chars, line, &title_mark) {
                Some(value) => {
                    title = Some(value);
                },
                None => {},
            }
            match value_of(&chars, line, &created_mark) {
                Some(value) => {
                    created = Some(value);
                },
                None => {},
            }
            let ghost before = texts(tags@);
            match value_of(&chars, line, &tags_mark) {
                Some(value) => {
                    let n = value.end - value.start;
                    if n >= 2 && chars[value.start] == '[' && chars[value.end - 1] == ']' {
                        let inner = Span { start: value.start + 1, end: value.end - 1 };
                        proof {
                            let v = value.of(chars@);
                            assert(v[0] == chars@[value.start as int]);
                            assert(v.last() == chars@[value.end - 1]);
                            assert(inner.of(chars@) =~= v.subrange(1, v.len() - 1));
                        }
                        let words = split_words(&chars, inner);
                        let mut k: usize = 0;
                        proof {
                            assert(span_texts(words@, chars@).take(0) =~= Seq::<
                                Seq<char>,
                            >::empty());
                            assert(before + Seq::<Seq<char>>::empty() =~= before);
                        }
                        while k < words.len()
                            invariant
                                k <= words@.len(),
                                forall|i: int|
                                    0 <= i < words@.len() ==> (#[trigger] words@[i]).fits(
                                        chars@.len(),
                                    ),
                                texts(tags@) == before + span_texts(words@, chars@).take(k as int),
                            decreases words@.len() - k,
                        {
                            let ghost had = texts(tags@);
                            tags.push(span_string(&chars, words[k]));
                            proof {
                                let list = span_texts(words@, chars@);
                                assert(texts(tags@) =~= had.push(list[k as int]));
                                assert(list.take(k + 1) =~= list.take(k as int).push(
                                    list[k as int],
                                ));
                                assert(before + list.take(k + 1) =~= (before + list.take(
                                    k as int,
                                )).push(list[k as int]));
                            }
                            k += 1;
                        }
                        proof {
                            let list = span_texts(words@, chars@);
                            assert(list.take(words@.len() as int) =~= list);
                        }
                    } else {
                        proof {
                            let v = value.of(chars@);
                            if v.len() >= 2 {
                                assert(v[0] == chars@[value.start as int]);
                                assert(v.last() == chars@[value.end - 1]);
                            }
                            assert(before + Seq::<Seq<char>>::empty() =~= before);
                        }
                    }
                },
                None => {
                    proof {
                        assert(before + Seq::<Seq<char>>::empty() =~= before);
                    }
                },
            }
            i += 1;
        }
        proof {
            assert(front.take(close - open - 1) =~= front);
        }
        match title {
            Some(span) => {
                let front_matter = FrontMatter {
                    title: span_string(&chars, span),
                    created: match created {
                        Some(c) => Some(span_string(&chars, c)),
                        None => None,
                    },
                    tags: unique_texts(&tags),
                };
                let mut body: Vec<char> = Vec::new();
                let mut j: usize = if close < lines.len() {
                    close + 1
                } else {
                    lines.len()
                };
                let first = j;
                let ghost rest = all.skip(first as int);
                proof {
                    assert(rest.take(0) =~= Seq::<Seq<char>>::empty());
                    if close >= lines@.len() {
                        assert(rest =~= Seq::<Seq<char>>::empty());
                    }
                }
                while j < lines.len()
                    invariant
                        first <= j <= lines@.len(),
                        forall|i: int|
                            0 <= i < lines@.len() ==> (#[trigger] lines@[i]).fits(chars@.len()),
                        all == span_texts(lines@, chars@),
                        rest == all.skip(first as int),
                        body@ == joined(rest.take(j - first), seq!['\n']),
                    decreases lines@.len() - j,
                {
                    let line = lines[j];
                    proof {
                        let longer = rest.take(j - first + 1);
                        assert(longer.drop_last() =~= rest.take(j - first));
                        assert(longer.last() == line.of(chars@));
                        if j == first {
                            assert(Seq::<char>::empty() + line.of(chars@) =~= line.of(chars@));
                        }
                    }
                    if j > first {
                        body.push('\n');
                    }
                    let ghost start_of_line = body@;
                    let mut k: usize = line.start;
                    while k < line.end
                        invariant
                            line.fits(chars@.len()),
                            line.start <= k <= line.end,
                            body@ == start_of_line + chars@.subrange(line.start as int, k as int),
                        decreases line.end - k,
                    {
                        body.push(chars[k]);
                        proof {
                            assert(body@ =~= start_of_line + chars@.subrange(
                                line.start as int,
                                k + 1,
                            ));
                        }
                        k += 1;
                    }
                    proof {
                        let had = joined(rest.take(j - first), seq!['\n']);
                        if j > first {
                            assert(start_of_line =~= had + seq!['\n']);
                        } else {
                            assert(start_of_line =~= had);
                        }
                    }
                    j += 1;
                }
                proof {
                    assert(rest.take(lines@.len() - first) =~= rest);
                }
                (Some(front_matter), string_of(&body))
            },
            None => (None, content.to_owned()),
        }
    }

    /// The note read from the text of a Markdown file.
    ///
    /// Title, tags and content come from the text as
    /// [`MarkdownHandler::import_record`] says. The instant of creation is
    /// read from the front matter as a local time; if it cannot be read,
    /// the note has none, and a warning says why. The last change is
    /// `modified`, the instant at which the file was last written, if the
    /// instants are to be kept. The warnings of the caller follow that of
    /// the instant of creation.
    pub fn import_note(
        &self,
        content: &str,
        file_stem: Option<&str>,
        config: &ImportConfig,
        modified: Option<Timestamp>,
        warnings: Vec<String>,
    ) -> (r: ImportResult)
        ensures
            r.note_view().id is None,
            r.note_view().title == MarkdownHandler::title_for(
                front_matter_of(content@),
                match file_stem {
                    Some(s) => Some(s@),
                    None => None,
                },
            ),
            r.note_view().tags == (match front_matter_of(content@) {
                Some(f) => f.tags,
                None => Seq::empty(),
            }),
            r.note_view().content == body_of(content@),
            r.note_view().updated == (if config.preserve_timestamps {
                modified
            } else {
                None
            }),
            r.note_view().created is Some ==> front_matter_of(content@) is Some
                && front_matter_of(content@).unwrap().created is Some,
            r.note_view().created is Some ==> r.warning_texts() == texts(warnings@),
            front_matter_of(content@) is None || front_matter_of(content@).unwrap().created
                is None ==> r.warning_texts() == texts(warnings@),
            r.warning_texts().len() <= warnings@.len() + 1,
            r.warning_texts().len() == warnings@.len() + 1 ==> r.warning_texts().skip(1) == texts(
                warnings@,
            ) && begins_with(r.warning_texts()[0], "parse created time failed: "@),
    {
        let (front, body) = self.parse_front_matter(content);
        let mut all: Vec<String> = Vec::new();
        let created = match &front {
            Some(f) => match f.created() {
                Some(text) => match crate::time::local_minute_instant(text) {
                    Ok(t) => Some(t),
                    Err(why) => {
                        let mut warning = "parse created time failed: ".to_owned();
                        warning.append(why.as_str());
                        proof {
                            assert(warning@.take("parse created time failed: "@.len() as int)
                                =~= "parse created time failed: "@);
                        }
                        all.push(warning);
                        None
                    },
                },
                None => None,
            },
            None => None,
        };
        let updated = if config.preserve_timestamps {
            modified
        } else {
            None
        };
        let ghost first = texts(all@);
        let mut i: usize = 0;
        while i < warnings.len()
            invariant
                i <= warnings@.len(),
                texts(all@) == first + texts(warnings@).take(i as int),
            decreases warnings@.len() - i,
        {
            let ghost had = texts(all@);
            all.push(warnings[i].clone());
            proof {
                let list = texts(warnings@);
                assert(texts(all@) =~= had.push(list[i as int]));
                assert(list.take(i + 1) =~= list.take(i as int).push(list[i as int]));
            }
            i += 1;
        }
        proof {
            let list = texts(warnings@);
            assert(list.take(warnings@.len() as int) =~= list);
            if first.len() == 0 {
                assert(first + list =~= list);
            } else {
                assert((first + list).skip(1) =~= list);
            }
            if front is Some {
                crate::text::lemma_unique(tags_in(front_lines(lines_of(content@))));
                crate::text::lemma_unique(front->0@.tags);
            }
        }
        let note = MarkdownHandler::import_record(&front, body, file_stem, created, updated);
        proof {
            assert(unique(Seq::<Seq<char>>::empty()) =~= Seq::<Seq<char>>::empty());
        }
        ImportResult::new(note, all)
    }

    /// The title of a note read from a Markdown file: that of the front
    /// matter if it gives one that is not empty, else the name of the file
    /// without its ending, else `Untitled`.
    pub open spec fn title_for(front: Option<FrontMatterView>, file_stem: Option<Seq<char>>) -> Seq<
        char,
    > {
        if front is Some && front.unwrap().title.len() > 0 {
            front.unwrap().title
        } else {
            match file_stem {
                Some(stem) => stem,
                None => "Untitled"@,
            }
        }
    }

    /// The note read from a Markdown file: the title as [`title_for`] gives
    /// it, the tags of the front matter, the text behind the front matter,
    /// and the given instants; no identifier.
    ///
    /// [`title_for`]: MarkdownHandler::title_for
    pub fn import_record(
        front: &Option<FrontMatter>,
        body: String,
        file_stem: Option<&str>,
        created: Option<Timestamp>,
        updated: Option<Timestamp>,
    ) -> (r: ExportNote)
        ensures
            r.wf(),
            r@ == (ExportNoteView {
                id: None,
                title: MarkdownHandler::title_for(
                    match *front {
                        Some(f) => Some(f@),
                        None => None,
                    },
                    match file_stem {
                        Some(s) => Some(s@),
                        None => None,
                    },
                ),
                tags: unique(
                    match *front {
                        Some(f) => f@.tags,
                        None => Seq::empty(),
                    },
                ),
                content: body@,
                created,
                updated,
            }),
    {
        let from_front = match front {
            Some(f) => if f.title().unicode_len() > 0 {
                Some(f.title().to_owned())
            } else {
                None
            },
            None => None,
        };
        let title = match from_front {
            Some(t) => t,
            None => match file_stem {
                Some(stem) => stem.to_owned(),
                None => "Untitled".to_owned(),
            },
        };
        let tags = match front {
            Some(f) => crate::text::copy_texts(f.tags()),
            None => {
                let none: Vec<String> = Vec::new();
                assert(texts(none@) =~= Seq::<Seq<char>>::empty());
                none
            },
        };
        ExportNote::new(None, title, tags, body, created, updated)
    }
}

} // verus!
