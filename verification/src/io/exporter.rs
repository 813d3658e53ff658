//! The texts and file names of the export.

use vstd::prelude::*;
use vstd::string::StringExecFns;
use crate::text::chars_of;
use crate::text::string_of;

verus! {

/// `c` is an ASCII letter or digit.
pub open spec fn is_plain(c: char) -> bool {
    ('0' <= c && c <= '9') || ('a' <= c && c <= 'z') || ('A' <= c && c <= 'Z')
}

/// `name` with every character that is no ASCII letter or digit replaced by
/// an underscore.
pub open spec fn sanitized(name: Seq<char>) -> Seq<char> {
    name.map_values(
        |c: char|
            if is_plain(c) {
                c
            } else {
                '_'
            },
    )
}

/// A name that is safe as a file name: every character of `name` that is no
/// ASCII letter or digit becomes an underscore.
pub fn sanitize_filename(name: &str) -> (r: String)
    ensures
        r@ == sanitized(name@),
{
    let chars = chars_of(name);
    let mut out: Vec<char> = Vec::new();
    let mut i: usize = 0;
    while i < chars.len()
        invariant
            i <= chars@.len(),
            out@.len() == i,
            forall|j: int| 0 <= j < i ==> #[trigger] out@[j] == sanitized(chars@)[j],
        decreases chars@.len() - i,
    {
        let c = chars[i];
        let plain = ('0' <= c && c <= '9') || ('a' <= c && c <= 'z') || ('A' <= c && c <= 'Z');
        out.push(
            if plain {
                c
            } else {
                '_'
            },
        );
        i += 1;
    }
    assert(out@ =~= sanitized(chars@));
    string_of(&out)
}

/// The file name of a note in an export of all notes.
pub open spec fn export_name(title: Seq<char>, taken: bool, id: Seq<char>) -> Seq<char> {
    if taken {
        sanitized(title) + "-{"@ + id + "}.md"@
    } else {
        sanitized(title) + ".md"@
    }
}

/// Writes notes in the export formats.
#[derive(Debug)]
pub struct Exporter;

impl Exporter {
    /// The file name of a note titled `title` in an export of all notes:
    /// the safe form of the title with the ending `.md`, and with the
    /// identifier in braces before the ending if that name is `taken`.
    pub fn file_name(title: &str, taken: bool, id: &str) -> (r: String)
        ensures
            r@ == export_name(title@, taken, id@),
    {
        let mut name = sanitize_filename(title);
        if taken {
            name.append("-{");
            name.append(id);
            name.append("}.md");
        } else {
            name.append(".md");
        }
        name
    }
}

} // verus!
