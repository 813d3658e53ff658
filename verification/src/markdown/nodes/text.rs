//! Text with inline marks: links, code, strong and underlined text.

use vstd::prelude::*;
use crate::markdown::nodes::ParseResult;
use crate::markdown::nodes::TextRange;
use crate::markdown::scan::find_pair;
use crate::markdown::scan::lemma_pair_bound;
use crate::markdown::scan::lemma_until_bound;
use crate::markdown::scan::pair_at;
use crate::markdown::scan::skip_until;
use crate::markdown::scan::until;
use crate::markdown::scan::BACKTICK;
use crate::markdown::scan::BRACKET_CLOSE;
use crate::markdown::scan::BRACKET_OPEN;
use crate::markdown::scan::NEWLINE;
use crate::markdown::scan::PAREN_CLOSE;
use crate::markdown::scan::PAREN_OPEN;
use crate::markdown::scan::STAR;
use crate::markdown::scan::TILDE;
use crate::markdown::scan::UNDERSCORE;

verus! {

/// Where the first stretch without white space that is followed by `marker`
/// stands in `text`: the offsets of its start and of the end of the marker,
/// as the regular expression `\S+` followed by the marker matches; `None`
/// if there is no such stretch.
pub uninterp spec fn emphasis_close_of(text: Seq<u8>, marker: Seq<char>) -> Option<(usize, usize)>;

/// Finds the closing marker of strong text behind `from`, through
/// `regex::escape`, `regex::bytes::Regex::new` and `Regex::find`.
///
/// The contract names the match and says no more about it.
#[verifier::external_body]
fn find_emphasis_close(input: &Vec<u8>, from: usize, to: usize, marker: &str) -> (r: Option<
    (usize, usize),
>)
    requires
        from <= to <= input@.len(),
    ensures
        r == emphasis_close_of(input@.subrange(from as int, to as int), marker@),
{
    match regex::bytes::Regex::new(format!(r"\S+{}", regex::escape(marker)).as_str()) {
        Ok(re) => match re.find(&input[from..to]) {
            Some(found) => Some((found.start(), found.end())),
            None => None,
        },
        Err(_) => None,
    }
}

/// A stretch of text with one kind of mark.
#[derive(Debug, Clone, Copy, PartialEq, Eq, Structural)]
pub enum TextSegment {
    /// Text without mark.
    Plain(TextRange),
    /// Strong text, without its markers.
    Bold(TextRange),
    /// Slanted text, without its markers.
    Italic(TextRange),
    /// Underlined text, without its markers.
    Underline(TextRange),
    /// Code, without its backticks.
    Code(TextRange),
    /// A link: its text and its address, without brackets and parentheses.
    Link { text: TextRange, url: TextRange },
}

/// The bytes that begin a mark.
pub open spec fn marks() -> Seq<u8> {
    seq![BRACKET_OPEN, BACKTICK, STAR, UNDERSCORE, TILDE]
}

/// A link at the front of `rem`: the offset of the end of its text and the
/// length of its address.
pub open spec fn link_at(rem: Seq<u8>) -> Option<(int, int)> {
    if rem.len() > 0 && rem[0] == BRACKET_OPEN {
        let text_end = pair_at(rem, BRACKET_CLOSE, PAREN_OPEN) as int;
        if 0 < text_end < rem.len() {
            let rest = rem.skip(text_end + 2);
            let url_len = until(rest, seq![PAREN_CLOSE]) as int;
            if url_len < rest.len() {
                Some((text_end, url_len))
            } else {
                None
            }
        } else {
            None
        }
    } else {
        None
    }
}

/// Text between two bytes `fence` at the front of `rem`: its length, which
/// is not zero.
pub open spec fn enclosed_at(rem: Seq<u8>, fence: u8) -> Option<int> {
    if rem.len() > 0 && rem[0] == fence {
        let rest = rem.skip(1);
        let len = until(rest, seq![fence]) as int;
        if 0 < len < rest.len() {
            Some(len)
        } else {
            None
        }
    } else {
        None
    }
}

/// The end of a match behind a marker of `width` bytes, if the match leaves
/// room for the text between the markers.
pub open spec fn close_behind(rem: Seq<u8>, width: int, marker: Seq<char>) -> Option<int> {
    match emphasis_close_of(rem.skip(width), marker) {
        Some((start, end)) => if width <= end && end + width <= rem.len() {
            Some(end as int)
        } else {
            None
        },
        None => None,
    }
}

/// Strong text at the front of `rem`, between double asterisks or double
/// underscores: the offset of the end of the closing marker behind the
/// opening one.
pub open spec fn strong_at(rem: Seq<u8>) -> Option<int> {
    if rem.len() >= 2 && rem[0] == STAR && rem[1] == STAR {
        close_behind(rem, 2, "**"@)
    } else if rem.len() >= 2 && rem[0] == UNDERSCORE && rem[1] == UNDERSCORE {
        close_behind(rem, 2, "__"@)
    } else {
        None
    }
}

/// Strong text at the front of `rem`, between single asterisks or single
/// underscores: the offset of the end of the closing marker behind the
/// opening one.
pub open spec fn emphasis_at(rem: Seq<u8>) -> Option<int> {
    if rem.len() >= 1 && rem[0] == STAR {
        close_behind(rem, 1, "*"@)
    } else if rem.len() >= 1 && rem[0] == UNDERSCORE {
        close_behind(rem, 1, "_"@)
    } else {
        None
    }
}

/// The end of plain text at the front of `rem`: the offset of the first
/// byte behind the first one that begins a mark.
pub open spec fn plain_len(rem: Seq<u8>) -> int {
    let first = if rem.len() > 0 && marks().contains(rem[0]) {
        1int
    } else {
        0int
    };
    first + until(rem.skip(first), marks())
}

/// The stretch from `start` up to `end`.
pub open spec fn range(start: int, end: int) -> TextRange {
    TextRange { start: start as usize, end: end as usize }
}

/// The segment that begins at `pos` in the bytes before `limit`, with the
/// position behind it. A link comes before code, code before strong text,
/// strong text before underlined text; what is none of them is plain text
/// up to the next byte that begins a mark.
pub open spec fn segment_at(input: Seq<u8>, pos: int, limit: int) -> (TextSegment, int) {
    let rem = input.subrange(pos, limit);
    if let Some((text_end, url_len)) = link_at(rem) {
        (
            TextSegment::Link {
                text: range(pos + 1, pos + text_end),
                url: range(pos + text_end + 2, pos + text_end + 2 + url_len),
            },
            pos + text_end + 3 + url_len,
        )
    } else if let Some(len) = enclosed_at(rem, BACKTICK) {
        (TextSegment::Code(range(pos + 1, pos + 1 + len)), pos + len + 2)
    } else if let Some(end) = strong_at(rem) {
        (TextSegment::Bold(range(pos + 2, pos + end)), pos + 2 + end)
    } else if let Some(end) = emphasis_at(rem) {
        (TextSegment::Bold(range(pos + 1, pos + end)), pos + 1 + end)
    } else if let Some(len) = enclosed_at(rem, TILDE) {
        (TextSegment::Underline(range(pos + 1, pos + 1 + len)), pos + len + 2)
    } else {
        (TextSegment::Plain(range(pos, pos + plain_len(rem))), pos + plain_len(rem))
    }
}

/// A segment ends behind its start and within the limit.
pub proof fn lemma_segment_advances(input: Seq<u8>, pos: int, limit: int)
    requires
        0 <= pos < limit <= input.len(),
    ensures
        pos < segment_at(input, pos, limit).1 <= limit,
{
    let rem = input.subrange(pos, limit);
    lemma_pair_bound(rem, BRACKET_CLOSE, PAREN_OPEN);
    if let Some((text_end, url_len)) = link_at(rem) {
        lemma_until_bound(rem.skip(text_end + 2), seq![PAREN_CLOSE]);
    }
    lemma_until_bound(rem.skip(1), seq![BACKTICK]);
    lemma_until_bound(rem.skip(1), seq![TILDE]);
    let first = if rem.len() > 0 && marks().contains(rem[0]) {
        1int
    } else {
        0int
    };
    lemma_until_bound(rem.skip(first), marks());
    if first == 0 {
        assert(rem.skip(0) =~= rem);
        assert(!marks().contains(rem[0]));
        assert(until(rem, marks()) >= 1);
    }
}

impl TextSegment {
    /// Reads the segment that begins at `pos` in the bytes before `limit`:
    /// see [`segment_at`]. There is none at or behind the limit.
    pub fn parse(input: &Vec<u8>, pos: usize, limit: usize) -> (r: Option<ParseResult<TextSegment>>)
        requires
            limit <= input@.len(),
        ensures
            r is None <==> pos >= limit,
            r matches Some(found) ==> {
                &&& found.node == segment_at(input@, pos as int, limit as int).0
                &&& found.end == segment_at(input@, pos as int, limit as int).1
                &&& pos < found.end <= limit
            },
    {
        if pos >= limit {
            return None;
        }
        let ghost rem = input@.subrange(pos as int, limit as int);
        proof {
            lemma_segment_advances(input@, pos as int, limit as int);
            assert(rem[0] == input@[pos as int]);
        }
        let first = input[pos];
        if first == BRACKET_OPEN {
            let text_end = find_pair(input, pos, limit, BRACKET_CLOSE, PAREN_OPEN);
            if text_end > pos && text_end < limit {
                let mut closing: Vec<u8> = Vec::new();
                closing.push(PAREN_CLOSE);
                assert(closing@ =~= seq![PAREN_CLOSE]);
                let url_end = skip_until(input, text_end + 2, limit, &closing);
                proof {
                    assert(rem.skip(text_end - pos + 2) =~= input@.subrange(
                        text_end + 2,
                        limit as int,
                    ));
                }
                if url_end < limit {
                    return Some(
                        ParseResult {
                            node: TextSegment::Link {
                                text: TextRange { start: pos + 1, end: text_end },
                                url: TextRange { start: text_end + 2, end: url_end },
                            },
                            end: url_end + 1,
                        },
                    );
                }
            }
        }
        if first == BACKTICK {
            match TextSegment::enclosed(input, pos, limit, BACKTICK) {
                Some(close) => {
                    return Some(
                        ParseResult {
                            node: TextSegment::Code(TextRange { start: pos + 1, end: close }),
                            end: close + 1,
                        },
                    );
                },
                None => {},
            }
        }
        if limit - pos >= 2 {
            proof {
                assert(rem[1] == input@[pos + 1]);
            }
            let second = input[pos + 1];
            let marker = if first == STAR && second == STAR {
                Some("**")
            } else if first == UNDERSCORE && second == UNDERSCORE {
                Some("__")
            } else {
                None
            };
            match marker {
                Some(marker) => match TextSegment::closed(input, pos, limit, 2, marker) {
                    Some(end) => {
                        return Some(
                            ParseResult {
                                node: TextSegment::Bold(
                                    TextRange { start: pos + 2, end: pos + end },
                                ),
                                end: pos + 2 + end,
                            },
                        );
                    },
                    None => {},
                },
                None => {},
            }
        }
        let marker = if first == STAR {
            Some("*")
        } else if first == UNDERSCORE {
            Some("_")
        } else {
            None
        };
        match marker {
            Some(marker) => match TextSegment::closed(input, pos, limit, 1, marker) {
                Some(end) => {
                    return Some(
                        ParseResult {
                            node: TextSegment::Bold(TextRange { start: pos + 1, end: pos + end }),
                            end: pos + 1 + end,
                        },
                    );
                },
                None => {},
            },
            None => {},
        }
        if first == TILDE {
            match TextSegment::enclosed(input, pos, limit, TILDE) {
                Some(close) => {
                    return Some(
                        ParseResult {
                            node: TextSegment::Underline(TextRange { start: pos + 1, end: close }),
                            end: close + 1,
                        },
                    );
                },
                None => {},
            }
        }
        let mut stops: Vec<u8> = Vec::new();
        stops.push(BRACKET_OPEN);
        stops.push(BACKTICK);
        stops.push(STAR);
        stops.push(UNDERSCORE);
        stops.push(TILDE);
        assert(stops@ =~= marks());
        let marked = first == BRACKET_OPEN || first == BACKTICK || first == STAR || first
            == UNDERSCORE || first == TILDE;
        proof {
            if marked {
                if first == BRACKET_OPEN {
                    assert(marks()[0] == first);
                } else if first == BACKTICK {
                    assert(marks()[1] == first);
                } else if first == STAR {
                    assert(marks()[2] == first);
                } else if first == UNDERSCORE {
                    assert(marks()[3] == first);
                } else {
                    assert(marks()[4] == first);
                }
            }
        }
        let from = if marked {
            pos + 1
        } else {
            pos
        };
        let end = skip_until(input, from, limit, &stops);
        proof {
            assert(rem.skip(from - pos) =~= input@.subrange(from as int, limit as int));
        }
        Some(ParseResult { node: TextSegment::Plain(TextRange { start: pos, end }), end })
    }

    /// The position of the closing `fence` of text that an opening `fence`
    /// at `pos` begins: see [`enclosed_at`].
    fn enclosed(input: &Vec<u8>, pos: usize, limit: usize, fence: u8) -> (r: Option<usize>)
        requires
            pos < limit <= input@.len(),
            input@[pos as int] == fence,
        ensures
            match r {
                Some(close) => pos + 1 < close < limit && enclosed_at(
                    input@.subrange(pos as int, limit as int),
                    fence,
                ) == Some(close - pos - 1),
                None => enclosed_at(input@.subrange(pos as int, limit as int), fence) is None,
            },
    {
        let ghost rem = input@.subrange(pos as int, limit as int);
        let mut stops: Vec<u8> = Vec::new();
        stops.push(fence);
        assert(stops@ =~= seq![fence]);
        let close = skip_until(input, pos + 1, limit, &stops);
        proof {
            assert(rem[0] == input@[pos as int]);
            assert(rem.skip(1) =~= input@.subrange(pos + 1, limit as int));
        }
        if close > pos + 1 && close < limit {
            Some(close)
        } else {
            None
        }
    }

    /// The end of the match of the closing marker behind an opening marker
    /// of `width` bytes at `pos`: see [`close_behind`].
    fn closed(input: &Vec<u8>, pos: usize, limit: usize, width: usize, marker: &str) -> (r:
        Option<usize>)
        requires
            pos + width <= limit <= input@.len(),
        ensures
            r == (match close_behind(
                input@.subrange(pos as int, limit as int),
                width as int,
                marker@,
            ) {
                Some(end) => Some(end as usize),
                None => None,
            }),
            r matches Some(end) ==> width <= end && pos + width + end <= limit,
    {
        let ghost rem = input@.subrange(pos as int, limit as int);
        proof {
            assert(rem.skip(width as int) =~= input@.subrange(pos + width, limit as int));
        }
        match find_emphasis_close(input, pos + width, limit, marker) {
            Some((_, end)) => {
                if width <= end && end <= limit - pos - width {
                    Some(end)
                } else {
                    None
                }
            },
            None => None,
        }
    }
}

/// The segments of the bytes from `pos` up to `limit`, one behind the
/// other.
pub open spec fn segments_from(input: Seq<u8>, pos: int, limit: int) -> Seq<TextSegment>
    decreases limit - pos,
{
    if 0 <= pos < limit <= input.len() {
        proof {
            lemma_segment_advances(input, pos, limit);
        }
        seq![segment_at(input, pos, limit).0] + segments_from(
            input,
            segment_at(input, pos, limit).1,
            limit,
        )
    } else {
        Seq::empty()
    }
}

/// The position behind the line that holds `pos`: behind its line feed, or
/// the end of the bytes.
pub open spec fn line_end(input: Seq<u8>, pos: int) -> int {
    let len = until(input.skip(pos), seq![NEWLINE]) as int;
    if pos + len < input.len() {
        pos + len + 1
    } else {
        input.len() as int
    }
}

/// A line of text, parted into segments.
#[derive(Debug)]
pub struct TextNode {
    segments: Vec<TextSegment>,
}

impl View for TextNode {
    type V = Seq<TextSegment>;

    closed spec fn view(&self) -> Seq<TextSegment> {
        self.segments@
    }
}

impl TextNode {
    /// A node without segments.
    pub fn empty() -> (r: TextNode)
        ensures
            r@ == Seq::<TextSegment>::empty(),
    {
        TextNode { segments: Vec::new() }
    }

    /// The segments.
    pub fn segments(&self) -> (r: &Vec<TextSegment>)
        ensures
            r@ == self@,
    {
        &self.segments
    }

    /// The position behind the line that holds `pos`: see [`line_end`].
    pub fn end_of_line(input: &Vec<u8>, pos: usize) -> (r: usize)
        requires
            pos <= input@.len(),
        ensures
            r == line_end(input@, pos as int),
            pos <= r <= input@.len(),
            pos < input@.len() ==> pos < r,
    {
        let mut stops: Vec<u8> = Vec::new();
        stops.push(NEWLINE);
        assert(stops@ =~= seq![NEWLINE]);
        let at = skip_until(input, pos, input.len(), &stops);
        proof {
            assert(input@.skip(pos as int) =~= input@.subrange(pos as int, input@.len() as int));
        }
        if at < input.len() {
            at + 1
        } else {
            input.len()
        }
    }

    /// Reads the rest of the line from `pos` on: its segments, and the
    /// position behind the line. There is none at or behind the end of the
    /// bytes.
    pub fn parse(input: &Vec<u8>, pos: usize) -> (r: Option<ParseResult<TextNode>>)
        ensures
            r is None <==> pos >= input@.len(),
            r matches Some(found) ==> {
                &&& found.node@ == segments_from(
                    input@,
                    pos as int,
                    line_end(input@, pos as int),
                )
                &&& found.end == line_end(input@, pos as int)
                &&& pos < found.end <= input@.len()
            },
    {
        if pos >= input.len() {
            return None;
        }
        let limit = TextNode::end_of_line(input, pos);
        let mut segments: Vec<TextSegment> = Vec::new();
        let mut at: usize = pos;
        proof {
            assert(Seq::<TextSegment>::empty() + segments_from(input@, pos as int, limit as int)
                =~= segments_from(input@, pos as int, limit as int));
        }
        while at < limit
            invariant
                pos <= at <= limit <= input@.len(),
                segments_from(input@, pos as int, limit as int) == segments@ + segments_from(
                    input@,
                    at as int,
                    limit as int,
                ),
            decreases limit - at,
        {
            let ghost before = segments@;
            match TextSegment::parse(input, at, limit) {
                Some(found) => {
                    segments.push(found.node);
                    proof {
                        assert(before + (seq![found.node] + segments_from(
                            input@,
                            found.end as int,
                            limit as int,
                        )) =~= before.push(found.node) + segments_from(
                            input@,
                            found.end as int,
                            limit as int,
                        ));
                    }
                    at = found.end;
                },
                None => {
                    proof {
                        assert(false);
                    }
                    at = limit;
                },
            }
        }
        proof {
            assert(segments@ + Seq::<TextSegment>::empty() =~= segments@);
        }
        Some(ParseResult { node: TextNode { segments }, end: limit })
    }
}

} // verus!
