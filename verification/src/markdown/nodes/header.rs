//! Headers: lines that begin with number signs.

use vstd::prelude::*;
use crate::markdown::nodes::text::line_end;
use crate::markdown::nodes::text::segments_from;
use crate::markdown::nodes::text::TextNode;
use crate::markdown::nodes::text::TextSegment;
use crate::markdown::nodes::ParseResult;
use crate::markdown::scan::lemma_run_of_bound;
use crate::markdown::scan::run_of;
use crate::markdown::scan::skip_run;
use crate::markdown::scan::HASH;

verus! {

/// What a header holds, as mathematical values.
pub struct HeaderView {
    pub level: u8,
    pub content: Seq<TextSegment>,
}

/// The level of the header whose line runs from `pos` up to `end`: the
/// number of its number signs, six at most.
pub open spec fn level_at(input: Seq<u8>, pos: int, end: int) -> int {
    let signs = run_of(input.subrange(pos, end), HASH) as int;
    if signs < 6 {
        signs
    } else {
        6
    }
}

/// The header that begins at `pos`, with the position behind its line: the
/// level, and the rest of the line as text. There is none where no number
/// sign stands.
pub open spec fn header_at(input: Seq<u8>, pos: int) -> Option<(HeaderView, int)> {
    if 0 <= pos < input.len() && input[pos] == HASH {
        let end = line_end(input, pos);
        let level = level_at(input, pos, end);
        let text_pos = pos + level;
        Some(
            (
                HeaderView {
                    level: level as u8,
                    content: segments_from(input, text_pos, line_end(input, text_pos)),
                },
                end,
            ),
        )
    } else {
        None
    }
}

/// A header: its level from 1 to 6 and its text.
#[derive(Debug)]
pub struct Header {
    level: u8,
    content: TextNode,
}

impl View for Header {
    type V = HeaderView;

    closed spec fn view(&self) -> HeaderView {
        HeaderView { level: self.level, content: self.content@ }
    }
}

impl Header {
    /// The level, from 1 to 6.
    pub fn level(&self) -> (r: u8)
        ensures
            r == self@.level,
    {
        self.level
    }

    /// The text of the header.
    pub fn content(&self) -> (r: &TextNode)
        ensures
            r@ == self@.content,
    {
        &self.content
    }

    /// Reads the header that begins at `pos`: see [`header_at`].
    pub fn parse(input: &Vec<u8>, pos: usize) -> (r: Option<ParseResult<Header>>)
        ensures
            match r {
                Some(found) => {
                    &&& header_at(input@, pos as int) == Some((found.node@, found.end as int))
                    &&& pos < found.end <= input@.len()
                    &&& 1 <= found.node@.level <= 6
                },
                None => header_at(input@, pos as int) is None,
            },
    {
        if pos >= input.len() || input[pos] != HASH {
            return None;
        }
        let end = TextNode::end_of_line(input, pos);
        let signs_end = skip_run(input, pos, end, HASH);
        let signs = signs_end - pos;
        let level: u8 = if signs < 6 {
            signs as u8
        } else {
            6
        };
        proof {
            let line = input@.subrange(pos as int, end as int);
            assert(line[0] == input@[pos as int]);
            assert(run_of(line, HASH) >= 1);
            lemma_run_of_bound(line, HASH);
        }
        let text_pos = pos + level as usize;
        let content = match TextNode::parse(input, text_pos) {
            Some(found) => found.node,
            None => TextNode::empty(),
        };
        Some(ParseResult { node: Header { level, content }, end })
    }
}

} // verus!
