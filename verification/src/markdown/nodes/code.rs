//! Blocks of code between fences of three backticks.

use vstd::prelude::*;
use crate::markdown::nodes::text::range;
use crate::markdown::nodes::ParseResult;
use crate::markdown::nodes::TextRange;
use crate::markdown::scan::has_prefix;
use crate::markdown::scan::skip_until;
use crate::markdown::scan::until;
use crate::markdown::scan::BACKTICK;
use crate::markdown::scan::NEWLINE;

verus! {

/// Where the closing fence of a block of code stands in `text`: the offsets
/// of the line feed in front of the fence and of the position behind the
/// line of the fence, as the regular expression of a line feed, three
/// backticks, white space and a line feed matches; `None` if there is no
/// such fence.
pub uninterp spec fn fence_close_of(text: Seq<u8>) -> Option<(usize, usize)>;

/// Finds the closing fence of a block of code behind `from`, through
/// `regex::bytes::Regex::new` and `Regex::find`.
///
/// The contract names the match and says no more about it.
#[verifier::external_body]
fn find_fence_close(input: &Vec<u8>, from: usize) -> (r: Option<(usize, usize)>)
    requires
        from <= input@.len(),
    ensures
        r == fence_close_of(input@.skip(from as int)),
{
    match regex::bytes::Regex::new(r"\n```\s*\n") {
        Ok(re) => match re.find(&input[from..]) {
            Some(found) => Some((found.start(), found.end())),
            None => None,
        },
        Err(_) => None,
    }
}

/// The three backticks of a fence.
pub open spec fn fence() -> Seq<u8> {
    seq![BACKTICK, BACKTICK, BACKTICK]
}

/// The lines of the bytes from `from` up to `to`, each with its line feed.
pub open spec fn line_ranges(input: Seq<u8>, from: int, to: int) -> Seq<TextRange>
    decreases to - from,
{
    if 0 <= from < to <= input.len() {
        let len = until(input.subrange(from, to), seq![NEWLINE]) as int;
        let end = if from + len < to {
            from + len + 1
        } else {
            to
        };
        seq![range(from, end)] + line_ranges(input, end, to)
    } else {
        Seq::empty()
    }
}

/// What a block of code holds, as mathematical values.
pub struct CodeBlockView {
    pub language: Option<TextRange>,
    pub content: Seq<TextRange>,
}

/// Where the code of a block ends and where the block ends, for a block
/// whose code begins at `code_start`: in front of and behind the closing
/// fence, or both at the end of the bytes where no fence closes the block.
pub open spec fn block_ends(input: Seq<u8>, pos: int, code_start: int) -> (int, int) {
    match fence_close_of(input.skip(pos)) {
        Some((start, end)) => if code_start <= pos + start + 1 && start < end && pos + end
            <= input.len() {
            (pos + start + 1, pos + end)
        } else {
            (input.len() as int, input.len() as int)
        },
        None => (input.len() as int, input.len() as int),
    }
}

/// The block of code that begins at `pos`, with the position behind it:
/// three backticks, the name of the language up to the end of the line,
/// and the lines of code up to the closing fence. There is none where no
/// fence stands or the line of the fence does not end.
pub open spec fn block_at(input: Seq<u8>, pos: int) -> Option<(CodeBlockView, int)> {
    if 0 <= pos <= input.len() && has_prefix(input.skip(pos), fence()) {
        let rest = input.skip(pos + 3);
        let name_len = until(rest, seq![NEWLINE]) as int;
        if name_len < rest.len() {
            let name_end = pos + 3 + name_len;
            let (code_end, block_end) = block_ends(input, pos, name_end + 1);
            Some(
                (
                    CodeBlockView {
                        language: Some(range(pos + 3, name_end)),
                        content: line_ranges(input, name_end + 1, code_end),
                    },
                    block_end,
                ),
            )
        } else {
            None
        }
    } else {
        None
    }
}

/// A block of code: the stretch that names its language, and its lines.
#[derive(Debug)]
pub struct CodeBlock {
    language: Option<TextRange>,
    content: Vec<TextRange>,
}

impl View for CodeBlock {
    type V = CodeBlockView;

    closed spec fn view(&self) -> CodeBlockView {
        CodeBlockView { language: self.language, content: self.content@ }
    }
}

impl CodeBlock {
    /// The stretch behind the opening fence that names the language, as
    /// written.
    pub fn language(&self) -> (r: Option<TextRange>)
        ensures
            r == self@.language,
    {
        self.language
    }

    /// The lines of code, each with its line feed.
    pub fn content(&self) -> (r: &Vec<TextRange>)
        ensures
            r@ == self@.content,
    {
        &self.content
    }

    /// The lines of the bytes from `from` up to `to`: see [`line_ranges`].
    fn lines(input: &Vec<u8>, from: usize, to: usize) -> (r: Vec<TextRange>)
        requires
            from <= to <= input@.len(),
        ensures
            r@ == line_ranges(input@, from as int, to as int),
    {
        let mut stops: Vec<u8> = Vec::new();
        stops.push(NEWLINE);
        assert(stops@ =~= seq![NEWLINE]);
        let mut lines: Vec<TextRange> = Vec::new();
        let mut at: usize = from;
        proof {
            assert(Seq::<TextRange>::empty() + line_ranges(input@, from as int, to as int)
                =~= line_ranges(input@, from as int, to as int));
        }
        while at < to
            invariant
                from <= at <= to <= input@.len(),
                stops@ == seq![NEWLINE],
                line_ranges(input@, from as int, to as int) == lines@ + line_ranges(
                    input@,
                    at as int,
                    to as int,
                ),
            decreases to - at,
        {
            let ghost before = lines@;
            let stop = skip_until(input, at, to, &stops);
            let end = if stop < to {
                stop + 1
            } else {
                to
            };
            let line = TextRange { start: at, end };
            lines.push(line);
            proof {
                assert(before + (seq![line] + line_ranges(input@, end as int, to as int))
                    =~= before.push(line) + line_ranges(input@, end as int, to as int));
            }
            at = end;
        }
        proof {
            assert(lines@ + Seq::<TextRange>::empty() =~= lines@);
        }
        lines
    }

    /// Reads the block of code that begins at `pos`: see [`block_at`].
    pub fn parse(input: &Vec<u8>, pos: usize) -> (r: Option<ParseResult<CodeBlock>>)
        ensures
            match r {
                Some(found) => {
                    &&& pos <= input@.len()
                    &&& block_at(input@, pos as int) == Some((found.node@, found.end as int))
                    &&& pos < found.end <= input@.len()
                },
                None => pos > input@.len() || block_at(input@, pos as int) is None,
            },
    {
        let len = input.len();
        if pos > len || len - pos < 3 {
            return None;
        }
        let ghost rem = input@.skip(pos as int);
        proof {
            assert(rem[0] == input@[pos as int]);
            assert(rem[1] == input@[pos + 1]);
            assert(rem[2] == input@[pos + 2]);
        }
        if !(input[pos] == BACKTICK && input[pos + 1] == BACKTICK && input[pos + 2] == BACKTICK) {
            proof {
                if has_prefix(rem, fence()) {
                    assert(rem.take(3)[0] == fence()[0]);
                    assert(rem.take(3)[1] == fence()[1]);
                    assert(rem.take(3)[2] == fence()[2]);
                }
            }
            return None;
        }
        proof {
            assert(rem.take(3) =~= fence());
        }
        let mut stops: Vec<u8> = Vec::new();
        stops.push(NEWLINE);
        assert(stops@ =~= seq![NEWLINE]);
        let name_end = skip_until(input, pos + 3, len, &stops);
        proof {
            assert(input@.skip(pos + 3) =~= input@.subrange(pos + 3, len as int));
        }
        if name_end >= len {
            return None;
        }
        let code_start = name_end + 1;
        let (code_end, block_end) = match find_fence_close(input, pos) {
            Some((start, end)) => {
                if start < end && end <= len - pos && code_start <= pos + start + 1 {
                    (pos + start + 1, pos + end)
                } else {
                    (len, len)
                }
            },
            None => (len, len),
        };
        let content = CodeBlock::lines(input, code_start, code_end);
        Some(
            ParseResult {
                node: CodeBlock {
                    language: Some(TextRange { start: pos + 3, end: name_end }),
                    content,
                },
                end: block_end,
            },
        )
    }
}

} // verus!
